use lambda_partition_log::group::{add_line, Partition};
use lambda_partition_log::line::{Date, LogLine, Time};
use lambda_partition_log::pipeline::{plan_shards, RunError, Shard};
use lambda_partition_log::run::{batch_outcome, step, Action, Event, Stage};
use lambda_partition_log::shard::{encode_shard, render, shard_key, write_date};
use std::io::{Read, Write};

const SAMPLE: &str = "2024-01-05\t10:15:30\tx\tx\tx\tGET\tx\t/pixel.gif\tx\thttps://example.com/a?b=1";

fn record(date: &str, time: &str, method: &str, path: &str, url: &str) -> String {
    format!("{}\t{}\tx\tx\tx\t{}\tx\t{}\tx\t{}", date, time, method, path, url)
}

fn gz(text: &str) -> Vec<u8> {
    let mut enc = flate2::write::GzEncoder::new(Vec::new(), flate2::Compression::default());
    enc.write_all(text.as_bytes()).unwrap();
    enc.finish().unwrap()
}

fn gunzip(b: &[u8]) -> String {
    let mut out = String::new();
    flate2::read::GzDecoder::new(b).read_to_string(&mut out).unwrap();
    out
}

fn rendered(l: &LogLine) -> String {
    let mut out = Vec::new();
    l.write_to(&mut out);
    String::from_utf8(out).unwrap()
}

fn keys(shards: &[Shard]) -> Vec<String> {
    shards.iter().map(|s| String::from_utf8(s.key.clone()).unwrap()).collect()
}

#[test]
fn sample_line_is_accepted_grouped_and_rendered() {
    let l = LogLine::parse(SAMPLE.as_bytes()).expect("accepted");
    assert_eq!(l.key(), Date { year: 2024, month: 1, day: 5 });
    assert_eq!(l.time(), Time { hour: 10, minute: 15, second: 30 });
    assert_eq!(l.host(), b"example.com");
    assert_eq!(l.path(), b"/a");
    assert_eq!(rendered(&l), "10:15:30\texample.com\t/a\n");
}

#[test]
fn post_method_is_rejected() {
    let raw = record("2024-01-05", "10:15:30", "POST", "/pixel.gif", "https://example.com/a");
    assert!(LogLine::parse(raw.as_bytes()).is_none());
    let shards = plan_shards(b"logs/x.log.gz", &gz(&raw)).unwrap();
    assert!(shards.is_empty());
}

#[test]
fn comment_and_short_lines_are_rejected() {
    assert!(LogLine::parse(b"#Version: 1.0").is_none());
    assert!(LogLine::parse(b"#").is_none());
    assert!(LogLine::parse(b"2024-01-05\t10:15:30\tx\tx\tx\tGET\tx\t/pixel.gif\tx").is_none());
    assert!(LogLine::parse(b"").is_none());
    assert!(LogLine::parse(b"   ").is_none());
}

#[test]
fn other_rejections() {
    let bad = [
        record("2024-13-05", "10:15:30", "GET", "/pixel.gif", "https://example.com/a"),
        record("2024-01-05", "25:15:30", "GET", "/pixel.gif", "https://example.com/a"),
        record("2024-01-05", "10:15:30", "GET", "/other.gif", "https://example.com/a"),
        record("2024-01-05", "10:15:30", "GET", "/pixel.gif", "not a url"),
        record("2024-01-05", "10:15:30", "GET", "/pixel.gif", "mailto:someone@example.com"),
    ];
    for raw in bad.iter() {
        assert!(LogLine::parse(raw.as_bytes()).is_none(), "{}", raw);
    }
}

#[test]
fn extra_fields_are_ignored_and_leap_second_kept() {
    let raw = record("2016-12-31", "23:59:60", "GET", "/pixel.gif", "http://h.example/p/q") + "\tmore\tfields";
    let l = LogLine::parse(raw.as_bytes()).expect("accepted");
    assert_eq!(l.time(), Time { hour: 23, minute: 59, second: 60 });
    assert_eq!(rendered(&l), "23:59:60\th.example\t/p/q\n");
}

#[test]
fn grouping_keeps_order_within_a_day() {
    let mut groups: Vec<Partition> = Vec::new();
    for (d, t) in [("2024-01-05", "01:00:00"), ("2024-01-06", "02:00:00"), ("2024-01-05", "03:00:00")] {
        let raw = record(d, t, "GET", "/pixel.gif", "https://example.com/a");
        add_line(&mut groups, LogLine::parse(raw.as_bytes()).unwrap());
    }
    assert_eq!(groups.len(), 2);
    assert_eq!(groups[0].date, Date { year: 2024, month: 1, day: 5 });
    assert_eq!(groups[1].date, Date { year: 2024, month: 1, day: 6 });
    for g in groups.iter() {
        for l in g.lines.iter() {
            assert_eq!(l.key(), g.date);
        }
    }
    assert_eq!(String::from_utf8(render(&groups[0].lines)).unwrap(), "01:00:00\texample.com\t/a\n03:00:00\texample.com\t/a\n");
    let body = encode_shard(&groups[1].lines).unwrap();
    assert_eq!(gunzip(&body), "02:00:00\texample.com\t/a\n");
}

#[test]
fn shard_keys_and_dates() {
    let d = Date { year: 2024, month: 1, day: 5 };
    assert_eq!(shard_key(b"logs/2024/access123.log.gz", d), b"partitioned/date=2024-01-05/access123.log.gz".to_vec());
    assert_eq!(shard_key(b"plain.gz", d), b"partitioned/date=2024-01-05/plain.gz".to_vec());
    let mut out = Vec::new();
    write_date(&mut out, Date { year: 5, month: 3, day: 9 });
    out.push(b' ');
    write_date(&mut out, Date { year: 12345, month: 12, day: 31 });
    out.push(b' ');
    write_date(&mut out, Date { year: -1, month: 1, day: 1 });
    assert_eq!(String::from_utf8(out).unwrap(), "0005-03-09 +12345-12-31 -0001-01-01");
}

#[test]
fn two_days_make_two_shards_then_delete() {
    let key = b"logs/2024/access123.log.gz";
    let a = record("2024-01-05", "10:15:30", "GET", "/pixel.gif", "https://example.com/a?b=1");
    let b = record("2024-01-06", "11:00:00", "GET", "/pixel.gif", "https://other.example/b");
    let content = gz(&format!("{}\r\n{}\n", a, b));
    let (stage, action) = step(key, Stage::Fetching, Event::Fetched(content));
    assert_eq!(stage, Stage::Writing(2));
    let shards = match action {
        Action::Store(s) => s,
        _ => panic!("expected shards to store"),
    };
    assert_eq!(keys(&shards), vec![
        "partitioned/date=2024-01-05/access123.log.gz".to_string(),
        "partitioned/date=2024-01-06/access123.log.gz".to_string(),
    ]);
    assert_eq!(gunzip(&shards[0].body), "10:15:30\texample.com\t/a\n");
    assert_eq!(gunzip(&shards[1].body), "11:00:00\tother.example\t/b\n");
    let (stage, action) = step(key, stage, Event::ShardsStored(vec![true, true]));
    assert_eq!(stage, Stage::Deleting);
    assert!(matches!(action, Action::DeleteSource));
    let (stage, action) = step(key, stage, Event::Deleted);
    assert_eq!(stage, Stage::Finished);
    assert!(matches!(action, Action::Report(Ok(()))));
}

#[test]
fn failed_shard_write_keeps_source() {
    let (stage, action) = step(b"logs/2024/access123.log.gz", Stage::Writing(2), Event::ShardsStored(vec![true, false]));
    assert_eq!(stage, Stage::Finished);
    assert!(matches!(action, Action::Report(Err(RunError::Write))));
    let (_, action) = step(b"k", Stage::Writing(2), Event::ShardsStored(vec![true]));
    assert!(matches!(action, Action::Report(Err(RunError::Write))));
}

#[test]
fn comments_only_deletes_source() {
    let content = gz("#Version: 1.0\n#Fields: date time\n");
    let (stage, action) = step(b"logs/a.gz", Stage::Fetching, Event::Fetched(content));
    assert_eq!(stage, Stage::Deleting);
    assert!(matches!(action, Action::DeleteSource));
    let (stage, action) = step(b"logs/a.gz", stage, Event::Deleted);
    assert_eq!(stage, Stage::Finished);
    assert!(matches!(action, Action::Report(Ok(()))));
}

#[test]
fn rerun_gives_identical_shards() {
    let content = gz(&format!("{}\n{}\n", SAMPLE, record("2024-02-01", "00:00:01", "GET", "/pixel.gif", "https://x.example/")));
    let first = plan_shards(b"logs/k.gz", &content).unwrap();
    let second = plan_shards(b"logs/k.gz", &content).unwrap();
    assert_eq!(first.len(), 2);
    for (x, y) in first.iter().zip(second.iter()) {
        assert_eq!(x.key, y.key);
        assert_eq!(x.body, y.body);
    }
}

#[test]
fn errors_of_a_run() {
    assert!(matches!(plan_shards(b"k", b"not gzip at all"), Err(RunError::Decode)));
    let mut enc = flate2::write::GzEncoder::new(Vec::new(), flate2::Compression::default());
    enc.write_all(&[0xff, 0xfe, b'\n']).unwrap();
    assert!(matches!(plan_shards(b"k", &enc.finish().unwrap()), Err(RunError::Decode)));
    let (stage, action) = step(b"k", Stage::Fetching, Event::FetchFailed);
    assert_eq!(stage, Stage::Finished);
    assert!(matches!(action, Action::Report(Err(RunError::Fetch))));
    let (_, action) = step(b"k", Stage::Fetching, Event::Fetched(b"junk".to_vec()));
    assert!(matches!(action, Action::Report(Err(RunError::Decode))));
    let (stage, action) = step(b"k", Stage::Deleting, Event::DeleteFailed);
    assert_eq!(stage, Stage::Finished);
    assert!(matches!(action, Action::Report(Err(RunError::Delete))));
    let (stage, action) = step(b"k", Stage::Finished, Event::Deleted);
    assert_eq!(stage, Stage::Finished);
    assert!(matches!(action, Action::Ignore));
}

#[test]
fn batch_counts_failures() {
    assert_eq!(batch_outcome(&vec![]), Ok(()));
    assert_eq!(batch_outcome(&vec![Ok(()), Ok(())]), Ok(()));
    assert_eq!(batch_outcome(&vec![Ok(()), Err(RunError::Write), Err(RunError::Fetch)]), Err(2));
}
