use vstd::prelude::*;
use crate::bytes::{split_on, split_spec, views};

verus! {

pub const TAB: u8 = 9;
pub const HASH: u8 = 35;

/// A calendar day, the key that records are grouped under.
#[derive(Clone, Copy, Debug, PartialEq, Eq, Structural)]
pub struct Date {
    pub year: i32,
    pub month: u32,
    pub day: u32,
}

/// A time of day to the second; `second` is 60 during a leap second.
#[derive(Clone, Copy, Debug, PartialEq, Eq, Structural)]
pub struct Time {
    pub hour: u32,
    pub minute: u32,
    pub second: u32,
}

impl Date {
    /// The ranges that every date read from a record lies in.
    pub open spec fn wf(self) -> bool {
        -262143 <= self.year <= 262142 && 1 <= self.month <= 12 && 1 <= self.day <= 31
    }
}

impl Time {
    /// The ranges of a clock reading, a leap second included.
    pub open spec fn wf(self) -> bool {
        self.hour < 24 && self.minute < 60 && self.second <= 60
    }
}

/// One accepted access-log record: when it happened, and the host and path
/// of the URL it names. Only `parse` makes one.
#[derive(Debug)]
pub struct LogLine {
    date: Date,
    time: Time,
    host: Vec<u8>,
    path: Vec<u8>,
}

/// What a record holds, as plain values.
pub struct LogLineView {
    pub date: Date,
    pub time: Time,
    pub host: Seq<u8>,
    pub path: Seq<u8>,
}

impl View for LogLine {
    type V = LogLineView;

    closed spec fn view(&self) -> LogLineView {
        LogLineView { date: self.date, time: self.time, host: self.host@, path: self.path@ }
    }
}

/// What chrono reads as a `%Y-%m-%d` date from these bytes, as
/// (year, month, day); `None` where it reads none.
pub uninterp spec fn date_of(b: Seq<u8>) -> Option<(i32, u32, u32)>;

/// What chrono reads as a `%H:%M:%S` time from these bytes, as
/// (hour, minute, second, nanosecond); `None` where it reads none.
pub uninterp spec fn time_of(b: Seq<u8>) -> Option<(u32, u32, u32, u32)>;

/// What the url crate parses from these bytes, as (host, path); `None`
/// where they are not an absolute URL.
pub uninterp spec fn url_of(b: Seq<u8>) -> Option<(Option<Seq<u8>>, Seq<u8>)>;

/// Relies on `chrono::NaiveDate::parse_from_str` with `%Y-%m-%d`: it builds
/// only valid days between chrono's `MIN_YEAR` and `MAX_YEAR`, and an empty
/// input is too short to hold one.
#[verifier::external_body]
fn read_date(b: &[u8]) -> (r: Option<(i32, u32, u32)>)
    ensures
        r == date_of(b@),
        b@.len() == 0 ==> r is None,
        r matches Some((y, m, d)) ==> -262143 <= y <= 262142 && 1 <= m <= 12 && 1 <= d <= 31,
{
    let s = std::str::from_utf8(b).ok()?;
    let d = chrono::NaiveDate::parse_from_str(s, "%Y-%m-%d").ok()?;
    Some((chrono::Datelike::year(&d), chrono::Datelike::month(&d), chrono::Datelike::day(&d)))
}

/// Relies on `chrono::NaiveTime::parse_from_str` with `%H:%M:%S`: hour,
/// minute and second lie in their clock ranges, and a leap second shows as
/// second 59 with a nanosecond count of one second or more.
#[verifier::external_body]
fn read_time(b: &[u8]) -> (r: Option<(u32, u32, u32, u32)>)
    ensures
        r == time_of(b@),
        r matches Some((h, m, s, n)) ==> h < 24 && m < 60 && s < 60 && n < 2_000_000_000,
{
    let s = std::str::from_utf8(b).ok()?;
    let t = chrono::NaiveTime::parse_from_str(s, "%H:%M:%S").ok()?;
    Some((
        chrono::Timelike::hour(&t),
        chrono::Timelike::minute(&t),
        chrono::Timelike::second(&t),
        chrono::Timelike::nanosecond(&t),
    ))
}

pub open spec fn url_view(r: Option<(Option<Vec<u8>>, Vec<u8>)>) -> Option<(Option<Seq<u8>>, Seq<u8>)> {
    match r {
        None => None,
        Some((None, p)) => Some((None, p@)),
        Some((Some(h), p)) => Some((Some(h@), p@)),
    }
}

/// Relies on `url::Url::parse`, `Url::host_str` and `Url::path`: the host
/// and path of the parsed URL.
#[verifier::external_body]
fn read_url(b: &[u8]) -> (r: Option<(Option<Vec<u8>>, Vec<u8>)>)
    ensures
        url_view(r) == url_of(b@),
{
    let s = std::str::from_utf8(b).ok()?;
    let u = url::Url::parse(s).ok()?;
    let host = match u.host_str() {
        Some(h) => Some(h.as_bytes().to_vec()),
        None => None,
    };
    Some((host, u.path().as_bytes().to_vec()))
}

/// The method a usable record was made with.
pub open spec fn method_get() -> Seq<u8> {
    seq![71u8, 69u8, 84u8]
}

/// The path that a usable record asked for: `/pixel.gif`.
pub open spec fn pixel_path() -> Seq<u8> {
    seq![47u8, 112u8, 105u8, 120u8, 101u8, 108u8, 46u8, 103u8, 105u8, 102u8]
}

/// Field positions in a record: date, time, method, path and URL; a record
/// needs at least `MIN_FIELDS` fields.
pub const DATE_FIELD: usize = 0;
pub const TIME_FIELD: usize = 1;
pub const METHOD_FIELD: usize = 5;
pub const PATH_FIELD: usize = 7;
pub const URL_FIELD: usize = 9;
pub const MIN_FIELDS: usize = 10;

/// The record that `raw` holds, if it is a usable one.
pub open spec fn parse_spec(raw: Seq<u8>) -> Option<LogLineView> {
    if raw.len() > 0 && raw[0] == HASH {
        None
    } else {
        let f = split_spec(raw, TAB);
        if f.len() < MIN_FIELDS || f[METHOD_FIELD as int] != method_get()
            || f[PATH_FIELD as int] != pixel_path() {
            None
        } else {
            match (date_of(f[DATE_FIELD as int]), time_of(f[TIME_FIELD as int]), url_of(f[URL_FIELD as int])) {
                (Some((y, mo, d)), Some((h, mi, s, n)), Some((Some(host), path))) => Some(LogLineView {
                    date: Date { year: y, month: mo, day: d },
                    time: Time { hour: h, minute: mi, second: (s + n / 1_000_000_000) as u32 },
                    host,
                    path,
                }),
                _ => None,
            }
        }
    }
}

/// A comment line, and a line with fewer fields than a record needs, are
/// both rejected: reading them gives `None`, never an error.
pub proof fn lemma_comment_and_short_rejected(raw: Seq<u8>)
    requires
        (raw.len() > 0 && raw[0] == HASH) || split_spec(raw, TAB).len() < MIN_FIELDS,
    ensures
        parse_spec(raw) is None,
{
}

fn bytes_eq(a: &[u8], b: &[u8]) -> (r: bool)
    ensures
        r == (a@ == b@),
{
    if a.len() != b.len() {
        return false;
    }
    let mut i: usize = 0;
    while i < a.len()
        invariant
            a@.len() == b@.len(),
            0 <= i <= a@.len(),
            a@.subrange(0, i as int) == b@.subrange(0, i as int),
        decreases a@.len() - i,
    {
        if a[i] != b[i] {
            return false;
        }
        assert(a@.subrange(0, i + 1) =~= a@.subrange(0, i as int).push(a@[i as int]));
        assert(b@.subrange(0, i + 1) =~= b@.subrange(0, i as int).push(b@[i as int]));
        i = i + 1;
    }
    assert(a@ =~= a@.subrange(0, i as int));
    assert(b@ =~= b@.subrange(0, i as int));
    true
}

impl LogLine {
    /// Reads one raw record. Comment lines, short records, records of another
    /// method or path, and unreadable dates, times or URLs (including URLs
    /// without a host) give `None`.
    pub fn parse(raw: &[u8]) -> (r: Option<LogLine>)
        ensures
            r matches Some(l) ==> parse_spec(raw@) == Some(l@),
            r is None <==> parse_spec(raw@) is None,
            r matches Some(l) ==> l@.date.wf() && l@.time.wf(),
    {
        if raw.len() > 0 && raw[0] == HASH {
            return None;
        }
        let f = split_on(raw, TAB);
        proof {
            assert(views(f@).len() == f@.len());
        }
        if f.len() < MIN_FIELDS {
            return None;
        }
        let get: Vec<u8> = vec![71u8, 69u8, 84u8];
        let pixel: Vec<u8> = vec![47u8, 112u8, 105u8, 120u8, 101u8, 108u8, 46u8, 103u8, 105u8, 102u8];
        proof {
            assert(get@ =~= method_get());
            assert(pixel@ =~= pixel_path());
            assert(views(f@)[METHOD_FIELD as int] == f@[METHOD_FIELD as int]@);
            assert(views(f@)[PATH_FIELD as int] == f@[PATH_FIELD as int]@);
            assert(views(f@)[DATE_FIELD as int] == f@[DATE_FIELD as int]@);
            assert(views(f@)[TIME_FIELD as int] == f@[TIME_FIELD as int]@);
            assert(views(f@)[URL_FIELD as int] == f@[URL_FIELD as int]@);
        }
        if !bytes_eq(f[METHOD_FIELD].as_slice(), get.as_slice()) {
            return None;
        }
        if !bytes_eq(f[PATH_FIELD].as_slice(), pixel.as_slice()) {
            return None;
        }
        let date = match read_date(f[DATE_FIELD].as_slice()) {
            Some((year, month, day)) => Date { year, month, day },
            None => return None,
        };
        let time = match read_time(f[TIME_FIELD].as_slice()) {
            Some((hour, minute, second, nano)) => Time { hour, minute, second: second + nano / 1_000_000_000 },
            None => return None,
        };
        match read_url(f[URL_FIELD].as_slice()) {
            Some((Some(host), path)) => Some(LogLine { date, time, host, path }),
            _ => None,
        }
    }

    /// The partition key: the calendar day of the record.
    pub fn key(&self) -> (d: Date)
        ensures
            d == self@.date,
    {
        self.date
    }

    pub fn time(&self) -> (t: Time)
        ensures
            t == self@.time,
    {
        self.time
    }

    pub fn host(&self) -> (h: &[u8])
        ensures
            h@ == self@.host,
    {
        self.host.as_slice()
    }

    pub fn path(&self) -> (p: &[u8])
        ensures
            p@ == self@.path,
    {
        self.path.as_slice()
    }
}

} // verus!
