use vstd::prelude::*;
use vstd::utf8::valid_utf8;
use crate::bytes::{split_on, split_spec, views};
use crate::group::{add_line, add_spec, find_spec, group_spec, lemma_find, line_views, partition_views, Partition};
use crate::line::{parse_spec, Date, LogLine, LogLineView};
use crate::shard::{encode_shard, gzip_of, opt_view, render_all, shard_key, shard_key_spec, NEWLINE};

verus! {

pub const CR: u8 = 13;

/// Why a run over one source object failed.
#[derive(Clone, Copy, Debug, PartialEq, Eq, Structural)]
pub enum RunError {
    /// The object could not be fetched.
    Fetch,
    /// The object is not one gzip stream of UTF-8 text.
    Decode,
    /// A shard could not be compressed.
    Encode,
    /// At least one shard could not be stored.
    Write,
    /// Every shard was stored, but the object could not be deleted.
    Delete,
}

/// One output object: where it goes, and its compressed body.
pub struct Shard {
    pub key: Vec<u8>,
    pub body: Vec<u8>,
}

pub open spec fn shard_views(s: Seq<Shard>) -> Seq<(Seq<u8>, Seq<u8>)> {
    s.map_values(|x: Shard| (x.key@, x.body@))
}

/// What flate2's gzip decoder reads from these bytes to the end of the
/// stream; `None` where it reports an error.
pub uninterp spec fn gunzip_of(b: Seq<u8>) -> Option<Seq<u8>>;

/// Relies on `flate2::read::GzDecoder`, read to the end: the decompressed
/// contents of one gzip stream, or an error.
#[verifier::external_body]
fn gunzip(b: &[u8]) -> (r: Option<Vec<u8>>)
    ensures
        opt_view(r) == gunzip_of(b@),
{
    let mut out = Vec::new();
    std::io::Read::read_to_end(&mut flate2::read::GzDecoder::new(b), &mut out).ok()?;
    Some(out)
}

/// Relies on `std::str::from_utf8`: it accepts exactly well-formed UTF-8.
#[verifier::external_body]
fn is_utf8(b: &[u8]) -> (r: bool)
    ensures
        r == valid_utf8(b@),
{
    std::str::from_utf8(b).is_ok()
}

/// A line without the `\r` that ends it, if any.
pub open spec fn strip_cr(p: Seq<u8>) -> Seq<u8> {
    if p.len() > 0 && p.last() == CR {
        p.drop_last()
    } else {
        p
    }
}

/// The lines of a text as a line reader yields them: split on `\n`, with
/// the `\r` of a `\r\n` ending removed.
pub open spec fn text_lines(text: Seq<u8>) -> Seq<Seq<u8>> {
    let f = split_spec(text, NEWLINE);
    Seq::new(f.len(), |i: int| if i + 1 < f.len() { strip_cr(f[i]) } else { f[i] })
}

/// The records that the lines hold, in order; other lines are skipped.
pub open spec fn accepted(ls: Seq<Seq<u8>>) -> Seq<LogLineView>
    decreases ls.len(),
{
    if ls.len() == 0 {
        Seq::empty()
    } else {
        match parse_spec(ls.last()) {
            Some(l) => accepted(ls.drop_last()).push(l),
            None => accepted(ls.drop_last()),
        }
    }
}

/// The shards cut from object `source_key` for groups `g`, or `Encode` when
/// one of them cannot be compressed.
pub open spec fn shards_spec(source_key: Seq<u8>, g: Seq<(Date, Seq<LogLineView>)>) -> Result<Seq<(Seq<u8>, Seq<u8>)>, RunError> {
    if exists|i: int| 0 <= i < g.len() && (#[trigger] gzip_of(render_all(g[i].1))) is None {
        Err(RunError::Encode)
    } else {
        Ok(Seq::new(g.len(), |i: int| (shard_key_spec(source_key, g[i].0), gzip_of(render_all(g[i].1))->Some_0)))
    }
}

/// The shards that object `source_key` with contents `content` is cut into.
pub open spec fn plan_spec(source_key: Seq<u8>, content: Seq<u8>) -> Result<Seq<(Seq<u8>, Seq<u8>)>, RunError> {
    match gunzip_of(content) {
        None => Err(RunError::Decode),
        Some(text) => if !valid_utf8(text) {
            Err(RunError::Decode)
        } else {
            shards_spec(source_key, group_spec(accepted(text_lines(text))))
        },
    }
}

pub open spec fn plan_view(r: Result<Vec<Shard>, RunError>) -> Result<Seq<(Seq<u8>, Seq<u8>)>, RunError> {
    match r {
        Ok(s) => Ok(shard_views(s@)),
        Err(e) => Err(e),
    }
}

/// Every day and every time in the groups lies in its range.
pub open spec fn all_wf(g: Seq<(Date, Seq<LogLineView>)>) -> bool {
    forall|i: int| 0 <= i < g.len() ==> (#[trigger] g[i]).0.wf()
        && forall|k: int| 0 <= k < g[i].1.len() ==> (#[trigger] g[i].1[k]).time.wf()
}

proof fn lemma_add_all_wf(g: Seq<(Date, Seq<LogLineView>)>, l: LogLineView)
    requires
        all_wf(g),
        l.date.wf(),
        l.time.wf(),
    ensures
        all_wf(add_spec(g, l)),
{
    lemma_find(g, l.date);
    let r = add_spec(g, l);
    let j = find_spec(g, l.date);
    assert forall|i: int| 0 <= i < r.len() implies (#[trigger] r[i]).0.wf()
        && forall|k: int| 0 <= k < r[i].1.len() ==> (#[trigger] r[i].1[k]).time.wf() by {
        if i < g.len() {
            assert(g[i].0.wf());
            assert forall|k: int| 0 <= k < r[i].1.len() implies (#[trigger] r[i].1[k]).time.wf() by {
                if k < g[i].1.len() {
                    assert(g[i].1[k].time.wf());
                    if i == j {
                        assert(r[i].1[k] == g[i].1[k]);
                    } else {
                        assert(r[i] == g[i]);
                    }
                } else {
                    assert(r[i].1[k] == l);
                }
            }
        } else {
            assert(r[i].1 =~= seq![l]);
        }
    }
}

/// Cuts the contents of object `source_key` into its shards: one for each day
/// that a usable record falls on, in order of each day's first record.
pub fn plan_shards(source_key: &[u8], content: &[u8]) -> (r: Result<Vec<Shard>, RunError>)
    ensures
        plan_view(r) == plan_spec(source_key@, content@),
{
    let text = match gunzip(content) {
        Some(t) => t,
        None => return Err(RunError::Decode),
    };
    if !is_utf8(text.as_slice()) {
        return Err(RunError::Decode);
    }
    let ghost f = split_spec(text@, NEWLINE);
    let ghost ls = text_lines(text@);
    let mut pieces = split_on(text.as_slice(), NEWLINE);
    assert(views(pieces@) == f);
    let n = pieces.len();
    let mut groups: Vec<Partition> = Vec::new();
    let mut i: usize = 0;
    assert(ls.subrange(0, 0) =~= Seq::<Seq<u8>>::empty());
    while i < n
        invariant
            0 <= i <= n,
            n == pieces@.len(),
            f.len() == n,
            ls == text_lines(text@),
            f == split_spec(text@, NEWLINE),
            forall|k: int| i <= k < n ==> (#[trigger] pieces@[k])@ == f[k],
            partition_views(groups@) == group_spec(accepted(ls.subrange(0, i as int))),
            all_wf(partition_views(groups@)),
        decreases n - i,
    {
        assert(pieces@[i as int]@ == f[i as int]);
        let last = pieces[i].len();
        if i + 1 < n && last > 0 && pieces[i][last - 1] == CR {
            pieces[i].pop();
        }
        assert(pieces@[i as int]@ =~= ls[i as int]);
        assert(ls.subrange(0, i + 1).drop_last() =~= ls.subrange(0, i as int));
        let ghost before = partition_views(groups@);
        match LogLine::parse(pieces[i].as_slice()) {
            Some(l) => {
                proof {
                    lemma_add_all_wf(partition_views(groups@), l@);
                    let s = accepted(ls.subrange(0, i as int)).push(l@);
                    assert(s.drop_last() =~= accepted(ls.subrange(0, i as int)));
                }
                add_line(&mut groups, l);
            },
            None => {},
        }
        i = i + 1;
    }
    assert(ls.subrange(0, n as int) =~= ls);
    let ghost g = partition_views(groups@);
    let mut shards: Vec<Shard> = Vec::new();
    let mut j: usize = 0;
    while j < groups.len()
        invariant
            0 <= j <= groups@.len(),
            g == partition_views(groups@),
            g == group_spec(accepted(text_lines(text@))),
            gunzip_of(content@) == Some(text@),
            valid_utf8(text@),
            all_wf(g),
            shard_views(shards@) =~= Seq::new(j as nat, |k: int| (shard_key_spec(source_key@, g[k].0), gzip_of(render_all(g[k].1))->Some_0)),
            forall|k: int| 0 <= k < j ==> (#[trigger] gzip_of(render_all(g[k].1))) is Some,
        decreases groups@.len() - j,
    {
        assert(g[j as int] == (groups@[j as int].date, line_views(groups@[j as int].lines@)));
        assert(g[j as int].0.wf());
        assert forall|k: int| 0 <= k < groups@[j as int].lines@.len() implies (#[trigger] groups@[j as int].lines@[k])@.time.wf() by {
            assert(g[j as int].1[k] == groups@[j as int].lines@[k]@);
        }
        let body = match encode_shard(&groups[j].lines) {
            Some(b) => b,
            None => {
                assert(gzip_of(render_all(g[j as int].1)) is None);
                assert(exists|k: int| 0 <= k < g.len() && (#[trigger] gzip_of(render_all(g[k].1))) is None);
                assert(g == group_spec(accepted(text_lines(text@))));
                return Err(RunError::Encode);
            },
        };
        let key = shard_key(source_key, groups[j].date);
        let ghost pre = shard_views(shards@);
        shards.push(Shard { key, body });
        assert(shard_views(shards@) =~= pre.push((key@, body@)));
        j = j + 1;
    }
    assert(forall|k: int| 0 <= k < g.len() ==> (#[trigger] gzip_of(render_all(g[k].1))) is Some);
    Ok(shards)
}

} // verus!
