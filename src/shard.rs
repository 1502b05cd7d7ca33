use vstd::prelude::*;
use crate::group::line_views;
use crate::bytes::split_spec;
use crate::line::{parse_spec, time_of, url_of, Date, LogLine, LogLineView, Time, TAB, TIME_FIELD, URL_FIELD};

verus! {

pub const NEWLINE: u8 = 10;
pub const SLASH: u8 = 47;
pub const COLON: u8 = 58;
pub const DASH: u8 = 45;
pub const PLUS: u8 = 43;

/// The ASCII digit of `v`'s last decimal place.
pub open spec fn digit(v: nat) -> u8 {
    (48 + v % 10) as u8
}

/// `v` in decimal, zero-padded to at least `w` digits.
pub open spec fn decimal(v: nat, w: nat) -> Seq<u8>
    decreases v + w,
{
    if v < 10 && w <= 1 {
        seq![digit(v)]
    } else {
        decimal(v / 10, if w > 0 { (w - 1) as nat } else { 0 }).push(digit(v))
    }
}

/// A year as `%Y` writes it: four digits at least, with a sign outside
/// 0 to 9999.
pub open spec fn year_text(y: int) -> Seq<u8> {
    if 0 <= y <= 9999 {
        decimal(y as nat, 4)
    } else if y > 9999 {
        seq![PLUS] + decimal(y as nat, 4)
    } else {
        seq![DASH] + decimal((-y) as nat, 4)
    }
}

/// A day as `YYYY-MM-DD`.
pub open spec fn date_text(d: Date) -> Seq<u8> {
    year_text(d.year as int) + seq![DASH] + decimal(d.month as nat, 2) + seq![DASH] + decimal(d.day as nat, 2)
}

/// A time of day as `HH:MM:SS`.
pub open spec fn time_text(t: Time) -> Seq<u8> {
    decimal(t.hour as nat, 2) + seq![COLON] + decimal(t.minute as nat, 2) + seq![COLON] + decimal(t.second as nat, 2)
}

/// A record as a shard holds it: its time, host and path, tab-separated, and
/// a newline. The day is left to the shard's key.
pub open spec fn render_spec(l: LogLineView) -> Seq<u8> {
    time_text(l.time) + seq![TAB] + l.host + seq![TAB] + l.path + seq![NEWLINE]
}

/// The records of a shard, one after the other, in the order given.
pub open spec fn render_all(s: Seq<LogLineView>) -> Seq<u8>
    decreases s.len(),
{
    if s.len() == 0 {
        Seq::empty()
    } else {
        render_all(s.drop_last()) + render_spec(s.last())
    }
}

/// The last segment of an object key: what follows its last `/`.
pub open spec fn basename(s: Seq<u8>) -> Seq<u8>
    decreases s.len(),
{
    if s.len() == 0 {
        s
    } else if s.last() == SLASH {
        Seq::empty()
    } else {
        basename(s.drop_last()).push(s.last())
    }
}

/// `partitioned/date=`
pub open spec fn key_prefix() -> Seq<u8> {
    seq![112u8, 97u8, 114u8, 116u8, 105u8, 116u8, 105u8, 111u8, 110u8, 101u8, 100u8, 47u8, 100u8, 97u8, 116u8, 101u8, 61u8]
}

/// Where the shard of day `d` cut from object `source_key` is stored:
/// `partitioned/date=YYYY-MM-DD/<basename>`.
pub open spec fn shard_key_spec(source_key: Seq<u8>, d: Date) -> Seq<u8> {
    key_prefix() + date_text(d) + seq![SLASH] + basename(source_key)
}

/// What flate2's gzip encoder, at the default level, makes of these bytes;
/// `None` where it reports an error.
pub uninterp spec fn gzip_of(b: Seq<u8>) -> Option<Seq<u8>>;

pub open spec fn opt_view(r: Option<Vec<u8>>) -> Option<Seq<u8>> {
    match r {
        Some(v) => Some(v@),
        None => None,
    }
}

/// Relies on `flate2::write::GzEncoder` with `Compression::default()`: the
/// bytes written, compressed as one gzip stream.
#[verifier::external_body]
fn gzip(b: &[u8]) -> (r: Option<Vec<u8>>)
    ensures
        opt_view(r) == gzip_of(b@),
{
    let mut enc = flate2::write::GzEncoder::new(Vec::new(), flate2::Compression::default());
    std::io::Write::write_all(&mut enc, b).ok()?;
    enc.finish().ok()
}

fn push_decimal(out: &mut Vec<u8>, v: u32, w: u32)
    ensures
        final(out)@ == old(out)@ + decimal(v as nat, w as nat),
    decreases v + w,
{
    if v < 10 && w <= 1 {
        out.push(48u8 + v as u8);
        assert(final(out)@ =~= old(out)@ + decimal(v as nat, w as nat));
    } else {
        push_decimal(out, v / 10, if w > 0 { w - 1 } else { 0 });
        out.push(48u8 + (v % 10) as u8);
        assert(final(out)@ =~= old(out)@ + decimal(v as nat, w as nat));
    }
}

fn push_year(out: &mut Vec<u8>, y: i32)
    requires
        -262143 <= y <= 262142,
    ensures
        final(out)@ == old(out)@ + year_text(y as int),
{
    if 0 <= y && y <= 9999 {
        push_decimal(out, y as u32, 4);
    } else if y > 9999 {
        out.push(PLUS);
        push_decimal(out, y as u32, 4);
        assert(final(out)@ =~= old(out)@ + year_text(y as int));
    } else {
        out.push(DASH);
        push_decimal(out, (-y) as u32, 4);
        assert(final(out)@ =~= old(out)@ + year_text(y as int));
    }
}

fn push_bytes(out: &mut Vec<u8>, s: &[u8], from: usize)
    requires
        from <= s@.len(),
    ensures
        final(out)@ == old(out)@ + s@.subrange(from as int, s@.len() as int),
{
    let mut i: usize = from;
    while i < s.len()
        invariant
            from <= i <= s@.len(),
            out@ == old(out)@ + s@.subrange(from as int, i as int),
        decreases s@.len() - i,
    {
        out.push(s[i]);
        i = i + 1;
        assert(out@ =~= old(out)@ + s@.subrange(from as int, i as int));
    }
}

/// Writes `d` as `YYYY-MM-DD`.
pub fn write_date(out: &mut Vec<u8>, d: Date)
    requires
        d.wf(),
    ensures
        final(out)@ == old(out)@ + date_text(d),
{
    push_year(out, d.year);
    out.push(DASH);
    push_decimal(out, d.month, 2);
    out.push(DASH);
    push_decimal(out, d.day, 2);
    assert(final(out)@ =~= old(out)@ + date_text(d));
}

/// The key under which the shard of day `d` cut from `source_key` is stored.
pub fn shard_key(source_key: &[u8], d: Date) -> (r: Vec<u8>)
    requires
        d.wf(),
    ensures
        r@ == shard_key_spec(source_key@, d),
{
    let mut out: Vec<u8> = vec![112u8, 97u8, 114u8, 116u8, 105u8, 116u8, 105u8, 111u8, 110u8, 101u8, 100u8, 47u8, 100u8, 97u8, 116u8, 101u8, 61u8];
    assert(out@ =~= key_prefix());
    write_date(&mut out, d);
    out.push(SLASH);
    let mut j: usize = source_key.len();
    assert(source_key@.subrange(0, j as int) =~= source_key@);
    assert(source_key@.subrange(j as int, j as int) =~= Seq::<u8>::empty());
    while j > 0 && source_key[j - 1] != SLASH
        invariant
            0 <= j <= source_key@.len(),
            basename(source_key@) == basename(source_key@.subrange(0, j as int)) + source_key@.subrange(j as int, source_key@.len() as int),
        decreases j,
    {
        let ghost pre = source_key@.subrange(0, j as int);
        assert(pre.drop_last() =~= source_key@.subrange(0, j - 1));
        assert(source_key@.subrange(j - 1, source_key@.len() as int) =~= seq![pre.last()] + source_key@.subrange(j as int, source_key@.len() as int));
        assert(basename(pre) == basename(pre.drop_last()).push(pre.last()));
        assert(basename(pre.drop_last()).push(pre.last()) + source_key@.subrange(j as int, source_key@.len() as int) =~= basename(pre.drop_last()) + source_key@.subrange(j - 1, source_key@.len() as int));
        j = j - 1;
    }
    assert(basename(source_key@.subrange(0, j as int)) =~= Seq::<u8>::empty());
    assert(basename(source_key@) =~= source_key@.subrange(j as int, source_key@.len() as int));
    push_bytes(&mut out, source_key, j);
    assert(out@ =~= shard_key_spec(source_key@, d));
    out
}

impl LogLine {
    /// Appends the record as a shard holds it.
    pub fn write_to(&self, out: &mut Vec<u8>)
        requires
            self@.time.wf(),
        ensures
            final(out)@ == old(out)@ + render_spec(self@),
    {
        let t = self.time();
        push_decimal(out, t.hour, 2);
        out.push(COLON);
        push_decimal(out, t.minute, 2);
        out.push(COLON);
        push_decimal(out, t.second, 2);
        out.push(TAB);
        let h = self.host();
        push_bytes(out, h, 0);
        out.push(TAB);
        let p = self.path();
        push_bytes(out, p, 0);
        out.push(NEWLINE);
        assert(h@.subrange(0, h@.len() as int) =~= h@);
        assert(p@.subrange(0, p@.len() as int) =~= p@);
        assert(final(out)@ =~= old(out)@ + render_spec(self@));
    }
}

/// A record read from a raw line and rendered again keeps the host and path
/// of the line's URL exactly, and its time of day reformatted as `HH:MM:SS`;
/// the date is dropped.
pub proof fn lemma_render_parsed(raw: Seq<u8>)
    requires
        parse_spec(raw) is Some,
    ensures
        ({
            let f = split_spec(raw, TAB);
            &&& url_of(f[URL_FIELD as int]) matches Some((Some(host), path))
            &&& time_of(f[TIME_FIELD as int]) matches Some((h, m, s, n))
            &&& render_spec(parse_spec(raw)->Some_0) == time_text(Time { hour: h, minute: m, second: (s + n / 1_000_000_000) as u32 })
                + seq![TAB] + host + seq![TAB] + path + seq![NEWLINE]
        }),
{
}

/// The records of one shard, uncompressed.
pub fn render(lines: &Vec<LogLine>) -> (r: Vec<u8>)
    requires
        forall|k: int| 0 <= k < lines@.len() ==> (#[trigger] lines@[k])@.time.wf(),
    ensures
        r@ == render_all(line_views(lines@)),
{
    let mut out: Vec<u8> = Vec::new();
    let mut i: usize = 0;
    while i < lines.len()
        invariant
            0 <= i <= lines@.len(),
            forall|k: int| 0 <= k < lines@.len() ==> (#[trigger] lines@[k])@.time.wf(),
            out@ == render_all(line_views(lines@).subrange(0, i as int)),
        decreases lines@.len() - i,
    {
        lines[i].write_to(&mut out);
        proof {
            let s = line_views(lines@).subrange(0, i + 1);
            assert(s.drop_last() =~= line_views(lines@).subrange(0, i as int));
        }
        i = i + 1;
    }
    assert(line_views(lines@).subrange(0, i as int) =~= line_views(lines@));
    out
}

/// A shard's body: its records, rendered and compressed as one gzip stream.
pub fn encode_shard(lines: &Vec<LogLine>) -> (r: Option<Vec<u8>>)
    requires
        forall|k: int| 0 <= k < lines@.len() ==> (#[trigger] lines@[k])@.time.wf(),
    ensures
        opt_view(r) == gzip_of(render_all(line_views(lines@))),
{
    let text = render(lines);
    gzip(text.as_slice())
}

} // verus!
