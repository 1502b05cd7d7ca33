use vstd::prelude::*;
use crate::line::{Date, LogLine, LogLineView};

verus! {

/// The records of one calendar day, in the order they were read.
pub struct Partition {
    pub date: Date,
    pub lines: Vec<LogLine>,
}

pub open spec fn line_views(v: Seq<LogLine>) -> Seq<LogLineView> {
    v.map_values(|l: LogLine| l@)
}

pub open spec fn partition_views(p: Seq<Partition>) -> Seq<(Date, Seq<LogLineView>)> {
    p.map_values(|x: Partition| (x.date, line_views(x.lines@)))
}

/// Where the group of day `d` stands in `g`, or -1.
pub open spec fn find_spec(g: Seq<(Date, Seq<LogLineView>)>, d: Date) -> int
    decreases g.len(),
{
    if g.len() == 0 {
        -1
    } else if g.last().0 == d {
        g.len() - 1
    } else {
        find_spec(g.drop_last(), d)
    }
}

/// `g` with `l` appended to the group of its day, which is opened at the end
/// when there is none.
pub open spec fn add_spec(g: Seq<(Date, Seq<LogLineView>)>, l: LogLineView) -> Seq<(Date, Seq<LogLineView>)> {
    let j = find_spec(g, l.date);
    if j < 0 {
        g.push((l.date, seq![l]))
    } else {
        g.update(j, (l.date, g[j].1.push(l)))
    }
}

/// The groups of `s` by day, in order of each day's first record.
pub open spec fn group_spec(s: Seq<LogLineView>) -> Seq<(Date, Seq<LogLineView>)>
    decreases s.len(),
{
    if s.len() == 0 {
        Seq::empty()
    } else {
        add_spec(group_spec(s.drop_last()), s.last())
    }
}

/// No two groups share a day, and every record of a group has that group's day.
pub open spec fn well_grouped(g: Seq<(Date, Seq<LogLineView>)>) -> bool {
    &&& forall|i: int, j: int| 0 <= i < j < g.len() ==> g[i].0 != g[j].0
    &&& forall|i: int, k: int| 0 <= i < g.len() && 0 <= k < g[i].1.len() ==> #[trigger] g[i].1[k].date == g[i].0
}

pub proof fn lemma_find(g: Seq<(Date, Seq<LogLineView>)>, d: Date)
    ensures
        -1 <= find_spec(g, d) < g.len(),
        find_spec(g, d) >= 0 ==> g[find_spec(g, d)].0 == d,
        find_spec(g, d) < 0 ==> forall|i: int| 0 <= i < g.len() ==> g[i].0 != d,
    decreases g.len(),
{
    if g.len() > 0 && g.last().0 != d {
        lemma_find(g.drop_last(), d);
        assert(forall|i: int| 0 <= i < g.len() - 1 ==> g[i] == g.drop_last()[i]);
    }
}

proof fn lemma_add_well_grouped(g: Seq<(Date, Seq<LogLineView>)>, l: LogLineView)
    requires
        well_grouped(g),
    ensures
        well_grouped(add_spec(g, l)),
{
    lemma_find(g, l.date);
    let r = add_spec(g, l);
    let j = find_spec(g, l.date);
    assert forall|i: int, k: int| 0 <= i < r.len() && 0 <= k < r[i].1.len() implies #[trigger] r[i].1[k].date == r[i].0 by {
        if i < g.len() && i != j {
            assert(r[i] == g[i]);
        } else if i == j {
            if k < g[j].1.len() {
                assert(r[i].1[k] == g[j].1[k]);
            }
        }
    }
}

/// Grouping law: whatever the records, no two groups share a day and every
/// record in the group of day `d` has key `d`.
pub proof fn lemma_group_well_grouped(s: Seq<LogLineView>)
    ensures
        well_grouped(group_spec(s)),
    decreases s.len(),
{
    if s.len() > 0 {
        lemma_group_well_grouped(s.drop_last());
        lemma_add_well_grouped(group_spec(s.drop_last()), s.last());
    }
}

/// Appends `line` to the partition of its day, opening one at the end for a
/// day not seen yet.
pub fn add_line(groups: &mut Vec<Partition>, line: LogLine)
    ensures
        partition_views(final(groups)@) == add_spec(partition_views(old(groups)@), line@),
{
    let d = line.key();
    let ghost gv = partition_views(groups@);
    let mut j: usize = groups.len();
    let mut found = false;
    assert(gv.subrange(0, gv.len() as int) =~= gv);
    while !found && j > 0
        invariant
            0 <= j <= groups@.len(),
            gv == partition_views(groups@),
            !found ==> find_spec(gv, d) == find_spec(gv.subrange(0, j as int), d),
            found ==> j > 0 && find_spec(gv, d) == j - 1,
        decreases j + (if found { 0int } else { 1int }),
    {
        assert(gv.subrange(0, j as int).drop_last() =~= gv.subrange(0, j - 1));
        if groups[j - 1].date == d {
            found = true;
        } else {
            j = j - 1;
        }
    }
    proof {
        lemma_find(gv, d);
    }
    if found {
        let ghost before = groups@;
        assert(before[j - 1].date == gv[j - 1].0);
        groups[j - 1].lines.push(line);
        proof {
            assert(line_views(groups@[j - 1].lines@) =~= line_views(before[j - 1].lines@).push(line@));
            assert(groups@.len() == before.len());
            assert forall|k: int| 0 <= k < gv.len() && k != j - 1 implies partition_views(groups@)[k] == gv[k] by {
                assert(groups@[k] == before[k]);
            }
            assert(groups@[j - 1].date == d);
            assert(partition_views(groups@) =~= add_spec(gv, line@));
        }
    } else {
        assert(gv.subrange(0, 0) =~= Seq::<(Date, Seq<LogLineView>)>::empty());
        let ghost before = groups@;
        let mut lines: Vec<LogLine> = Vec::new();
        lines.push(line);
        groups.push(Partition { date: d, lines });
        proof {
            assert(line_views(lines@) =~= seq![line@]);
            assert(partition_views(groups@) =~= add_spec(gv, line@));
        }
    }
}

} // verus!
