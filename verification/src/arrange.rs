//! The year grouper/sorter: a stable sort of the publication sequence by
//! descending year, then a partition of the sorted sequence into maximal
//! contiguous equal-year runs.
use vstd::prelude::*;

use crate::model::{year_of, HasYear, Publication};

verus! {

// ---------------------------------------------------------------------------
// Ordering
// ---------------------------------------------------------------------------
/// Years never increase along the sequence.
pub open spec fn sorted_desc(s: Seq<Publication>) -> bool {
    forall|i: int, j: int|
        0 <= i < j < s.len() ==> #[trigger] year_of(s[i]) >= #[trigger] year_of(s[j])
}

/// Stable insertion into a descending-sorted sequence: the new element goes
/// after every element whose year is at least its own.
pub open spec fn insert_desc(s: Seq<Publication>, p: Publication) -> Seq<Publication>
    decreases s.len(),
{
    if s.len() == 0 {
        seq![p]
    } else if year_of(s[0]) >= year_of(p) {
        seq![s[0]] + insert_desc(s.skip(1), p)
    } else {
        seq![p] + s
    }
}

/// The stable descending sort: each element, in input order, inserted into
/// the sorted sequence of its predecessors.
pub open spec fn sort_desc(s: Seq<Publication>) -> Seq<Publication>
    decreases s.len(),
{
    if s.len() == 0 {
        Seq::empty()
    } else {
        insert_desc(sort_desc(s.drop_last()), s.last())
    }
}

/// Where the stable insertion lands: right before the first element whose
/// year is below the new element's.
proof fn lemma_insert_desc_at(s: Seq<Publication>, p: Publication, j: int)
    requires
        0 <= j <= s.len(),
        forall|k: int| 0 <= k < j ==> #[trigger] year_of(s[k]) >= year_of(p),
        j == s.len() || year_of(s[j]) < year_of(p),
    ensures
        insert_desc(s, p) == s.subrange(0, j) + seq![p] + s.subrange(j, s.len() as int),
    decreases s.len(),
{
    if s.len() == 0 {
        assert(insert_desc(s, p) =~= s.subrange(0, j) + seq![p] + s.subrange(j, s.len() as int));
    } else if j == 0 {
        assert(insert_desc(s, p) =~= s.subrange(0, j) + seq![p] + s.subrange(j, s.len() as int));
    } else {
        assert(year_of(s[0]) >= year_of(p));
        assert forall|k: int| 0 <= k < j - 1 implies #[trigger] year_of(s.skip(1)[k]) >= year_of(
            p,
        ) by {
            assert(s.skip(1)[k] == s[k + 1]);
        }
        if j < s.len() {
            assert(s.skip(1)[j - 1] == s[j]);
        }
        lemma_insert_desc_at(s.skip(1), p, j - 1);
        assert(insert_desc(s, p) =~= s.subrange(0, j) + seq![p] + s.subrange(j, s.len() as int));
    }
}

/// Sorts the publications by descending year; within one year the original
/// relative order is kept.
pub fn sort_by_year_desc(pubs: &mut Vec<Publication>)
    ensures
        final(pubs)@ == sort_desc(old(pubs)@),
{
    let ghost orig = old(pubs)@;
    let mut out: Vec<Publication> = Vec::new();
    proof {
        assert(orig.subrange(0, orig.len() as int) =~= orig);
        assert(orig.subrange(0, 0) =~= Seq::<Publication>::empty());
    }
    while pubs.len() > 0
        invariant
            pubs@.len() <= orig.len(),
            pubs@ == orig.subrange(orig.len() - pubs@.len(), orig.len() as int),
            out@ == sort_desc(orig.subrange(0, orig.len() - pubs@.len())),
        decreases pubs@.len(),
    {
        let ghost i = orig.len() - pubs@.len();
        let p = pubs.remove(0);
        proof {
            assert(p == orig[i as int]);
            assert(pubs@ =~= orig.subrange(orig.len() - pubs@.len(), orig.len() as int));
        }
        let y = p.get_year();
        let n = out.len();
        let mut j: usize = 0;
        while j < n && out[j].get_year() >= y
            invariant
                n == out@.len(),
                j <= n,
                y == year_of(p),
                forall|k: int| 0 <= k < j ==> #[trigger] year_of(out@[k]) >= year_of(p),
            decreases n - j,
        {
            j += 1;
        }
        let ghost out0 = out@;
        out.insert(j, p);
        proof {
            lemma_insert_desc_at(out0, p, j as int);
            assert(out@ =~= insert_desc(out0, p));
            let pre = orig.subrange(0, i as int);
            let pre1 = orig.subrange(0, i + 1);
            assert(pre1.drop_last() =~= pre);
            assert(pre1.last() == p);
            assert(out@ == sort_desc(pre1));
        }
    }
    proof {
        assert(orig.subrange(0, orig.len() as int) =~= orig);
    }
    *pubs = out;
}

// ---------------------------------------------------------------------------
// Grouping
// ---------------------------------------------------------------------------
/// The partition of a sequence into maximal contiguous equal-year runs, each
/// run tagged with its year. Adjacency-based: it groups a year into one run
/// only where the sequence is already sorted.
pub open spec fn groups_of(s: Seq<Publication>) -> Seq<(u32, Seq<Publication>)>
    decreases s.len(),
{
    if s.len() == 0 {
        Seq::empty()
    } else {
        let g = groups_of(s.skip(1));
        if g.len() > 0 && g[0].0 == year_of(s[0]) {
            seq![(year_of(s[0]), seq![s[0]] + g[0].1)] + g.skip(1)
        } else {
            seq![(year_of(s[0]), seq![s[0]])] + g
        }
    }
}

/// The years of the groups, in group order.
pub open spec fn group_years(gs: Seq<(u32, Seq<Publication>)>) -> Seq<u32> {
    Seq::new(gs.len(), |i: int| gs[i].0)
}

/// The groups flattened back into one sequence.
pub open spec fn flatten_groups(gs: Seq<(u32, Seq<Publication>)>) -> Seq<Publication>
    decreases gs.len(),
{
    if gs.len() == 0 {
        Seq::empty()
    } else {
        gs[0].1 + flatten_groups(gs.skip(1))
    }
}

/// The arranged listing: descending stable order, partitioned into maximal
/// equal-year runs.
pub open spec fn arranged(s: Seq<Publication>) -> Seq<(u32, Seq<Publication>)> {
    groups_of(sort_desc(s))
}

/// A nonempty sequence's first group carries the first element's year.
proof fn lemma_groups_first_year(s: Seq<Publication>)
    requires
        s.len() > 0,
    ensures
        groups_of(s).len() > 0,
        groups_of(s)[0].0 == year_of(s[0]),
{
}

/// Splitting off the leading run: where the first `r` elements share the
/// first year and the element at `r` (if any) differs, the groups are that
/// run followed by the groups of the remainder.
pub(crate) proof fn lemma_groups_split(s: Seq<Publication>, r: int)
    requires
        0 < r <= s.len(),
        forall|k: int| 0 <= k < r ==> #[trigger] year_of(s[k]) == year_of(s[0]),
        r == s.len() || year_of(s[r]) != year_of(s[0]),
    ensures
        groups_of(s) == seq![(year_of(s[0]), s.subrange(0, r))] + groups_of(
            s.subrange(r, s.len() as int),
        ),
    decreases r,
{
    let y = year_of(s[0]);
    let tail = s.skip(1);
    let rest = s.subrange(r, s.len() as int);
    if r == 1 {
        if s.len() == 1 {
            assert(tail =~= Seq::<Publication>::empty());
            assert(rest =~= Seq::<Publication>::empty());
            assert(groups_of(s) =~~= seq![(y, s.subrange(0, 1))] + groups_of(rest));
        } else {
            assert(tail[0] == s[1]);
            lemma_groups_first_year(tail);
            assert(groups_of(tail)[0].0 != y);
            assert(tail =~= rest);
            assert(groups_of(s) =~~= seq![(y, s.subrange(0, 1))] + groups_of(rest));
        }
    } else {
        assert forall|k: int| 0 <= k < r - 1 implies #[trigger] year_of(tail[k]) == year_of(
            tail[0],
        ) by {
            assert(tail[k] == s[k + 1]);
            assert(tail[0] == s[1]);
        }
        if r < s.len() {
            assert(tail[r - 1] == s[r]);
        }
        assert(tail[0] == s[1]);
        assert(year_of(tail[0]) == y);
        lemma_groups_split(tail, r - 1);
        let g = groups_of(tail);
        assert(g == seq![(y, tail.subrange(0, r - 1))] + groups_of(
            tail.subrange(r - 1, tail.len() as int),
        ));
        assert(g[0] == (y, tail.subrange(0, r - 1)));
        assert(g.len() > 0 && g[0].0 == y);
        assert(seq![s[0]] + g[0].1 =~= s.subrange(0, r));
        assert(g.skip(1) =~~= groups_of(tail.subrange(r - 1, tail.len() as int)));
        assert(tail.subrange(r - 1, tail.len() as int) =~= rest);
        assert(groups_of(s) =~~= seq![(y, s.subrange(0, r))] + groups_of(rest));
    }
}

/// One year's worth of adjacent publications, in arranged order.
#[derive(Debug, PartialEq, Eq)]
pub struct YearGroup {
    pub year: u32,
    pub items: Vec<Publication>,
}

/// A group as the specs speak of it.
pub open spec fn group_view(g: YearGroup) -> (u32, Seq<Publication>) {
    (g.year, g.items@)
}

/// A group vector as the specs speak of it.
pub open spec fn groups_view(gs: Seq<YearGroup>) -> Seq<(u32, Seq<Publication>)> {
    Seq::new(gs.len(), |i: int| group_view(gs[i]))
}

/// The index one past the end of the run of `pubs[start]`'s year.
pub(crate) fn run_end(pubs: &Vec<Publication>, start: usize) -> (r: usize)
    requires
        start < pubs@.len(),
    ensures
        start < r <= pubs@.len(),
        forall|k: int| start <= k < r ==> #[trigger] year_of(pubs@[k]) == year_of(
            pubs@[start as int],
        ),
        r == pubs@.len() || year_of(pubs@[r as int]) != year_of(pubs@[start as int]),
{
    let y = pubs[start].get_year();
    let n = pubs.len();
    let mut r: usize = start + 1;
    while r < n
        invariant
            n == pubs@.len(),
            start < r <= n,
            y == year_of(pubs@[start as int]),
            forall|k: int| start <= k < r ==> #[trigger] year_of(pubs@[k]) == y,
        decreases n - r,
    {
        if pubs[r].get_year() != y {
            return r;
        }
        r += 1;
    }
    r
}

/// Partitions an already-ordered sequence into its maximal contiguous
/// equal-year runs.
pub fn group_by_year(pubs: Vec<Publication>) -> (gs: Vec<YearGroup>)
    ensures
        groups_view(gs@) == groups_of(pubs@),
{
    let ghost orig = pubs@;
    let mut rest = pubs;
    let mut gs: Vec<YearGroup> = Vec::new();
    proof {
        assert(groups_view(Seq::<YearGroup>::empty()) + groups_of(orig) =~= groups_of(orig));
    }
    while rest.len() > 0
        invariant
            groups_view(gs@) + groups_of(rest@) == groups_of(orig),
        decreases rest@.len(),
    {
        let ghost cur = rest@;
        let ghost gs0 = gs@;
        let y = rest[0].get_year();
        let r = run_end(&rest, 0);
        let tail = rest.split_off(r);
        let g = YearGroup { year: y, items: rest };
        rest = tail;
        gs.push(g);
        proof {
            lemma_groups_split(cur, r as int);
            assert(groups_view(gs@) =~= groups_view(gs0) + seq![(y, cur.subrange(0, r as int))]);
            assert(rest@ == cur.subrange(r as int, cur.len() as int));
            assert(groups_view(gs@) + groups_of(rest@) =~= groups_of(orig));
        }
    }
    proof {
        assert(groups_of(rest@) =~= Seq::<(u32, Seq<Publication>)>::empty());
        assert(groups_view(gs@) =~= groups_of(orig));
    }
    gs
}

/// Orders the publications by descending year — stable within a year — and
/// partitions them into maximal equal-year groups. Empty input yields an
/// empty listing.
pub fn arrange(pubs: Vec<Publication>) -> (gs: Vec<YearGroup>)
    ensures
        groups_view(gs@) == arranged(pubs@),
{
    let mut sorted = pubs;
    sort_by_year_desc(&mut sorted);
    group_by_year(sorted)
}

/// The navigation index of an ordered sequence: the year of each maximal
/// run, in run order.
pub fn year_index(pubs: &Vec<Publication>) -> (ys: Vec<u32>)
    ensures
        ys@ == group_years(groups_of(pubs@)),
{
    let n = pubs.len();
    let mut ys: Vec<u32> = Vec::new();
    let mut pos: usize = 0;
    proof {
        assert(pubs@.subrange(0, n as int) =~= pubs@);
        assert(Seq::<u32>::empty() + group_years(groups_of(pubs@)) =~= group_years(
            groups_of(pubs@),
        ));
    }
    while pos < n
        invariant
            n == pubs@.len(),
            pos <= n,
            ys@ + group_years(groups_of(pubs@.subrange(pos as int, n as int))) == group_years(
                groups_of(pubs@),
            ),
        decreases n - pos,
    {
        let ghost cur = pubs@.subrange(pos as int, n as int);
        let ghost ys0 = ys@;
        let y = pubs[pos].get_year();
        let r = run_end(pubs, pos);
        ys.push(y);
        proof {
            assert forall|k: int| 0 <= k < r - pos implies #[trigger] year_of(cur[k]) == year_of(
                cur[0],
            ) by {
                assert(cur[k] == pubs@[k + pos]);
                assert(cur[0] == pubs@[pos as int]);
            }
            if r < n {
                assert(cur[r - pos] == pubs@[r as int]);
            }
            assert(cur[0] == pubs@[pos as int]);
            lemma_groups_split(cur, r - pos);
            assert(cur.subrange(r - pos, cur.len() as int) =~= pubs@.subrange(r as int, n as int));
            assert(group_years(groups_of(cur)) =~= seq![y] + group_years(
                groups_of(pubs@.subrange(r as int, n as int)),
            ));
            assert(ys@ + group_years(groups_of(pubs@.subrange(r as int, n as int))) =~= group_years(
                groups_of(pubs@),
            ));
        }
        pos = r;
    }
    proof {
        assert(pubs@.subrange(pos as int, n as int) =~= Seq::<Publication>::empty());
        assert(ys@ =~= group_years(groups_of(pubs@)));
    }
    ys
}

// ---------------------------------------------------------------------------
// Laws
// ---------------------------------------------------------------------------
/// Insertion adds the new element and keeps the old ones, nothing else.
proof fn lemma_insert_desc_elems(s: Seq<Publication>, p: Publication)
    ensures
        insert_desc(s, p).len() == s.len() + 1,
        forall|k: int|
            0 <= k < insert_desc(s, p).len() ==> (#[trigger] insert_desc(s, p)[k] == p
                || s.contains(insert_desc(s, p)[k])),
        insert_desc(s, p).contains(p),
        forall|m: int| 0 <= m < s.len() ==> insert_desc(s, p).contains(#[trigger] s[m]),
    decreases s.len(),
{
    let r = insert_desc(s, p);
    if s.len() == 0 {
        assert(r[0] == p);
    } else if year_of(s[0]) >= year_of(p) {
        lemma_insert_desc_elems(s.skip(1), p);
        let r1 = insert_desc(s.skip(1), p);
        assert(r == seq![s[0]] + r1);
        assert forall|k: int| 0 <= k < r.len() implies (#[trigger] r[k] == p || s.contains(
            r[k],
        )) by {
            if k == 0 {
                assert(r[0] == s[0]);
                assert(s.contains(s[0]));
            } else {
                assert(r[k] == r1[k - 1]);
                if r1[k - 1] != p {
                    let m = choose|m: int| 0 <= m < s.skip(1).len() && s.skip(1)[m] == r1[k - 1];
                    assert(s[m + 1] == r1[k - 1]);
                    assert(s.contains(s[m + 1]));
                }
            }
        }
        let kp = choose|kp: int| 0 <= kp < r1.len() && r1[kp] == p;
        assert(r[kp + 1] == p);
        assert(r.contains(p));
        assert forall|m: int| 0 <= m < s.len() implies r.contains(#[trigger] s[m]) by {
            if m == 0 {
                assert(r[0] == s[0]);
            } else {
                assert(s.skip(1)[m - 1] == s[m]);
                assert(r1.contains(s.skip(1)[m - 1]));
                let k = choose|k: int| 0 <= k < r1.len() && r1[k] == s[m];
                assert(r[k + 1] == s[m]);
            }
        }
    } else {
        assert(r == seq![p] + s);
        assert(r[0] == p);
        assert forall|k: int| 0 <= k < r.len() implies (#[trigger] r[k] == p || s.contains(
            r[k],
        )) by {
            if k > 0 {
                assert(r[k] == s[k - 1]);
                assert(s.contains(s[k - 1]));
            }
        }
        assert forall|m: int| 0 <= m < s.len() implies r.contains(#[trigger] s[m]) by {
            assert(r[m + 1] == s[m]);
        }
    }
}

/// Stable insertion keeps a descending-sorted sequence sorted.
proof fn lemma_insert_desc_sorted(s: Seq<Publication>, p: Publication)
    requires
        sorted_desc(s),
    ensures
        sorted_desc(insert_desc(s, p)),
    decreases s.len(),
{
    let r = insert_desc(s, p);
    if s.len() == 0 {
    } else if year_of(s[0]) >= year_of(p) {
        let t = s.skip(1);
        let r1 = insert_desc(t, p);
        assert forall|i: int, j: int| 0 <= i < j < t.len() implies #[trigger] year_of(t[i])
            >= #[trigger] year_of(t[j]) by {
            assert(t[i] == s[i + 1]);
            assert(t[j] == s[j + 1]);
        }
        lemma_insert_desc_sorted(t, p);
        lemma_insert_desc_elems(t, p);
        assert forall|i: int, j: int| 0 <= i < j < r.len() implies #[trigger] year_of(r[i])
            >= #[trigger] year_of(r[j]) by {
            if i == 0 {
                assert(r[j] == r1[j - 1]);
                if r1[j - 1] == p {
                    assert(year_of(r[0]) >= year_of(p));
                } else {
                    let m = choose|m: int| 0 <= m < t.len() && t[m] == r1[j - 1];
                    assert(t[m] == s[m + 1]);
                    assert(year_of(s[0]) >= year_of(s[m + 1]));
                }
            } else {
                assert(r[i] == r1[i - 1]);
                assert(r[j] == r1[j - 1]);
            }
        }
    } else {
        assert forall|i: int, j: int| 0 <= i < j < r.len() implies #[trigger] year_of(r[i])
            >= #[trigger] year_of(r[j]) by {
            if i == 0 {
                assert(r[j] == s[j - 1]);
                if j == 1 {
                    assert(year_of(p) > year_of(s[0]));
                } else {
                    assert(year_of(s[0]) >= year_of(s[j - 1]));
                }
            } else {
                assert(r[i] == s[i - 1]);
                assert(r[j] == s[j - 1]);
            }
        }
    }
}

/// The stable sort really sorts: its result is descending.
pub proof fn lemma_sort_desc_sorted(s: Seq<Publication>)
    ensures
        sorted_desc(sort_desc(s)),
    decreases s.len(),
{
    if s.len() > 0 {
        lemma_sort_desc_sorted(s.drop_last());
        lemma_insert_desc_sorted(sort_desc(s.drop_last()), s.last());
    }
}

/// A sequence that is already descending comes out of the sort unchanged —
/// in particular the sort is idempotent.
pub proof fn lemma_sort_desc_of_sorted(t: Seq<Publication>)
    requires
        sorted_desc(t),
    ensures
        sort_desc(t) == t,
    decreases t.len(),
{
    if t.len() > 0 {
        let d = t.drop_last();
        assert forall|i: int, j: int| 0 <= i < j < d.len() implies #[trigger] year_of(d[i])
            >= #[trigger] year_of(d[j]) by {
            assert(d[i] == t[i]);
            assert(d[j] == t[j]);
        }
        lemma_sort_desc_of_sorted(d);
        assert forall|k: int| 0 <= k < d.len() implies #[trigger] year_of(d[k]) >= year_of(
            t.last(),
        ) by {
            assert(d[k] == t[k]);
        }
        lemma_insert_desc_at(d, t.last(), d.len() as int);
        assert(sort_desc(t) =~= t);
    }
}

/// Flattening the groups gives the grouped sequence back: the partition
/// loses nothing and invents nothing.
pub proof fn lemma_flatten_groups_of(t: Seq<Publication>)
    ensures
        flatten_groups(groups_of(t)) == t,
    decreases t.len(),
{
    if t.len() == 0 {
    } else {
        let g = groups_of(t.skip(1));
        lemma_flatten_groups_of(t.skip(1));
        let gf = groups_of(t);
        if g.len() > 0 && g[0].0 == year_of(t[0]) {
            assert(gf.skip(1) =~~= g.skip(1));
            assert(gf[0].1 == seq![t[0]] + g[0].1);
            assert(flatten_groups(g) == g[0].1 + flatten_groups(g.skip(1)));
            assert(flatten_groups(gf) == gf[0].1 + flatten_groups(gf.skip(1)));
            assert(flatten_groups(gf.skip(1)) == flatten_groups(g.skip(1)));
            assert(flatten_groups(gf) =~= seq![t[0]] + t.skip(1));
            assert(seq![t[0]] + t.skip(1) =~= t);
        } else {
            assert(gf.skip(1) =~~= g);
            assert(flatten_groups(gf) =~= t);
        }
    }
}

/// Arranging is idempotent: flattening an arranged listing and arranging it
/// again reproduces the same groups, with the same boundaries and order.
pub proof fn lemma_arrange_idempotent(s: Seq<Publication>)
    ensures
        arranged(flatten_groups(arranged(s))) == arranged(s),
{
    let t = sort_desc(s);
    lemma_sort_desc_sorted(s);
    lemma_flatten_groups_of(t);
    lemma_sort_desc_of_sorted(t);
}

/// Some publication in `s` appeared in year `y`.
pub open spec fn has_year(s: Seq<Publication>, y: u32) -> bool {
    exists|k: int| 0 <= k < s.len() && year_of(#[trigger] s[k]) == y
}

/// Years never repeat and strictly fall along the sequence.
pub open spec fn strictly_decreasing(ys: Seq<u32>) -> bool {
    forall|i: int, j: int| 0 <= i < j < ys.len() ==> #[trigger] ys[i] > #[trigger] ys[j]
}

/// Insertion neither adds nor drops a year.
proof fn lemma_insert_desc_years(s: Seq<Publication>, p: Publication, y: u32)
    ensures
        has_year(insert_desc(s, p), y) <==> (has_year(s, y) || year_of(p) == y),
{
    let r = insert_desc(s, p);
    lemma_insert_desc_elems(s, p);
    if has_year(r, y) {
        let k = choose|k: int| 0 <= k < r.len() && year_of(r[k]) == y;
        if r[k] != p {
            let m = choose|m: int| 0 <= m < s.len() && s[m] == r[k];
            assert(year_of(s[m]) == y);
        }
    }
    if year_of(p) == y {
        let k = choose|k: int| 0 <= k < r.len() && r[k] == p;
        assert(year_of(r[k]) == y);
    }
    if has_year(s, y) {
        let m = choose|m: int| 0 <= m < s.len() && year_of(s[m]) == y;
        assert(r.contains(s[m]));
        let k = choose|k: int| 0 <= k < r.len() && r[k] == s[m];
        assert(year_of(r[k]) == y);
    }
}

/// Sorting neither adds nor drops a year.
pub proof fn lemma_sort_desc_years(s: Seq<Publication>, y: u32)
    ensures
        has_year(sort_desc(s), y) <==> has_year(s, y),
    decreases s.len(),
{
    if s.len() > 0 {
        let d = s.drop_last();
        lemma_sort_desc_years(d, y);
        lemma_insert_desc_years(sort_desc(d), s.last(), y);
        if has_year(d, y) {
            let m = choose|m: int| 0 <= m < d.len() && year_of(d[m]) == y;
            assert(d[m] == s[m]);
            assert(has_year(s, y));
        }
        if year_of(s.last()) == y {
            assert(has_year(s, y));
        }
        if has_year(s, y) {
            let m = choose|m: int| 0 <= m < s.len() && year_of(s[m]) == y;
            if m < s.len() - 1 {
                assert(d[m] == s[m]);
                assert(has_year(d, y));
            }
        }
    }
}

/// On a descending sequence the group years strictly fall, and they are
/// exactly the years present in the sequence.
proof fn lemma_group_years_sorted(t: Seq<Publication>)
    requires
        sorted_desc(t),
    ensures
        strictly_decreasing(group_years(groups_of(t))),
        forall|y: u32| group_years(groups_of(t)).contains(y) <==> has_year(t, y),
    decreases t.len(),
{
    let gf = groups_of(t);
    let ys = group_years(gf);
    if t.len() == 0 {
        assert forall|y: u32| ys.contains(y) <==> has_year(t, y) by {
            assert(!ys.contains(y));
            assert(!has_year(t, y));
        }
    } else {
        let tl = t.skip(1);
        let y0 = year_of(t[0]);
        assert forall|i: int, j: int| 0 <= i < j < tl.len() implies #[trigger] year_of(tl[i])
            >= #[trigger] year_of(tl[j]) by {
            assert(tl[i] == t[i + 1]);
            assert(tl[j] == t[j + 1]);
        }
        lemma_group_years_sorted(tl);
        let g = groups_of(tl);
        let ysg = group_years(g);
        if g.len() > 0 && g[0].0 == y0 {
            assert(ys =~= ysg);
            assert forall|y: u32| ys.contains(y) <==> has_year(t, y) by {
                if has_year(t, y) {
                    let k = choose|k: int| 0 <= k < t.len() && year_of(t[k]) == y;
                    if k == 0 {
                        assert(ysg[0] == y0);
                        assert(ysg.contains(y));
                    } else {
                        assert(tl[k - 1] == t[k]);
                        assert(has_year(tl, y));
                    }
                }
                if ys.contains(y) {
                    assert(ysg.contains(y));
                    assert(has_year(tl, y));
                    let m = choose|m: int| 0 <= m < tl.len() && year_of(tl[m]) == y;
                    assert(tl[m] == t[m + 1]);
                    assert(has_year(t, y));
                }
            }
        } else {
            assert(ys =~= seq![y0] + ysg);
            if tl.len() > 0 {
                lemma_groups_first_year(tl);
                assert(ysg[0] == year_of(tl[0]));
                assert(year_of(tl[0]) == year_of(t[1]));
                assert(year_of(t[0]) >= year_of(t[1]));
                assert(ysg[0] != y0);
            }
            assert forall|i: int, j: int| 0 <= i < j < ys.len() implies #[trigger] ys[i]
                > #[trigger] ys[j] by {
                if i == 0 {
                    assert(ys[j] == ysg[j - 1]);
                    if j - 1 > 0 {
                        assert(ysg[0] > ysg[j - 1]);
                    }
                    assert(ysg.contains(ysg[j - 1]));
                    assert(has_year(tl, ysg[j - 1]));
                    let m = choose|m: int| 0 <= m < tl.len() && year_of(tl[m]) == ysg[j - 1];
                    assert(tl[m] == t[m + 1]);
                    assert(y0 >= year_of(t[m + 1]));
                } else {
                    assert(ys[i] == ysg[i - 1]);
                    assert(ys[j] == ysg[j - 1]);
                }
            }
            assert forall|y: u32| ys.contains(y) <==> has_year(t, y) by {
                if has_year(t, y) {
                    let k = choose|k: int| 0 <= k < t.len() && year_of(t[k]) == y;
                    if k == 0 {
                        assert(ys[0] == y0);
                        assert(ys.contains(y));
                    } else {
                        assert(tl[k - 1] == t[k]);
                        assert(has_year(tl, y));
                        assert(ysg.contains(y));
                        let m = choose|m: int| 0 <= m < ysg.len() && ysg[m] == y;
                        assert(ys[m + 1] == y);
                        assert(ys.contains(y));
                    }
                }
                if ys.contains(y) {
                    let m = choose|m: int| 0 <= m < ys.len() && ys[m] == y;
                    if m == 0 {
                        assert(year_of(t[0]) == y);
                        assert(has_year(t, y));
                    } else {
                        assert(ysg[m - 1] == y);
                        assert(ysg.contains(y));
                        assert(has_year(tl, y));
                        let k = choose|k: int| 0 <= k < tl.len() && year_of(tl[k]) == y;
                        assert(tl[k] == t[k + 1]);
                        assert(has_year(t, y));
                    }
                }
            }
        }
    }
}

/// The navigation index is sound and complete: the group years of an
/// arranged listing are exactly the distinct years present in the input, in
/// strictly descending order, with no duplicates.
pub proof fn lemma_navigation_years(s: Seq<Publication>)
    ensures
        strictly_decreasing(group_years(arranged(s))),
        forall|y: u32| group_years(arranged(s)).contains(y) <==> has_year(s, y),
{
    lemma_sort_desc_sorted(s);
    lemma_group_years_sorted(sort_desc(s));
    assert forall|y: u32| group_years(arranged(s)).contains(y) <==> has_year(s, y) by {
        lemma_sort_desc_years(s, y);
    }
}

} // verus!
