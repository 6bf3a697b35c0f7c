//! The merge engine: interleaves the classified items of many sources into
//! one sequence, smallest head first.
//!
//! The total order is timestamp-primary: an absent timestamp sorts strictly
//! below every present one, and ties — equal timestamps, or two absent ones
//! — are broken by byte-wise comparison of the rendered line text. Among
//! sources whose heads compare equal, the earliest source wins, so the merge
//! is a function of its inputs and re-running it reproduces the same output.

use vstd::prelude::*;
use vstd::multiset::Multiset;
use crate::scan::copy_range;
use crate::Timestamp;

verus! {

/// One classified line: its timestamp, if one was recognized, and the
/// rendered text.
pub struct MergeItem {
    pub ts: Option<Timestamp>,
    pub line: Vec<u8>,
}

/// The mathematical image of an item: optional microsecond value and byte
/// sequence.
pub open spec fn item_v(it: MergeItem) -> (Option<int>, Seq<u8>) {
    (
        match it.ts {
            None => None,
            Some(t) => Some(t.micros as int),
        },
        it.line@,
    )
}

pub open spec fn items_v(s: Seq<MergeItem>) -> Seq<(Option<int>, Seq<u8>)> {
    s.map_values(|it: MergeItem| item_v(it))
}

pub open spec fn sources_v(ss: Seq<Vec<MergeItem>>) -> Seq<Seq<(Option<int>, Seq<u8>)>> {
    ss.map_values(|v: Vec<MergeItem>| items_v(v@))
}

/// Timestamp order: absence sorts below every present timestamp.
pub open spec fn ts_lt(a: Option<int>, b: Option<int>) -> bool {
    match b {
        None => false,
        Some(y) => match a {
            None => true,
            Some(x) => x < y,
        },
    }
}

/// Strict byte-wise lexicographic order; a proper prefix sorts first.
pub open spec fn lex_lt(a: Seq<u8>, b: Seq<u8>) -> bool
    decreases a.len(),
{
    if b.len() == 0 {
        false
    } else if a.len() == 0 {
        true
    } else if a[0] < b[0] {
        true
    } else if a[0] > b[0] {
        false
    } else {
        lex_lt(a.drop_first(), b.drop_first())
    }
}

/// The merge's total order, strictly: timestamp first, text as tie-break.
pub open spec fn item_lt(a: (Option<int>, Seq<u8>), b: (Option<int>, Seq<u8>)) -> bool {
    ts_lt(a.0, b.0) || (a.0 == b.0 && lex_lt(a.1, b.1))
}

pub proof fn lemma_lex_lt_trans(a: Seq<u8>, b: Seq<u8>, c: Seq<u8>)
    requires
        lex_lt(a, b),
        lex_lt(b, c),
    ensures
        lex_lt(a, c),
    decreases a.len(),
{
    if a.len() != 0 && c.len() != 0 {
        if a[0] == b[0] && b[0] == c[0] {
            lemma_lex_lt_trans(a.drop_first(), b.drop_first(), c.drop_first());
        }
    }
}

pub proof fn lemma_lex_lt_irrefl(a: Seq<u8>)
    ensures
        !lex_lt(a, a),
    decreases a.len(),
{
    if a.len() > 0 {
        lemma_lex_lt_irrefl(a.drop_first());
    }
}

pub proof fn lemma_item_lt_irrefl(a: (Option<int>, Seq<u8>))
    ensures
        !item_lt(a, a),
{
    lemma_lex_lt_irrefl(a.1);
}

pub proof fn lemma_item_lt_trans(
    a: (Option<int>, Seq<u8>),
    b: (Option<int>, Seq<u8>),
    c: (Option<int>, Seq<u8>),
)
    requires
        item_lt(a, b),
        item_lt(b, c),
    ensures
        item_lt(a, c),
{
    if a.0 == b.0 && b.0 == c.0 {
        lemma_lex_lt_trans(a.1, b.1, c.1);
    }
}

/// The index of the smallest head among sources `i` onward, given that
/// `best` is the smallest so far (or -1 when every earlier source is empty).
/// A strictly smaller head replaces the best, so the earliest of equal heads
/// wins.
pub open spec fn pick_from(ss: Seq<Seq<(Option<int>, Seq<u8>)>>, i: int, best: int) -> int
    recommends
        0 <= i,
    decreases ss.len() - i,
{
    if i >= ss.len() {
        best
    } else {
        let nb = if ss[i].len() == 0 {
            best
        } else if best < 0 {
            i
        } else if item_lt(ss[i][0], ss[best][0]) {
            i
        } else {
            best
        };
        pick_from(ss, i + 1, nb)
    }
}

/// The source whose head the merge emits next, or -1 when all are empty.
pub open spec fn pick(ss: Seq<Seq<(Option<int>, Seq<u8>)>>) -> int {
    pick_from(ss, 0, -1)
}

pub proof fn lemma_pick_from_props(ss: Seq<Seq<(Option<int>, Seq<u8>)>>, i: int, best: int)
    requires
        0 <= i <= ss.len(),
        best >= 0 ==> best < ss.len() && ss[best].len() > 0 && (forall|j: int|
            0 <= j < i && ss[j].len() > 0 ==> !item_lt(ss[j][0], ss[best][0])),
        best < 0 ==> best == -1 && (forall|j: int| 0 <= j < i ==> ss[j].len() == 0),
    ensures
        (if pick_from(ss, i, best) < 0 {
            forall|j: int| 0 <= j < ss.len() ==> ss[j].len() == 0
        } else {
            let p = pick_from(ss, i, best);
            &&& 0 <= p < ss.len()
            &&& ss[p].len() > 0
            &&& forall|j: int|
                0 <= j < ss.len() && ss[j].len() > 0 ==> !item_lt(ss[j][0], ss[p][0])
        }),
    decreases ss.len() - i,
{
    if i < ss.len() {
        let nb = if ss[i].len() == 0 {
            best
        } else if best < 0 {
            i
        } else if item_lt(ss[i][0], ss[best][0]) {
            i
        } else {
            best
        };
        if ss[i].len() > 0 {
            lemma_item_lt_irrefl(ss[i][0]);
        }
        if best >= 0 && ss[i].len() > 0 && item_lt(ss[i][0], ss[best][0]) {
            assert forall|j: int| 0 <= j < i + 1 && ss[j].len() > 0 implies !item_lt(
                ss[j][0],
                ss[nb][0],
            ) by {
                if j < i && item_lt(ss[j][0], ss[i][0]) {
                    lemma_item_lt_trans(ss[j][0], ss[i][0], ss[best][0]);
                }
            }
        }
        lemma_pick_from_props(ss, i + 1, nb);
    }
}

/// `lemma_pick_from_props` at the merge's entry point.
pub proof fn lemma_pick_props(ss: Seq<Seq<(Option<int>, Seq<u8>)>>)
    ensures
        (if pick(ss) < 0 {
            forall|j: int| 0 <= j < ss.len() ==> ss[j].len() == 0
        } else {
            let p = pick(ss);
            &&& 0 <= p < ss.len()
            &&& ss[p].len() > 0
            &&& forall|j: int|
                0 <= j < ss.len() && ss[j].len() > 0 ==> !item_lt(ss[j][0], ss[p][0])
        }),
{
    lemma_pick_from_props(ss, 0, -1);
}

pub open spec fn total_len(ss: Seq<Seq<(Option<int>, Seq<u8>)>>) -> nat
    decreases ss.len(),
{
    if ss.len() == 0 {
        0
    } else {
        ss[0].len() + total_len(ss.drop_first())
    }
}

/// The sources after the head of source `p` has been emitted.
pub open spec fn pop_at(ss: Seq<Seq<(Option<int>, Seq<u8>)>>, p: int) -> Seq<
    Seq<(Option<int>, Seq<u8>)>,
> {
    ss.update(p, ss[p].drop_first())
}

pub proof fn lemma_total_len_update(
    ss: Seq<Seq<(Option<int>, Seq<u8>)>>,
    p: int,
    x: Seq<(Option<int>, Seq<u8>)>,
)
    requires
        0 <= p < ss.len(),
    ensures
        total_len(ss.update(p, x)) == total_len(ss) - ss[p].len() + x.len(),
    decreases ss.len(),
{
    if p == 0 {
        assert(ss.update(0, x).drop_first() =~= ss.drop_first());
    } else {
        assert(ss.update(p, x).drop_first() =~= ss.drop_first().update(p - 1, x));
        lemma_total_len_update(ss.drop_first(), p - 1, x);
    }
}

/// The merged sequence: repeatedly the smallest head, earliest source first
/// among equals, until every source is exhausted.
pub open spec fn merge_spec(ss: Seq<Seq<(Option<int>, Seq<u8>)>>) -> Seq<(Option<int>, Seq<u8>)>
    decreases total_len(ss),
    via merge_spec_dec
{
    let p = pick(ss);
    if p < 0 {
        Seq::empty()
    } else {
        seq![ss[p][0]] + merge_spec(pop_at(ss, p))
    }
}

#[via_fn]
proof fn merge_spec_dec(ss: Seq<Seq<(Option<int>, Seq<u8>)>>) {
    let p = pick(ss);
    if p >= 0 {
        lemma_pick_props(ss);
        lemma_total_len_update(ss, p, ss[p].drop_first());
    }
}

/// The merge's total order, non-strictly.
pub open spec fn item_le(a: (Option<int>, Seq<u8>), b: (Option<int>, Seq<u8>)) -> bool {
    !item_lt(b, a)
}

pub open spec fn sorted_items(s: Seq<(Option<int>, Seq<u8>)>) -> bool {
    forall|i: int, j: int| 0 <= i < j < s.len() ==> item_le(s[i], s[j])
}

pub open spec fn all_sorted(ss: Seq<Seq<(Option<int>, Seq<u8>)>>) -> bool {
    forall|k: int| 0 <= k < ss.len() ==> sorted_items(#[trigger] ss[k])
}

pub proof fn lemma_lex_lt_trichotomy(a: Seq<u8>, b: Seq<u8>)
    ensures
        lex_lt(a, b) || lex_lt(b, a) || a == b,
    decreases a.len(),
{
    if a.len() == 0 && b.len() == 0 {
        assert(a =~= b);
    } else if a.len() > 0 && b.len() > 0 && a[0] == b[0] {
        lemma_lex_lt_trichotomy(a.drop_first(), b.drop_first());
        if !lex_lt(a, b) && !lex_lt(b, a) {
            assert(a.drop_first() == b.drop_first());
            assert forall|i: int| 0 <= i < a.len() implies a[i] == b[i] by {
                if i > 0 {
                    assert(a[i] == a.drop_first()[i - 1]);
                    assert(b[i] == b.drop_first()[i - 1]);
                }
            }
            assert(a =~= b);
        }
    }
}

/// Two items neither of which is below the other are the same image.
pub proof fn lemma_item_lt_connex(a: (Option<int>, Seq<u8>), b: (Option<int>, Seq<u8>))
    requires
        !item_lt(a, b),
        !item_lt(b, a),
    ensures
        a == b,
{
    lemma_lex_lt_trichotomy(a.1, b.1);
}

pub proof fn lemma_item_le_trans(
    a: (Option<int>, Seq<u8>),
    b: (Option<int>, Seq<u8>),
    c: (Option<int>, Seq<u8>),
)
    requires
        item_le(a, b),
        item_le(b, c),
    ensures
        item_le(a, c),
{
    if item_lt(c, a) {
        if item_lt(a, b) {
            lemma_item_lt_trans(c, a, b);
        } else {
            lemma_item_lt_connex(a, b);
        }
    }
}

/// Dropping the head of the picked source keeps every source sorted.
proof fn lemma_pop_preserves(ss: Seq<Seq<(Option<int>, Seq<u8>)>>, p: int)
    requires
        0 <= p < ss.len(),
        ss[p].len() > 0,
        all_sorted(ss),
    ensures
        all_sorted(pop_at(ss, p)),
{
    let ps = pop_at(ss, p);
    assert forall|k: int| 0 <= k < ps.len() implies sorted_items(#[trigger] ps[k]) by {
        if k == p {
            assert forall|i: int, j: int| 0 <= i < j < ps[k].len() implies item_le(
                ps[k][i],
                ps[k][j],
            ) by {
                assert(ps[k][i] == ss[p][i + 1]);
                assert(ps[k][j] == ss[p][j + 1]);
            }
        }
    }
}

/// An item below every head stays below everything the merge emits.
proof fn lemma_merge_lower_bound(ss: Seq<Seq<(Option<int>, Seq<u8>)>>, x: (Option<int>, Seq<u8>))
    requires
        all_sorted(ss),
        forall|k: int| 0 <= k < ss.len() && (#[trigger] ss[k]).len() > 0 ==> item_le(x, ss[k][0]),
    ensures
        forall|i: int| 0 <= i < merge_spec(ss).len() ==> item_le(x, #[trigger] merge_spec(ss)[i]),
    decreases total_len(ss),
{
    let p = pick(ss);
    if p >= 0 {
        lemma_pick_props(ss);
        lemma_total_len_update(ss, p, ss[p].drop_first());
        lemma_pop_preserves(ss, p);
        let ps = pop_at(ss, p);
        assert forall|k: int| 0 <= k < ps.len() && (#[trigger] ps[k]).len() > 0 implies item_le(
            x,
            ps[k][0],
        ) by {
            if k == p {
                assert(ps[k][0] == ss[p][1]);
                assert(item_le(ss[p][0], ss[p][1]));
                lemma_item_le_trans(x, ss[p][0], ss[p][1]);
            }
        }
        lemma_merge_lower_bound(ps, x);
        assert forall|i: int| 0 <= i < merge_spec(ss).len() implies item_le(
            x,
            #[trigger] merge_spec(ss)[i],
        ) by {
            if i > 0 {
                assert(merge_spec(ss)[i] == merge_spec(ps)[i - 1]);
            }
        }
    }
}

/// Sources that are each non-decreasing under the merge order merge into a
/// non-decreasing sequence: the merged stream is ordered by timestamp, with
/// untimestamped items first and text as the tie-break.
pub proof fn lemma_merge_sorted(ss: Seq<Seq<(Option<int>, Seq<u8>)>>)
    requires
        all_sorted(ss),
    ensures
        sorted_items(merge_spec(ss)),
    decreases total_len(ss),
{
    let p = pick(ss);
    if p >= 0 {
        lemma_pick_props(ss);
        lemma_total_len_update(ss, p, ss[p].drop_first());
        lemma_pop_preserves(ss, p);
        let h = ss[p][0];
        let ps = pop_at(ss, p);
        assert forall|k: int| 0 <= k < ps.len() && (#[trigger] ps[k]).len() > 0 implies item_le(
            h,
            ps[k][0],
        ) by {
            if k == p {
                assert(ps[k][0] == ss[p][1]);
            } else {
                assert(!item_lt(ss[k][0], h));
            }
        }
        lemma_merge_sorted(ps);
        lemma_merge_lower_bound(ps, h);
        assert forall|i: int, j: int|
            0 <= i < j < merge_spec(ss).len() implies item_le(
            merge_spec(ss)[i],
            merge_spec(ss)[j],
        ) by {
            assert(merge_spec(ss)[j] == merge_spec(ps)[j - 1]);
            if i > 0 {
                assert(merge_spec(ss)[i] == merge_spec(ps)[i - 1]);
            }
        }
    }
}

/// The bag of items of all sources together.
pub open spec fn sources_mset(ss: Seq<Seq<(Option<int>, Seq<u8>)>>) -> Multiset<
    (Option<int>, Seq<u8>),
>
    decreases ss.len(),
{
    if ss.len() == 0 {
        Multiset::empty()
    } else {
        ss[0].to_multiset().add(sources_mset(ss.drop_first()))
    }
}

proof fn lemma_sources_mset_pop(ss: Seq<Seq<(Option<int>, Seq<u8>)>>, p: int)
    requires
        0 <= p < ss.len(),
        ss[p].len() > 0,
    ensures
        sources_mset(ss) == sources_mset(pop_at(ss, p)).insert(ss[p][0]),
    decreases ss.len(),
{
    broadcast use vstd::seq_lib::group_seq_properties;

    let ps = pop_at(ss, p);
    if p == 0 {
        assert(ss[0] =~= seq![ss[0][0]] + ss[0].drop_first());
        vstd::seq_lib::lemma_multiset_commutative(seq![ss[0][0]], ss[0].drop_first());
        assert(seq![ss[0][0]].to_multiset() =~= Multiset::empty().insert(ss[0][0]));
        assert(ps.drop_first() =~= ss.drop_first());
        assert(ss[0].to_multiset() =~= ss[0].drop_first().to_multiset().insert(ss[0][0]));
        assert(sources_mset(ss) =~= sources_mset(ps).insert(ss[p][0]));
    } else {
        assert(ps.drop_first() =~= pop_at(ss.drop_first(), p - 1));
        assert(ps[0] == ss[0]);
        lemma_sources_mset_pop(ss.drop_first(), p - 1);
        assert(sources_mset(ss) =~= sources_mset(ps).insert(ss[p][0]));
    }
}

/// The merge loses nothing and invents nothing: its output holds exactly the
/// items of all sources together, as a bag.
pub proof fn lemma_merge_permutation(ss: Seq<Seq<(Option<int>, Seq<u8>)>>)
    ensures
        merge_spec(ss).to_multiset() == sources_mset(ss),
    decreases total_len(ss),
{
    broadcast use vstd::seq_lib::group_seq_properties;

    let p = pick(ss);
    if p < 0 {
        lemma_pick_props(ss);
        assert forall|k: int| 0 <= k < ss.len() implies (#[trigger] ss[k]).to_multiset()
            =~= Multiset::empty() by {
            assert(ss[k] =~= Seq::empty());
            assert(Seq::<(Option<int>, Seq<u8>)>::empty().to_multiset() =~= Multiset::empty());
        }
        lemma_sources_mset_empty(ss);
        assert(merge_spec(ss) =~= Seq::<(Option<int>, Seq<u8>)>::empty());
        assert(merge_spec(ss).to_multiset() =~= Multiset::empty());
    } else {
        lemma_pick_props(ss);
        lemma_total_len_update(ss, p, ss[p].drop_first());
        let ps = pop_at(ss, p);
        lemma_merge_permutation(ps);
        lemma_sources_mset_pop(ss, p);
        let h = ss[p][0];
        assert(merge_spec(ss) == seq![h] + merge_spec(ps));
        vstd::seq_lib::lemma_multiset_commutative(seq![h], merge_spec(ps));
        assert(seq![h].to_multiset() =~= Multiset::empty().insert(h));
        assert(merge_spec(ss).to_multiset() =~= sources_mset(ss));
    }
}

/// Sources that are all empty hold the empty bag.
proof fn lemma_sources_mset_empty(ss: Seq<Seq<(Option<int>, Seq<u8>)>>)
    requires
        forall|k: int| 0 <= k < ss.len() ==> (#[trigger] ss[k]).to_multiset() == Multiset::<(Option<int>, Seq<u8>)>::empty(),
    ensures
        sources_mset(ss) == Multiset::<(Option<int>, Seq<u8>)>::empty(),
    decreases ss.len(),
{
    if ss.len() > 0 {
        lemma_sources_mset_empty(ss.drop_first());
        assert(sources_mset(ss) =~= Multiset::<(Option<int>, Seq<u8>)>::empty());
    }
}

/// The merge is a function of its sources: any two results that satisfy the
/// merge's contract on the same sources are the same sequence, so re-running
/// the merge reproduces its output byte for byte.
pub proof fn lemma_merge_deterministic(
    ss: Seq<Seq<(Option<int>, Seq<u8>)>>,
    r1: Seq<(Option<int>, Seq<u8>)>,
    r2: Seq<(Option<int>, Seq<u8>)>,
)
    requires
        r1 == merge_spec(ss),
        r2 == merge_spec(ss),
    ensures
        r1 == r2,
{
}

/// Compares two byte vectors in the lexicographic order.
fn lex_lt_exec(a: &Vec<u8>, b: &Vec<u8>) -> (r: bool)
    ensures
        r == lex_lt(a@, b@),
{
    proof {
        assert(a@.skip(0) =~= a@);
        assert(b@.skip(0) =~= b@);
    }
    let mut i: usize = 0;
    loop
        invariant
            0 <= i <= a@.len(),
            0 <= i <= b@.len(),
            lex_lt(a@, b@) == lex_lt(a@.skip(i as int), b@.skip(i as int)),
        decreases a@.len() - i,
    {
        if i >= b.len() {
            return false;
        }
        if i >= a.len() {
            return true;
        }
        if a[i] < b[i] {
            return true;
        }
        if a[i] > b[i] {
            return false;
        }
        proof {
            assert(a@.skip(i as int).drop_first() =~= a@.skip(i + 1));
            assert(b@.skip(i as int).drop_first() =~= b@.skip(i + 1));
        }
        i = i + 1;
    }
}

/// Compares two items in the merge's total order, strictly.
fn item_lt_exec(a: &MergeItem, b: &MergeItem) -> (r: bool)
    ensures
        r == item_lt(item_v(*a), item_v(*b)),
{
    match (&a.ts, &b.ts) {
        (Option::None, Option::Some(_)) => true,
        (Option::Some(_), Option::None) => false,
        (Option::None, Option::None) => lex_lt_exec(&a.line, &b.line),
        (Option::Some(x), Option::Some(y)) => {
            if x.micros < y.micros {
                true
            } else if y.micros < x.micros {
                false
            } else {
                lex_lt_exec(&a.line, &b.line)
            }
        },
    }
}

/// Finds the source the merge serves next, as `pick` names it.
fn find_best(srcs: &Vec<Vec<MergeItem>>) -> (r: Option<usize>)
    ensures
        (match r {
            None => pick(sources_v(srcs@)) == -1,
            Some(p) => pick(sources_v(srcs@)) == p as int,
        }),
{
    let ghost sv = sources_v(srcs@);
    let mut best: usize = 0;
    let mut found: bool = false;
    let mut i: usize = 0;
    while i < srcs.len()
        invariant
            0 <= i <= srcs@.len(),
            sv == sources_v(srcs@),
            sv.len() == srcs@.len(),
            found ==> best < i && sv[best as int].len() > 0,
            pick_from(sv, 0, -1) == pick_from(
                sv,
                i as int,
                if found {
                    best as int
                } else {
                    -1
                },
            ),
        decreases srcs@.len() - i,
    {
        let row = &srcs[i];
        if row.len() > 0 {
            if !found {
                found = true;
                best = i;
            } else {
                let brow = &srcs[best];
                if item_lt_exec(&row[0], &brow[0]) {
                    best = i;
                }
            }
        }
        i = i + 1;
    }
    if found {
        Some(best)
    } else {
        None
    }
}

/// A fresh item with the same timestamp and text.
fn clone_item(it: &MergeItem) -> (r: MergeItem)
    ensures
        item_v(r) == item_v(*it),
{
    let line = copy_range(&it.line, 0, it.line.len());
    proof {
        assert(it.line@.subrange(0, it.line@.len() as int) =~= it.line@);
    }
    MergeItem { ts: it.ts, line }
}

/// A fresh row with the same item images.
fn clone_row(row: &Vec<MergeItem>) -> (r: Vec<MergeItem>)
    ensures
        items_v(r@) == items_v(row@),
{
    let mut out: Vec<MergeItem> = Vec::new();
    let mut i: usize = 0;
    while i < row.len()
        invariant
            0 <= i <= row@.len(),
            out@.len() == i,
            forall|k: int| 0 <= k < i ==> item_v(#[trigger] out@[k]) == item_v(row@[k]),
        decreases row@.len() - i,
    {
        out.push(clone_item(&row[i]));
        i = i + 1;
    }
    proof {
        assert(items_v(out@) =~= items_v(row@));
    }
    out
}

/// Merges the sources: repeatedly emits the smallest head under the total
/// order, refilling from the source it came from, until all are exhausted.
pub fn merge_streams(sources: &Vec<Vec<MergeItem>>) -> (r: Vec<MergeItem>)
    ensures
        items_v(r@) == merge_spec(sources_v(sources@)),
{
    let ghost orig = sources_v(sources@);
    let mut srcs: Vec<Vec<MergeItem>> = Vec::new();
    let mut si: usize = 0;
    while si < sources.len()
        invariant
            0 <= si <= sources@.len(),
            srcs@.len() == si,
            forall|q: int| 0 <= q < si ==> items_v(#[trigger] srcs@[q]@) == items_v(sources@[q]@),
        decreases sources@.len() - si,
    {
        srcs.push(clone_row(&sources[si]));
        si = si + 1;
    }
    proof {
        assert(sources_v(srcs@) =~= orig);
    }
    let mut out: Vec<MergeItem> = Vec::new();
    proof {
        assert(items_v(out@) =~= Seq::<(Option<int>, Seq<u8>)>::empty());
        assert(items_v(out@) + merge_spec(sources_v(srcs@)) =~= merge_spec(sources_v(srcs@)));
    }
    loop
        invariant
            orig == sources_v(sources@),
            merge_spec(orig) == items_v(out@) + merge_spec(sources_v(srcs@)),
        decreases total_len(sources_v(srcs@)),
    {
        let ghost sv = sources_v(srcs@);
        let p = match find_best(&srcs) {
            None => {
                proof {
                    assert(merge_spec(sv) =~= Seq::<(Option<int>, Seq<u8>)>::empty());
                    assert(items_v(out@) + merge_spec(sv) =~= items_v(out@));
                    assert(merge_spec(orig) == items_v(out@));
                    assert(orig == sources_v(sources@));
                }
                return out;
            },
            Some(p) => p,
        };
        proof {
            lemma_pick_props(sv);
        }
        let ghost srcs0 = srcs@;
        let mut row = srcs.remove(p);
        let ghost row1 = row@;
        let it = row.remove(0);
        let ghost row2 = row@;
        srcs.insert(p, row);
        let ghost out0 = out@;
        out.push(it);
        proof {
            assert(row2 =~= row1.drop_first());
            assert(sources_v(srcs@) =~= pop_at(sv, p as int)) by {
                assert forall|q: int| 0 <= q < srcs0.len() implies items_v(srcs@[q]@) == pop_at(
                    sv,
                    p as int,
                )[q] by {
                    if q == p {
                        assert(srcs@[q]@ == row2);
                        assert(items_v(row1) == sv[q]);
                        assert(items_v(row2) =~= items_v(row1).drop_first());
                    } else {
                        assert(srcs@[q] == srcs0[q]);
                    }
                }
            }
            assert(item_v(it) == sv[p as int][0]);
            assert(items_v(out@) =~= items_v(out0).push(item_v(it)));
            assert(merge_spec(sv) == seq![sv[p as int][0]] + merge_spec(pop_at(sv, p as int)));
            assert(items_v(out0) + merge_spec(sv) =~= items_v(out@) + merge_spec(
                sources_v(srcs@),
            ));
            lemma_total_len_update(sv, p as int, sv[p as int].drop_first());
        }
    }
}

} // verus!
