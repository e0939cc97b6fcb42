//! Counting the identifiers of a sequence by value, which is what the
//! offsets of a compressed layout are made of.

use crate::element::MxElement;
use crate::model::values_sorted;
use vstd::prelude::*;

verus! {

/// How many identifiers of `s` stand for a number below `v`.
pub open spec fn count_below<T: MxElement>(s: Seq<T>, v: int) -> nat
    decreases s.len(),
{
    if s.len() == 0 {
        0
    } else {
        count_below(s.drop_last(), v) + (if s.last().value() < v {
            1nat
        } else {
            0nat
        })
    }
}

/// How many identifiers of `s` stand for the number `v`.
pub open spec fn count_eq<T: MxElement>(s: Seq<T>, v: int) -> nat
    decreases s.len(),
{
    if s.len() == 0 {
        0
    } else {
        count_eq(s.drop_last(), v) + (if s.last().value() == v {
            1nat
        } else {
            0nat
        })
    }
}

/// Where a counting sort by source puts the `j`-th entry: behind every
/// entry with a smaller source, and behind the earlier entries with the
/// same source.
pub open spec fn slot<T: MxElement>(sources: Seq<T>, j: int) -> int {
    (count_below(sources, sources[j].value() as int) + count_eq(
        sources.take(j),
        sources[j].value() as int,
    )) as int
}

/// The identifiers below `v` and those equal to `v` are disjoint parts of `s`.
pub proof fn lemma_count_bounds<T: MxElement>(s: Seq<T>, v: int)
    ensures
        count_below(s, v) + count_eq(s, v) <= s.len(),
    decreases s.len(),
{
    if s.len() > 0 {
        lemma_count_bounds(s.drop_last(), v);
    }
}

/// Below `v + 1` means below `v` or equal to `v`.
pub proof fn lemma_count_below_succ<T: MxElement>(s: Seq<T>, v: int)
    ensures
        count_below(s, v + 1) == count_below(s, v) + count_eq(s, v),
    decreases s.len(),
{
    if s.len() > 0 {
        lemma_count_below_succ(s.drop_last(), v);
    }
}

/// A larger bound counts at least as many identifiers.
pub proof fn lemma_count_below_monotone<T: MxElement>(s: Seq<T>, v: int, w: int)
    requires
        v <= w,
    ensures
        count_below(s, v) <= count_below(s, w),
    decreases s.len(),
{
    if s.len() > 0 {
        lemma_count_below_monotone(s.drop_last(), v, w);
    }
}

/// No identifier stands for a number below zero.
pub proof fn lemma_count_below_zero<T: MxElement>(s: Seq<T>)
    ensures
        count_below(s, 0) == 0,
    decreases s.len(),
{
    if s.len() > 0 {
        lemma_count_below_zero(s.drop_last());
    }
}

/// Where every identifier is below `v`, all of them are counted.
pub proof fn lemma_count_below_all<T: MxElement>(s: Seq<T>, v: int)
    requires
        forall|k: int| 0 <= k < s.len() ==> (#[trigger] s[k]).value() < v,
    ensures
        count_below(s, v) == s.len(),
    decreases s.len(),
{
    if s.len() > 0 {
        lemma_count_below_all(s.drop_last(), v);
    }
}

/// Taking one more entry into a prefix raises the count of that entry's
/// value by one and leaves every other count as it was.
pub proof fn lemma_count_eq_extend<T: MxElement>(s: Seq<T>, j: int)
    requires
        0 <= j < s.len(),
    ensures
        forall|v: int|
            #[trigger] count_eq(s.take(j + 1), v) == count_eq(s.take(j), v) + (if s[j].value()
                == v {
                1nat
            } else {
                0nat
            }),
{
    assert(s.take(j + 1).drop_last() =~= s.take(j));
}

/// A longer prefix counts at least as many occurrences of `v`.
pub proof fn lemma_count_eq_prefix<T: MxElement>(s: Seq<T>, j: int, k: int, v: int)
    requires
        0 <= j <= k <= s.len(),
    ensures
        count_eq(s.take(j), v) <= count_eq(s.take(k), v),
    decreases k - j,
{
    if j < k {
        lemma_count_eq_prefix(s, j, k - 1, v);
        assert(s.take(k).drop_last() =~= s.take(k - 1));
    }
}

/// The slot of every entry lies within the range that the offsets reserve
/// for its source.
pub proof fn lemma_slot_in_row<T: MxElement>(sources: Seq<T>, j: int)
    requires
        0 <= j < sources.len(),
    ensures
        count_below(sources, sources[j].value() as int) <= slot(sources, j) < count_below(
            sources,
            sources[j].value() as int + 1,
        ) <= sources.len(),
{
    let v = sources[j].value() as int;
    lemma_count_eq_extend(sources, j);
    lemma_count_eq_prefix(sources, j + 1, sources.len() as int, v);
    assert(sources.take(sources.len() as int) =~= sources);
    lemma_count_below_succ(sources, v);
    lemma_count_bounds(sources, v);
}

/// Two entries never share a slot.
pub proof fn lemma_slots_distinct<T: MxElement>(sources: Seq<T>, j: int, k: int)
    requires
        0 <= j < k < sources.len(),
    ensures
        slot(sources, j) != slot(sources, k),
{
    let a = sources[j].value() as int;
    let b = sources[k].value() as int;
    lemma_slot_in_row(sources, j);
    lemma_slot_in_row(sources, k);
    if a == b {
        lemma_count_eq_extend(sources, j);
        lemma_count_eq_prefix(sources, j + 1, k, a);
    } else if a < b {
        lemma_count_below_monotone(sources, a + 1, b);
    } else {
        lemma_count_below_monotone(sources, b + 1, a);
    }
}

/// What stands behind a prefix does not count below `v` if none of it is
/// below `v`.
proof fn lemma_count_below_prefix<T: MxElement>(s: Seq<T>, j: int, v: int)
    requires
        0 <= j <= s.len(),
        forall|k: int| j <= k < s.len() ==> (#[trigger] s[k]).value() >= v,
    ensures
        count_below(s, v) == count_below(s.take(j), v),
    decreases s.len() - j,
{
    if j < s.len() {
        assert(s.drop_last().take(j) =~= s.take(j));
        lemma_count_below_prefix(s.drop_last(), j, v);
    } else {
        assert(s.take(j) =~= s);
    }
}

/// Where no identifier is above `v`, each is below `v` or equal to it.
proof fn lemma_count_up_to<T: MxElement>(s: Seq<T>, v: int)
    requires
        forall|k: int| 0 <= k < s.len() ==> (#[trigger] s[k]).value() <= v,
    ensures
        count_below(s, v) + count_eq(s, v) == s.len(),
    decreases s.len(),
{
    if s.len() > 0 {
        lemma_count_up_to(s.drop_last(), v);
    }
}

/// In a sequence that ascends by value every entry already stands in its
/// slot.
pub proof fn lemma_sorted_slot<T: MxElement>(sources: Seq<T>, j: int)
    requires
        values_sorted(sources),
        0 <= j < sources.len(),
    ensures
        slot(sources, j) == j,
{
    let v = sources[j].value() as int;
    lemma_count_below_prefix(sources, j, v);
    lemma_count_up_to(sources.take(j), v);
}

} // verus!
