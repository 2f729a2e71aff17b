//! Ordering and de-duplication of event lists.
use vstd::prelude::*;
use crate::fact::{Fact, same_fact, same_facts};

verus! {

/// `f` placed into `s` after the last element not later than it, counting
/// from the end: the step of a stable insertion sort by time.
pub open spec fn insert_by_time(s: Seq<Fact>, f: Fact) -> Seq<Fact>
    decreases s.len(),
{
    if s.len() == 0 {
        seq![f]
    } else if s.last().time().instant() <= f.time().instant() {
        s.push(f)
    } else {
        insert_by_time(s.drop_last(), f).push(s.last())
    }
}

/// The events in ascending time order, events with equal times kept in the
/// order they had.
pub open spec fn sort_by_time(s: Seq<Fact>) -> Seq<Fact>
    decreases s.len(),
{
    if s.len() == 0 {
        s
    } else {
        insert_by_time(sort_by_time(s.drop_last()), s.last())
    }
}

/// Whether the events are in ascending time order.
pub open spec fn sorted_by_time(s: Seq<Fact>) -> bool {
    forall|i: int, j: int| 0 <= i < j < s.len() ==> s[i].time().instant() <= s[j].time().instant()
}

/// Whether no earlier event of `s` is structurally equal to `s[i]`.
pub open spec fn is_first_occurrence(s: Seq<Fact>, i: int) -> bool {
    forall|j: int| 0 <= j < i ==> !same_fact(#[trigger] s[j], s[i])
}

/// The first occurrences of `s`, in their order.
pub open spec fn deduplicate(s: Seq<Fact>) -> Seq<Fact>
    decreases s.len(),
{
    if s.len() == 0 {
        s
    } else if is_first_occurrence(s, s.len() - 1) {
        deduplicate(s.drop_last()).push(s.last())
    } else {
        deduplicate(s.drop_last())
    }
}

/// Structural equality of events is an equivalence.
pub proof fn lemma_same_fact_equivalence(a: Fact, b: Fact, c: Fact)
    ensures
        same_fact(a, a),
        same_fact(a, b) ==> same_fact(b, a),
        same_fact(a, b) && same_fact(b, c) ==> same_fact(a, c),
        same_fact(a, b) ==> a.time() == b.time(),
{
}

/// Where the scan from the end stops is where `insert_by_time` puts `f`.
proof fn lemma_insert_position(s: Seq<Fact>, f: Fact, p: int)
    requires
        0 <= p <= s.len(),
        forall|j: int| p <= j < s.len() ==> (#[trigger] s[j]).time().instant() > f.time().instant(),
        p == 0 || s[p - 1].time().instant() <= f.time().instant(),
    ensures
        insert_by_time(s, f) == s.insert(p, f),
    decreases s.len(),
{
    if s.len() == 0 {
        assert(s.insert(p, f) =~= seq![f]);
    } else if p == s.len() {
        assert(s.insert(p, f) =~= s.push(f));
    } else {
        assert(s[s.len() - 1] == s.last());
        assert forall|j: int| p <= j < s.drop_last().len() implies (#[trigger] s.drop_last()[j]).time().instant()
            > f.time().instant() by {
            assert(s[j] == s.drop_last()[j]);
        }
        if p > 0 {
            assert(s.drop_last()[p - 1] == s[p - 1]);
        }
        lemma_insert_position(s.drop_last(), f, p);
        assert(s.insert(p, f) =~= s.drop_last().insert(p, f).push(s.last()));
    }
}

/// Inserting structurally equal events into structurally equal lists gives
/// structurally equal lists.
proof fn lemma_insert_respects_same(a: Seq<Fact>, b: Seq<Fact>, x: Fact, y: Fact)
    requires
        same_facts(a, b),
        same_fact(x, y),
    ensures
        same_facts(insert_by_time(a, x), insert_by_time(b, y)),
    decreases a.len(),
{
    lemma_same_fact_equivalence(x, y, x);
    if a.len() > 0 {
        assert(same_fact(a[a.len() - 1], b[b.len() - 1]));
        lemma_same_fact_equivalence(a.last(), b.last(), a.last());
        assert forall|i: int| 0 <= i < a.drop_last().len() implies same_fact(
            #[trigger] a.drop_last()[i],
            b.drop_last()[i],
        ) by {
            assert(same_fact(a[i], b[i]));
        }
        lemma_insert_respects_same(a.drop_last(), b.drop_last(), x, y);
        let ia = insert_by_time(a, x);
        let ib = insert_by_time(b, y);
        assert forall|i: int| 0 <= i < ia.len() implies same_fact(#[trigger] ia[i], ib[i]) by {
            if a.last().time().instant() > x.time().instant() && i < ia.len() - 1 {
                assert(same_fact(insert_by_time(a.drop_last(), x)[i], insert_by_time(b.drop_last(), y)[i]));
            }
        }
    }
}

/// Sorting structurally equal lists gives structurally equal lists.
pub proof fn lemma_sort_respects_same(a: Seq<Fact>, b: Seq<Fact>)
    requires
        same_facts(a, b),
    ensures
        same_facts(sort_by_time(a), sort_by_time(b)),
    decreases a.len(),
{
    if a.len() > 0 {
        assert forall|i: int| 0 <= i < a.drop_last().len() implies same_fact(
            #[trigger] a.drop_last()[i],
            b.drop_last()[i],
        ) by {
            assert(same_fact(a[i], b[i]));
        }
        lemma_sort_respects_same(a.drop_last(), b.drop_last());
        assert(same_fact(a[a.len() - 1], b[b.len() - 1]));
        lemma_insert_respects_same(
            sort_by_time(a.drop_last()),
            sort_by_time(b.drop_last()),
            a.last(),
            b.last(),
        );
    }
}

/// Sorts the events by time, ascending; events with equal times keep their
/// relative order.
pub fn sort_facts_by_time(facts: &mut Vec<Fact>)
    ensures
        final(facts)@ == sort_by_time(old(facts)@),
{
    let ghost orig = facts@;
    let mut out: Vec<Fact> = Vec::new();
    let ghost mut i: int = 0;
    while facts.len() > 0
        invariant
            0 <= i <= orig.len(),
            facts@ == orig.skip(i),
            out@ == sort_by_time(orig.take(i)),
        decreases facts@.len(),
    {
        let f = facts.remove(0);
        let key = f.timestamp();
        let mut p = out.len();
        let mut stop = false;
        while p > 0 && !stop
            invariant
                p <= out@.len(),
                forall|j: int| p <= j < out@.len() ==> (#[trigger] out@[j]).time().instant() > key.instant(),
                stop ==> p > 0 && out@[p - 1].time().instant() <= key.instant(),
            decreases p, if stop { 0int } else { 1int },
        {
            if out[p - 1].timestamp().at_or_before(&key) {
                stop = true;
            } else {
                p = p - 1;
            }
        }
        proof {
            assert(f == orig[i]);
            lemma_insert_position(out@, f, p as int);
            assert(orig.take(i + 1).drop_last() =~= orig.take(i));
            assert(orig.take(i + 1).last() == f);
            assert(orig.skip(i + 1) =~= orig.skip(i).remove(0));
        }
        out.insert(p, f);
        proof {
            i = i + 1;
        }
    }
    proof {
        assert(orig.take(i) =~= orig);
    }
    *facts = out;
}

/// The positions of the first occurrences of `s`, in increasing order.
pub open spec fn first_occurrence_positions(s: Seq<Fact>) -> Seq<int>
    decreases s.len(),
{
    if s.len() == 0 {
        Seq::empty()
    } else if is_first_occurrence(s, s.len() - 1) {
        first_occurrence_positions(s.drop_last()).push(s.len() - 1)
    } else {
        first_occurrence_positions(s.drop_last())
    }
}

/// De-duplication keeps exactly the first occurrences, in their order: the
/// k-th element kept is the element at the k-th first-occurrence position,
/// those positions increase, and every first occurrence is kept. No two kept
/// events are structurally equal, and every event has a structurally equal
/// one among those kept.
pub proof fn lemma_deduplicate_keeps_first_occurrences(s: Seq<Fact>)
    ensures
        deduplicate(s).len() == first_occurrence_positions(s).len(),
        forall|k: int|
            0 <= k < deduplicate(s).len() ==> {
                let j = #[trigger] first_occurrence_positions(s)[k];
                &&& 0 <= j < s.len()
                &&& deduplicate(s)[k] == s[j]
                &&& is_first_occurrence(s, j)
            },
        forall|a: int, b: int|
            0 <= a < b < first_occurrence_positions(s).len() ==> #[trigger] first_occurrence_positions(
                s,
            )[a] < #[trigger] first_occurrence_positions(s)[b],
        forall|j: int|
            0 <= j < s.len() && is_first_occurrence(s, j) ==> #[trigger] first_occurrence_positions(
                s,
            ).contains(j),
        forall|a: int, b: int|
            0 <= a < b < deduplicate(s).len() ==> !same_fact(
                #[trigger] deduplicate(s)[a],
                #[trigger] deduplicate(s)[b],
            ),
        forall|j: int|
            0 <= j < s.len() ==> exists|k: int|
                0 <= k < deduplicate(s).len() && same_fact(#[trigger] deduplicate(s)[k], #[trigger] s[j]),
    decreases s.len(),
{
    if s.len() > 0 {
        let t = s.drop_last();
        let n = s.len() - 1;
        lemma_deduplicate_keeps_first_occurrences(t);
        let d = deduplicate(s);
        let pos = first_occurrence_positions(s);
        let dt = deduplicate(t);
        let pt = first_occurrence_positions(t);
        assert forall|j: int| 0 <= j < n implies is_first_occurrence(s, j) == is_first_occurrence(
            t,
            j,
        ) by {
            assert forall|i: int| 0 <= i < j implies s[i] == t[i] by {}
            assert(s[j] == t[j]);
            if is_first_occurrence(t, j) {
                assert forall|i: int| 0 <= i < j implies !same_fact(#[trigger] s[i], s[j]) by {
                    assert(!same_fact(t[i], t[j]));
                }
            }
            if is_first_occurrence(s, j) {
                assert forall|i: int| 0 <= i < j implies !same_fact(#[trigger] t[i], t[j]) by {
                    assert(!same_fact(s[i], s[j]));
                }
            }
        }
        assert forall|k: int| 0 <= k < dt.len() implies 0 <= pt[k] < n && dt[k] == s[pt[k]]
            && is_first_occurrence(s, pt[k]) by {
            assert(t[pt[k]] == s[pt[k]]);
        }
        if is_first_occurrence(s, n) {
            assert(s[n] == s.last());
            assert forall|j: int| 0 <= j < s.len() && is_first_occurrence(s, j) implies pos.contains(j) by {
                if j < n {
                    assert(pt.contains(j));
                    let k = choose|k: int| 0 <= k < pt.len() && pt[k] == j;
                    assert(pos[k] == j);
                } else {
                    assert(pos[pt.len() as int] == j);
                }
            }
            assert forall|a: int, b: int| 0 <= a < b < d.len() implies !same_fact(
                #[trigger] d[a],
                #[trigger] d[b],
            ) by {
                if b == d.len() - 1 {
                    let j = pt[a];
                    assert(d[a] == s[j]);
                    assert(!same_fact(s[j], s[n]));
                    lemma_same_fact_equivalence(s[j], s[n], s[j]);
                } else {
                    assert(d[a] == dt[a] && d[b] == dt[b]);
                }
            }
            assert forall|j: int| 0 <= j < s.len() implies exists|k: int|
                0 <= k < d.len() && same_fact(#[trigger] d[k], #[trigger] s[j]) by {
                if j < n {
                    assert(t[j] == s[j]);
                    let k = choose|k: int| 0 <= k < dt.len() && same_fact(#[trigger] dt[k], t[j]);
                    assert(d[k] == dt[k]);
                } else {
                    lemma_same_fact_equivalence(s[n], s[n], s[n]);
                    assert(d[d.len() - 1] == s[n]);
                }
            }
        } else {
            assert forall|j: int| 0 <= j < s.len() && is_first_occurrence(s, j) implies pos.contains(j) by {
                if j < n {
                    assert(pt.contains(j));
                }
            }
            assert forall|j: int| 0 <= j < s.len() implies exists|k: int|
                0 <= k < d.len() && same_fact(#[trigger] d[k], #[trigger] s[j]) by {
                if j < n {
                    assert(t[j] == s[j]);
                    let k = choose|k: int| 0 <= k < dt.len() && same_fact(#[trigger] dt[k], t[j]);
                } else {
                    let i = choose|i: int| 0 <= i < n && same_fact(#[trigger] s[i], s[n]);
                    assert(t[i] == s[i]);
                    let k = choose|k: int| 0 <= k < dt.len() && same_fact(#[trigger] dt[k], t[i]);
                    lemma_same_fact_equivalence(dt[k], s[i], s[n]);
                }
            }
        }
    }
}

/// The events with structural duplicates removed, first occurrences kept in
/// their order.
pub fn deduplicate_facts(facts: Vec<Fact>) -> (r: Vec<Fact>)
    ensures
        r@ == deduplicate(facts@),
{
    let ghost orig = facts@;
    let mut facts = facts;
    let mut result: Vec<Fact> = Vec::new();
    let ghost mut i: int = 0;
    while facts.len() > 0
        invariant
            0 <= i <= orig.len(),
            facts@ == orig.skip(i),
            result@ == deduplicate(orig.take(i)),
        decreases facts@.len(),
    {
        let f = facts.remove(0);
        let mut seen = false;
        let mut k: usize = 0;
        while k < result.len()
            invariant
                k <= result@.len(),
                seen == exists|j: int| 0 <= j < k && same_fact(#[trigger] result@[j], f),
            decreases result@.len() - k,
        {
            if result[k].same_as(&f) {
                seen = true;
            }
            k = k + 1;
        }
        proof {
            let t = orig.take(i);
            let s = orig.take(i + 1);
            assert(f == orig[i]);
            assert(s.drop_last() =~= t);
            assert(s.last() == f);
            lemma_deduplicate_keeps_first_occurrences(t);
            if seen {
                let j = choose|j: int| 0 <= j < result@.len() && same_fact(#[trigger] result@[j], f);
                let q = first_occurrence_positions(t)[j];
                assert(s[q] == t[q]);
                assert(!is_first_occurrence(s, i));
            } else {
                assert forall|q: int| 0 <= q < i implies !same_fact(#[trigger] s[q], s[i]) by {
                    assert(s[q] == t[q]);
                    if same_fact(t[q], f) {
                        let j = choose|j: int| 0 <= j < result@.len() && same_fact(#[trigger] result@[j], t[q]);
                        lemma_same_fact_equivalence(result@[j], t[q], f);
                    }
                }
            }
            assert(orig.skip(i + 1) =~= orig.skip(i).remove(0));
        }
        if !seen {
            result.push(f);
        }
        proof {
            i = i + 1;
        }
    }
    proof {
        assert(orig.take(i) =~= orig);
    }
    result
}

/// De-duplicating structurally equal lists gives structurally equal lists.
pub proof fn lemma_deduplicate_respects_same(a: Seq<Fact>, b: Seq<Fact>)
    requires
        same_facts(a, b),
    ensures
        same_facts(deduplicate(a), deduplicate(b)),
    decreases a.len(),
{
    if a.len() > 0 {
        let n = a.len() - 1;
        assert forall|i: int| 0 <= i < a.drop_last().len() implies same_fact(
            #[trigger] a.drop_last()[i],
            b.drop_last()[i],
        ) by {
            assert(same_fact(a[i], b[i]));
        }
        lemma_deduplicate_respects_same(a.drop_last(), b.drop_last());
        assert(same_fact(a[n], b[n]));
        if is_first_occurrence(a, n) {
            assert forall|j: int| 0 <= j < n implies !same_fact(#[trigger] b[j], b[n]) by {
                assert(!same_fact(a[j], a[n]));
                assert(same_fact(a[j], b[j]));
                lemma_same_fact_equivalence(a[j], b[j], b[n]);
                lemma_same_fact_equivalence(a[n], b[n], a[n]);
                lemma_same_fact_equivalence(a[j], b[n], a[n]);
            }
        }
        if is_first_occurrence(b, n) {
            assert forall|j: int| 0 <= j < n implies !same_fact(#[trigger] a[j], a[n]) by {
                assert(!same_fact(b[j], b[n]));
                assert(same_fact(a[j], b[j]));
                lemma_same_fact_equivalence(a[j], b[j], a[j]);
                lemma_same_fact_equivalence(b[j], a[j], a[n]);
                lemma_same_fact_equivalence(b[j], a[n], b[n]);
            }
        }
        assert(a[n] == a.last() && b[n] == b.last());
    }
}

/// Inserting into a sorted list keeps it sorted.
proof fn lemma_insert_keeps_sorted(s: Seq<Fact>, f: Fact)
    requires
        sorted_by_time(s),
    ensures
        sorted_by_time(insert_by_time(s, f)),
        insert_by_time(s, f).to_multiset() == s.to_multiset().insert(f),
    decreases s.len(),
{
    broadcast use vstd::seq_lib::group_to_multiset_ensures;

    if s.len() > 0 {
        let t = s.drop_last();
        assert(s =~= t.push(s.last()));
        if s.last().time().instant() > f.time().instant() {
            lemma_insert_keeps_sorted(t, f);
            let it = insert_by_time(t, f);
            assert forall|x: Fact| it.contains(x) implies x.time().instant() <= s.last().time().instant() by {
                assert(it.to_multiset().count(x) > 0);
                if x != f {
                    assert(t.to_multiset().count(x) > 0);
                    assert(t.contains(x));
                    let j = choose|j: int| 0 <= j < t.len() && t[j] == x;
                    assert(s[j] == x);
                    assert(s[s.len() - 1] == s.last());
                }
            }
            let r = it.push(s.last());
            assert forall|i: int, j: int| 0 <= i < j < r.len() implies r[i].time().instant()
                <= r[j].time().instant() by {
                if j == r.len() - 1 {
                    assert(it.contains(r[i]));
                }
            }
            assert(r.to_multiset() =~= s.to_multiset().insert(f));
        } else {
            let r = s.push(f);
            assert forall|i: int, j: int| 0 <= i < j < r.len() implies r[i].time().instant()
                <= r[j].time().instant() by {
                if j == r.len() - 1 && i < s.len() - 1 {
                    assert(s[i].time().instant() <= s[s.len() - 1].time().instant());
                }
            }
        }
    } else {
        assert(seq![f] =~= Seq::<Fact>::empty().push(f));
    }
}

/// Sorting by time orders the events by time and keeps each of them, as
/// often as it occurs.
pub proof fn lemma_sort_by_time_sorts(s: Seq<Fact>)
    ensures
        sorted_by_time(sort_by_time(s)),
        sort_by_time(s).to_multiset() == s.to_multiset(),
    decreases s.len(),
{
    broadcast use vstd::seq_lib::group_to_multiset_ensures;

    if s.len() > 0 {
        lemma_sort_by_time_sorts(s.drop_last());
        lemma_insert_keeps_sorted(sort_by_time(s.drop_last()), s.last());
        assert(s =~= s.drop_last().push(s.last()));
    }
}

} // verus!
