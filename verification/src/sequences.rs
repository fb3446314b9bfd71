//! Facts about filtering and reversing sequences that the laws of the
//! queries rest on.

use vstd::prelude::*;

verus! {

/// Filtering keeps exactly the members that pass: every member of the
/// result passes and is a member of the input, and every member of the input
/// that passes is a member of the result.
pub proof fn lemma_filter_members<A>(s: Seq<A>, pred: spec_fn(A) -> bool)
    ensures
        s.filter(pred).len() <= s.len(),
        forall|i: int|
            0 <= i < s.filter(pred).len() ==> pred(#[trigger] s.filter(pred)[i]) && s.contains(
                s.filter(pred)[i],
            ),
        forall|i: int| 0 <= i < s.len() && pred(s[i]) ==> s.filter(pred).contains(#[trigger] s[i]),
    decreases s.len(),
{
    reveal(Seq::filter);
    let kept = s.filter(pred);
    if s.len() > 0 {
        let front = s.drop_last();
        let kept_front = front.filter(pred);
        lemma_filter_members(front, pred);
        assert forall|i: int| 0 <= i < kept.len() implies pred(#[trigger] kept[i]) && s.contains(
            kept[i],
        ) by {
            if i < kept_front.len() {
                assert(kept[i] == kept_front[i]);
                let j = choose|j: int| 0 <= j < front.len() && front[j] == kept_front[i];
                assert(s[j] == kept[i]);
            } else {
                assert(kept[i] == s.last());
                assert(s[s.len() - 1] == kept[i]);
            }
        }
        assert forall|i: int| 0 <= i < s.len() && pred(s[i]) implies kept.contains(
            #[trigger] s[i],
        ) by {
            if i < front.len() {
                assert(front[i] == s[i]);
                let j = choose|j: int| 0 <= j < kept_front.len() && kept_front[j] == front[i];
                assert(kept[j] == s[i]);
            } else {
                assert(kept[kept.len() - 1] == s[i]);
            }
        }
    }
}

/// A filter that every member passes keeps the sequence as it is.
pub proof fn lemma_filter_keeps_all<A>(s: Seq<A>, pred: spec_fn(A) -> bool)
    requires
        forall|i: int| 0 <= i < s.len() ==> pred(#[trigger] s[i]),
    ensures
        s.filter(pred) == s,
    decreases s.len(),
{
    reveal(Seq::filter);
    if s.len() > 0 {
        lemma_filter_keeps_all(s.drop_last(), pred);
        assert(s.drop_last().push(s.last()) =~= s);
    }
}

/// Filtering twice keeps the members that pass both filters.
pub proof fn lemma_filter_twice<A>(s: Seq<A>, first: spec_fn(A) -> bool, second: spec_fn(A) -> bool)
    ensures
        s.filter(first).filter(second) == s.filter(|a: A| first(a) && second(a)),
    decreases s.len(),
{
    reveal(Seq::filter);
    let both = |a: A| first(a) && second(a);
    if s.len() == 0 {
        assert(s.filter(first) =~= Seq::<A>::empty());
        assert(s.filter(first).filter(second) =~= s.filter(both));
    } else {
        let front = s.drop_last();
        lemma_filter_twice(front, first, second);
        if first(s.last()) {
            assert(s.filter(first).drop_last() =~= front.filter(first));
        }
    }
}

/// Filters commute: the order in which two filters are applied does not
/// matter.
pub proof fn lemma_filters_commute<A>(
    s: Seq<A>,
    first: spec_fn(A) -> bool,
    second: spec_fn(A) -> bool,
)
    ensures
        s.filter(first).filter(second) == s.filter(second).filter(first),
    decreases s.len(),
{
    reveal(Seq::filter);
    if s.len() == 0 {
        assert(s.filter(first) =~= Seq::<A>::empty());
        assert(s.filter(second) =~= Seq::<A>::empty());
    } else {
        let front = s.drop_last();
        lemma_filters_commute(front, first, second);
        if first(s.last()) {
            assert(s.filter(first).drop_last() =~= front.filter(first));
        }
        if second(s.last()) {
            assert(s.filter(second).drop_last() =~= front.filter(second));
        }
    }
}

/// Reversing twice gives the sequence back.
pub proof fn lemma_reverse_twice<A>(s: Seq<A>)
    ensures
        s.reverse().reverse() == s,
{
    assert(s.reverse().reverse() =~= s);
}

/// Filtering the reversed sequence gives the reversed filtered sequence.
pub proof fn lemma_filter_reverse<A>(s: Seq<A>, pred: spec_fn(A) -> bool)
    ensures
        s.reverse().filter(pred) == s.filter(pred).reverse(),
    decreases s.len(),
{
    reveal(Seq::filter);
    if s.len() == 0 {
        assert(s.reverse() =~= s);
        assert(s.filter(pred).reverse() =~= s.filter(pred));
    } else {
        let front = s.drop_last();
        let last = s.last();
        lemma_filter_reverse(front, pred);
        assert(s.reverse() =~= seq![last] + front.reverse());
        Seq::filter_distributes_over_add(seq![last], front.reverse(), pred);
        let single = seq![last];
        assert(single.len() == 1 && single.last() == last);
        assert(single.drop_last() =~= Seq::<A>::empty());
        assert(Seq::<A>::empty().filter(pred) =~= Seq::<A>::empty());
        if pred(last) {
            assert(seq![last].filter(pred) =~= seq![last]);
            assert(front.filter(pred).push(last).reverse() =~= seq![last] + front.filter(
                pred,
            ).reverse());
        } else {
            assert(seq![last].filter(pred) =~= Seq::<A>::empty());
            assert(Seq::<A>::empty() + front.filter(pred).reverse() =~= front.filter(
                pred,
            ).reverse());
        }
    }
}

} // verus!
