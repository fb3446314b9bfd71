//! Putting wonders in order: by build year or by name, stably, and reversed
//! on request.

use crate::data::Wonder;
use crate::sequences::{lemma_filter_members, lemma_filter_reverse, lemma_reverse_twice};
use crate::text::{
    lemma_bytes_le_reflexive, lemma_bytes_le_total, lemma_bytes_le_transitive, text_le,
    text_precedes,
};
use vstd::prelude::*;
use vstd::utf8::encode_utf8;

verus! {

/// What wonders can be ordered by.
#[derive(Clone, Copy, Debug, PartialEq, Eq, PartialOrd, Ord, Hash, Structural)]
pub enum SortBy {
    /// Oldest first.
    BuildYear,
    /// By name, in the order of code points.
    Alphabetical,
}

impl SortBy {
    /// All sort keys, in declaration order.
    pub open spec fn all_spec() -> Seq<SortBy> {
        seq![SortBy::BuildYear, SortBy::Alphabetical]
    }

    /// All sort keys, in declaration order.
    pub fn all() -> (keys: Vec<SortBy>)
        ensures
            keys@ == Self::all_spec(),
    {
        let mut keys: Vec<SortBy> = Vec::new();
        keys.push(SortBy::BuildYear);
        keys.push(SortBy::Alphabetical);
        keys
    }

    /// The listing of sort keys leaves none out.
    pub proof fn lemma_all_is_complete(key: SortBy)
        ensures
            Self::all_spec().contains(key),
    {
        let all = Self::all_spec();
        match key {
            SortBy::BuildYear => assert(all[0] == key),
            SortBy::Alphabetical => assert(all[1] == key),
        }
    }
}

/// How a request wants its wonders ordered.
#[derive(Clone, Copy, Debug, PartialEq, Eq, Structural)]
pub struct WonderParamsSorting {
    /// The key to order by; without one the order is left alone.
    pub sort_by: Option<SortBy>,
    /// Whether the ordered wonders are handed out back to front. It counts
    /// only where a key is given.
    pub sort_reverse: Option<bool>,
}

impl WonderParamsSorting {
    /// Whether the ordered wonders are handed out back to front.
    pub open spec fn reverses(&self) -> bool {
        self.sort_by is Some && self.sort_reverse == Some(true)
    }
}

/// Whether `a` may stand before `b` when ordering by `by`: whether the key of
/// `a` is the key of `b` or a smaller one.
pub open spec fn key_le(by: SortBy, a: &Wonder, b: &Wonder) -> bool {
    match by {
        SortBy::BuildYear => a.build_year <= b.build_year,
        SortBy::Alphabetical => text_le(a.name@, b.name@),
    }
}

/// Whether two wonders have the same key, so that a stable sort must keep
/// them in the order it found them in.
pub open spec fn same_key(by: SortBy, a: &Wonder, b: &Wonder) -> bool {
    key_le(by, a, b) && key_le(by, b, a)
}

/// Whether `a` may stand before `b` when ordering by `by`.
pub fn key_precedes(by: SortBy, a: &Wonder, b: &Wonder) -> (le: bool)
    ensures
        le == key_le(by, a, b),
{
    match by {
        SortBy::BuildYear => a.build_year <= b.build_year,
        SortBy::Alphabetical => text_precedes(a.name.as_str(), b.name.as_str()),
    }
}

/// Every wonder may stand before itself.
pub proof fn lemma_key_le_reflexive(by: SortBy, a: &Wonder)
    ensures
        key_le(by, a, a),
{
    lemma_bytes_le_reflexive(encode_utf8(a.name@));
}

/// Of two wonders one may stand before the other.
pub proof fn lemma_key_le_total(by: SortBy, a: &Wonder, b: &Wonder)
    ensures
        key_le(by, a, b) || key_le(by, b, a),
{
    lemma_bytes_le_total(encode_utf8(a.name@), encode_utf8(b.name@));
}

/// The order of keys is transitive.
pub proof fn lemma_key_le_transitive(by: SortBy, a: &Wonder, b: &Wonder, c: &Wonder)
    requires
        key_le(by, a, b),
        key_le(by, b, c),
    ensures
        key_le(by, a, c),
{
    if by == SortBy::Alphabetical {
        lemma_bytes_le_transitive(
            encode_utf8(a.name@),
            encode_utf8(b.name@),
            encode_utf8(c.name@),
        );
    }
}

/// Whether the keys of `wonders` never decrease from front to back.
pub open spec fn is_ordered(by: SortBy, wonders: Seq<&Wonder>) -> bool {
    forall|i: int, j: int| 0 <= i < j < wonders.len() ==> key_le(by, wonders[i], wonders[j])
}

/// Where a stable sort puts `wonder` among wonders that are in order
/// already: behind the last of them that may stand before it.
pub open spec fn insertion_point(by: SortBy, ordered: Seq<&Wonder>, wonder: &Wonder) -> int
    decreases ordered.len(),
{
    if ordered.len() == 0 {
        0
    } else if key_le(by, ordered.last(), wonder) {
        ordered.len() as int
    } else {
        insertion_point(by, ordered.drop_last(), wonder)
    }
}

/// The wonders in the order of their keys, wonders with the same key in the
/// order of the input: each wonder in turn is put into the ordered sequence
/// of those before it.
pub open spec fn sorted_by(by: SortBy, wonders: Seq<&Wonder>) -> Seq<&Wonder>
    decreases wonders.len(),
{
    if wonders.len() == 0 {
        wonders
    } else {
        let front = sorted_by(by, wonders.drop_last());
        front.insert(insertion_point(by, front, wonders.last()), wonders.last())
    }
}

/// What sorting by `params` makes of `wonders`: without a key they stay as
/// they are; with one they are ordered by it, and then reversed if asked.
pub open spec fn arranged(wonders: Seq<&Wonder>, params: WonderParamsSorting) -> Seq<&Wonder> {
    match params.sort_by {
        None => wonders,
        Some(by) => if params.reverses() {
            sorted_by(by, wonders).reverse()
        } else {
            sorted_by(by, wonders)
        },
    }
}

/// The insertion point lies within the sequence; every wonder behind it must
/// come after the new one, and the wonder just before it may stand before
/// the new one.
pub proof fn lemma_insertion_point(by: SortBy, ordered: Seq<&Wonder>, wonder: &Wonder)
    ensures
        0 <= insertion_point(by, ordered, wonder) <= ordered.len(),
        forall|k: int|
            insertion_point(by, ordered, wonder) <= k < ordered.len() ==> !key_le(
                by,
                #[trigger] ordered[k],
                wonder,
            ),
        insertion_point(by, ordered, wonder) > 0 ==> key_le(
            by,
            ordered[insertion_point(by, ordered, wonder) - 1],
            wonder,
        ),
    decreases ordered.len(),
{
    if ordered.len() > 0 && !key_le(by, ordered.last(), wonder) {
        let front = ordered.drop_last();
        lemma_insertion_point(by, front, wonder);
        assert forall|k: int|
            insertion_point(by, ordered, wonder) <= k < ordered.len() implies !key_le(
            by,
            #[trigger] ordered[k],
            wonder,
        ) by {
            if k < front.len() {
                assert(front[k] == ordered[k]);
            }
        }
        if insertion_point(by, ordered, wonder) > 0 {
            assert(front[insertion_point(by, front, wonder) - 1] == ordered[insertion_point(
                by,
                ordered,
                wonder,
            ) - 1]);
        }
    }
}

/// Sorting neither loses nor adds a wonder.
pub proof fn lemma_sorted_is_permutation(by: SortBy, wonders: Seq<&Wonder>)
    ensures
        sorted_by(by, wonders).len() == wonders.len(),
        sorted_by(by, wonders).to_multiset() == wonders.to_multiset(),
    decreases wonders.len(),
{
    broadcast use vstd::seq_lib::group_to_multiset_ensures;

    if wonders.len() > 0 {
        let front = sorted_by(by, wonders.drop_last());
        lemma_sorted_is_permutation(by, wonders.drop_last());
        lemma_insertion_point(by, front, wonders.last());
        assert(wonders.drop_last().push(wonders.last()) =~= wonders);
    }
}

/// Putting a wonder at its insertion point keeps an ordered sequence ordered.
proof fn lemma_insert_keeps_order(by: SortBy, ordered: Seq<&Wonder>, wonder: &Wonder)
    requires
        is_ordered(by, ordered),
    ensures
        is_ordered(by, ordered.insert(insertion_point(by, ordered, wonder), wonder)),
{
    let at = insertion_point(by, ordered, wonder);
    let grown = ordered.insert(at, wonder);
    lemma_insertion_point(by, ordered, wonder);
    assert forall|i: int, j: int| 0 <= i < j < grown.len() implies key_le(
        by,
        grown[i],
        grown[j],
    ) by {
        if j == at {
            assert(grown[i] == ordered[i]);
            if i < at - 1 {
                lemma_key_le_transitive(by, ordered[i], ordered[at - 1], wonder);
            }
        } else if i == at {
            assert(grown[j] == ordered[j - 1]);
            lemma_key_le_total(by, ordered[j - 1], wonder);
        } else {
            let from_i = if i < at { i } else { i - 1 };
            let from_j = if j < at { j } else { j - 1 };
            assert(grown[i] == ordered[from_i]);
            assert(grown[j] == ordered[from_j]);
        }
    }
}

/// The sorted wonders are in order.
pub proof fn lemma_sorted_is_ordered(by: SortBy, wonders: Seq<&Wonder>)
    ensures
        is_ordered(by, sorted_by(by, wonders)),
    decreases wonders.len(),
{
    if wonders.len() > 0 {
        lemma_sorted_is_ordered(by, wonders.drop_last());
        lemma_insert_keeps_order(by, sorted_by(by, wonders.drop_last()), wonders.last());
    }
}

/// Sorting leaves wonders that are in order as they are.
pub proof fn lemma_ordered_stays(by: SortBy, wonders: Seq<&Wonder>)
    requires
        is_ordered(by, wonders),
    ensures
        sorted_by(by, wonders) == wonders,
    decreases wonders.len(),
{
    if wonders.len() > 0 {
        let front = wonders.drop_last();
        lemma_front_is_ordered(by, wonders);
        lemma_ordered_stays(by, front);
        if front.len() > 0 {
            assert(front.last() == wonders[wonders.len() - 2]);
            assert(key_le(by, wonders[wonders.len() - 2], wonders[wonders.len() - 1]));
        }
        assert(front.insert(front.len() as int, wonders.last()) =~= wonders);
    }
}

/// Whether the keys of `wonders` never increase from front to back.
pub open spec fn is_descending(by: SortBy, wonders: Seq<&Wonder>) -> bool {
    forall|i: int, j: int| 0 <= i < j < wonders.len() ==> key_le(by, wonders[j], wonders[i])
}

/// What sorting makes of the wonders is in the order asked for: ascending by
/// the key, or descending if the result is reversed.
pub proof fn lemma_arranged_is_in_order(wonders: Seq<&Wonder>, params: WonderParamsSorting)
    ensures
        match params.sort_by {
            None => arranged(wonders, params) == wonders,
            Some(by) => if params.reverses() {
                is_descending(by, arranged(wonders, params))
            } else {
                is_ordered(by, arranged(wonders, params))
            },
        },
{
    if let Some(by) = params.sort_by {
        lemma_sorted_is_ordered(by, wonders);
        if params.reverses() {
            let forward = sorted_by(by, wonders);
            let backward = forward.reverse();
            assert forall|i: int, j: int| 0 <= i < j < backward.len() implies key_le(
                by,
                backward[j],
                backward[i],
            ) by {
                assert(backward[i] == forward[forward.len() - 1 - i]);
                assert(backward[j] == forward[forward.len() - 1 - j]);
            }
        }
    }
}

/// Sorting, reversed or not, neither loses nor adds a wonder.
pub proof fn lemma_arranged_is_permutation(wonders: Seq<&Wonder>, params: WonderParamsSorting)
    ensures
        arranged(wonders, params).len() == wonders.len(),
        arranged(wonders, params).to_multiset() == wonders.to_multiset(),
{
    if let Some(by) = params.sort_by {
        lemma_sorted_is_permutation(by, wonders);
        if params.reverses() {
            sorted_by(by, wonders).lemma_reverse_to_multiset();
        }
    }
}

/// The wonders of `wonders` that have the key of `like`, in their order.
pub open spec fn with_key_of<'a>(by: SortBy, wonders: Seq<&'a Wonder>, like: &Wonder) -> Seq<
    &'a Wonder,
> {
    wonders.filter(|wonder: &Wonder| same_key(by, wonder, like))
}

/// Sorting is stable: the wonders that share a key stand in the sorted
/// sequence in the order in which they stood in the input.
pub proof fn lemma_sorted_is_stable(by: SortBy, wonders: Seq<&Wonder>, like: &Wonder)
    ensures
        with_key_of(by, sorted_by(by, wonders), like) == with_key_of(by, wonders, like),
    decreases wonders.len(),
{
    reveal(Seq::filter);
    if wonders.len() > 0 {
        let same = |wonder: &Wonder| same_key(by, wonder, like);
        let last = wonders.last();
        let front = sorted_by(by, wonders.drop_last());
        let at = insertion_point(by, front, last);
        lemma_sorted_is_stable(by, wonders.drop_last(), like);
        lemma_insertion_point(by, front, last);
        let head = front.take(at);
        let tail = front.skip(at);
        assert(front.insert(at, last) =~= head.push(last) + tail);
        assert(front =~= head + tail);
        Seq::filter_distributes_over_add(head.push(last), tail, same);
        Seq::filter_distributes_over_add(head, tail, same);
        assert(head.push(last).drop_last() =~= head);
        if same_key(by, last, like) {
            assert forall|k: int| 0 <= k < tail.len() implies !same(#[trigger] tail[k]) by {
                assert(tail[k] == front[at + k]);
                if same_key(by, tail[k], like) {
                    lemma_key_le_transitive(by, tail[k], like, last);
                }
            }
            tail.lemma_all_neg_filter_empty(same);
            assert(tail.filter(same) =~= Seq::<&Wonder>::empty());
            assert(head.push(last).filter(same) + tail.filter(same) =~= (head.filter(same)
                + tail.filter(same)).push(last));
        }
    }
}

/// Sorting what is sorted already changes nothing, as long as the result is
/// not reversed.
pub proof fn lemma_sorting_twice_is_sorting_once(by: SortBy, wonders: Seq<&Wonder>)
    ensures
        sorted_by(by, sorted_by(by, wonders)) == sorted_by(by, wonders),
{
    lemma_sorted_is_ordered(by, wonders);
    lemma_ordered_stays(by, sorted_by(by, wonders));
}

/// Whether two sequences hold, for every key, the same wonders of that key
/// in the same order.
pub open spec fn same_runs(by: SortBy, a: Seq<&Wonder>, b: Seq<&Wonder>) -> bool {
    forall|like: &Wonder| #[trigger] with_key_of(by, a, like) == with_key_of(by, b, like)
}

/// A part of an ordered sequence that ends before its last wonder is ordered.
proof fn lemma_front_is_ordered(by: SortBy, wonders: Seq<&Wonder>)
    requires
        is_ordered(by, wonders),
        wonders.len() > 0,
    ensures
        is_ordered(by, wonders.drop_last()),
{
    let front = wonders.drop_last();
    assert forall|i: int, j: int| 0 <= i < j < front.len() implies key_le(
        by,
        front[i],
        front[j],
    ) by {
        assert(front[i] == wonders[i] && front[j] == wonders[j]);
    }
}

/// The last wonder of an ordered sequence has the greatest key: every wonder
/// that shares a key with a member may stand before it.
proof fn lemma_last_is_greatest(by: SortBy, wonders: Seq<&Wonder>, other: &Wonder)
    requires
        is_ordered(by, wonders),
        wonders.len() > 0,
        with_key_of(by, wonders, other).len() > 0,
    ensures
        key_le(by, other, wonders.last()),
{
    let same = |wonder: &Wonder| same_key(by, wonder, other);
    lemma_filter_members(wonders, same);
    let member = wonders.filter(same)[0];
    let at = choose|at: int| 0 <= at < wonders.len() && wonders[at] == member;
    if at < wonders.len() - 1 {
        lemma_key_le_transitive(by, other, member, wonders.last());
    }
}

/// There is one way only to order wonders stably: two ordered sequences
/// that hold, for every key, the same wonders in the same order are the same
/// sequence.
pub proof fn lemma_stable_order_is_unique(by: SortBy, a: Seq<&Wonder>, b: Seq<&Wonder>)
    requires
        is_ordered(by, a),
        is_ordered(by, b),
        same_runs(by, a, b),
    ensures
        a == b,
    decreases a.len(),
{
    reveal(Seq::filter);
    if a.len() == 0 || b.len() == 0 {
        if a.len() > 0 || b.len() > 0 {
            let longer = if a.len() > 0 { a } else { b };
            let first = longer[0];
            let same = |wonder: &Wonder| same_key(by, wonder, first);
            lemma_key_le_reflexive(by, first);
            lemma_filter_members(longer, same);
            assert(longer.filter(same).contains(longer[0]));
            assert(with_key_of(by, a, first) == with_key_of(by, b, first));
            assert(false);
        }
        assert(a =~= b);
    } else {
        let x = a.last();
        let y = b.last();
        lemma_key_le_reflexive(by, x);
        lemma_key_le_reflexive(by, y);
        assert(with_key_of(by, a, x) == with_key_of(by, b, x));
        assert(with_key_of(by, a, y) == with_key_of(by, b, y));
        assert(with_key_of(by, a, x).len() > 0);
        assert(with_key_of(by, b, y).len() > 0);
        lemma_last_is_greatest(by, b, x);
        lemma_last_is_greatest(by, a, y);
        assert(same_key(by, y, x));
        assert(with_key_of(by, a, x).last() == x);
        assert(with_key_of(by, b, x).last() == y);
        assert(x == y);
        lemma_front_is_ordered(by, a);
        lemma_front_is_ordered(by, b);
        assert forall|like: &Wonder| #[trigger]
            with_key_of(by, a.drop_last(), like) == with_key_of(by, b.drop_last(), like) by {
            assert(with_key_of(by, a, like) == with_key_of(by, b, like));
            if same_key(by, x, like) {
                assert(with_key_of(by, a, like).drop_last() =~= with_key_of(
                    by,
                    a.drop_last(),
                    like,
                ));
                assert(with_key_of(by, b, like).drop_last() =~= with_key_of(
                    by,
                    b.drop_last(),
                    like,
                ));
            }
        }
        lemma_stable_order_is_unique(by, a.drop_last(), b.drop_last());
        assert(a =~= a.drop_last().push(x));
        assert(b =~= b.drop_last().push(y));
    }
}

/// Sorting depends on nothing but, for every key, the wonders of that key
/// and their order.
pub proof fn lemma_sorted_depends_on_runs(by: SortBy, a: Seq<&Wonder>, b: Seq<&Wonder>)
    requires
        same_runs(by, a, b),
    ensures
        sorted_by(by, a) == sorted_by(by, b),
{
    lemma_sorted_is_ordered(by, a);
    lemma_sorted_is_ordered(by, b);
    assert forall|like: &Wonder| #[trigger]
        with_key_of(by, sorted_by(by, a), like) == with_key_of(by, sorted_by(by, b), like) by {
        lemma_sorted_is_stable(by, a, like);
        lemma_sorted_is_stable(by, b, like);
        assert(with_key_of(by, a, like) == with_key_of(by, b, like));
    }
    lemma_stable_order_is_unique(by, sorted_by(by, a), sorted_by(by, b));
}

/// Sorting the sorted wonders back to front is sorting the input back to
/// front.
pub proof fn lemma_sorted_reversed_sorted(by: SortBy, wonders: Seq<&Wonder>)
    ensures
        sorted_by(by, sorted_by(by, wonders).reverse()) == sorted_by(by, wonders.reverse()),
{
    assert forall|like: &Wonder| #[trigger]
        with_key_of(by, sorted_by(by, wonders).reverse(), like) == with_key_of(
            by,
            wonders.reverse(),
            like,
        ) by {
        let same = |wonder: &Wonder| same_key(by, wonder, like);
        lemma_filter_reverse(sorted_by(by, wonders), same);
        lemma_filter_reverse(wonders, same);
        lemma_sorted_is_stable(by, wonders, like);
    }
    lemma_sorted_depends_on_runs(by, sorted_by(by, wonders).reverse(), wonders.reverse());
}

/// When sorting its own result again changes nothing: always where the
/// result is not reversed; where it is reversed, exactly if the input and the
/// input back to front sort to the same sequence, which is to say that the
/// wonders of each key read the same in both directions.
pub proof fn lemma_arranging_twice(wonders: Seq<&Wonder>, params: WonderParamsSorting)
    ensures
        arranged(arranged(wonders, params), params) == arranged(wonders, params) <==> (
        params.reverses() ==> sorted_by(params.sort_by.unwrap(), wonders.reverse()) == sorted_by(
            params.sort_by.unwrap(),
            wonders,
        )),
{
    match params.sort_by {
        None => {},
        Some(by) => {
            lemma_sorting_twice_is_sorting_once(by, wonders);
            if params.reverses() {
                let once = sorted_by(by, wonders);
                lemma_sorted_reversed_sorted(by, wonders);
                lemma_reverse_twice(sorted_by(by, wonders.reverse()));
                lemma_reverse_twice(once);
            }
        },
    }
}

/// Whether no two wonders of the sequence have the same key.
pub open spec fn keys_are_distinct(by: SortBy, wonders: Seq<&Wonder>) -> bool {
    forall|i: int, j: int|
        0 <= i < j < wonders.len() ==> !same_key(by, #[trigger] wonders[i], #[trigger] wonders[j])
}

/// Among wonders with distinct keys at most one has a given key.
proof fn lemma_distinct_keys_run(by: SortBy, wonders: Seq<&Wonder>, like: &Wonder)
    requires
        keys_are_distinct(by, wonders),
    ensures
        with_key_of(by, wonders, like).len() <= 1,
    decreases wonders.len(),
{
    reveal(Seq::filter);
    if wonders.len() > 0 {
        let front = wonders.drop_last();
        let same = |wonder: &Wonder| same_key(by, wonder, like);
        assert(keys_are_distinct(by, front)) by {
            assert forall|i: int, j: int| 0 <= i < j < front.len() implies !same_key(
                by,
                #[trigger] front[i],
                #[trigger] front[j],
            ) by {
                assert(front[i] == wonders[i] && front[j] == wonders[j]);
            }
        }
        lemma_distinct_keys_run(by, front, like);
        if same_key(by, wonders.last(), like) && front.filter(same).len() > 0 {
            lemma_filter_members(front, same);
            let member = front.filter(same)[0];
            let at = choose|at: int| 0 <= at < front.len() && front[at] == member;
            assert(wonders[at] == member);
            lemma_key_le_transitive(by, member, like, wonders.last());
            lemma_key_le_transitive(by, wonders.last(), like, member);
            assert(same_key(by, wonders[at], wonders[wonders.len() - 1]));
        }
    }
}

/// Among wonders with distinct keys, such as the names of a catalogue,
/// sorting its own result again changes nothing, reversed or not.
pub proof fn lemma_arranging_twice_distinct_keys(
    wonders: Seq<&Wonder>,
    params: WonderParamsSorting,
)
    requires
        params.sort_by matches Some(by) ==> keys_are_distinct(by, wonders),
    ensures
        arranged(arranged(wonders, params), params) == arranged(wonders, params),
{
    lemma_arranging_twice(wonders, params);
    if let Some(by) = params.sort_by {
        assert forall|like: &Wonder| #[trigger]
            with_key_of(by, wonders.reverse(), like) == with_key_of(by, wonders, like) by {
            let same = |wonder: &Wonder| same_key(by, wonder, like);
            lemma_filter_reverse(wonders, same);
            lemma_distinct_keys_run(by, wonders, like);
            assert(wonders.filter(same).reverse() =~= wonders.filter(same));
        }
        lemma_sorted_depends_on_runs(by, wonders.reverse(), wonders);
    }
}

/// Puts `wonders` in the order of their keys, wonders with the same key in
/// the order they came in.
pub fn sort_by_key<'a>(wonders: &mut [&'a Wonder], by: SortBy)
    ensures
        final(wonders)@ == sorted_by(by, old(wonders)@),
{
    let n: usize = wonders.len();
    let mut i: usize = 0;
    proof {
        assert(wonders@.take(0) =~= sorted_by(by, old(wonders)@.take(0)));
    }
    while i < n
        invariant
            i <= n,
            n == wonders@.len(),
            n == old(wonders)@.len(),
            wonders@.take(i as int) == sorted_by(by, old(wonders)@.take(i as int)),
            forall|k: int| i <= k < n ==> wonders@[k] == old(wonders)@[k],
        decreases n - i,
    {
        let wonder: &'a Wonder = wonders[i];
        let ghost prefix = wonders@.take(i as int);
        let ghost before = wonders@;
        let mut j: usize = i;
        let mut placed: bool = false;
        proof {
            assert(prefix.take(i as int) =~= prefix);
        }
        while j > 0 && !placed
            invariant
                j <= i,
                i < n,
                n == wonders@.len(),
                prefix.len() == i,
                forall|k: int| 0 <= k < j ==> wonders@[k] == prefix[k],
                forall|k: int| j < k <= i ==> wonders@[k] == prefix[k - 1],
                forall|k: int| i < k < n ==> wonders@[k] == before[k],
                insertion_point(by, prefix, wonder) == insertion_point(
                    by,
                    prefix.take(j as int),
                    wonder,
                ),
                placed ==> j > 0 && key_le(by, prefix[j - 1], wonder),
            decreases j + (if placed { 0int } else { 1int }),
        {
            let neighbour: &'a Wonder = wonders[j - 1];
            if key_precedes(by, neighbour, wonder) {
                placed = true;
            } else {
                proof {
                    assert(prefix.take(j as int).drop_last() =~= prefix.take(j - 1));
                }
                wonders[j] = neighbour;
                j -= 1;
            }
        }
        wonders[j] = wonder;
        proof {
            let whole = old(wonders)@.take(i + 1);
            assert(whole.drop_last() =~= old(wonders)@.take(i as int));
            assert(whole.last() == wonder);
            assert(insertion_point(by, prefix, wonder) == j);
            assert(wonders@.take(i + 1) =~= prefix.insert(j as int, wonder));
        }
        i += 1;
    }
    proof {
        assert(wonders@.take(n as int) =~= wonders@);
        assert(old(wonders)@.take(n as int) =~= old(wonders)@);
    }
}

/// Turns `wonders` back to front.
pub fn reverse_wonders<'a>(wonders: &mut [&'a Wonder])
    ensures
        final(wonders)@ == old(wonders)@.reverse(),
{
    let n: usize = wonders.len();
    let mut lo: usize = 0;
    while lo < n / 2
        invariant
            lo <= n / 2,
            n == wonders@.len(),
            n == old(wonders)@.len(),
            forall|k: int| 0 <= k < lo ==> wonders@[k] == old(wonders)@[n - 1 - k],
            forall|k: int| n - lo <= k < n ==> wonders@[k] == old(wonders)@[n - 1 - k],
            forall|k: int| lo <= k < n - lo ==> wonders@[k] == old(wonders)@[k],
        decreases n / 2 - lo,
    {
        let hi: usize = n - 1 - lo;
        let front: &'a Wonder = wonders[lo];
        let back: &'a Wonder = wonders[hi];
        wonders[lo] = back;
        wonders[hi] = front;
        lo += 1;
    }
    proof {
        assert(wonders@ =~= old(wonders)@.reverse());
    }
}

/// Orders `wonders` as `params` asks: without a key they stay as they are
/// and the reverse flag is ignored; with a key they are sorted by it, stably,
/// and then reversed if the flag is set.
pub fn sort_wonders<'a>(wonders: &mut [&'a Wonder], params: WonderParamsSorting)
    ensures
        final(wonders)@ == arranged(old(wonders)@, params),
{
    if let Some(by) = params.sort_by {
        sort_by_key(wonders, by);
        if let Some(true) = params.sort_reverse {
            reverse_wonders(wonders);
        }
    }
}

} // verus!
