//! Picking one wonder: the oldest, the youngest, one at random, or the one
//! with a given slug.

use crate::data::Wonder;
use crate::error::Error;
use crate::text::{has_slug, slug_of};
use rand::seq::SliceRandom;
use vstd::prelude::*;

verus! {

/// Whether the wonder at `at` is the oldest: none was built before it, and
/// those before it in the sequence were built after it.
pub open spec fn is_oldest_at(wonders: Seq<&Wonder>, at: int) -> bool {
    &&& 0 <= at < wonders.len()
    &&& forall|k: int| 0 <= k < wonders.len() ==> wonders[at].build_year <= wonders[k].build_year
    &&& forall|k: int| 0 <= k < at ==> wonders[at].build_year < wonders[k].build_year
}

/// Whether the wonder at `at` is the youngest: none was built after it, and
/// those before it in the sequence were built before it.
pub open spec fn is_youngest_at(wonders: Seq<&Wonder>, at: int) -> bool {
    &&& 0 <= at < wonders.len()
    &&& forall|k: int| 0 <= k < wonders.len() ==> wonders[at].build_year >= wonders[k].build_year
    &&& forall|k: int| 0 <= k < at ==> wonders[at].build_year > wonders[k].build_year
}

/// Only one place holds the oldest wonder, and only one the youngest.
pub proof fn lemma_extremes_are_unique(wonders: Seq<&Wonder>, a: int, b: int)
    ensures
        is_oldest_at(wonders, a) && is_oldest_at(wonders, b) ==> a == b,
        is_youngest_at(wonders, a) && is_youngest_at(wonders, b) ==> a == b,
{
}

/// The oldest wonder was not built after the youngest.
pub proof fn lemma_oldest_not_after_youngest(wonders: Seq<&Wonder>, oldest: int, youngest: int)
    requires
        is_oldest_at(wonders, oldest),
        is_youngest_at(wonders, youngest),
    ensures
        wonders[oldest].build_year <= wonders[youngest].build_year,
{
}

/// A single wonder is both the oldest and the youngest.
pub proof fn lemma_single_wonder_is_both_extremes(wonders: Seq<&Wonder>)
    requires
        wonders.len() == 1,
    ensures
        is_oldest_at(wonders, 0),
        is_youngest_at(wonders, 0),
{
}

/// The place of the oldest wonder, if there is any wonder.
pub fn oldest_index(wonders: &[&Wonder]) -> (found: Option<usize>)
    ensures
        wonders@.len() == 0 <==> found is None,
        found matches Some(at) ==> is_oldest_at(wonders@, at as int),
{
    if wonders.len() == 0 {
        return None;
    }
    let mut best: usize = 0;
    let mut i: usize = 1;
    while i < wonders.len()
        invariant
            1 <= i <= wonders.len(),
            is_oldest_at(wonders@.take(i as int), best as int),
        decreases wonders.len() - i,
    {
        if wonders[i].build_year < wonders[best].build_year {
            best = i;
        }
        i += 1;
        proof {
            let seen = wonders@.take(i as int);
            assert(forall|k: int| 0 <= k < i ==> seen[k] == wonders@[k]);
            assert(forall|k: int| 0 <= k < i - 1 ==> wonders@.take(i - 1)[k] == wonders@[k]);
        }
    }
    proof {
        assert(wonders@.take(wonders@.len() as int) =~= wonders@);
    }
    Some(best)
}

/// The place of the youngest wonder, if there is any wonder.
pub fn youngest_index(wonders: &[&Wonder]) -> (found: Option<usize>)
    ensures
        wonders@.len() == 0 <==> found is None,
        found matches Some(at) ==> is_youngest_at(wonders@, at as int),
{
    if wonders.len() == 0 {
        return None;
    }
    let mut best: usize = 0;
    let mut i: usize = 1;
    while i < wonders.len()
        invariant
            1 <= i <= wonders.len(),
            is_youngest_at(wonders@.take(i as int), best as int),
        decreases wonders.len() - i,
    {
        if wonders[i].build_year > wonders[best].build_year {
            best = i;
        }
        i += 1;
        proof {
            let seen = wonders@.take(i as int);
            assert(forall|k: int| 0 <= k < i ==> seen[k] == wonders@[k]);
            assert(forall|k: int| 0 <= k < i - 1 ==> wonders@.take(i - 1)[k] == wonders@[k]);
        }
    }
    proof {
        assert(wonders@.take(wonders@.len() as int) =~= wonders@);
    }
    Some(best)
}

/// The wonder that was built first; of several built in the same year, the
/// one that stands first. It is a failure if there is no wonder.
pub fn pick_oldest<'a>(wonders: &[&'a Wonder]) -> (picked: Result<&'a Wonder, Error>)
    ensures
        wonders@.len() == 0 <==> picked is Err,
        picked is Err ==> picked == Err::<&Wonder, Error>(Error::NoWondersLeft),
        picked matches Ok(wonder) ==> exists|at: int|
            is_oldest_at(wonders@, at) && wonders@[at] == wonder,
{
    match oldest_index(wonders) {
        Some(at) => Ok(wonders[at]),
        None => Err(Error::NoWondersLeft),
    }
}

/// The wonder that was built last; of several built in the same year, the
/// one that stands first. It is a failure if there is no wonder.
pub fn pick_youngest<'a>(wonders: &[&'a Wonder]) -> (picked: Result<&'a Wonder, Error>)
    ensures
        wonders@.len() == 0 <==> picked is Err,
        picked is Err ==> picked == Err::<&Wonder, Error>(Error::NoWondersLeft),
        picked matches Ok(wonder) ==> exists|at: int|
            is_youngest_at(wonders@, at) && wonders@[at] == wonder,
{
    match youngest_index(wonders) {
        Some(at) => Ok(wonders[at]),
        None => Err(Error::NoWondersLeft),
    }
}

/// Calls `rand::thread_rng` and hands the generator to
/// `rand::seq::SliceRandom::choose`, which gives `None` for an empty slice
/// and otherwise one of the slice's elements. Which element it is depends on
/// the generator, so the contract says no more than that.
#[verifier::external_body]
fn choose_wonder<'a>(wonders: &[&'a Wonder]) -> (choice: Option<&'a Wonder>)
    ensures
        wonders@.len() == 0 ==> choice is None,
        wonders@.len() > 0 ==> choice is Some && wonders@.contains(choice.unwrap()),
{
    wonders.choose(&mut rand::thread_rng()).copied()
}

/// What a random choice is answered with: the chosen wonder, or the failure
/// that there was none to choose from.
pub fn chosen_or_none_left<'a>(choice: Option<&'a Wonder>) -> (picked: Result<&'a Wonder, Error>)
    ensures
        picked == match choice {
            Some(wonder) => Ok::<&Wonder, Error>(wonder),
            None => Err::<&Wonder, Error>(Error::NoWondersLeft),
        },
{
    match choice {
        Some(wonder) => Ok(wonder),
        None => Err(Error::NoWondersLeft),
    }
}

/// One of the wonders, chosen at random. It is a failure if there is no
/// wonder.
pub fn pick_random<'a>(wonders: &[&'a Wonder]) -> (picked: Result<&'a Wonder, Error>)
    ensures
        wonders@.len() == 0 <==> picked is Err,
        picked is Err ==> picked == Err::<&Wonder, Error>(Error::NoWondersLeft),
        picked matches Ok(wonder) ==> wonders@.contains(wonder),
{
    chosen_or_none_left(choose_wonder(wonders))
}

/// Whether the wonder at `at` is the first whose name has the slug `slug`.
pub open spec fn is_first_with_slug(wonders: Seq<Wonder>, slug: Seq<char>, at: int) -> bool {
    &&& 0 <= at < wonders.len()
    &&& slug_of(wonders[at].name@) == slug
    &&& forall|k: int| 0 <= k < at ==> slug_of(#[trigger] wonders[k].name@) != slug
}

/// Whether no wonder's name has the slug `slug`.
pub open spec fn none_has_slug(wonders: Seq<Wonder>, slug: Seq<char>) -> bool {
    forall|k: int| 0 <= k < wonders.len() ==> slug_of(#[trigger] wonders[k].name@) != slug
}

/// The wonder that is looked up under `slug`: the first whose name, with
/// ASCII capitals made small and spaces made hyphens, is `slug`. Where there
/// is none, the failure names the slug.
pub fn find_by_slug<'a>(wonders: &'a [Wonder], slug: String) -> (found: Result<&'a Wonder, Error>)
    ensures
        found matches Ok(wonder) ==> exists|at: int|
            is_first_with_slug(wonders@, slug@, at) && wonders@[at] == *wonder,
        found is Err <==> none_has_slug(wonders@, slug@),
        found is Err ==> found == Err::<&Wonder, Error>(Error::NoMatchingName(slug)),
{
    let mut i: usize = 0;
    while i < wonders.len()
        invariant
            i <= wonders.len(),
            forall|k: int| 0 <= k < i ==> slug_of(#[trigger] wonders@[k].name@) != slug@,
        decreases wonders.len() - i,
    {
        if has_slug(wonders[i].name.as_str(), slug.as_str()) {
            proof {
                assert(is_first_with_slug(wonders@, slug@, i as int));
            }
            return Ok(&wonders[i]);
        }
        i += 1;
    }
    Err(Error::NoMatchingName(slug))
}

} // verus!
