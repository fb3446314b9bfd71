//! Filtering the catalogue by the criteria of a request.

use crate::data::{Category, TimePeriod, Wonder};
use crate::error::Error;
use crate::sequences::{
    lemma_filter_keeps_all, lemma_filter_members, lemma_filter_twice, lemma_filters_commute,
};
use crate::text::{contains_ignoring_case, occurs_ignoring_case};
use vstd::prelude::*;

verus! {

/// The criteria that a request filters by. A criterion that is absent lets
/// every wonder through; those that are present must all hold.
#[derive(Clone, Debug, PartialEq, Eq)]
pub struct WonderParamsFiltering {
    /// Part of the name, letter case ignored.
    pub name: Option<String>,
    /// Part of the location, letter case ignored.
    pub location: Option<String>,
    pub time_period: Option<TimePeriod>,
    /// Earliest build year, inclusive.
    pub lower_limit: Option<i16>,
    /// Latest build year, inclusive.
    pub upper_limit: Option<i16>,
    pub category: Option<Category>,
}

impl Default for WonderParamsFiltering {
    fn default() -> (params: Self)
        ensures
            params.is_unconstrained(),
    {
        WonderParamsFiltering {
            name: None,
            location: None,
            time_period: None,
            lower_limit: None,
            upper_limit: None,
            category: None,
        }
    }
}

impl WonderParamsFiltering {
    /// Whether no criterion is present.
    pub open spec fn is_unconstrained(&self) -> bool {
        &&& self.name is None
        &&& self.location is None
        &&& self.time_period is None
        &&& self.lower_limit is None
        &&& self.upper_limit is None
        &&& self.category is None
    }

    /// Whether both limits are present and the lower one is the greater.
    pub open spec fn limits_conflict(&self) -> bool {
        &&& self.lower_limit matches Some(lower)
        &&& self.upper_limit matches Some(upper)
        &&& lower > upper
    }

    /// Whether `wonder` meets every criterion that is present.
    pub open spec fn admits(&self, wonder: &Wonder) -> bool {
        &&& self.name matches Some(part) ==> occurs_ignoring_case(part@, wonder.name@)
        &&& self.location matches Some(part) ==> occurs_ignoring_case(part@, wonder.location@)
        &&& self.time_period matches Some(period) ==> wonder.time_period == period
        &&& self.category matches Some(category) ==> wonder.has_category_spec(category)
        &&& self.lower_limit matches Some(lower) ==> wonder.build_year >= lower
        &&& self.upper_limit matches Some(upper) ==> wonder.build_year <= upper
    }

    /// Whether `wonder` meets every criterion that is present.
    pub fn does_admit(&self, wonder: &Wonder) -> (admitted: bool)
        ensures
            admitted == self.admits(wonder),
    {
        if let Some(part) = &self.name {
            if !contains_ignoring_case(wonder.name.as_str(), part.as_str()) {
                return false;
            }
        }
        if let Some(part) = &self.location {
            if !contains_ignoring_case(wonder.location.as_str(), part.as_str()) {
                return false;
            }
        }
        if let Some(period) = self.time_period {
            if wonder.time_period != period {
                return false;
            }
        }
        if let Some(category) = self.category {
            if !wonder.has_category(category) {
                return false;
            }
        }
        if let Some(lower) = self.lower_limit {
            if wonder.build_year < lower {
                return false;
            }
        }
        if let Some(upper) = self.upper_limit {
            if wonder.build_year > upper {
                return false;
            }
        }
        true
    }

    /// The failure that conflicting limits are answered with, if they conflict.
    pub fn check_limits(&self) -> (outcome: Result<(), Error>)
        ensures
            self.limits_conflict() <==> outcome is Err,
            outcome is Err ==> outcome == Err::<(), Error>(
                Error::ConflictingLimitParams(self.lower_limit.unwrap(), self.upper_limit.unwrap()),
            ),
    {
        if let Some(lower) = self.lower_limit {
            if let Some(upper) = self.upper_limit {
                if lower > upper {
                    return Err(Error::ConflictingLimitParams(lower, upper));
                }
            }
        }
        Ok(())
    }
}

/// The wonders of `wonders` that `params` admits, in their order.
pub open spec fn filtered(wonders: Seq<&Wonder>, params: WonderParamsFiltering) -> Seq<&Wonder> {
    wonders.filter(|wonder: &Wonder| params.admits(wonder))
}

/// A filter that admits every wonder of a sequence keeps the sequence as it is.
pub proof fn lemma_filtered_keeps_all(wonders: Seq<&Wonder>, params: WonderParamsFiltering)
    requires
        forall|i: int| 0 <= i < wonders.len() ==> params.admits(#[trigger] wonders[i]),
    ensures
        filtered(wonders, params) == wonders,
{
    lemma_filter_keeps_all(wonders, |wonder: &Wonder| params.admits(wonder));
}

/// Filtering keeps exactly the admitted wonders: every wonder that is left is
/// admitted and stood in the input, and every admitted wonder of the input is
/// left.
pub proof fn lemma_filtered_is_exact(wonders: Seq<&Wonder>, params: WonderParamsFiltering)
    ensures
        filtered(wonders, params).len() <= wonders.len(),
        forall|i: int|
            0 <= i < filtered(wonders, params).len() ==> params.admits(
                #[trigger] filtered(wonders, params)[i],
            ) && wonders.contains(filtered(wonders, params)[i]),
        forall|i: int|
            0 <= i < wonders.len() && params.admits(wonders[i]) ==> filtered(
                wonders,
                params,
            ).contains(#[trigger] wonders[i]),
{
    lemma_filter_members(wonders, |wonder: &Wonder| params.admits(wonder));
}

/// The order in which criteria are applied does not matter: filtering by one
/// set of criteria and then by another leaves what filtering in the other
/// order leaves.
pub proof fn lemma_filtering_in_either_order(
    wonders: Seq<&Wonder>,
    first: WonderParamsFiltering,
    second: WonderParamsFiltering,
)
    ensures
        filtered(filtered(wonders, first), second) == filtered(filtered(wonders, second), first),
{
    lemma_filters_commute(
        wonders,
        |wonder: &Wonder| first.admits(wonder),
        |wonder: &Wonder| second.admits(wonder),
    );
}

/// Filtering by one set of criteria and then by another leaves the wonders
/// that both admit.
pub proof fn lemma_filtering_in_turn(
    wonders: Seq<&Wonder>,
    first: WonderParamsFiltering,
    second: WonderParamsFiltering,
)
    ensures
        filtered(filtered(wonders, first), second) == wonders.filter(
            |wonder: &Wonder| first.admits(wonder) && second.admits(wonder),
        ),
{
    let by_first = |wonder: &Wonder| first.admits(wonder);
    let by_second = |wonder: &Wonder| second.admits(wonder);
    lemma_filter_twice(wonders, by_first, by_second);
    let in_turn = |wonder: &Wonder| by_first(wonder) && by_second(wonder);
    let by_both = |wonder: &Wonder| first.admits(wonder) && second.admits(wonder);
    assert(in_turn =~= by_both);
}

/// The criteria that ask for one category and for nothing else.
pub open spec fn only_category(category: Category) -> WonderParamsFiltering {
    WonderParamsFiltering {
        name: None,
        location: None,
        time_period: None,
        lower_limit: None,
        upper_limit: None,
        category: Some(category),
    }
}

/// Filtering by a category keeps the wonders of that category and no
/// others.
pub proof fn lemma_category_filter_is_exact(wonders: Seq<&Wonder>, category: Category)
    ensures
        forall|i: int|
            0 <= i < filtered(wonders, only_category(category)).len() ==> (#[trigger] filtered(
                wonders,
                only_category(category),
            )[i]).has_category_spec(category),
        forall|i: int|
            0 <= i < wonders.len() && wonders[i].has_category_spec(category) ==> filtered(
                wonders,
                only_category(category),
            ).contains(#[trigger] wonders[i]),
{
    lemma_filtered_is_exact(wonders, only_category(category));
}

/// The categories cover the catalogue: a wonder that belongs to a category
/// at all is left by the filter for one of the known categories.
pub proof fn lemma_categories_cover(wonders: Seq<&Wonder>, at: int)
    requires
        0 <= at < wonders.len(),
        wonders[at].categories@.len() > 0,
    ensures
        exists|category: Category|
            Category::all_spec().contains(category) && #[trigger] filtered(
                wonders,
                only_category(category),
            ).contains(wonders[at]),
{
    let category = wonders[at].categories@[0];
    Category::lemma_all_is_complete(category);
    assert(wonders[at].has_category_spec(category));
    lemma_category_filter_is_exact(wonders, category);
    assert(filtered(wonders, only_category(category)).contains(wonders[at]));
}

/// Keeps in `wonders` the wonders that `params` admits, in their order.
///
/// Conflicting limits are refused before anything is filtered: `wonders` then
/// stays as it was. Otherwise the filter is applied, and it is a failure if
/// no wonder is left.
pub fn filter_wonders<'a>(wonders: &mut Vec<&'a Wonder>, params: WonderParamsFiltering) -> (outcome:
    Result<(), Error>)
    ensures
        params.limits_conflict() ==> final(wonders)@ == old(wonders)@ && outcome == Err::<
            (),
            Error,
        >(
            Error::ConflictingLimitParams(
                params.lower_limit.unwrap(),
                params.upper_limit.unwrap(),
            ),
        ),
        !params.limits_conflict() ==> final(wonders)@ == filtered(old(wonders)@, params),
        !params.limits_conflict() && final(wonders)@.len() == 0 ==> outcome == Err::<(), Error>(
            Error::NoWondersLeft,
        ),
        !params.limits_conflict() && final(wonders)@.len() > 0 ==> outcome is Ok,
        params.is_unconstrained() ==> final(wonders)@ == old(wonders)@,
{
    if let Err(conflict) = params.check_limits() {
        return Err(conflict);
    }
    let mut kept: Vec<&'a Wonder> = Vec::new();
    let mut i: usize = 0;
    while i < wonders.len()
        invariant
            i <= wonders.len(),
            wonders@ == old(wonders)@,
            kept@ == filtered(wonders@.take(i as int), params),
        decreases wonders.len() - i,
    {
        let wonder: &'a Wonder = wonders[i];
        proof {
            reveal(Seq::filter);
            assert(wonders@.take(i + 1).drop_last() =~= wonders@.take(i as int));
        }
        if params.does_admit(wonder) {
            kept.push(wonder);
        }
        i += 1;
    }
    proof {
        assert(wonders@.take(wonders@.len() as int) =~= wonders@);
        if params.is_unconstrained() {
            lemma_filtered_keeps_all(old(wonders)@, params);
        }
    }
    *wonders = kept;
    if wonders.is_empty() {
        return Err(Error::NoWondersLeft);
    }
    Ok(())
}

/// Keeps in `wonders` the wonders that `params` admits, in their order, and
/// takes it for an answer if none is left.
///
/// Conflicting limits are still refused, before anything is filtered.
pub fn filter_wonders_ignore_empty<'a>(
    wonders: &mut Vec<&'a Wonder>,
    params: WonderParamsFiltering,
) -> (outcome: Result<(), Error>)
    ensures
        params.limits_conflict() ==> final(wonders)@ == old(wonders)@ && outcome == Err::<
            (),
            Error,
        >(
            Error::ConflictingLimitParams(
                params.lower_limit.unwrap(),
                params.upper_limit.unwrap(),
            ),
        ),
        !params.limits_conflict() ==> final(wonders)@ == filtered(old(wonders)@, params)
            && outcome is Ok,
        params.is_unconstrained() ==> final(wonders)@ == old(wonders)@,
{
    let outcome = filter_wonders(wonders, params);
    match outcome {
        Err(Error::NoWondersLeft) => Ok(()),
        other => other,
    }
}

} // verus!
