//! What each request is answered with, computed from the catalogue and the
//! parameters of the request.

use crate::data::{Category, TimePeriod, Wonder};
use crate::dataset::{borrowed, Dataset};
use crate::error::Error;
use crate::pick::{
    find_by_slug, is_first_with_slug, is_oldest_at, is_youngest_at, none_has_slug, pick_oldest,
    pick_random, pick_youngest,
};
use crate::query::{filter_wonders, filter_wonders_ignore_empty, filtered, WonderParamsFiltering};
use crate::sort::{arranged, sort_wonders, SortBy, WonderParamsSorting};
use vstd::prelude::*;

verus! {

/// The parameters of a request for the categories.
#[derive(Clone, Copy, Debug, PartialEq, Eq, Structural)]
pub struct CategoriesParams {
    /// Whether the lists of video games are left out.
    pub exclude_games: Option<bool>,
}

impl CategoriesParams {
    /// Whether `category` is listed.
    pub open spec fn admits(&self, category: Category) -> bool {
        !(self.exclude_games == Some(true) && category.is_game_spec())
    }
}

/// The failure that conflicting limits are answered with.
pub open spec fn limits_failure(filtering: WonderParamsFiltering) -> Error {
    Error::ConflictingLimitParams(filtering.lower_limit.unwrap(), filtering.upper_limit.unwrap())
}

/// The wonders that the filter admits, in the order asked for. That none is
/// admitted is an answer too; conflicting limits are a failure.
pub fn get_all_wonders<'a>(
    dataset: &'a Dataset,
    filtering: WonderParamsFiltering,
    sorting: WonderParamsSorting,
) -> (answer: Result<Vec<&'a Wonder>, Error>)
    ensures
        filtering.limits_conflict() ==> answer == Err::<Vec<&Wonder>, Error>(
            limits_failure(filtering),
        ),
        !filtering.limits_conflict() ==> answer is Ok && answer.unwrap()@ == arranged(
            filtered(borrowed(dataset@), filtering),
            sorting,
        ),
{
    let mut wonders = dataset.all();
    if let Err(failure) = filter_wonders_ignore_empty(&mut wonders, filtering) {
        return Err(failure);
    }
    sort_wonders(wonders.as_mut_slice(), sorting);
    Ok(wonders)
}

/// The number of wonders that the filter admits, which may be zero.
/// Conflicting limits are a failure.
pub fn get_count_wonders(dataset: &Dataset, filtering: WonderParamsFiltering) -> (answer: Result<
    usize,
    Error,
>)
    ensures
        filtering.limits_conflict() ==> answer == Err::<usize, Error>(limits_failure(filtering)),
        !filtering.limits_conflict() ==> answer is Ok && answer.unwrap() == filtered(
            borrowed(dataset@),
            filtering,
        ).len(),
{
    let mut wonders = dataset.all();
    if let Err(failure) = filter_wonders_ignore_empty(&mut wonders, filtering) {
        return Err(failure);
    }
    Ok(wonders.len())
}

/// The categories, in declaration order; without the lists of video games
/// if the request excludes them.
pub fn get_wonder_categories(params: CategoriesParams) -> (listed: Vec<Category>)
    ensures
        listed@ == Category::all_spec().filter(|category: Category| params.admits(category)),
{
    let all = Category::all();
    let mut listed: Vec<Category> = Vec::new();
    let mut i: usize = 0;
    while i < all.len()
        invariant
            i <= all.len(),
            all@ == Category::all_spec(),
            listed@ == all@.take(i as int).filter(|category: Category| params.admits(category)),
        decreases all.len() - i,
    {
        let category = all[i];
        proof {
            reveal(Seq::filter);
            assert(all@.take(i + 1).drop_last() =~= all@.take(i as int));
        }
        let excluded = match params.exclude_games {
            Some(true) => category.is_game(),
            _ => false,
        };
        if !excluded {
            listed.push(category);
        }
        i += 1;
    }
    proof {
        assert(all@.take(all@.len() as int) =~= all@);
    }
    listed
}

/// The periods, from the earliest to the latest.
pub fn get_wonder_time_periods() -> (listed: Vec<TimePeriod>)
    ensures
        listed@ == TimePeriod::all_spec(),
{
    TimePeriod::all()
}

/// The keys that wonders can be sorted by.
pub fn get_wonder_sort_by() -> (listed: Vec<SortBy>)
    ensures
        listed@ == SortBy::all_spec(),
{
    SortBy::all()
}

/// The wonder that is looked up under `name`: the first of the catalogue
/// whose name has that slug. Where there is none, the failure names `name`.
pub fn get_wonder_by_name<'a>(dataset: &'a Dataset, name: String) -> (answer: Result<
    &'a Wonder,
    Error,
>)
    ensures
        answer matches Ok(wonder) ==> exists|at: int|
            is_first_with_slug(dataset@, name@, at) && dataset@[at] == *wonder,
        answer is Err <==> none_has_slug(dataset@, name@),
        answer is Err ==> answer == Err::<&Wonder, Error>(Error::NoMatchingName(name)),
{
    find_by_slug(dataset.wonders(), name)
}

/// One of the wonders that the filter admits, chosen at random. That none is
/// admitted is a failure, and so are conflicting limits.
pub fn get_random_wonder<'a>(dataset: &'a Dataset, filtering: WonderParamsFiltering) -> (answer:
    Result<&'a Wonder, Error>)
    ensures
        filtering.limits_conflict() ==> answer == Err::<&Wonder, Error>(limits_failure(filtering)),
        !filtering.limits_conflict() && filtered(borrowed(dataset@), filtering).len() == 0
            ==> answer == Err::<&Wonder, Error>(Error::NoWondersLeft),
        !filtering.limits_conflict() && filtered(borrowed(dataset@), filtering).len() > 0
            ==> answer is Ok && filtered(borrowed(dataset@), filtering).contains(answer.unwrap()),
{
    let mut wonders = dataset.all();
    if let Err(failure) = filter_wonders(&mut wonders, filtering) {
        return Err(failure);
    }
    pick_random(wonders.as_slice())
}

/// The oldest of the wonders that the filter admits; of several built in the
/// same year, the one that stands first in the catalogue. That none is
/// admitted is a failure, and so are conflicting limits.
pub fn get_oldest_wonder<'a>(dataset: &'a Dataset, filtering: WonderParamsFiltering) -> (answer:
    Result<&'a Wonder, Error>)
    ensures
        filtering.limits_conflict() ==> answer == Err::<&Wonder, Error>(limits_failure(filtering)),
        !filtering.limits_conflict() && filtered(borrowed(dataset@), filtering).len() == 0
            ==> answer == Err::<&Wonder, Error>(Error::NoWondersLeft),
        !filtering.limits_conflict() && filtered(borrowed(dataset@), filtering).len() > 0
            ==> answer is Ok && exists|at: int|
            is_oldest_at(filtered(borrowed(dataset@), filtering), at) && filtered(
                borrowed(dataset@),
                filtering,
            )[at] == answer.unwrap(),
{
    let mut wonders = dataset.all();
    if let Err(failure) = filter_wonders(&mut wonders, filtering) {
        return Err(failure);
    }
    pick_oldest(wonders.as_slice())
}

/// The youngest of the wonders that the filter admits; of several built in
/// the same year, the one that stands first in the catalogue. That none is
/// admitted is a failure, and so are conflicting limits.
pub fn get_youngest_wonder<'a>(dataset: &'a Dataset, filtering: WonderParamsFiltering) -> (answer:
    Result<&'a Wonder, Error>)
    ensures
        filtering.limits_conflict() ==> answer == Err::<&Wonder, Error>(limits_failure(filtering)),
        !filtering.limits_conflict() && filtered(borrowed(dataset@), filtering).len() == 0
            ==> answer == Err::<&Wonder, Error>(Error::NoWondersLeft),
        !filtering.limits_conflict() && filtered(borrowed(dataset@), filtering).len() > 0
            ==> answer is Ok && exists|at: int|
            is_youngest_at(filtered(borrowed(dataset@), filtering), at) && filtered(
                borrowed(dataset@),
                filtering,
            )[at] == answer.unwrap(),
{
    let mut wonders = dataset.all();
    if let Err(failure) = filter_wonders(&mut wonders, filtering) {
        return Err(failure);
    }
    pick_youngest(wonders.as_slice())
}

} // verus!
