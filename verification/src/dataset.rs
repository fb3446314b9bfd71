//! The catalogue of wonders: built once, from records that meet every rule,
//! and read-only from then on.

use crate::data::{period_of_year, Wonder};
use crate::sort::{
    arranged, keys_are_distinct, lemma_arranging_twice_distinct_keys, same_key, SortBy,
    WonderParamsSorting,
};
use crate::text::lemma_text_le_antisymmetric;
use crate::validate::{check_wonder, first_violation, Violation};
use vstd::prelude::*;

verus! {

/// Why a set of records is no catalogue.
#[derive(Clone, Copy, Debug, PartialEq, Eq, Structural)]
pub enum DatasetError {
    /// There is no record at all.
    Empty,
    /// The record at `index` breaks a rule; the records before it break none.
    Invalid { index: usize, violation: Violation },
}

/// Whether the wonder at `at` has the name of a wonder before it.
pub open spec fn repeats_earlier_name(wonders: Seq<Wonder>, at: int) -> bool {
    exists|k: int| 0 <= k < at && #[trigger] wonders[k].name@ == wonders[at].name@
}

/// The rule that the wonder at `at` breaks, by itself or, if it breaks none
/// by itself, by having the name of an earlier wonder.
pub open spec fn fault_at(wonders: Seq<Wonder>, at: int) -> Option<Violation> {
    if first_violation(&wonders[at]) is Some {
        first_violation(&wonders[at])
    } else if repeats_earlier_name(wonders, at) {
        Some(Violation::DuplicateName)
    } else {
        None
    }
}

/// Whether the records are a catalogue: there is one at least, and none
/// breaks a rule.
pub open spec fn is_catalogue(wonders: Seq<Wonder>) -> bool {
    &&& wonders.len() > 0
    &&& forall|at: int| 0 <= at < wonders.len() ==> fault_at(wonders, at) is None
}

/// The records as they are handed out: by reference, in their order.
pub open spec fn borrowed<'a>(wonders: Seq<Wonder>) -> Seq<&'a Wonder> {
    wonders.map_values(|wonder: Wonder| &wonder)
}

/// In a catalogue every wonder has the period that its build year gives.
pub proof fn lemma_catalogue_periods_are_consistent(wonders: Seq<Wonder>, at: int)
    requires
        is_catalogue(wonders),
        0 <= at < wonders.len(),
    ensures
        wonders[at].time_period == period_of_year(wonders[at].build_year as int),
{
    assert(fault_at(wonders, at) is None);
}

/// In a catalogue no two wonders have the same name.
pub proof fn lemma_catalogue_names_are_distinct(wonders: Seq<Wonder>, a: int, b: int)
    requires
        is_catalogue(wonders),
        0 <= a < b < wonders.len(),
    ensures
        wonders[a].name@ != wonders[b].name@,
{
    assert(fault_at(wonders, b) is None);
}

/// In a catalogue every wonder belongs to a category, to none twice, and has
/// two pictures at least.
pub proof fn lemma_catalogue_wonders_are_classified(wonders: Seq<Wonder>, at: int)
    requires
        is_catalogue(wonders),
        0 <= at < wonders.len(),
    ensures
        wonders[at].categories@.len() > 0,
        wonders[at].categories@.no_duplicates(),
        wonders[at].links.images@.len() >= 2,
{
    assert(fault_at(wonders, at) is None);
}

/// In a catalogue no two wonders have the same key when ordered by name.
pub proof fn lemma_catalogue_name_keys_are_distinct(wonders: Seq<Wonder>)
    requires
        is_catalogue(wonders),
    ensures
        keys_are_distinct(SortBy::Alphabetical, borrowed(wonders)),
{
    let all = borrowed(wonders);
    assert forall|i: int, j: int| 0 <= i < j < all.len() implies !same_key(
        SortBy::Alphabetical,
        #[trigger] all[i],
        #[trigger] all[j],
    ) by {
        if same_key(SortBy::Alphabetical, all[i], all[j]) {
            lemma_text_le_antisymmetric(wonders[i].name@, wonders[j].name@);
            lemma_catalogue_names_are_distinct(wonders, i, j);
        }
    }
}

/// Sorting a catalogue by name, reversed or not, and sorting the result again
/// in the same way gives what sorting once gives.
pub proof fn lemma_sorting_catalogue_by_name_twice(wonders: Seq<Wonder>, reverse: Option<bool>)
    requires
        is_catalogue(wonders),
    ensures
        ({
            let params = WonderParamsSorting {
                sort_by: Some(SortBy::Alphabetical),
                sort_reverse: reverse,
            };
            arranged(arranged(borrowed(wonders), params), params) == arranged(
                borrowed(wonders),
                params,
            )
        }),
{
    lemma_catalogue_name_keys_are_distinct(wonders);
    lemma_arranging_twice_distinct_keys(
        borrowed(wonders),
        WonderParamsSorting { sort_by: Some(SortBy::Alphabetical), sort_reverse: reverse },
    );
}

/// The catalogue. It cannot be made but by [`Dataset::load`], so its records
/// always meet the rules, and it has no operation that changes them.
pub struct Dataset {
    wonders: Vec<Wonder>,
}

impl View for Dataset {
    type V = Seq<Wonder>;

    closed spec fn view(&self) -> Seq<Wonder> {
        self.wonders@
    }
}

impl Dataset {
    #[verifier::type_invariant]
    spec fn well_formed(&self) -> bool {
        is_catalogue(self.wonders@)
    }

    /// Makes the catalogue of the records, in their order, if they meet the
    /// rules. If they do not, the failure names the first record that breaks
    /// a rule, and the first rule that it breaks.
    pub fn load(wonders: Vec<Wonder>) -> (loaded: Result<Dataset, DatasetError>)
        ensures
            is_catalogue(wonders@) <==> loaded is Ok,
            loaded matches Ok(dataset) ==> dataset@ == wonders@,
            wonders@.len() == 0 <==> loaded matches Err(DatasetError::Empty),
            loaded matches Err(DatasetError::Invalid { index, violation }) ==> {
                &&& index < wonders@.len()
                &&& fault_at(wonders@, index as int) == Some(violation)
                &&& forall|k: int| 0 <= k < index ==> fault_at(wonders@, k) is None
            },
    {
        if wonders.len() == 0 {
            return Err(DatasetError::Empty);
        }
        let mut i: usize = 0;
        while i < wonders.len()
            invariant
                i <= wonders.len(),
                forall|k: int| 0 <= k < i ==> fault_at(wonders@, k) is None,
            decreases wonders.len() - i,
        {
            if let Err(violation) = check_wonder(&wonders[i]) {
                return Err(DatasetError::Invalid { index: i, violation });
            }
            let mut j: usize = 0;
            while j < i
                invariant
                    j <= i,
                    i < wonders.len(),
                    first_violation(&wonders@[i as int]) is None,
                    forall|k: int| 0 <= k < i ==> fault_at(wonders@, k) is None,
                    forall|k: int|
                        0 <= k < j ==> #[trigger] wonders@[k].name@ != wonders@[i as int].name@,
                decreases i - j,
            {
                if wonders[j].name == wonders[i].name {
                    proof {
                        assert(wonders@[j as int].name@ == wonders@[i as int].name@);
                        assert(repeats_earlier_name(wonders@, i as int));
                    }
                    return Err(
                        DatasetError::Invalid { index: i, violation: Violation::DuplicateName },
                    );
                }
                j += 1;
            }
            i += 1;
        }
        Ok(Dataset { wonders })
    }

    /// The number of wonders, which is one at least.
    pub fn len(&self) -> (count: usize)
        ensures
            count == self@.len(),
            count > 0,
    {
        proof {
            use_type_invariant(self);
        }
        self.wonders.len()
    }

    /// The records, in the order they were loaded in.
    pub fn wonders(&self) -> (records: &[Wonder])
        ensures
            records@ == self@,
            is_catalogue(self@),
    {
        proof {
            use_type_invariant(self);
        }
        self.wonders.as_slice()
    }

    /// One reference to each record, in the order they were loaded in.
    pub fn all(&self) -> (all: Vec<&Wonder>)
        ensures
            all@ == borrowed(self@),
            is_catalogue(self@),
    {
        proof {
            use_type_invariant(self);
        }
        let mut all: Vec<&Wonder> = Vec::new();
        let mut i: usize = 0;
        while i < self.wonders.len()
            invariant
                i <= self.wonders.len(),
                all@.len() == i,
                forall|k: int| 0 <= k < i ==> *all@[k] == self.wonders@[k],
            decreases self.wonders.len() - i,
        {
            all.push(&self.wonders[i]);
            i += 1;
        }
        proof {
            assert(all@ =~= borrowed(self@));
        }
        all
    }
}

} // verus!
