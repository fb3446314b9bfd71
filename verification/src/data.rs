//! The wonder record and the enumerations it is classified by.

use vstd::prelude::*;
use vstd::std_specs::convert::FromSpecImpl;

verus! {

/// Period of human history in which a wonder was completed.
#[derive(Clone, Copy, Debug, PartialEq, Eq, Structural)]
pub enum TimePeriod {
    Prehistoric,
    Ancient,
    Classical,
    PostClassical,
    EarlyModern,
    Modern,
}

/// The period that a build year falls in. Negative years are BCE.
pub open spec fn period_of_year(year: int) -> TimePeriod {
    if year <= -3000 {
        TimePeriod::Prehistoric
    } else if year <= -800 {
        TimePeriod::Ancient
    } else if year <= 500 {
        TimePeriod::Classical
    } else if year <= 1500 {
        TimePeriod::PostClassical
    } else if year <= 1800 {
        TimePeriod::EarlyModern
    } else {
        TimePeriod::Modern
    }
}

/// First year of a period, for years that fit in sixteen bits.
pub open spec fn period_first_year(period: TimePeriod) -> int {
    match period {
        TimePeriod::Prehistoric => i16::MIN as int,
        TimePeriod::Ancient => -2999,
        TimePeriod::Classical => -799,
        TimePeriod::PostClassical => 501,
        TimePeriod::EarlyModern => 1501,
        TimePeriod::Modern => 1801,
    }
}

/// Last year of a period, for years that fit in sixteen bits.
pub open spec fn period_last_year(period: TimePeriod) -> int {
    match period {
        TimePeriod::Prehistoric => -3000,
        TimePeriod::Ancient => -800,
        TimePeriod::Classical => 500,
        TimePeriod::PostClassical => 1500,
        TimePeriod::EarlyModern => 1800,
        TimePeriod::Modern => i16::MAX as int,
    }
}

/// The period that follows `period`, if there is one.
pub open spec fn period_after(period: TimePeriod) -> Option<TimePeriod> {
    match period {
        TimePeriod::Prehistoric => Some(TimePeriod::Ancient),
        TimePeriod::Ancient => Some(TimePeriod::Classical),
        TimePeriod::Classical => Some(TimePeriod::PostClassical),
        TimePeriod::PostClassical => Some(TimePeriod::EarlyModern),
        TimePeriod::EarlyModern => Some(TimePeriod::Modern),
        TimePeriod::Modern => None,
    }
}

/// Every representable year lies in exactly one period: a year has period `p`
/// if and only if it lies between the first and the last year of `p`.
pub proof fn lemma_periods_partition_years(year: i16, period: TimePeriod)
    ensures
        period_of_year(year as int) == period <==> period_first_year(period) <= year
            <= period_last_year(period),
{
}

/// The periods follow each other without gap or overlap, from the smallest
/// representable year to the largest.
pub proof fn lemma_periods_are_contiguous(period: TimePeriod)
    ensures
        period_first_year(period) <= period_last_year(period),
        period_first_year(TimePeriod::Prehistoric) == i16::MIN,
        period_last_year(TimePeriod::Modern) == i16::MAX,
        match period_after(period) {
            Some(next) => period_first_year(next) == period_last_year(period) + 1,
            None => period == TimePeriod::Modern,
        },
{
}

/// Deriving the period is monotone: a later year never has an earlier period.
pub proof fn lemma_period_is_monotone(earlier: int, later: int)
    requires
        earlier <= later,
    ensures
        period_first_year(period_of_year(earlier)) <= period_first_year(period_of_year(later)),
{
}

/// Derives the period from a build year.
pub fn derive_time_period(year: i16) -> (period: TimePeriod)
    ensures
        period == period_of_year(year as int),
{
    if year <= -3000 {
        TimePeriod::Prehistoric
    } else if year <= -800 {
        TimePeriod::Ancient
    } else if year <= 500 {
        TimePeriod::Classical
    } else if year <= 1500 {
        TimePeriod::PostClassical
    } else if year <= 1800 {
        TimePeriod::EarlyModern
    } else {
        TimePeriod::Modern
    }
}

impl From<i16> for TimePeriod {
    fn from(value: i16) -> (period: TimePeriod) {
        derive_time_period(value)
    }
}

impl FromSpecImpl<i16> for TimePeriod {
    open spec fn obeys_from_spec() -> bool {
        true
    }

    open spec fn from_spec(value: i16) -> TimePeriod {
        period_of_year(value as int)
    }
}

impl TimePeriod {
    /// All periods, from the earliest to the latest.
    pub open spec fn all_spec() -> Seq<TimePeriod> {
        seq![
            TimePeriod::Prehistoric,
            TimePeriod::Ancient,
            TimePeriod::Classical,
            TimePeriod::PostClassical,
            TimePeriod::EarlyModern,
            TimePeriod::Modern,
        ]
    }

    /// All periods, from the earliest to the latest.
    pub fn all() -> (periods: Vec<TimePeriod>)
        ensures
            periods@ == Self::all_spec(),
    {
        let mut periods: Vec<TimePeriod> = Vec::new();
        periods.push(TimePeriod::Prehistoric);
        periods.push(TimePeriod::Ancient);
        periods.push(TimePeriod::Classical);
        periods.push(TimePeriod::PostClassical);
        periods.push(TimePeriod::EarlyModern);
        periods.push(TimePeriod::Modern);
        periods
    }

    /// The listing of periods leaves none out.
    pub proof fn lemma_all_is_complete(period: TimePeriod)
        ensures
            Self::all_spec().contains(period),
    {
        let all = Self::all_spec();
        match period {
            TimePeriod::Prehistoric => assert(all[0] == period),
            TimePeriod::Ancient => assert(all[1] == period),
            TimePeriod::Classical => assert(all[2] == period),
            TimePeriod::PostClassical => assert(all[3] == period),
            TimePeriod::EarlyModern => assert(all[4] == period),
            TimePeriod::Modern => assert(all[5] == period),
        }
    }
}

/// Classification of a wonder.
#[derive(Clone, Copy, Debug, PartialEq, Eq, PartialOrd, Ord, Hash, Structural)]
pub enum Category {
    /// One of the seven wonders of the ancient world.
    SevenWonders,
    /// One of the seven wonders of the modern world, as elected by the
    /// American Society of Civil Engineers in 1994.
    SevenModernWonders,
    /// One of the new seven wonders of the world, as elected by online votes.
    SevenNewWonders,
    /// Appears in the video game "Civilization V".
    Civ5,
    /// Appears in the video game "Civilization VI".
    Civ6,
}

impl Category {
    /// Whether the category is a video game's list.
    pub open spec fn is_game_spec(self) -> bool {
        self == Category::Civ5 || self == Category::Civ6
    }

    /// Whether the category is a video game's list.
    #[verifier::when_used_as_spec(is_game_spec)]
    pub fn is_game(self) -> (game: bool)
        ensures
            game == self.is_game_spec(),
    {
        match self {
            Category::Civ5 | Category::Civ6 => true,
            _ => false,
        }
    }

    /// All categories, in declaration order.
    pub open spec fn all_spec() -> Seq<Category> {
        seq![
            Category::SevenWonders,
            Category::SevenModernWonders,
            Category::SevenNewWonders,
            Category::Civ5,
            Category::Civ6,
        ]
    }

    /// All categories, in declaration order.
    pub fn all() -> (categories: Vec<Category>)
        ensures
            categories@ == Self::all_spec(),
    {
        let mut categories: Vec<Category> = Vec::new();
        categories.push(Category::SevenWonders);
        categories.push(Category::SevenModernWonders);
        categories.push(Category::SevenNewWonders);
        categories.push(Category::Civ5);
        categories.push(Category::Civ6);
        categories
    }

    /// The listing of categories leaves none out.
    pub proof fn lemma_all_is_complete(category: Category)
        ensures
            Self::all_spec().contains(category),
    {
        let all = Self::all_spec();
        match category {
            Category::SevenWonders => assert(all[0] == category),
            Category::SevenModernWonders => assert(all[1] == category),
            Category::SevenNewWonders => assert(all[2] == category),
            Category::Civ5 => assert(all[3] == category),
            Category::Civ6 => assert(all[4] == category),
        }
    }
}

/// Reference links of a wonder.
#[derive(Clone, Debug, PartialEq, Eq)]
pub struct Links {
    /// Encyclopedia article; always present.
    pub wiki: String,
    pub britannica: Option<String>,
    pub google_maps: Option<String>,
    pub trip_advisor: Option<String>,
    /// Pictures of the wonder.
    pub images: Vec<String>,
}

/// One record of the catalogue.
#[derive(Clone, Debug, PartialEq, Eq)]
pub struct Wonder {
    pub name: String,
    /// Short summary of what the wonder is or was.
    pub summary: String,
    /// Location, or suspected location, of the wonder or its remains.
    pub location: String,
    /// Year, or suspected year, in which the wonder was completed.
    pub build_year: i16,
    /// Period that the completion falls in; derived from the build year.
    pub time_period: TimePeriod,
    pub links: Links,
    pub categories: Vec<Category>,
}

impl Wonder {
    /// Whether the wonder belongs to `category`.
    pub open spec fn has_category_spec(&self, category: Category) -> bool {
        self.categories@.contains(category)
    }

    /// Whether the wonder belongs to `category`.
    pub fn has_category(&self, category: Category) -> (found: bool)
        ensures
            found == self.has_category_spec(category),
    {
        let mut i: usize = 0;
        while i < self.categories.len()
            invariant
                i <= self.categories.len(),
                forall|j: int| 0 <= j < i ==> self.categories@[j] != category,
            decreases self.categories.len() - i,
        {
            if self.categories[i] == category {
                return true;
            }
            i += 1;
        }
        false
    }

    /// Whether the stored period is the one that the build year gives.
    pub open spec fn period_is_consistent(&self) -> bool {
        self.time_period == period_of_year(self.build_year as int)
    }
}

} // verus!
