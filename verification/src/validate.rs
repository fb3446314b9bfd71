//! The rules that a wonder must meet before it is taken into the catalogue.

use crate::data::{derive_time_period, Category, Links, Wonder};
use crate::text::chars_of;
use vstd::prelude::*;
use vstd::slice::slice_subrange;
use vstd::utf8::encode_utf8;

verus! {

/// Whether a character is white space, as `char::is_whitespace` tells it by
/// the Unicode property of that name.
pub uninterp spec fn is_white_space(c: char) -> bool;

/// Whether a text is a URL, as `url::Url::parse` accepts it.
pub uninterp spec fn parses_as_url(text: Seq<char>) -> bool;

/// Calls `char::is_whitespace`. The contract only gives the result its name,
/// [`is_white_space`].
#[verifier::external_body]
fn is_whitespace(c: char) -> (white: bool)
    ensures
        white == is_white_space(c),
{
    c.is_whitespace()
}

/// Calls `garde::rules::url::apply`, which parses the text with
/// `url::Url::parse` and accepts it if that succeeds. The contract only gives
/// the result its name, [`parses_as_url`].
#[verifier::external_body]
fn is_url(text: &String) -> (accepted: bool)
    ensures
        accepted == parses_as_url(text@),
{
    garde::rules::url::apply(text, ()).is_ok()
}

/// Calls `garde::rules::prefix::apply`, which accepts the text if it starts
/// with `prefix`.
#[verifier::external_body]
fn has_prefix(text: &String, prefix: &str) -> (accepted: bool)
    ensures
        accepted == prefix@.is_prefix_of(text@),
{
    garde::rules::prefix::apply(text, (prefix,)).is_ok()
}

/// Calls `garde::rules::length::simple::apply`, which accepts the text if
/// the number of bytes of its UTF-8 encoding is `min` at least and `max` at
/// most.
#[verifier::external_body]
fn has_length(text: &String, min: usize, max: usize) -> (accepted: bool)
    ensures
        accepted == has_byte_length(text@, min as int, max as int),
{
    garde::rules::length::simple::apply(text, (min, max)).is_ok()
}

/// A rule that a wonder breaks.
#[derive(Clone, Copy, Debug, PartialEq, Eq, Structural)]
pub enum Violation {
    /// The name is shorter than 3 bytes or longer than 150.
    NameLength,
    /// The name has white space at an end, white space other than single
    /// spaces, or two white space characters in a row.
    NameText,
    /// The summary is shorter than 50 bytes or longer than 400.
    SummaryLength,
    /// The summary has irregular white space.
    SummaryText,
    /// The summary does not end with a full stop or an exclamation mark.
    SummaryEnding,
    /// The location is shorter than 3 bytes or longer than 150.
    LocationLength,
    /// The location has irregular white space.
    LocationText,
    /// The location does not end with a comma and the name of a continent.
    LocationContinent,
    /// The period is not the one that the build year gives.
    PeriodMismatch,
    /// The encyclopedia link is no URL or leads elsewhere.
    WikiLink,
    /// The Britannica link is no URL or leads elsewhere.
    BritannicaLink,
    /// The map link is no URL or leads elsewhere.
    GoogleMapsLink,
    /// The travel link is no URL or leads elsewhere.
    TripAdvisorLink,
    /// There are fewer than two pictures.
    TooFewImages,
    /// A picture's link is no URL or is not secure.
    ImageLink,
    /// The wonder belongs to no category.
    NoCategories,
    /// A category is given twice.
    DuplicateCategory,
    /// An earlier wonder has the same name.
    DuplicateName,
}

/// Whether the UTF-8 encoding of a text has `min` bytes at least and `max` at
/// most.
pub open spec fn has_byte_length(text: Seq<char>, min: int, max: int) -> bool {
    min <= encode_utf8(text).len() <= max
}

/// For each character of a text, whether it is white space.
pub open spec fn white_space_of(text: Seq<char>) -> Seq<bool> {
    text.map_values(|c: char| is_white_space(c))
}

/// Whether the white space of a text is regular, given for each character
/// whether it is white space: single spaces between other characters, and
/// nothing else.
pub open spec fn is_regular_given(text: Seq<char>, white: Seq<bool>) -> bool {
    &&& white.len() == text.len()
    &&& forall|i: int|
        0 <= i < text.len() && #[trigger] white[i] ==> {
            &&& text[i] == ' '
            &&& 0 < i < text.len() - 1
            &&& !white[i - 1]
        }
}

/// Whether the white space of a text is regular: single spaces between other
/// characters, and nothing else.
pub open spec fn is_regular_text(text: Seq<char>) -> bool {
    is_regular_given(text, white_space_of(text))
}

/// How many characters at the start of a text are white space, given for
/// each character whether it is.
pub open spec fn leading_white_space(white: Seq<bool>) -> int
    decreases white.len(),
{
    if white.len() > 0 && white[0] {
        1 + leading_white_space(white.drop_first())
    } else {
        0
    }
}

/// Whether the last comma of a text stands at `at`.
pub open spec fn is_last_comma(text: Seq<char>, at: int) -> bool {
    &&& 0 <= at < text.len()
    &&& text[at] == ','
    &&& forall|k: int| at < k < text.len() ==> text[k] != ','
}

/// The names of the continents.
pub open spec fn continent_names() -> Seq<Seq<char>> {
    seq![
        "Africa"@,
        "Asia"@,
        "Europe"@,
        "North America"@,
        "Oceania"@,
        "South America"@,
    ]
}

/// What follows the comma at `comma`, less the white space that it starts
/// with.
pub open spec fn after_comma(text: Seq<char>, white: Seq<bool>, comma: int) -> Seq<char> {
    text.skip(comma + 1 + leading_white_space(white.skip(comma + 1)))
}

/// Whether a location ends by naming a continent, given for each character
/// whether it is white space: whether what follows the last comma, less the
/// white space that it starts with, is a continent's name.
pub open spec fn names_continent_given(text: Seq<char>, white: Seq<bool>) -> bool {
    &&& white.len() == text.len()
    &&& exists|at: int|
        is_last_comma(text, at) && continent_names().contains(#[trigger] after_comma(text, white, at))
}

/// Whether a location ends by naming a continent.
pub open spec fn names_continent(text: Seq<char>) -> bool {
    names_continent_given(text, white_space_of(text))
}

/// Whether a text ends with a full stop or an exclamation mark.
pub open spec fn ends_sentence(text: Seq<char>) -> bool {
    text.len() > 0 && (text.last() == '.' || text.last() == '!')
}

/// Whether a text is a URL that starts with `prefix`.
pub open spec fn is_link_to(link: Seq<char>, prefix: Seq<char>) -> bool {
    parses_as_url(link) && prefix.is_prefix_of(link)
}

/// Whether a link that may be absent is, if present, a URL that starts with
/// `prefix`.
pub open spec fn is_optional_link_to(link: Option<String>, prefix: Seq<char>) -> bool {
    link matches Some(present) ==> is_link_to(present@, prefix)
}

/// Whether every picture's link is a URL that starts with `https`.
pub open spec fn are_image_links(images: Seq<String>) -> bool {
    forall|i: int| 0 <= i < images.len() ==> is_link_to(#[trigger] images[i]@, "https"@)
}

/// The first rule, in the order of [`Violation`], that the links break.
pub open spec fn first_link_violation(links: &Links) -> Option<Violation> {
    if !is_link_to(links.wiki@, "https://en.wikipedia.org/wiki/"@) {
        Some(Violation::WikiLink)
    } else if !is_optional_link_to(links.britannica, "https://www.britannica.com"@) {
        Some(Violation::BritannicaLink)
    } else if !is_optional_link_to(links.google_maps, "https://www.google.com/maps/place"@) {
        Some(Violation::GoogleMapsLink)
    } else if !is_optional_link_to(links.trip_advisor, "https://www.tripadvisor.com"@) {
        Some(Violation::TripAdvisorLink)
    } else if links.images@.len() < 2 {
        Some(Violation::TooFewImages)
    } else if !are_image_links(links.images@) {
        Some(Violation::ImageLink)
    } else {
        None
    }
}

/// The first rule, in the order of [`Violation`], that the texts of a wonder
/// break.
pub open spec fn first_text_violation(wonder: &Wonder) -> Option<Violation> {
    if !has_byte_length(wonder.name@, 3, 150) {
        Some(Violation::NameLength)
    } else if !is_regular_text(wonder.name@) {
        Some(Violation::NameText)
    } else if !has_byte_length(wonder.summary@, 50, 400) {
        Some(Violation::SummaryLength)
    } else if !is_regular_text(wonder.summary@) {
        Some(Violation::SummaryText)
    } else if !ends_sentence(wonder.summary@) {
        Some(Violation::SummaryEnding)
    } else if !has_byte_length(wonder.location@, 3, 150) {
        Some(Violation::LocationLength)
    } else if !is_regular_text(wonder.location@) {
        Some(Violation::LocationText)
    } else if !names_continent(wonder.location@) {
        Some(Violation::LocationContinent)
    } else {
        None
    }
}

/// The first rule, in the order of [`Violation`], that a wonder breaks by
/// itself; `None` if it breaks none.
pub open spec fn first_violation(wonder: &Wonder) -> Option<Violation> {
    if first_text_violation(wonder) is Some {
        first_text_violation(wonder)
    } else if !wonder.period_is_consistent() {
        Some(Violation::PeriodMismatch)
    } else if first_link_violation(&wonder.links) is Some {
        first_link_violation(&wonder.links)
    } else if wonder.categories@.len() == 0 {
        Some(Violation::NoCategories)
    } else if !wonder.categories@.no_duplicates() {
        Some(Violation::DuplicateCategory)
    } else {
        None
    }
}

/// For each character, whether it is white space.
pub fn white_space_flags(chars: &[char]) -> (white: Vec<bool>)
    ensures
        white@ == white_space_of(chars@),
{
    let mut white: Vec<bool> = Vec::new();
    let mut i: usize = 0;
    while i < chars.len()
        invariant
            i <= chars.len(),
            white@ == white_space_of(chars@.take(i as int)),
        decreases chars.len() - i,
    {
        white.push(is_whitespace(chars[i]));
        proof {
            assert(white@ =~= white_space_of(chars@.take(i + 1)));
        }
        i += 1;
    }
    proof {
        assert(chars@.take(chars@.len() as int) =~= chars@);
    }
    white
}

/// Whether the white space of a text is regular, given for each character
/// whether it is white space.
pub fn spaces_are_regular(chars: &[char], white: &[bool]) -> (regular: bool)
    ensures
        regular == is_regular_given(chars@, white@),
{
    let n: usize = chars.len();
    if white.len() != n {
        return false;
    }
    let mut i: usize = 0;
    while i < n
        invariant
            i <= n,
            n == chars@.len(),
            n == white@.len(),
            forall|k: int|
                0 <= k < i && #[trigger] white@[k] ==> {
                    &&& chars@[k] == ' '
                    &&& 0 < k < n - 1
                    &&& !white@[k - 1]
                },
        decreases n - i,
    {
        if white[i] && (chars[i] != ' ' || i == 0 || i + 1 == n || white[i - 1]) {
            proof {
                assert(white@[i as int]);
            }
            return false;
        }
        i += 1;
    }
    true
}

/// Whether the white space of a text is regular.
pub fn check_regular_text(text: &str) -> (regular: bool)
    ensures
        regular == is_regular_text(text@),
{
    let chars = chars_of(text);
    let white = white_space_flags(chars.as_slice());
    spaces_are_regular(chars.as_slice(), white.as_slice())
}

/// Whether a text ends with a full stop or an exclamation mark.
pub fn check_ends_sentence(text: &str) -> (ended: bool)
    ensures
        ended == ends_sentence(text@),
{
    let chars = chars_of(text);
    if chars.len() == 0 {
        return false;
    }
    let last: char = chars[chars.len() - 1];
    last == '.' || last == '!'
}

/// The white space at the start ends where the first character stands that
/// is none.
proof fn lemma_leading_white_space(white: Seq<bool>, count: int)
    requires
        0 <= count <= white.len(),
        forall|k: int| 0 <= k < count ==> #[trigger] white[k],
        count < white.len() ==> !white[count],
    ensures
        leading_white_space(white) == count,
    decreases count,
{
    if count > 0 {
        let rest = white.drop_first();
        assert(white[0]);
        assert forall|k: int| 0 <= k < count - 1 implies #[trigger] rest[k] by {
            assert(white[k + 1]);
        }
        lemma_leading_white_space(rest, count - 1);
    }
}

/// Whether two texts have the same characters.
pub fn same_chars(a: &[char], b: &[char]) -> (same: bool)
    ensures
        same == (a@ == b@),
{
    if a.len() != b.len() {
        return false;
    }
    let mut i: usize = 0;
    while i < a.len()
        invariant
            i <= a.len(),
            a@.len() == b@.len(),
            forall|k: int| 0 <= k < i ==> a@[k] == b@[k],
        decreases a.len() - i,
    {
        if a[i] != b[i] {
            return false;
        }
        i += 1;
    }
    proof {
        assert(a@ =~= b@);
    }
    true
}

/// Whether the characters are those of `text`.
fn spells(chars: &[char], text: &str) -> (same: bool)
    ensures
        same == (chars@ == text@),
{
    let other = chars_of(text);
    same_chars(chars, other.as_slice())
}

/// Whether the characters are the name of a continent.
pub fn is_continent(chars: &[char]) -> (named: bool)
    ensures
        named == continent_names().contains(chars@),
{
    let named = spells(chars, "Africa") || spells(chars, "Asia") || spells(chars, "Europe")
        || spells(chars, "North America") || spells(chars, "Oceania") || spells(
        chars,
        "South America",
    );
    proof {
        let names = continent_names();
        assert(names.len() == 6);
        assert(names[0] == "Africa"@ && names[1] == "Asia"@ && names[2] == "Europe"@);
        assert(names[3] == "North America"@ && names[4] == "Oceania"@ && names[5]
            == "South America"@);
    }
    named
}

/// Whether a location ends by naming a continent, given for each character
/// whether it is white space.
pub fn ends_with_continent(chars: &[char], white: &[bool]) -> (named: bool)
    ensures
        named == names_continent_given(chars@, white@),
{
    let n: usize = chars.len();
    if white.len() != n {
        return false;
    }
    let mut end: usize = n;
    let mut found: bool = false;
    while end > 0 && !found
        invariant
            end <= n,
            n == chars@.len(),
            forall|k: int| end <= k < n && !found ==> chars@[k] != ',',
            found ==> end > 0 && is_last_comma(chars@, end - 1),
        decreases end + (if found { 0int } else { 1int }),
    {
        if chars[end - 1] == ',' {
            found = true;
        } else {
            end -= 1;
        }
    }
    if !found {
        return false;
    }
    let comma: usize = end - 1;
    let mut start: usize = comma + 1;
    let mut settled: bool = false;
    while start < n && !settled
        invariant
            comma < start <= n,
            n == white@.len(),
            forall|k: int| comma < k < start ==> #[trigger] white@[k],
            settled ==> start < n && !white@[start as int],
        decreases n - start + (if settled { 0int } else { 1int }),
    {
        if white[start] {
            start += 1;
        } else {
            settled = true;
        }
    }
    let rest = slice_subrange(chars, start, n);
    let named = is_continent(rest);
    proof {
        let tail = white@.skip(comma + 1);
        assert forall|k: int| 0 <= k < start - (comma + 1) implies #[trigger] tail[k] by {
            assert(white@[comma + 1 + k]);
        }
        lemma_leading_white_space(tail, start - (comma + 1));
        assert(after_comma(chars@, white@, comma as int) =~= rest@);
        assert(is_last_comma(chars@, comma as int));
        if !named {
            assert forall|at: int| is_last_comma(chars@, at) implies !continent_names().contains(
                #[trigger] after_comma(chars@, white@, at),
            ) by {
                assert(at == comma);
            }
        }
    }
    named
}

/// Whether a location ends by naming a continent.
pub fn check_names_continent(text: &str) -> (named: bool)
    ensures
        named == names_continent(text@),
{
    let chars = chars_of(text);
    let white = white_space_flags(chars.as_slice());
    ends_with_continent(chars.as_slice(), white.as_slice())
}

/// Whether a text is a link to `prefix`, given whether it is a URL.
pub fn is_link_given(is_url: bool, link: &String, prefix: &str) -> (accepted: bool)
    ensures
        accepted == (is_url && prefix@.is_prefix_of(link@)),
{
    is_url && has_prefix(link, prefix)
}

/// Whether a text is a URL that starts with `prefix`.
pub fn check_link(link: &String, prefix: &str) -> (accepted: bool)
    ensures
        accepted == is_link_to(link@, prefix@),
{
    is_link_given(is_url(link), link, prefix)
}

/// Whether a link that may be absent is, if present, a URL that starts with
/// `prefix`.
pub fn check_optional_link(link: &Option<String>, prefix: &str) -> (accepted: bool)
    ensures
        accepted == is_optional_link_to(*link, prefix@),
{
    match link {
        Some(present) => check_link(present, prefix),
        None => true,
    }
}

/// Whether every picture's link is a URL that starts with `https`.
pub fn check_image_links(images: &Vec<String>) -> (accepted: bool)
    ensures
        accepted == are_image_links(images@),
{
    let mut i: usize = 0;
    while i < images.len()
        invariant
            i <= images.len(),
            forall|k: int| 0 <= k < i ==> is_link_to(#[trigger] images@[k]@, "https"@),
        decreases images.len() - i,
    {
        if !check_link(&images[i], "https") {
            return false;
        }
        i += 1;
    }
    true
}

/// The first rule that the links break.
pub fn check_links(links: &Links) -> (outcome: Result<(), Violation>)
    ensures
        outcome == match first_link_violation(links) {
            Some(violation) => Err::<(), Violation>(violation),
            None => Ok::<(), Violation>(()),
        },
{
    if !check_link(&links.wiki, "https://en.wikipedia.org/wiki/") {
        Err(Violation::WikiLink)
    } else if !check_optional_link(&links.britannica, "https://www.britannica.com") {
        Err(Violation::BritannicaLink)
    } else if !check_optional_link(&links.google_maps, "https://www.google.com/maps/place") {
        Err(Violation::GoogleMapsLink)
    } else if !check_optional_link(&links.trip_advisor, "https://www.tripadvisor.com") {
        Err(Violation::TripAdvisorLink)
    } else if links.images.len() < 2 {
        Err(Violation::TooFewImages)
    } else if !check_image_links(&links.images) {
        Err(Violation::ImageLink)
    } else {
        Ok(())
    }
}

/// The first rule that the texts of a wonder break.
pub fn check_texts(wonder: &Wonder) -> (outcome: Result<(), Violation>)
    ensures
        outcome == match first_text_violation(wonder) {
            Some(violation) => Err::<(), Violation>(violation),
            None => Ok::<(), Violation>(()),
        },
{
    if !has_length(&wonder.name, 3, 150) {
        Err(Violation::NameLength)
    } else if !check_regular_text(wonder.name.as_str()) {
        Err(Violation::NameText)
    } else if !has_length(&wonder.summary, 50, 400) {
        Err(Violation::SummaryLength)
    } else if !check_regular_text(wonder.summary.as_str()) {
        Err(Violation::SummaryText)
    } else if !check_ends_sentence(wonder.summary.as_str()) {
        Err(Violation::SummaryEnding)
    } else if !has_length(&wonder.location, 3, 150) {
        Err(Violation::LocationLength)
    } else if !check_regular_text(wonder.location.as_str()) {
        Err(Violation::LocationText)
    } else if !check_names_continent(wonder.location.as_str()) {
        Err(Violation::LocationContinent)
    } else {
        Ok(())
    }
}

/// Whether no category is given twice.
pub fn check_distinct_categories(categories: &Vec<Category>) -> (distinct: bool)
    ensures
        distinct == categories@.no_duplicates(),
{
    let n: usize = categories.len();
    let mut j: usize = 0;
    while j < n
        invariant
            j <= n,
            n == categories@.len(),
            forall|a: int, b: int| 0 <= a < b < j ==> categories@[a] != categories@[b],
        decreases n - j,
    {
        let mut i: usize = 0;
        while i < j
            invariant
                i <= j,
                j < n,
                n == categories@.len(),
                forall|a: int| 0 <= a < i ==> categories@[a] != categories@[j as int],
            decreases j - i,
        {
            if categories[i] == categories[j] {
                return false;
            }
            i += 1;
        }
        j += 1;
    }
    proof {
        assert forall|a: int, b: int|
            0 <= a < categories@.len() && 0 <= b < categories@.len() && a != b implies categories@[a]
            != categories@[b] by {
            if a < b {
                assert(categories@[a] != categories@[b]);
            } else {
                assert(categories@[b] != categories@[a]);
            }
        }
    }
    true
}

/// Holds a wonder against the rules that it must meet by itself, and names
/// the first that it breaks.
pub fn check_wonder(wonder: &Wonder) -> (outcome: Result<(), Violation>)
    ensures
        outcome == match first_violation(wonder) {
            Some(violation) => Err::<(), Violation>(violation),
            None => Ok::<(), Violation>(()),
        },
{
    if let Err(violation) = check_texts(wonder) {
        return Err(violation);
    }
    if wonder.time_period != derive_time_period(wonder.build_year) {
        return Err(Violation::PeriodMismatch);
    }
    if let Err(violation) = check_links(&wonder.links) {
        return Err(violation);
    }
    if wonder.categories.len() == 0 {
        return Err(Violation::NoCategories);
    }
    if !check_distinct_categories(&wonder.categories) {
        return Err(Violation::DuplicateCategory);
    }
    Ok(())
}

} // verus!
