//! The rules of the catalogue, each held against a record that breaks it.

use std::collections::HashSet;

use chrono::prelude::{Datelike, Utc};
use clearurls::UrlCleaner;
use world_wonders_api::data::{derive_time_period, Category, Links, TimePeriod, Wonder};
use world_wonders_api::dataset::{Dataset, DatasetError};
use world_wonders_api::validate::{
    check_distinct_categories, check_ends_sentence, check_image_links, check_link, check_links,
    check_names_continent, check_optional_link, check_regular_text, check_texts, check_wonder,
    is_continent, same_chars, Violation,
};

fn pictures(slug: &str) -> Vec<String> {
    vec![
        format!("https://upload.wikimedia.org/wikipedia/commons/{slug}/front.jpg"),
        format!("https://upload.wikimedia.org/wikipedia/commons/{slug}/side.jpg"),
        format!("https://upload.wikimedia.org/wikipedia/commons/{slug}/aerial.jpg"),
    ]
}

fn wonder(name: &str, location: &str, build_year: i16, categories: &[Category]) -> Wonder {
    let slug = name.replace(' ', "_");
    Wonder {
        name: name.to_string(),
        summary: format!("{name} is a landmark that travellers have admired for a very long time."),
        location: location.to_string(),
        build_year,
        time_period: TimePeriod::from(build_year),
        links: Links {
            wiki: format!("https://en.wikipedia.org/wiki/{slug}"),
            britannica: Some(format!("https://www.britannica.com/topic/{slug}")),
            google_maps: Some(format!("https://www.google.com/maps/place/{slug}")),
            trip_advisor: None,
            images: pictures(&slug),
        },
        categories: categories.to_vec(),
    }
}

fn records() -> Vec<Wonder> {
    vec![
        wonder("Great Pyramid of Giza", "Giza, Egypt, Africa", -2560, &[Category::SevenWonders, Category::Civ5, Category::Civ6]),
        wonder("Hanging Gardens of Babylon", "Hillah, Iraq, Asia", -600, &[Category::SevenWonders, Category::Civ5, Category::Civ6]),
        wonder("Stonehenge", "Wiltshire, England, Europe", -3000, &[Category::Civ5, Category::Civ6]),
        wonder("Statue of Zeus at Olympia", "Olympia, Greece, Europe", -435, &[Category::SevenWonders, Category::Civ5]),
        wonder("Temple of Artemis", "Selcuk, Turkey, Asia", -550, &[Category::SevenWonders, Category::Civ5, Category::Civ6]),
        wonder("Mausoleum at Halicarnassus", "Bodrum, Turkey, Asia", -351, &[Category::SevenWonders, Category::Civ5, Category::Civ6]),
        wonder("Colossus of Rhodes", "Rhodes, Greece, Europe", -280, &[Category::SevenWonders, Category::Civ5, Category::Civ6]),
        wonder("Lighthouse of Alexandria", "Alexandria, Egypt, Africa", -280, &[Category::SevenWonders, Category::Civ5, Category::Civ6]),
        wonder("Colosseum", "Rome, Italy, Europe", 80, &[Category::SevenNewWonders, Category::Civ5, Category::Civ6]),
        wonder("Petra", "Ma'an, Jordan, Asia", -312, &[Category::SevenNewWonders, Category::Civ5, Category::Civ6]),
        wonder("Chichen Itza", "Yucatan, Mexico, North America", 600, &[Category::SevenNewWonders, Category::Civ5, Category::Civ6]),
        wonder("Alhambra", "Granada, Spain, Europe", 1238, &[Category::Civ5, Category::Civ6]),
        wonder("Machu Picchu", "Cusco Region, Peru, South America", 1450, &[Category::SevenNewWonders, Category::Civ5, Category::Civ6]),
        wonder("Taj Mahal", "Agra, India, Asia", 1653, &[Category::SevenNewWonders, Category::Civ5, Category::Civ6]),
        wonder("Eiffel Tower", "Paris, France, Europe", 1889, &[Category::Civ5, Category::Civ6]),
        wonder("Panama Canal", "Panama, North America", 1914, &[Category::SevenModernWonders, Category::Civ6]),
        wonder("Christ the Redeemer", "Rio de Janeiro, Brazil, South America", 1931, &[Category::SevenNewWonders, Category::Civ5, Category::Civ6]),
        wonder("Empire State Building", "New York City, United States, North America", 1931, &[Category::SevenModernWonders]),
        wonder("Golden Gate Bridge", "San Francisco, United States, North America", 1937, &[Category::SevenModernWonders, Category::Civ6]),
        wonder("Sydney Opera House", "Sydney, Australia, Oceania", 1973, &[Category::Civ5, Category::Civ6]),
        wonder("Channel Tunnel", "Folkestone, England, Europe", 1994, &[Category::SevenModernWonders]),
    ]
}

fn dataset() -> Dataset {
    Dataset::load(records()).expect("the records of the tests are a catalogue")
}

fn colosseum() -> Wonder {
    wonder("Colosseum", "Rome, Italy, Europe", 80, &[Category::SevenNewWonders, Category::Civ5])
}

fn chars(text: &str) -> Vec<char> {
    text.chars().collect()
}

const CONTINENTS: [&str; 6] = [
    "Africa",
    "Asia",
    "Europe",
    "North America",
    "Oceania",
    "South America",
];

fn assert_valid_text(what: &str, val: &str) {
    assert_eq!(
        val.trim().len(),
        val.len(),
        "{} contains trailing/leading whitespace:\n{}",
        what,
        val
    );

    let mut consecutive = false;
    for char in val.chars() {
        if char.is_whitespace() {
            assert_eq!(char, ' ', "{} contains non-space whitespace:\n{}", what, val);
            assert!(!consecutive, "{} contains consecutive spaces:\n{}", what, val);
            consecutive = true;
        } else {
            consecutive = false;
        }
    }
    assert!(check_regular_text(val));
}

#[test]
fn validate_wonders_data() {
    let wonders = records();
    assert!(wonders.len() > 0);

    // Validate data against the rules that each record must meet by itself
    wonders.iter().for_each(|w| assert_eq!(check_wonder(w), Ok(())));

    // To check for duplicate names
    let mut seen_names = HashSet::new();
    // To check for duplicate links
    let mut seen_links = HashSet::new();

    // Current year
    let year = Utc::now().year();

    // URL cleaner
    let cleaner = UrlCleaner::from_embedded_rules().expect("Could not create URL cleaner");

    wonders.iter().for_each(
        |Wonder {
             name,
             location,
             summary,
             build_year,
             time_period,
             links: Links { wiki, britannica, google_maps, trip_advisor, images },
             categories,
             ..
         }| {
            assert_valid_text("name", name);
            assert_valid_text("location", location);
            assert_valid_text("summary", summary);

            assert!(
                location.contains(',')
                    && CONTINENTS.contains(&location.rsplit_once(',').unwrap().1.trim_start()),
                "Location must define a continent:\n{location}"
            );
            assert!(check_names_continent(location));
            assert!(
                summary.ends_with('.') || summary.ends_with('!'),
                "Summary must end with proper punctuation:\n{summary}"
            );
            assert!(check_ends_sentence(summary));

            // Unique name
            assert!(!seen_names.contains(name.as_str()), "Duplicate name: '{name}'");
            seen_names.insert(name.as_str());

            // Build year + time period
            assert!(
                *build_year as i32 <= year,
                "Build year exceeds current calendar year: {build_year}"
            );
            let expected_time_period = TimePeriod::from(*build_year);
            assert_eq!(
                time_period, &expected_time_period,
                "Time period '{time_period:?}' does not match year '{build_year}'. Expected: {expected_time_period:?}",
            );

            // CATEGORIES
            let mut categories_clone = categories.clone();
            categories_clone.sort();
            categories_clone.dedup();
            assert_eq!(
                categories_clone.len(),
                categories.len(),
                "There are duplicate categories: {categories:?}"
            );
            assert!(check_distinct_categories(categories));

            // LINKS
            let mut all_links: Vec<&str> = Vec::with_capacity(images.len() + 4);

            // Wiki link
            all_links.push(wiki.as_str());
            assert!(!wiki.contains('#'), "Selecting specific element in wiki page: {wiki}");

            // Other links (`Option` values)
            [britannica, google_maps, trip_advisor].into_iter().for_each(|l| {
                if let Some(l) = l {
                    assert!(!l.contains('#'), "Selecting specific element in link: {l}");
                    assert!(!l.contains('?'), "Passing query parameters in link: {l}");
                    all_links.push(l);
                };
            });

            // Image links
            assert!(images.len() > 2, "Less than 2 image links provided");
            images.iter().for_each(|img| {
                all_links.push(img);
                assert!(!img.contains('?'), "Passing query parameters in image link: {img}");
            });

            // Checks which should happen for all links
            for l in all_links {
                // Must be unique
                assert!(!seen_links.contains(l), "Duplicate link: {l}");
                seen_links.insert(l);

                // Must be clean
                let clean = cleaner.clear_single_url_str(l).expect("failed cleaning link: {l}");
                assert!(
                    matches!(&clean, std::borrow::Cow::Owned(s) if s == l),
                    "Not a clean URL: {l}\nReplace with {clean}"
                );
            }
        },
    );

    // Together the records are a catalogue, which holds them as they are.
    let catalogue = Dataset::load(wonders).unwrap();
    assert_eq!(catalogue.len(), 21);
    assert_eq!(catalogue.all().len(), 21);
    assert_eq!(catalogue.wonders(), records().as_slice());
}

#[test]
fn loaded_wonders_have_the_period_of_their_year() {
    let catalogue = dataset();
    for wonder in catalogue.wonders() {
        assert_eq!(wonder.time_period, derive_time_period(wonder.build_year));
    }
    for (wonder, reference) in catalogue.wonders().iter().zip(catalogue.all()) {
        assert!(std::ptr::eq(wonder, reference));
    }
}

#[test]
fn no_records_are_no_catalogue() {
    assert_eq!(Dataset::load(Vec::new()).err(), Some(DatasetError::Empty));
}

#[test]
fn load_names_the_first_record_that_breaks_a_rule() {
    let mut wonders = records();
    wonders[4].categories.clear();
    wonders[9].time_period = TimePeriod::Modern;
    assert_eq!(
        Dataset::load(wonders).err(),
        Some(DatasetError::Invalid { index: 4, violation: Violation::NoCategories })
    );
}

#[test]
fn load_refuses_a_repeated_name() {
    let mut wonders = records();
    wonders[7].name = "Colosseum".to_string();
    wonders[7].summary = wonders[8].summary.clone();
    // The later of the two records is the one at fault.
    assert_eq!(
        Dataset::load(wonders).err(),
        Some(DatasetError::Invalid { index: 8, violation: Violation::DuplicateName })
    );

    // Names that differ in case are different names.
    let mut wonders = records();
    wonders[7].name = "COLOSSEUM".to_string();
    assert!(Dataset::load(wonders).is_ok());
}

#[test]
fn a_fault_of_the_record_itself_comes_before_its_repeated_name() {
    let mut wonders = records();
    wonders[8].name = wonders[0].name.clone();
    wonders[8].categories.clear();
    assert_eq!(
        Dataset::load(wonders).err(),
        Some(DatasetError::Invalid { index: 8, violation: Violation::NoCategories })
    );
}

#[test]
fn name_rules() {
    let mut wonder = colosseum();
    wonder.name = "Ab".to_string();
    assert_eq!(check_wonder(&wonder), Err(Violation::NameLength));
    wonder.name = "Abc".to_string();
    assert_eq!(check_wonder(&wonder), Ok(()));
    wonder.name = "a".repeat(150);
    assert_eq!(check_wonder(&wonder), Ok(()));
    wonder.name = "a".repeat(151);
    assert_eq!(check_wonder(&wonder), Err(Violation::NameLength));
    // Length is counted in bytes: fifty characters of three bytes each fit,
    // fifty-one do not.
    wonder.name = "\u{20ac}".repeat(50);
    assert_eq!(check_wonder(&wonder), Ok(()));
    wonder.name = "\u{20ac}".repeat(51);
    assert_eq!(check_wonder(&wonder), Err(Violation::NameLength));
    wonder.name = String::new();
    assert_eq!(check_wonder(&wonder), Err(Violation::NameLength));

    wonder.name = " Colosseum".to_string();
    assert_eq!(check_wonder(&wonder), Err(Violation::NameText));
    wonder.name = "Colosseum ".to_string();
    assert_eq!(check_wonder(&wonder), Err(Violation::NameText));
    wonder.name = "Flavian  Amphitheatre".to_string();
    assert_eq!(check_wonder(&wonder), Err(Violation::NameText));
    wonder.name = "Flavian\tAmphitheatre".to_string();
    assert_eq!(check_wonder(&wonder), Err(Violation::NameText));
    wonder.name = "Flavian\u{a0}Amphitheatre".to_string();
    assert_eq!(check_wonder(&wonder), Err(Violation::NameText));
    wonder.name = "Flavian Amphitheatre".to_string();
    assert_eq!(check_wonder(&wonder), Ok(()));
}

#[test]
fn summary_rules() {
    let mut wonder = colosseum();
    wonder.summary = format!("{}.", "a".repeat(48));
    assert_eq!(check_wonder(&wonder), Err(Violation::SummaryLength));
    wonder.summary = format!("{}.", "a".repeat(49));
    assert_eq!(check_wonder(&wonder), Ok(()));
    wonder.summary = format!("{}!", "a".repeat(399));
    assert_eq!(check_wonder(&wonder), Ok(()));
    wonder.summary = format!("{}!", "a".repeat(400));
    assert_eq!(check_wonder(&wonder), Err(Violation::SummaryLength));
    wonder.summary = format!("{} \n{}.", "a".repeat(30), "b".repeat(30));
    assert_eq!(check_wonder(&wonder), Err(Violation::SummaryText));
    wonder.summary = format!("{}?", "a".repeat(60));
    assert_eq!(check_wonder(&wonder), Err(Violation::SummaryEnding));
    wonder.summary = "a".repeat(60);
    assert_eq!(check_texts(&wonder), Err(Violation::SummaryEnding));
}

#[test]
fn location_rules() {
    let mut wonder = colosseum();
    wonder.location = "Ro".to_string();
    assert_eq!(check_wonder(&wonder), Err(Violation::LocationLength));
    wonder.location = format!("{}, Europe", "a".repeat(143));
    assert_eq!(check_wonder(&wonder), Err(Violation::LocationLength));
    wonder.location = format!("{}, Europe", "a".repeat(142));
    assert_eq!(check_wonder(&wonder), Ok(()));
    wonder.location = "Rome,  Italy, Europe".to_string();
    assert_eq!(check_wonder(&wonder), Err(Violation::LocationText));
    wonder.location = "Rome".to_string();
    assert_eq!(check_wonder(&wonder), Err(Violation::LocationContinent));
    wonder.location = "Rome, Italy".to_string();
    assert_eq!(check_wonder(&wonder), Err(Violation::LocationContinent));
    wonder.location = "Europe, Italy, Rome".to_string();
    assert_eq!(check_wonder(&wonder), Err(Violation::LocationContinent));
    wonder.location = "Rome, Italy,Europe".to_string();
    assert_eq!(check_wonder(&wonder), Ok(()));
    wonder.location = "Rome, Italy, europe".to_string();
    assert_eq!(check_wonder(&wonder), Err(Violation::LocationContinent));
}

#[test]
fn continents() {
    for continent in ["Africa", "Asia", "Europe", "North America", "Oceania", "South America"] {
        assert!(is_continent(&chars(continent)));
        assert!(check_names_continent(&format!("Somewhere, {continent}")));
        assert!(check_names_continent(&format!(",{continent}")));
        assert!(check_names_continent(&format!(", \t {continent}")));
        assert!(!check_names_continent(continent));
        assert!(!check_names_continent(&format!("{continent},")));
        assert!(!check_names_continent(&format!("Somewhere, {continent} ")));
    }
    assert!(!is_continent(&chars("Antarctica")));
    assert!(!is_continent(&chars("America")));
    assert!(!is_continent(&chars("")));
    assert!(!check_names_continent(""));
    assert!(!check_names_continent(","));
    assert!(!check_names_continent("Asia, Europa"));
    assert!(same_chars(&chars("Asia"), &chars("Asia")));
    assert!(!same_chars(&chars("Asia"), &chars("Asip")));
    assert!(!same_chars(&chars("Asia"), &chars("Asi")));
    assert!(same_chars(&chars(""), &chars("")));
}

#[test]
fn regular_text() {
    assert!(check_regular_text(""));
    assert!(check_regular_text("a"));
    assert!(check_regular_text("a b c"));
    assert!(!check_regular_text(" "));
    assert!(!check_regular_text(" a"));
    assert!(!check_regular_text("a "));
    assert!(!check_regular_text("a  b"));
    assert!(!check_regular_text("a\nb"));
    assert!(!check_regular_text("a \tb"));
    assert!(!check_regular_text("a\u{2003}b"));
    assert!(check_ends_sentence("Done."));
    assert!(check_ends_sentence("Done!"));
    assert!(!check_ends_sentence("Done"));
    assert!(!check_ends_sentence("Done. "));
    assert!(!check_ends_sentence(""));
}

#[test]
fn period_rule() {
    let mut wonder = colosseum();
    wonder.build_year = 501;
    assert_eq!(check_wonder(&wonder), Err(Violation::PeriodMismatch));
    wonder.time_period = TimePeriod::PostClassical;
    assert_eq!(check_wonder(&wonder), Ok(()));
}

#[test]
fn link_rules() {
    let mut wonder = colosseum();
    wonder.links.wiki = "https://de.wikipedia.org/wiki/Kolosseum".to_string();
    assert_eq!(check_wonder(&wonder), Err(Violation::WikiLink));
    wonder.links.wiki = "https://en.wikipedia.org/wiki/".to_string();
    assert_eq!(check_wonder(&wonder), Ok(()));
    wonder.links.wiki = "en.wikipedia.org/wiki/Colosseum".to_string();
    assert_eq!(check_wonder(&wonder), Err(Violation::WikiLink));

    let mut wonder = colosseum();
    wonder.links.britannica = Some("https://britannica.com/topic/Colosseum".to_string());
    assert_eq!(check_wonder(&wonder), Err(Violation::BritannicaLink));
    wonder.links.britannica = None;
    assert_eq!(check_wonder(&wonder), Ok(()));

    wonder.links.google_maps = Some("https://www.google.com/maps/Colosseum".to_string());
    assert_eq!(check_wonder(&wonder), Err(Violation::GoogleMapsLink));
    wonder.links.google_maps = None;
    assert_eq!(check_wonder(&wonder), Ok(()));

    wonder.links.trip_advisor = Some("http://www.tripadvisor.com/Colosseum".to_string());
    assert_eq!(check_wonder(&wonder), Err(Violation::TripAdvisorLink));
    wonder.links.trip_advisor = Some("https://www.tripadvisor.com/Colosseum".to_string());
    assert_eq!(check_wonder(&wonder), Ok(()));

    wonder.links.images.truncate(2);
    assert_eq!(check_wonder(&wonder), Ok(()));
    wonder.links.images.truncate(1);
    assert_eq!(check_wonder(&wonder), Err(Violation::TooFewImages));
    wonder.links.images.clear();
    assert_eq!(check_links(&wonder.links), Err(Violation::TooFewImages));
    wonder.links.images = vec![
        "https://example.org/one.jpg".to_string(),
        "http://example.org/two.jpg".to_string(),
    ];
    assert_eq!(check_wonder(&wonder), Err(Violation::ImageLink));
    assert!(!check_image_links(&wonder.links.images));
    wonder.links.images[1] = "https://example.org/two.jpg".to_string();
    assert!(check_image_links(&wonder.links.images));
    assert!(check_image_links(&Vec::new()));
}

#[test]
fn a_link_is_a_url_with_the_prefix() {
    let good = "https://www.britannica.com/topic/Colosseum".to_string();
    assert!(check_link(&good, "https://www.britannica.com"));
    assert!(check_link(&good, "https"));
    assert!(check_link(&good, ""));
    assert!(!check_link(&good, "https://www.tripadvisor.com"));
    assert!(!check_link(&good, "ttps://www.britannica.com"));
    // A text with the prefix that is no URL is no link.
    assert!(!check_link(&"https".to_string(), "https"));
    assert!(!check_link(&"https://".to_string(), "https"));
    assert!(!check_link(&"www.britannica.com".to_string(), ""));
    assert!(check_optional_link(&None, "https://www.britannica.com"));
    assert!(check_optional_link(&Some(good), "https://www.britannica.com"));
    assert!(!check_optional_link(&Some("nonsense".to_string()), ""));
}

#[test]
fn category_rules() {
    let mut wonder = colosseum();
    wonder.categories.clear();
    assert_eq!(check_wonder(&wonder), Err(Violation::NoCategories));
    wonder.categories = vec![Category::Civ5, Category::Civ6, Category::Civ5];
    assert_eq!(check_wonder(&wonder), Err(Violation::DuplicateCategory));
    assert!(!check_distinct_categories(&wonder.categories));
    assert!(check_distinct_categories(&Category::all()));
    assert!(check_distinct_categories(&Vec::new()));
    assert!(!check_distinct_categories(&vec![Category::Civ6, Category::Civ6]));
}

#[test]
fn rules_are_held_in_a_fixed_order() {
    let mut wonder = colosseum();
    wonder.categories.clear();
    wonder.links.images.clear();
    assert_eq!(check_wonder(&wonder), Err(Violation::TooFewImages));
    wonder.time_period = TimePeriod::Ancient;
    assert_eq!(check_wonder(&wonder), Err(Violation::PeriodMismatch));
    wonder.location = "Rome".to_string();
    assert_eq!(check_wonder(&wonder), Err(Violation::LocationContinent));
    wonder.summary = "Short.".to_string();
    assert_eq!(check_wonder(&wonder), Err(Violation::SummaryLength));
    wonder.name = "  ".to_string();
    assert_eq!(check_wonder(&wonder), Err(Violation::NameLength));
}
