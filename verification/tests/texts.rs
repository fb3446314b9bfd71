//! Text predicates, periods, failures and settings on given values.

use world_wonders_api::config::{
    deserialize_host, equals_ignoring_ascii_case, parse_octet, split_on_full_stops,
    to_ascii_lower, Config, Environment, HostError, NetworkConfig, NumberFault,
};
use world_wonders_api::data::{derive_time_period, TimePeriod};
use world_wonders_api::error::{Error, ErrorResponse, Message};
use world_wonders_api::text::{
    bytes_precede, chars_of, contains_chars, contains_ignoring_case, contains_text, has_slug,
    matches_at, push_numeral, push_numeral_of_nat, text_precedes, to_slug_char,
};

fn chars(text: &str) -> Vec<char> {
    text.chars().collect()
}

fn numeral(n: i16) -> String {
    let mut out = String::new();
    push_numeral(&mut out, n);
    out
}

#[test]
fn periods_change_at_the_breakpoints() {
    assert_eq!(derive_time_period(i16::MIN), TimePeriod::Prehistoric);
    assert_eq!(derive_time_period(-3001), TimePeriod::Prehistoric);
    assert_eq!(derive_time_period(-3000), TimePeriod::Prehistoric);
    assert_eq!(derive_time_period(-2999), TimePeriod::Ancient);
    assert_eq!(derive_time_period(-800), TimePeriod::Ancient);
    assert_eq!(derive_time_period(-799), TimePeriod::Classical);
    assert_eq!(derive_time_period(0), TimePeriod::Classical);
    assert_eq!(derive_time_period(500), TimePeriod::Classical);
    assert_eq!(derive_time_period(501), TimePeriod::PostClassical);
    assert_eq!(derive_time_period(1500), TimePeriod::PostClassical);
    assert_eq!(derive_time_period(1501), TimePeriod::EarlyModern);
    assert_eq!(derive_time_period(1800), TimePeriod::EarlyModern);
    assert_eq!(derive_time_period(1801), TimePeriod::Modern);
    assert_eq!(derive_time_period(i16::MAX), TimePeriod::Modern);
}

#[test]
fn every_year_has_one_period_and_periods_never_go_back() {
    let all = TimePeriod::all();
    let mut counts = [0usize; 6];
    let mut last = 0usize;
    for year in i16::MIN..=i16::MAX {
        let period = TimePeriod::from(year);
        assert_eq!(period, derive_time_period(year));
        let at = all.iter().position(|p| *p == period).unwrap();
        assert!(at >= last);
        last = at;
        counts[at] += 1;
    }
    assert_eq!(counts, [29769, 2200, 1300, 1000, 300, 30967]);
    assert_eq!(counts.iter().sum::<usize>(), 65536);
}

#[test]
fn substring_search() {
    assert!(contains_text("Great Pyramid of Giza", "Pyramid"));
    assert!(contains_text("Great Pyramid of Giza", "Giza"));
    assert!(contains_text("Great Pyramid of Giza", "Great"));
    assert!(contains_text("Great Pyramid of Giza", ""));
    assert!(contains_text("", ""));
    assert!(!contains_text("", "a"));
    assert!(!contains_text("Giza", "Gizah"));
    assert!(!contains_text("Great Pyramid of Giza", "pyramid"));
    assert!(contains_text("aab", "ab"));
    assert!(contains_text("aaab", "aab"));
    assert!(!contains_text("abab", "abb"));
    assert!(contains_text("Sk\u{f3}gafoss", "\u{f3}ga"));
    assert!(contains_chars(&chars("abc"), &chars("bc")));
    assert!(!contains_chars(&chars("abc"), &chars("cb")));
    assert!(matches_at(&chars("abcabc"), &chars("abc"), 3));
    assert!(!matches_at(&chars("abcabc"), &chars("abc"), 2));
    assert!(matches_at(&chars("abc"), &chars(""), 3));
    assert_eq!(chars_of("G\u{ee}za"), vec!['G', '\u{ee}', 'z', 'a']);
    assert_eq!(chars_of(""), Vec::<char>::new());
}

#[test]
fn substring_search_ignoring_case() {
    assert!(contains_ignoring_case("Great Pyramid of Giza", "pyramid"));
    assert!(contains_ignoring_case("Great Pyramid of Giza", "GIZA"));
    assert!(contains_ignoring_case("great pyramid of giza", "Pyramid Of"));
    assert!(contains_ignoring_case("\u{c9}phesus", "\u{e9}PH"));
    assert!(!contains_ignoring_case("Great Pyramid of Giza", "sphinx"));
    assert!(contains_ignoring_case("Anything", ""));
}

#[test]
fn slugs() {
    assert!(has_slug("Great Pyramid of Giza", "great-pyramid-of-giza"));
    assert!(has_slug("Alhambra", "alhambra"));
    assert!(has_slug("already-a-slug", "already-a-slug"));
    assert!(has_slug("", ""));
    assert!(!has_slug("Great Pyramid of Giza", "great pyramid of giza"));
    assert!(!has_slug("Great Pyramid of Giza", "Great-Pyramid-of-Giza"));
    assert!(!has_slug("Great Pyramid of Giza", "great-pyramid-of-giz"));
    assert!(!has_slug("Great Pyramid of Giza", "great-pyramid-of-gizaa"));
    // Only ASCII capitals are made small.
    assert!(has_slug("\u{c9}cole Z", "\u{c9}cole-z"));
    assert!(!has_slug("\u{c9}cole Z", "\u{e9}cole-z"));
    assert_eq!(to_slug_char(' '), '-');
    assert_eq!(to_slug_char('A'), 'a');
    assert_eq!(to_slug_char('Z'), 'z');
    assert_eq!(to_slug_char('@'), '@');
    assert_eq!(to_slug_char('['), '[');
    assert_eq!(to_slug_char('m'), 'm');
    assert_eq!(to_slug_char('-'), '-');
    assert_eq!(to_slug_char('\t'), '\t');
}

#[test]
fn order_of_names() {
    assert!(text_precedes("", ""));
    assert!(text_precedes("", "a"));
    assert!(!text_precedes("a", ""));
    assert!(text_precedes("Alhambra", "Alhambra"));
    assert!(text_precedes("Alhambra", "Colosseum"));
    assert!(!text_precedes("Colosseum", "Alhambra"));
    assert!(text_precedes("Petra", "Petra Treasury"));
    assert!(text_precedes("Zeus", "alhambra"));
    assert!(text_precedes("z", "\u{e9}"));
    assert!(bytes_precede(&[1, 2, 3], &[1, 2, 4]));
    assert!(bytes_precede(&[1, 2], &[1, 2, 0]));
    assert!(!bytes_precede(&[1, 3], &[1, 2, 9]));
    assert!(!bytes_precede(&[200], &[100]));
}

#[test]
fn numerals() {
    assert_eq!(numeral(0), "0");
    assert_eq!(numeral(7), "7");
    assert_eq!(numeral(10), "10");
    assert_eq!(numeral(400), "400");
    assert_eq!(numeral(-400), "-400");
    assert_eq!(numeral(-1), "-1");
    assert_eq!(numeral(i16::MAX), "32767");
    assert_eq!(numeral(i16::MIN), "-32768");
    let mut out = "year ".to_string();
    push_numeral_of_nat(&mut out, 1905);
    assert_eq!(out, "year 1905");
    for n in [-3000i16, -2999, -800, 500, 1501, 1800, 12345] {
        assert_eq!(numeral(n), n.to_string());
    }
}

#[test]
fn failures_are_put_into_words() {
    assert_eq!(
        Error::NoWondersLeft.to_text(),
        "No wonder matching the given filters was found"
    );
    assert_eq!(
        Error::NoMatchingName("atlantis".to_string()).to_text(),
        "No wonder found matching the name 'atlantis'"
    );
    assert_eq!(
        Error::ConflictingLimitParams(500, 400).to_text(),
        "The provided lower limit of 500 is greater than the provided upper limit of 400"
    );
    assert_eq!(
        Error::ConflictingLimitParams(1000, -400).to_text(),
        "The provided lower limit of 1000 is greater than the provided upper limit of -400"
    );
    assert_eq!(
        Error::InvalidRequest("Failed to deserialize query string".to_string()).to_text(),
        "Invalid request: Failed to deserialize query string"
    );
    assert_eq!(
        Error::Internal("the disk is full".to_string()).to_text(),
        "Something went wrong"
    );
}

#[test]
fn failures_have_status_codes() {
    assert_eq!(Error::NoWondersLeft.status_code(), 400);
    assert_eq!(Error::NoMatchingName("x".to_string()).status_code(), 400);
    assert_eq!(Error::ConflictingLimitParams(2, 1).status_code(), 400);
    assert_eq!(Error::InvalidRequest("x".to_string()).status_code(), 400);
    assert_eq!(Error::Internal("x".to_string()).status_code(), 500);
}

#[test]
fn error_response_carries_the_words() {
    assert_eq!(
        ErrorResponse::new(Error::ConflictingLimitParams(1000, 400)).message,
        "The provided lower limit of 1000 is greater than the provided upper limit of 400"
    );
    assert_eq!(
        ErrorResponse::new(Error::NoWondersLeft),
        ErrorResponse { message: "No wonder matching the given filters was found".to_string() }
    );
    assert_eq!(ErrorResponse::new("plain words").message, "plain words");
    assert_eq!(ErrorResponse::new("owned words".to_string()).message, "owned words");
    assert_eq!(ErrorResponse::new(String::new()).message, "");
}

#[test]
fn hosts() {
    assert_eq!(deserialize_host("0.0.0.0"), Ok([0, 0, 0, 0]));
    assert_eq!(deserialize_host("127.0.0.1"), Ok([127, 0, 0, 1]));
    assert_eq!(deserialize_host("255.255.255.255"), Ok([255, 255, 255, 255]));
    assert_eq!(deserialize_host("+1.02.003.4"), Ok([1, 2, 3, 4]));
    assert_eq!(deserialize_host(""), Err(HostError::Format));
    assert_eq!(deserialize_host("1.2.3"), Err(HostError::Format));
    assert_eq!(deserialize_host("1.2.3.4.5"), Err(HostError::Format));
    assert_eq!(deserialize_host("1.2.3.4."), Err(HostError::Format));
    assert_eq!(deserialize_host("localhost"), Err(HostError::Format));
    assert_eq!(
        deserialize_host("1..3.4"),
        Err(HostError::Number { part: 1, fault: NumberFault::Empty })
    );
    assert_eq!(
        deserialize_host("...",),
        Err(HostError::Number { part: 0, fault: NumberFault::Empty })
    );
    assert_eq!(
        deserialize_host("256.0.0.x"),
        Err(HostError::Number { part: 0, fault: NumberFault::TooLarge })
    );
    assert_eq!(
        deserialize_host("1.2.3.256"),
        Err(HostError::Number { part: 3, fault: NumberFault::TooLarge })
    );
    assert_eq!(
        deserialize_host("1.2.-3.4"),
        Err(HostError::Number { part: 2, fault: NumberFault::InvalidDigit })
    );
    assert_eq!(
        deserialize_host("1.2.3. 4"),
        Err(HostError::Number { part: 3, fault: NumberFault::InvalidDigit })
    );
}

#[test]
fn octets_are_read_as_the_standard_library_reads_them() {
    for text in [
        "", "+", "-", "0", "00", "000255", "255", "256", "999", "1000", "+0", "+255", "+256",
        "-0", "-1", "1a", "a1", "25x6", "2560x", "999x", "x999", " 1", "1 ", "++1", "1+", "١",
        "12345678901234567890",
    ] {
        let expected = text.parse::<u8>().map_err(|e| e.to_string());
        let fault_words = parse_octet(&chars(text)).map_err(|fault| fault.to_text());
        assert_eq!(fault_words, expected, "for {text:?}");
    }
    assert_eq!(parse_octet(&chars("")), Err(NumberFault::Empty));
    assert_eq!(parse_octet(&chars("+")), Err(NumberFault::InvalidDigit));
    assert_eq!(parse_octet(&chars("300")), Err(NumberFault::TooLarge));
    assert_eq!(parse_octet(&chars("30")), Ok(30));
}

#[test]
fn texts_are_split_at_full_stops() {
    let parts = |text: &str| -> Vec<String> {
        split_on_full_stops(text).into_iter().map(|p| p.into_iter().collect()).collect()
    };
    for text in ["", ".", "..", "a", "a.b", "a..b", ".a", "a.", "10.0.0.1", "a.b.c.d.e"] {
        let expected: Vec<String> = text.split('.').map(str::to_string).collect();
        assert_eq!(parts(text), expected, "for {text:?}");
    }
    assert_eq!(parts("10.0.0.1"), vec!["10", "0", "0", "1"]);
}

#[test]
fn host_faults_are_put_into_words() {
    assert_eq!(
        HostError::Format.to_text(),
        "Invalid host -> value needs to be provided in the format '0.0.0.0', with 4 period-separated numbers between 0 and 255."
    );
    assert_eq!(
        HostError::Number { part: 2, fault: NumberFault::TooLarge }.to_text(),
        "Invalid host -> error parsing one of the period-separated numbers for the host - ensure all values are within 0-255.\nError encountered: number too large to fit in target type"
    );
    assert_eq!(NumberFault::Empty.to_text(), "cannot parse integer from empty string");
    assert_eq!(NumberFault::InvalidDigit.to_text(), "invalid digit found in string");
}

#[test]
fn environments() {
    assert_eq!(Environment::from_name("dev"), Some(Environment::Dev));
    assert_eq!(Environment::from_name("DEV"), Some(Environment::Dev));
    assert_eq!(Environment::from_name("Prod"), Some(Environment::Prod));
    assert_eq!(Environment::from_name("pRoD"), Some(Environment::Prod));
    assert_eq!(Environment::from_name("production"), None);
    assert_eq!(Environment::from_name(""), None);
    assert_eq!(Environment::from_name("de"), None);
    assert_eq!(Environment::Dev.to_text(), "dev");
    assert_eq!(Environment::Prod.to_text(), "prod");
    assert_eq!(Environment::Dev.file_name(), "dev.toml");
    assert_eq!(Environment::Prod.file_name(), "prod.toml");
    assert!(equals_ignoring_ascii_case("MiXeD", "mIxEd"));
    assert!(!equals_ignoring_ascii_case("\u{c9}", "\u{e9}"));
    assert!(!equals_ignoring_ascii_case("dev", "dev "));
    assert_eq!(to_ascii_lower('Q'), 'q');
    assert_eq!(to_ascii_lower('q'), 'q');
    assert_eq!(to_ascii_lower('1'), '1');
}

#[test]
fn settings_hold_what_was_read() {
    let host = deserialize_host("0.0.0.0").unwrap();
    let config = Config { network: NetworkConfig { host, port: 8138 } };
    assert_eq!(config.network.host, [0, 0, 0, 0]);
    assert_eq!(config.network.port, 8138);
    assert_eq!(config, Config { network: NetworkConfig { host: [0; 4], port: 8138 } });
}
