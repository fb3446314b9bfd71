//! The settings that the server starts with, and how their texts are read.

use crate::error::Message;
use crate::text::chars_of;
use vstd::prelude::*;
use vstd::string::*;

verus! {

/// The settings of the server.
#[derive(Clone, Copy, Debug, PartialEq, Eq)]
pub struct Config {
    pub network: NetworkConfig,
}

/// Where the server listens.
#[derive(Clone, Copy, Debug, PartialEq, Eq)]
pub struct NetworkConfig {
    /// The four numbers of the address.
    pub host: [u8; 4],
    pub port: u16,
}

/// Where the server runs; each environment has settings of its own.
#[derive(Clone, Copy, Debug, PartialEq, Eq, Structural)]
pub enum Environment {
    Dev,
    Prod,
}

/// Why a text is no number between 0 and 255.
#[derive(Clone, Copy, Debug, PartialEq, Eq, Structural)]
pub enum NumberFault {
    /// The text is empty.
    Empty,
    /// The text is a sign only, or holds a character that is no digit.
    InvalidDigit,
    /// The number is greater than 255.
    TooLarge,
}

/// Why a text is no host address.
#[derive(Clone, Copy, Debug, PartialEq, Eq, Structural)]
pub enum HostError {
    /// The text does not have four parts between full stops.
    Format,
    /// The part at `part`, counted from zero, is no number between 0 and
    /// 255; the parts before it are.
    Number { part: usize, fault: NumberFault },
}

/// An ASCII capital made small; any other character as it is.
pub open spec fn ascii_lower(c: char) -> char {
    if 'A' <= c && c <= 'Z' {
        ((c as u8) + 32) as char
    } else {
        c
    }
}

/// Whether two texts are the same but for the case of their ASCII letters.
pub open spec fn same_ignoring_ascii_case(a: Seq<char>, b: Seq<char>) -> bool {
    a.map_values(|c: char| ascii_lower(c)) == b.map_values(|c: char| ascii_lower(c))
}

/// An ASCII capital made small; any other character as it is.
pub fn to_ascii_lower(c: char) -> (lowered: char)
    ensures
        lowered == ascii_lower(c),
{
    if 'A' <= c && c <= 'Z' {
        ((c as u8) + 32u8) as char
    } else {
        c
    }
}

/// Whether two texts are the same but for the case of their ASCII letters.
pub fn equals_ignoring_ascii_case(a: &str, b: &str) -> (same: bool)
    ensures
        same == same_ignoring_ascii_case(a@, b@),
{
    let a_chars = chars_of(a);
    let b_chars = chars_of(b);
    let ghost a_lowered = a@.map_values(|c: char| ascii_lower(c));
    let ghost b_lowered = b@.map_values(|c: char| ascii_lower(c));
    if a_chars.len() != b_chars.len() {
        proof {
            assert(a_lowered.len() != b_lowered.len());
        }
        return false;
    }
    let mut i: usize = 0;
    while i < a_chars.len()
        invariant
            i <= a_chars.len(),
            a_chars@ == a@,
            b_chars@ == b@,
            a_chars.len() == b_chars.len(),
            a_lowered == a@.map_values(|c: char| ascii_lower(c)),
            b_lowered == b@.map_values(|c: char| ascii_lower(c)),
            forall|k: int| 0 <= k < i ==> a_lowered[k] == b_lowered[k],
        decreases a_chars.len() - i,
    {
        if to_ascii_lower(a_chars[i]) != to_ascii_lower(b_chars[i]) {
            proof {
                assert(a_lowered[i as int] != b_lowered[i as int]);
            }
            return false;
        }
        i += 1;
    }
    proof {
        assert(a_lowered =~= b_lowered);
    }
    true
}

impl Environment {
    /// The environment that a text names, whatever the case of its letters.
    pub open spec fn named_by(text: Seq<char>) -> Option<Environment> {
        if same_ignoring_ascii_case(text, "dev"@) {
            Some(Environment::Dev)
        } else if same_ignoring_ascii_case(text, "prod"@) {
            Some(Environment::Prod)
        } else {
            None
        }
    }

    /// The environment that a text names, whatever the case of its letters;
    /// `None` if it names none.
    pub fn from_name(text: &str) -> (environment: Option<Environment>)
        ensures
            environment == Self::named_by(text@),
    {
        if equals_ignoring_ascii_case(text, "dev") {
            Some(Environment::Dev)
        } else if equals_ignoring_ascii_case(text, "prod") {
            Some(Environment::Prod)
        } else {
            None
        }
    }

    /// The name of the file that holds the settings of the environment.
    pub fn file_name(&self) -> (name: String)
        ensures
            name@ == self.text() + ".toml"@,
    {
        let mut name = self.to_text();
        name.append(".toml");
        name
    }
}

impl Message for Environment {
    open spec fn text(&self) -> Seq<char> {
        match self {
            Environment::Dev => "dev"@,
            Environment::Prod => "prod"@,
        }
    }

    fn to_text(&self) -> (words: String) {
        match self {
            Environment::Dev => String::from_str("dev"),
            Environment::Prod => String::from_str("prod"),
        }
    }
}

impl Message for NumberFault {
    open spec fn text(&self) -> Seq<char> {
        match self {
            NumberFault::Empty => "cannot parse integer from empty string"@,
            NumberFault::InvalidDigit => "invalid digit found in string"@,
            NumberFault::TooLarge => "number too large to fit in target type"@,
        }
    }

    fn to_text(&self) -> (words: String) {
        match self {
            NumberFault::Empty => String::from_str("cannot parse integer from empty string"),
            NumberFault::InvalidDigit => String::from_str("invalid digit found in string"),
            NumberFault::TooLarge => String::from_str("number too large to fit in target type"),
        }
    }
}

impl Message for HostError {
    open spec fn text(&self) -> Seq<char> {
        match self {
            HostError::Format => "Invalid host -> value needs to be provided in the format '0.0.0.0', with 4 period-separated numbers between 0 and 255."@,
            HostError::Number { part, fault } => "Invalid host -> error parsing one of the period-separated numbers for the host - ensure all values are within 0-255.\nError encountered: "@
                + fault.text(),
        }
    }

    fn to_text(&self) -> (words: String) {
        match self {
            HostError::Format => String::from_str(
                "Invalid host -> value needs to be provided in the format '0.0.0.0', with 4 period-separated numbers between 0 and 255.",
            ),
            HostError::Number { part, fault } => {
                let mut words = String::from_str(
                    "Invalid host -> error parsing one of the period-separated numbers for the host - ensure all values are within 0-255.\nError encountered: ",
                );
                let reason = fault.to_text();
                words.append(reason.as_str());
                words
            },
        }
    }
}

/// The parts of a text between the occurrences of `separator`. A text
/// without the separator is one part; two separators in a row have an empty
/// part between them.
pub open spec fn split_on(text: Seq<char>, separator: char) -> Seq<Seq<char>>
    decreases text.len(),
{
    if text.len() == 0 {
        seq![Seq::<char>::empty()]
    } else {
        let front = split_on(text.drop_last(), separator);
        if text.last() == separator {
            front.push(Seq::<char>::empty())
        } else {
            front.drop_last().push(front.last().push(text.last()))
        }
    }
}

/// Whether a character is a decimal digit.
pub open spec fn is_digit(c: char) -> bool {
    '0' <= c && c <= '9'
}

/// The value of a decimal digit.
pub open spec fn digit_value(c: char) -> int {
    (c as u8) - 48
}

/// Reads digits from left to right, starting from the value `so_far`. It
/// fails at the first character that is no digit, or at the first digit that
/// takes the value above 255, whichever comes first.
pub open spec fn digits_value(digits: Seq<char>, so_far: int) -> Result<u8, NumberFault>
    decreases digits.len(),
{
    if digits.len() == 0 {
        Ok(so_far as u8)
    } else if !is_digit(digits[0]) {
        Err(NumberFault::InvalidDigit)
    } else if so_far * 10 + digit_value(digits[0]) > 255 {
        Err(NumberFault::TooLarge)
    } else {
        digits_value(digits.drop_first(), so_far * 10 + digit_value(digits[0]))
    }
}

/// The number between 0 and 255 that a text is the numeral of: digits, with
/// or without a plus sign before them.
pub open spec fn octet_of(part: Seq<char>) -> Result<u8, NumberFault> {
    if part.len() == 0 {
        Err(NumberFault::Empty)
    } else {
        let digits = if part[0] == '+' {
            part.drop_first()
        } else {
            part
        };
        if digits.len() == 0 {
            Err(NumberFault::InvalidDigit)
        } else {
            digits_value(digits, 0)
        }
    }
}

/// The number between 0 and 255 that the characters are the numeral of.
pub fn parse_octet(part: &[char]) -> (parsed: Result<u8, NumberFault>)
    ensures
        parsed == octet_of(part@),
{
    let n: usize = part.len();
    if n == 0 {
        return Err(NumberFault::Empty);
    }
    let first: usize = if part[0] == '+' {
        1
    } else {
        0
    };
    if first == n {
        return Err(NumberFault::InvalidDigit);
    }
    let ghost digits = part@.skip(first as int);
    proof {
        assert(part@.drop_first() =~= part@.skip(1));
        assert(part@.skip(0) =~= part@);
        assert(digits.skip(0) =~= digits);
    }
    let mut value: u16 = 0;
    let mut i: usize = first;
    while i < n
        invariant
            first <= i <= n,
            n == part@.len(),
            value <= 255,
            digits == part@.skip(first as int),
            octet_of(part@) == digits_value(digits, 0),
            digits_value(digits, 0) == digits_value(digits.skip(i - first), value as int),
        decreases n - i,
    {
        let c: char = part[i];
        proof {
            let rest = digits.skip(i - first);
            assert(rest[0] == c);
            assert(rest.drop_first() =~= digits.skip(i + 1 - first));
        }
        if !('0' <= c && c <= '9') {
            return Err(NumberFault::InvalidDigit);
        }
        let digit: u16 = ((c as u8) - 48u8) as u16;
        let next: u16 = value * 10 + digit;
        if next > 255 {
            return Err(NumberFault::TooLarge);
        }
        value = next;
        i += 1;
    }
    Ok(value as u8)
}

/// What the parts hold as texts.
pub open spec fn texts_of(parts: Seq<Vec<char>>) -> Seq<Seq<char>> {
    parts.map_values(|part: Vec<char>| part@)
}

/// The parts of a text between its full stops.
pub fn split_on_full_stops(text: &str) -> (parts: Vec<Vec<char>>)
    ensures
        texts_of(parts@) == split_on(text@, '.'),
{
    let chars = chars_of(text);
    let mut parts: Vec<Vec<char>> = Vec::new();
    let mut current: Vec<char> = Vec::new();
    let mut i: usize = 0;
    proof {
        assert(chars@.take(0) =~= Seq::<char>::empty());
        assert(texts_of(parts@).push(current@) =~= seq![Seq::<char>::empty()]);
    }
    while i < chars.len()
        invariant
            i <= chars.len(),
            chars@ == text@,
            texts_of(parts@).push(current@) == split_on(chars@.take(i as int), '.'),
        decreases chars.len() - i,
    {
        let c: char = chars[i];
        let ghost before = texts_of(parts@).push(current@);
        proof {
            assert(chars@.take(i + 1).drop_last() =~= chars@.take(i as int));
            assert(chars@.take(i + 1).last() == c);
        }
        if c == '.' {
            parts.push(current);
            current = Vec::new();
            proof {
                assert(texts_of(parts@) =~= before);
            }
        } else {
            let ghost earlier = current@;
            current.push(c);
            proof {
                assert(before.drop_last() =~= texts_of(parts@));
                assert(before.last() == earlier);
            }
        }
        i += 1;
    }
    proof {
        assert(chars@.take(chars@.len() as int) =~= chars@);
    }
    parts.push(current);
    proof {
        assert(texts_of(parts@) =~= split_on(text@, '.'));
    }
    parts
}

/// The address that a text gives: four numbers between 0 and 255, with full
/// stops between them.
pub open spec fn host_of(text: Seq<char>) -> Result<Seq<u8>, HostError> {
    let parts = split_on(text, '.');
    if parts.len() != 4 {
        Err(HostError::Format)
    } else if octet_of(parts[0]) is Err {
        Err(HostError::Number { part: 0, fault: octet_of(parts[0])->Err_0 })
    } else if octet_of(parts[1]) is Err {
        Err(HostError::Number { part: 1, fault: octet_of(parts[1])->Err_0 })
    } else if octet_of(parts[2]) is Err {
        Err(HostError::Number { part: 2, fault: octet_of(parts[2])->Err_0 })
    } else if octet_of(parts[3]) is Err {
        Err(HostError::Number { part: 3, fault: octet_of(parts[3])->Err_0 })
    } else {
        Ok(
            seq![
                octet_of(parts[0])->Ok_0,
                octet_of(parts[1])->Ok_0,
                octet_of(parts[2])->Ok_0,
                octet_of(parts[3])->Ok_0,
            ],
        )
    }
}

/// Reads a host address of the form `0.0.0.0`. The failure tells whether
/// the text does not have four parts, or which part is the first that is no
/// number between 0 and 255, and why.
pub fn deserialize_host(text: &str) -> (host: Result<[u8; 4], HostError>)
    ensures
        match host {
            Ok(numbers) => host_of(text@) == Ok::<Seq<u8>, HostError>(numbers@),
            Err(fault) => host_of(text@) == Err::<Seq<u8>, HostError>(fault),
        },
{
    let parts = split_on_full_stops(text);
    if parts.len() != 4 {
        return Err(HostError::Format);
    }
    proof {
        assert(forall|k: int| 0 <= k < 4 ==> texts_of(parts@)[k] == parts@[k]@);
    }
    let first = match parse_octet(parts[0].as_slice()) {
        Ok(number) => number,
        Err(fault) => {
            return Err(HostError::Number { part: 0, fault });
        },
    };
    let second = match parse_octet(parts[1].as_slice()) {
        Ok(number) => number,
        Err(fault) => {
            return Err(HostError::Number { part: 1, fault });
        },
    };
    let third = match parse_octet(parts[2].as_slice()) {
        Ok(number) => number,
        Err(fault) => {
            return Err(HostError::Number { part: 2, fault });
        },
    };
    let fourth = match parse_octet(parts[3].as_slice()) {
        Ok(number) => number,
        Err(fault) => {
            return Err(HostError::Number { part: 3, fault });
        },
    };
    let numbers: [u8; 4] = [first, second, third, fourth];
    proof {
        assert(numbers@ =~= seq![first, second, third, fourth]);
    }
    Ok(numbers)
}

} // verus!
