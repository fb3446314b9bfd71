//! The failures that a query can end in, and the body they are reported with.

use crate::text::{numeral_of, push_numeral};
use vstd::prelude::*;
use vstd::string::*;

verus! {

/// Every failure that the interface reports.
#[derive(Clone, Debug, PartialEq, Eq)]
pub enum Error {
    /// No wonder passed the filters.
    NoWondersLeft,
    /// No wonder has the given name.
    NoMatchingName(String),
    /// The lower limit, given first, is greater than the upper limit.
    ConflictingLimitParams(i16, i16),
    /// The request could not be read.
    InvalidRequest(String),
    /// A fault of the server; its detail is kept from the client.
    Internal(String),
}

/// Something that can be put into words for a client.
pub trait Message {
    /// The words.
    spec fn text(&self) -> Seq<char>;

    /// The words, as an owned text.
    fn to_text(&self) -> (words: String)
        ensures
            words@ == self.text(),
    ;
}

impl Error {
    /// The status code that the failure is answered with: 500 for a fault of
    /// the server, 400 for everything the client got wrong.
    pub open spec fn status_code_spec(&self) -> u16 {
        match self {
            Error::Internal(_) => 500,
            _ => 400,
        }
    }

    /// The status code that the failure is answered with.
    pub fn status_code(&self) -> (code: u16)
        ensures
            code == self.status_code_spec(),
    {
        match self {
            Error::NoWondersLeft => 400,
            Error::NoMatchingName(_) => 400,
            Error::ConflictingLimitParams(_, _) => 400,
            Error::InvalidRequest(_) => 400,
            Error::Internal(_) => 500,
        }
    }
}

impl Message for Error {
    open spec fn text(&self) -> Seq<char> {
        match self {
            Error::NoWondersLeft => "No wonder matching the given filters was found"@,
            Error::NoMatchingName(name) => "No wonder found matching the name '"@ + name@ + "'"@,
            Error::ConflictingLimitParams(lower, upper) => "The provided lower limit of "@
                + numeral_of(*lower as int) + " is greater than the provided upper limit of "@
                + numeral_of(*upper as int),
            Error::InvalidRequest(reason) => "Invalid request: "@ + reason@,
            Error::Internal(_) => "Something went wrong"@,
        }
    }

    fn to_text(&self) -> (words: String) {
        match self {
            Error::NoWondersLeft => String::from_str(
                "No wonder matching the given filters was found",
            ),
            Error::NoMatchingName(name) => {
                let mut words = String::from_str("No wonder found matching the name '");
                words.append(name.as_str());
                words.append("'");
                words
            },
            Error::ConflictingLimitParams(lower, upper) => {
                let mut words = String::from_str("The provided lower limit of ");
                push_numeral(&mut words, *lower);
                words.append(" is greater than the provided upper limit of ");
                push_numeral(&mut words, *upper);
                words
            },
            Error::InvalidRequest(reason) => {
                let mut words = String::from_str("Invalid request: ");
                words.append(reason.as_str());
                words
            },
            Error::Internal(_) => String::from_str("Something went wrong"),
        }
    }
}

impl Message for String {
    open spec fn text(&self) -> Seq<char> {
        self@
    }

    fn to_text(&self) -> (words: String) {
        self.clone()
    }
}

impl<'a> Message for &'a str {
    open spec fn text(&self) -> Seq<char> {
        self@
    }

    fn to_text(&self) -> (words: String) {
        String::from_str(*self)
    }
}

/// The body that a failure is reported with.
#[derive(Clone, Debug, PartialEq, Eq)]
pub struct ErrorResponse {
    pub message: String,
}

impl ErrorResponse {
    /// The body that reports `message`.
    pub fn new<M: Message>(message: M) -> (response: ErrorResponse)
        ensures
            response.message@ == message.text(),
    {
        ErrorResponse { message: message.to_text() }
    }
}

} // verus!
