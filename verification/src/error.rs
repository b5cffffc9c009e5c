//! What can go wrong, in words for a person.
use vstd::prelude::*;

use crate::text::concat;

verus! {

broadcast use vstd::string::group_string_axioms;

/// A failure. The text is part of the interface: it is shown as it is.
#[derive(Debug, PartialEq)]
pub enum AppError {
    /// A rule of the protocol was broken.
    Core(String),
    /// The database failed.
    Db(String),
    /// A file could not be read or written.
    Io(String),
    /// Something that should be JSON is not.
    Json(String),
    /// A peer, or the way to it, failed.
    Net(String),
    /// What was asked for makes no sense.
    Invalid(String),
    /// What was asked for is not there.
    NotFound(String),
}

/// What a failure says.
pub enum Trouble {
    Core(Seq<char>),
    Db(Seq<char>),
    Io(Seq<char>),
    Json(Seq<char>),
    Net(Seq<char>),
    Invalid(Seq<char>),
    NotFound(Seq<char>),
}

impl View for AppError {
    type V = Trouble;

    open spec fn view(&self) -> Trouble {
        match self {
            AppError::Core(s) => Trouble::Core(s@),
            AppError::Db(s) => Trouble::Db(s@),
            AppError::Io(s) => Trouble::Io(s@),
            AppError::Json(s) => Trouble::Json(s@),
            AppError::Net(s) => Trouble::Net(s@),
            AppError::Invalid(s) => Trouble::Invalid(s@),
            AppError::NotFound(s) => Trouble::NotFound(s@),
        }
    }
}

impl Trouble {
    /// The words shown for it.
    pub open spec fn words(self) -> Seq<char> {
        match self {
            Trouble::Core(s) => s,
            Trouble::Db(s) => "storage: "@ + s,
            Trouble::Io(s) => "io: "@ + s,
            Trouble::Json(s) => "json: "@ + s,
            Trouble::Net(s) => "network: "@ + s,
            Trouble::Invalid(s) => s,
            Trouble::NotFound(s) => "not found: "@ + s,
        }
    }
}

impl AppError {
    /// The words shown for it.
    pub fn message(&self) -> (r: String)
        ensures
            r@ == self@.words(),
    {
        match self {
            AppError::Core(s) => s.clone(),
            AppError::Db(s) => concat("storage: ", s.as_str()),
            AppError::Io(s) => concat("io: ", s.as_str()),
            AppError::Json(s) => concat("json: ", s.as_str()),
            AppError::Net(s) => concat("network: ", s.as_str()),
            AppError::Invalid(s) => s.clone(),
            AppError::NotFound(s) => concat("not found: ", s.as_str()),
        }
    }
}

} // verus!
