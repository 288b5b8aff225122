//! What can go wrong while managing the collection.

use vstd::prelude::*;
use vstd::string::*;

verus! {

/// The ways an operation on the collection can fail.
#[derive(Clone, Copy, Debug, PartialEq, Eq, Structural)]
pub enum Error {
    /// The program does not sit under the expected content root.
    Layout,
    /// Reading, writing or moving something on disk failed.
    Io,
    /// The hud asked for is the active one already.
    AlreadyActive,
    /// No hud of the given name is in the collection.
    NotFound,
    /// A search matched no name.
    NoResults,
    /// The favorites file is not UTF-8 text.
    Encoding,
}

impl Error {
    /// The text shown to the user for this failure.
    pub fn message(&self) -> (text: String)
        ensures
            text@ == match *self {
                Error::Layout => "exe must be in `custom` or `custom\\huds`"@,
                Error::Io => "failed to move hud"@,
                Error::AlreadyActive => "hud already active"@,
                Error::NotFound => "hud should exist"@,
                Error::NoResults => "no results"@,
                Error::Encoding => "failed to read `favorites.txt`"@,
            },
    {
        match self {
            Error::Layout => "exe must be in `custom` or `custom\\huds`".to_owned(),
            Error::Io => "failed to move hud".to_owned(),
            Error::AlreadyActive => "hud already active".to_owned(),
            Error::NotFound => "hud should exist".to_owned(),
            Error::NoResults => "no results".to_owned(),
            Error::Encoding => "failed to read `favorites.txt`".to_owned(),
        }
    }
}

} // verus!
