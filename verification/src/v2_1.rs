//! The dialect entry point for inputs already known to carry the `V2.1`
//! version token.

use vstd::prelude::*;

use crate::csa::Version;
use crate::engine::{parse_dialect, spec_parse_dialect};
use crate::value::GameRecord;

verus! {

/// The one error shape of this dialect: a human-readable message.
#[derive(Debug)]
pub struct ParseError(pub String);

impl ParseError {
    /// The diagnostic text.
    pub fn message(&self) -> (r: String)
        ensures
            r@ == self.0@,
    {
        self.0.clone()
    }
}

/// Parse an input under this dialect alone.
pub fn parse(input: &str) -> (r: Result<GameRecord, ParseError>)
    ensures
        match r {
            Ok(rec) => spec_parse_dialect(Version::V2_1, input@) == Some(rec@),
            Err(_) => spec_parse_dialect(Version::V2_1, input@) is None,
        },
{
    match parse_dialect(Version::V2_1, input) {
        Ok(rec) => Ok(rec),
        Err(m) => Err(ParseError(m)),
    }
}

} // verus!
