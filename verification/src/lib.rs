//! A verified reader for a line-oriented board-game record notation with
//! four related dialects. The crate detects the dialect of an input, parses
//! it, and returns one unified [`value::GameRecord`].

pub mod csa;
pub mod engine;
pub mod v2;
pub mod v2_1;
pub mod v2_2;
pub mod v3;
pub mod laws;
pub mod lexical;
pub mod position;
pub mod roundtrip;
pub mod serial;
pub mod temporal;
pub mod text;
pub mod value;

pub use value::{Action, Color, Date, Duration, GameRecord, MoveRecord, PieceType, Position,
    Square, Time, TimeLimit, TimeOfDay};

use vstd::prelude::*;

use crate::csa::spec_parse_csa;

verus! {

/// The one error the facade reports: an input without a recognizable
/// dialect, or one its dialect's grammar rejects.
#[derive(Debug)]
pub enum CsaError {
    ParseError(String),
}

impl CsaError {
    /// The diagnostic text.
    pub fn message(&self) -> (r: String)
        ensures
            self matches CsaError::ParseError(m) ==> r@ == m@,
    {
        match self {
            CsaError::ParseError(m) => m.clone(),
        }
    }
}

/// Parse a record with automatic dialect detection.
pub fn parse_csa(s: &str) -> (r: Result<GameRecord, CsaError>)
    ensures
        match r {
            Ok(rec) => spec_parse_csa(s@) == Some(rec@),
            Err(_) => spec_parse_csa(s@) is None,
        },
{
    match crate::csa::parse(s) {
        Ok(rec) => Ok(rec),
        Err(e) => Err(CsaError::ParseError(e.0)),
    }
}

} // verus!
