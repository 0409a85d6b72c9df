//! Error values surfaced by the tokenizer, the parser and the reader.
//!
//! Every failure is fatal to the current parse and carries the exact line
//! and column at which it was detected.

use vstd::prelude::*;

use crate::tokenize::TokenType;

verus! {

/// What went wrong, from the character level up to the reader's
/// contextual rules.
#[derive(Debug, Clone, Copy, PartialEq, Eq, Structural)]
pub enum ErrType {
    /// An unrecognized character.
    NoToken,
    /// A numeric token whose text does not fit an unsigned 32-bit value.
    NotANumber,
    /// A token that cannot begin an action.
    NotAnItem,
    /// A number was followed by neither `/` nor `:`.
    NotSlashOrColon,
    /// Two numbers do not form a representable time of day.
    NotATime,
    /// An identifier other than `year` stood before `=`.
    NotYear,
    /// The input ended inside a group definition.
    UnexpectedEOF,
    /// A clock-in arrived before any job was set.
    JobNotSet,
    /// A short date arrived before any year was set.
    YearNotSet,
    /// A clock-in arrived before any date was set.
    DateNotSet,
    /// A date lies outside the calendar.
    DateNotValid,
    /// A clock-out arrived with no open clock-in.
    ClockinNotSet,
    /// A time or date string ended before all its parts were given.
    MissingItem,
    /// The minute part of a parsed time was 60 or more.
    MinutesOver60,
    /// A token of the given kind was required and something else stood
    /// there.
    Expected(TokenType),
}

/// A parse failure at a source position.
#[derive(Debug, Clone, Copy, PartialEq, Eq, Structural)]
pub struct ParseErr {
    pub line: usize,
    pub col: usize,
    pub etype: ErrType,
}

/// What can be wrong with a finished record.
#[derive(Debug, Clone, Copy, PartialEq, Eq, Structural)]
pub enum ClockErrType {
    /// The record's clock-out is earlier than its clock-in.
    OutBeforeIn,
}

/// A record-level failure, carrying the offending record for
/// diagnostics.
#[derive(Debug)]
pub struct ClockErr {
    pub clock: crate::reader::Clock,
    pub etype: ClockErrType,
}

} // verus!
