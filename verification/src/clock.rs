//! The calendar of the application.
//!
//! Dates are whole seconds since the Unix epoch, held in a `u64`. The current
//! date is kept by its owner as decimal text, so that it can be set ahead a
//! day at a time.

use vstd::prelude::*;
use crate::decimal::{decimal, lemma_parse_of_decimal, parse_decimal, parsed, to_decimal};

verus! {

/// Length of a day: a fixed 24 hours, with no calendar or time-zone adjustment.
pub const SECONDS_PER_DAY: u64 = 86_400;

/// The date `days` whole days after `date`.
pub open spec fn days_after(date: int, days: int) -> int {
    date + days * SECONDS_PER_DAY
}

/// The date that a stored text stands for: its number, and the epoch itself
/// where the text is no number.
pub open spec fn date_of_text(text: Seq<char>) -> u64 {
    match parsed(text) {
        Some(date) => date,
        None => 0,
    }
}

/// A date that is stored as text and read again is the same date.
pub proof fn lemma_stored_date_reads_back(date: u64)
    ensures
        date_of_text(decimal(date as nat)) == date,
{
    lemma_parse_of_decimal(date);
}

/// Moves a date forward by one day.
pub fn advance_day(current: u64) -> (next: u64)
    requires
        days_after(current as int, 1) <= u64::MAX,
    ensures
        next == days_after(current as int, 1),
{
    current + SECONDS_PER_DAY
}

/// Reads a date from its stored text. A text that is no number reads as the
/// epoch.
pub fn date_from_text(text: &str) -> (date: u64)
    ensures
        date == date_of_text(text@),
{
    match parse_decimal(text) {
        Some(date) => date,
        None => 0,
    }
}

/// The text under which a date is stored.
pub fn date_to_text(date: u64) -> (text: String)
    ensures
        text@ == decimal(date as nat),
        date_of_text(text@) == date,
{
    proof {
        lemma_stored_date_reads_back(date);
    }
    to_decimal(date)
}

} // verus!
