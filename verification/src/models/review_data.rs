//! The scheduling state that is kept for every card.

use vstd::prelude::*;

verus! {

/// Easiness factors are held in hundredths: `250` stands for 2.5.
pub const EASINESS_SCALE: u32 = 100;

/// Easiness factor of a card that was never reviewed (2.5).
pub const INITIAL_EASINESS: u32 = 250;

/// No easiness factor falls below this floor (1.3).
pub const MIN_EASINESS: u32 = 130;

/// Scheduling state of one card.
#[derive(Clone, Copy, Debug, PartialEq, Eq, Structural)]
pub struct ReviewData {
    /// The card this state belongs to.
    pub flashcard_id: i64,
    /// Easiness factor in hundredths.
    pub easiness_factor: u32,
    /// Days until the next review; `0` means the card is due at once.
    pub interval_days: u32,
    /// Consecutive successful reviews.
    pub repetitions: u32,
    /// When the card is next due, in seconds since the Unix epoch.
    pub next_review_date: u64,
}

impl ReviewData {
    /// The invariant of stored scheduling state: the easiness factor is at
    /// or above its floor.
    pub open spec fn wf(self) -> bool {
        self.easiness_factor >= MIN_EASINESS
    }

    /// Whether the card is due on `date`.
    pub open spec fn due_on(self, date: u64) -> bool {
        self.next_review_date <= date
    }

    /// State of a card that was added at `created_at` and never reviewed.
    pub fn new(flashcard_id: i64, created_at: u64) -> (fresh: Self)
        ensures
            fresh == (ReviewData {
                flashcard_id,
                easiness_factor: INITIAL_EASINESS,
                interval_days: 0,
                repetitions: 0,
                next_review_date: created_at,
            }),
            fresh.wf(),
            fresh.due_on(created_at),
    {
        ReviewData {
            flashcard_id,
            easiness_factor: INITIAL_EASINESS,
            interval_days: 0,
            repetitions: 0,
            next_review_date: created_at,
        }
    }

    /// Whether the card is due on `date`.
    pub fn is_due(&self, date: u64) -> (due: bool)
        ensures
            due == self.due_on(date),
    {
        self.next_review_date <= date
    }
}

} // verus!
