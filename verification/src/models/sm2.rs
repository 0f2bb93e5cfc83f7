//! The SM-2 scheduling rule.
//!
//! A review is graded with a quality from 0 (complete blackout) to 5 (perfect
//! response). The grade moves the card's easiness factor, and decides whether
//! the card starts over (grades below 3) or its interval grows: one day, then
//! six days, then the last interval times the easiness factor.
//!
//! Easiness factors are exact decimals with two places, held in hundredths,
//! so every step below is integer arithmetic.

use vstd::prelude::*;
use crate::clock::{days_after, SECONDS_PER_DAY};
use crate::models::review_data::{ReviewData, MIN_EASINESS};

verus! {

/// Grades above 5 count as 5.
pub open spec fn clamped_quality(quality: u8) -> int {
    if quality > 5 {
        5
    } else {
        quality as int
    }
}

/// What a review of quality `q` adds to the easiness factor, in hundredths:
/// 0.1 - (5 - q) * (0.08 + (5 - q) * 0.02).
pub open spec fn easiness_change(q: int) -> int {
    10 - (5 - q) * (8 + (5 - q) * 2)
}

/// The values of `easiness_change` for the six grades.
pub proof fn lemma_easiness_change_by_grade()
    ensures
        easiness_change(0) == -80,
        easiness_change(1) == -54,
        easiness_change(2) == -32,
        easiness_change(3) == -14,
        easiness_change(4) == 0,
        easiness_change(5) == 10,
{
    assert(5 * (8 + 5 * 2) == 90 && 4 * (8 + 4 * 2) == 64 && 3 * (8 + 3 * 2) == 42 && 2 * (8 + 2
        * 2) == 24 && 1 * (8 + 1 * 2) == 10 && 0 * (8 + 0 * 2) == 0) by (nonlinear_arith);
}

/// The easiness factor after a review of quality `q`, floored at 1.3.
pub open spec fn next_easiness(easiness: int, q: int) -> int {
    let moved = easiness + easiness_change(q);
    if moved < MIN_EASINESS {
        MIN_EASINESS as int
    } else {
        moved
    }
}

/// The integer nearest to `hundredths / 100`, halves rounded up.
pub open spec fn round_hundredths(hundredths: int) -> int {
    (hundredths + 50) / 100
}

/// Consecutive successes after a review of quality `q`.
pub open spec fn next_repetitions(repetitions: int, q: int) -> int {
    if q < 3 {
        0
    } else {
        repetitions + 1
    }
}

/// Days until the next review after a review of quality `q`, given the
/// easiness factor that the same review produced.
pub open spec fn next_interval(interval: int, repetitions: int, new_easiness: int, q: int) -> int {
    if q < 3 {
        0
    } else if repetitions + 1 == 1 {
        1
    } else if repetitions + 1 == 2 {
        6
    } else {
        round_hundredths(interval * new_easiness)
    }
}

/// Whether every number of the state that follows `previous` fits the
/// integer type that holds it.
pub open spec fn schedule_fits(previous: ReviewData, quality: u8, current_date: u64) -> bool {
    let q = clamped_quality(quality);
    let easiness = next_easiness(previous.easiness_factor as int, q);
    let interval = next_interval(
        previous.interval_days as int,
        previous.repetitions as int,
        easiness,
        q,
    );
    &&& easiness <= u32::MAX
    &&& next_repetitions(previous.repetitions as int, q) <= u32::MAX
    &&& interval <= u32::MAX
    &&& days_after(current_date as int, interval) <= u64::MAX
}

/// The state that follows `previous` after a review of the given quality on
/// `current_date`.
pub open spec fn scheduled(previous: ReviewData, quality: u8, current_date: u64) -> ReviewData {
    let q = clamped_quality(quality);
    let easiness = next_easiness(previous.easiness_factor as int, q);
    let interval = next_interval(
        previous.interval_days as int,
        previous.repetitions as int,
        easiness,
        q,
    );
    ReviewData {
        flashcard_id: previous.flashcard_id,
        easiness_factor: easiness as u32,
        interval_days: interval as u32,
        repetitions: next_repetitions(previous.repetitions as int, q) as u32,
        next_review_date: days_after(current_date as int, interval) as u64,
    }
}

/// The easiness factor after a history of reviews, given by their grades.
pub open spec fn easiness_after(easiness: int, grades: Seq<u8>) -> int
    decreases grades.len(),
{
    if grades.len() == 0 {
        easiness
    } else {
        next_easiness(easiness_after(easiness, grades.drop_last()), clamped_quality(grades.last()))
    }
}

/// No review takes the easiness factor below its floor, whatever it was
/// before and whatever the grade.
pub proof fn lemma_easiness_floor(easiness: int, quality: u8)
    ensures
        next_easiness(easiness, clamped_quality(quality)) >= MIN_EASINESS,
{
}

/// An easiness factor at or above the floor stays there through any history
/// of reviews, however often the floor is hit.
pub proof fn lemma_easiness_floor_through_history(easiness: int, grades: Seq<u8>)
    requires
        easiness >= MIN_EASINESS,
    ensures
        easiness_after(easiness, grades) >= MIN_EASINESS,
    decreases grades.len(),
{
    if grades.len() > 0 {
        lemma_easiness_floor_through_history(easiness, grades.drop_last());
    }
}

/// A grade below 3 can always be scheduled, and starts the card over: no
/// interval, no repetitions, due on the date of the review. The easiness
/// factor moves as after any other review.
pub proof fn lemma_failed_review_starts_over(previous: ReviewData, quality: u8, current_date: u64)
    requires
        clamped_quality(quality) < 3,
    ensures
        schedule_fits(previous, quality, current_date),
        scheduled(previous, quality, current_date) == (ReviewData {
            flashcard_id: previous.flashcard_id,
            easiness_factor: next_easiness(
                previous.easiness_factor as int,
                clamped_quality(quality),
            ) as u32,
            interval_days: 0,
            repetitions: 0,
            next_review_date: current_date,
        }),
{
    let miss = 5 - clamped_quality(quality);
    assert(10 <= miss * (8 + miss * 2)) by (nonlinear_arith)
        requires
            3 <= miss,
    ;
}

/// The next review is due a whole number of days after the review: as many
/// as the new interval says.
pub proof fn lemma_next_review_date(previous: ReviewData, quality: u8, current_date: u64)
    requires
        schedule_fits(previous, quality, current_date),
    ensures
        scheduled(previous, quality, current_date).next_review_date == current_date + scheduled(
            previous,
            quality,
            current_date,
        ).interval_days * SECONDS_PER_DAY,
{
    let q = clamped_quality(quality);
    let miss = 5 - q;
    assert(0 <= miss * (8 + miss * 2) <= 90) by (nonlinear_arith)
        requires
            0 <= miss <= 5,
    ;
    let easiness = next_easiness(previous.easiness_factor as int, q);
    assert(0 <= previous.interval_days * easiness) by (nonlinear_arith)
        requires
            0 <= previous.interval_days,
            0 <= easiness,
    ;
}

/// Tests whether the state that follows `review_data` fits its integer types.
pub fn can_schedule(review_data: &ReviewData, quality: u8, current_date: u64) -> (fits: bool)
    ensures
        fits == schedule_fits(*review_data, quality, current_date),
{
    let q: i64 = if quality > 5 {
        5
    } else {
        quality as i64
    };
    let miss: i64 = 5 - q;
    if q < 3 {
        assert(10 <= miss * (8 + miss * 2)) by (nonlinear_arith)
            requires
                3 <= miss,
        ;
        return true;
    }
    assert(0 <= miss * 2 <= 4 && 0 <= miss * (8 + miss * 2) <= 24) by (nonlinear_arith)
        requires
            0 <= miss <= 2,
    ;
    let moved: i64 = review_data.easiness_factor as i64 + (10 - miss * (8 + miss * 2));
    if moved > u32::MAX as i64 || review_data.repetitions == u32::MAX {
        return false;
    }
    let new_ef: u64 = if moved < MIN_EASINESS as i64 {
        MIN_EASINESS as u64
    } else {
        moved as u64
    };
    let new_interval: u64 = if review_data.repetitions == 0 {
        1
    } else if review_data.repetitions == 1 {
        6
    } else {
        let interval: u64 = review_data.interval_days as u64;
        assert(interval * new_ef <= 0xffff_ffff * 0xffff_ffff) by (nonlinear_arith)
            requires
                interval <= 0xffff_ffff,
                new_ef <= 0xffff_ffff,
        ;
        (interval * new_ef + 50) / 100
    };
    new_interval <= u32::MAX as u64 && current_date <= u64::MAX - new_interval * SECONDS_PER_DAY
}

/// Computes the state of a card after a review.
///
/// `quality` is the grade of the review, `current_date` the date on which it
/// took place.
pub fn calculate_next_review(review_data: &ReviewData, quality: u8, current_date: u64) -> (next:
    ReviewData)
    requires
        schedule_fits(*review_data, quality, current_date),
    ensures
        next == scheduled(*review_data, quality, current_date),
        next.flashcard_id == review_data.flashcard_id,
        next.wf(),
        next.next_review_date == current_date + next.interval_days * SECONDS_PER_DAY,
        clamped_quality(quality) < 3 ==> next.interval_days == 0 && next.repetitions == 0,
{
    let q: i64 = if quality > 5 {
        5
    } else {
        quality as i64
    };
    let miss: i64 = 5 - q;
    assert(0 <= miss * 2 <= 10 && 0 <= miss * (8 + miss * 2) <= 90) by (nonlinear_arith)
        requires
            0 <= miss <= 5,
    ;
    let moved: i64 = review_data.easiness_factor as i64 + (10 - miss * (8 + miss * 2));
    let new_ef: u32 = if moved < MIN_EASINESS as i64 {
        MIN_EASINESS
    } else {
        moved as u32
    };
    let (new_interval, new_repetitions): (u32, u32) = if q < 3 {
        (0, 0)
    } else {
        let new_reps: u32 = review_data.repetitions + 1;
        let new_int: u32 = if new_reps == 1 {
            1
        } else if new_reps == 2 {
            6
        } else {
            let interval: u64 = review_data.interval_days as u64;
            let factor: u64 = new_ef as u64;
            assert(interval * factor <= 0xffff_ffff * 0xffff_ffff) by (nonlinear_arith)
                requires
                    interval <= 0xffff_ffff,
                    factor <= 0xffff_ffff,
            ;
            ((interval * factor + 50) / 100) as u32
        };
        (new_int, new_reps)
    };
    let next_date: u64 = current_date + (new_interval as u64) * SECONDS_PER_DAY;
    ReviewData {
        flashcard_id: review_data.flashcard_id,
        easiness_factor: new_ef,
        interval_days: new_interval,
        repetitions: new_repetitions,
        next_review_date: next_date,
    }
}

} // verus!
