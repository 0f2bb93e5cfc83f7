use flashcards_app::clock::SECONDS_PER_DAY;
use flashcards_app::models::review_data::{ReviewData, INITIAL_EASINESS, MIN_EASINESS};
use flashcards_app::models::sm2::{calculate_next_review, can_schedule};
use std::time::{SystemTime, UNIX_EPOCH};

fn now() -> u64 {
    SystemTime::now().duration_since(UNIX_EPOCH).unwrap().as_secs()
}

fn review(easiness_factor: u32, interval_days: u32, repetitions: u32) -> ReviewData {
    ReviewData {
        flashcard_id: 1,
        easiness_factor,
        interval_days,
        repetitions,
        next_review_date: 1_700_000_000,
    }
}

#[test]
fn test_first_review() {
    let review = ReviewData {
        flashcard_id: 1,
        easiness_factor: 250,
        interval_days: 0,
        repetitions: 0,
        next_review_date: now(),
    };

    let next = calculate_next_review(&review, 4, now());
    assert_eq!(next.interval_days, 1);
    assert_eq!(next.repetitions, 1);
}

#[test]
fn test_second_review() {
    let review = ReviewData {
        flashcard_id: 1,
        easiness_factor: 250,
        interval_days: 1,
        repetitions: 1,
        next_review_date: now(),
    };

    let next = calculate_next_review(&review, 4, now());
    assert_eq!(next.interval_days, 6);
    assert_eq!(next.repetitions, 2);
}

#[test]
fn test_quality_below_3_resets() {
    let review = ReviewData {
        flashcard_id: 1,
        easiness_factor: 250,
        interval_days: 10,
        repetitions: 5,
        next_review_date: now(),
    };

    let next = calculate_next_review(&review, 2, now());
    assert_eq!(next.interval_days, 0);
    assert_eq!(next.repetitions, 0);
    // EF should still be updated
    assert!(next.easiness_factor < 250);
}

#[test]
fn test_ef_floor() {
    let review = ReviewData {
        flashcard_id: 1,
        easiness_factor: 130,
        interval_days: 1,
        repetitions: 1,
        next_review_date: now(),
    };

    let next = calculate_next_review(&review, 0, now());
    assert!(next.easiness_factor >= 130);
}

#[test]
fn test_easiness_change_for_each_quality() {
    let start = review(250, 6, 2);
    let expected: [(u8, u32); 6] = [(0, 170), (1, 196), (2, 218), (3, 236), (4, 250), (5, 260)];
    for (quality, easiness) in expected {
        let next = calculate_next_review(&start, quality, 1_700_000_000);
        assert_eq!(next.easiness_factor, easiness, "quality {}", quality);
    }
}

#[test]
fn test_easiness_floor_for_every_quality() {
    for quality in 0..=5u8 {
        let mut state = review(MIN_EASINESS, 1, 1);
        for _ in 0..4 {
            state = calculate_next_review(&state, quality, 1_700_000_000);
            assert!(state.easiness_factor >= MIN_EASINESS, "quality {}", quality);
        }
    }
    let at_floor = calculate_next_review(&review(MIN_EASINESS, 1, 1), 0, 1_700_000_000);
    assert_eq!(at_floor.easiness_factor, 130);
    let again = calculate_next_review(&at_floor, 1, 1_700_000_000);
    assert_eq!(again.easiness_factor, 130);
    let near_floor = calculate_next_review(&review(140, 1, 1), 3, 1_700_000_000);
    assert_eq!(near_floor.easiness_factor, 130);
    let above_floor = calculate_next_review(&review(150, 1, 1), 3, 1_700_000_000);
    assert_eq!(above_floor.easiness_factor, 136);
}

#[test]
fn test_third_review_multiplies_by_easiness() {
    let next = calculate_next_review(&review(250, 6, 2), 4, 1_700_000_000);
    assert_eq!(next.repetitions, 3);
    assert_eq!(next.easiness_factor, 250);
    assert_eq!(next.interval_days, 15);

    let next = calculate_next_review(&review(250, 6, 2), 5, 1_700_000_000);
    assert_eq!(next.easiness_factor, 260);
    assert_eq!(next.interval_days, 16);

    let next = calculate_next_review(&review(250, 6, 2), 3, 1_700_000_000);
    assert_eq!(next.easiness_factor, 236);
    assert_eq!(next.interval_days, 14);
}

#[test]
fn test_interval_rounds_to_nearest() {
    // 5 * 2.5 = 12.5 rounds up
    let next = calculate_next_review(&review(250, 5, 2), 4, 1_700_000_000);
    assert_eq!(next.interval_days, 13);
    // 3 * 1.3 = 3.9
    let next = calculate_next_review(&review(130, 3, 7), 4, 1_700_000_000);
    assert_eq!(next.interval_days, 4);
    // 1 * 1.3 = 1.3
    let next = calculate_next_review(&review(130, 1, 7), 4, 1_700_000_000);
    assert_eq!(next.interval_days, 1);
    // 10 * 2.36 = 23.6
    let next = calculate_next_review(&review(250, 10, 4), 3, 1_700_000_000);
    assert_eq!(next.interval_days, 24);
    // an interval of zero stays zero
    let next = calculate_next_review(&review(250, 0, 4), 5, 1_700_000_000);
    assert_eq!(next.interval_days, 0);
}

#[test]
fn test_quality_above_five_counts_as_five() {
    let start = review(250, 6, 2);
    let five = calculate_next_review(&start, 5, 1_700_000_000);
    for quality in [6u8, 7, 100, 255] {
        let next = calculate_next_review(&start, quality, 1_700_000_000);
        assert_eq!(next, five);
    }
}

#[test]
fn test_next_review_date_is_reference_plus_interval() {
    let date = 1_700_000_000u64;
    let first = calculate_next_review(&review(250, 0, 0), 4, date);
    assert_eq!(first.next_review_date, date + 86_400);
    let second = calculate_next_review(&first, 4, date + 86_400);
    assert_eq!(second.interval_days, 6);
    assert_eq!(second.next_review_date, date + 86_400 + 6 * 86_400);
    let failed = calculate_next_review(&second, 1, date);
    assert_eq!(failed.interval_days, 0);
    assert_eq!(failed.next_review_date, date);
    for quality in 0..=5u8 {
        for repetitions in 0..4u32 {
            let next = calculate_next_review(&review(250, 9, repetitions), quality, date);
            assert_eq!(
                next.next_review_date,
                date + u64::from(next.interval_days) * SECONDS_PER_DAY
            );
        }
    }
}

#[test]
fn test_failed_review_resets_whatever_came_before() {
    for quality in 0..3u8 {
        let previous = ReviewData {
            flashcard_id: -9,
            easiness_factor: u32::MAX,
            interval_days: u32::MAX,
            repetitions: u32::MAX,
            next_review_date: 3,
        };
        assert!(can_schedule(&previous, quality, u64::MAX));
        let next = calculate_next_review(&previous, quality, u64::MAX);
        assert_eq!(next.interval_days, 0);
        assert_eq!(next.repetitions, 0);
        assert_eq!(next.next_review_date, u64::MAX);
        assert_eq!(next.flashcard_id, -9);
    }
    let next = calculate_next_review(&review(300, 40, 9), 2, 1_700_000_000);
    assert_eq!(next.easiness_factor, 268);
    let next = calculate_next_review(&review(300, 40, 9), 0, 1_700_000_000);
    assert_eq!(next.easiness_factor, 220);
}

#[test]
fn test_card_id_is_kept() {
    let previous = ReviewData {
        flashcard_id: 4711,
        easiness_factor: 250,
        interval_days: 0,
        repetitions: 0,
        next_review_date: 0,
    };
    assert_eq!(calculate_next_review(&previous, 5, 10).flashcard_id, 4711);
}

#[test]
fn test_can_schedule_tells_what_fits() {
    assert!(can_schedule(&review(250, 6, 2), 4, 1_700_000_000));
    // the count of repetitions is at its limit
    assert!(!can_schedule(&review(250, 6, u32::MAX), 4, 1_700_000_000));
    assert!(can_schedule(&review(250, 6, u32::MAX), 2, 1_700_000_000));
    // the easiness factor is at its limit
    assert!(!can_schedule(&review(u32::MAX, 0, 0), 5, 1_700_000_000));
    assert!(can_schedule(&review(u32::MAX, 0, 0), 4, 1_700_000_000));
    assert!(can_schedule(&review(u32::MAX - 10, 0, 0), 5, 1_700_000_000));
    // the interval would not fit
    assert!(!can_schedule(&review(250, u32::MAX, 2), 4, 1_700_000_000));
    assert!(can_schedule(&review(100, u32::MAX, 2), 0, 1_700_000_000));
    assert!(can_schedule(&review(130, 3_303_820_996, 2), 3, 1_700_000_000));
    assert!(!can_schedule(&review(130, 3_303_820_997, 2), 3, 1_700_000_000));
    // the date would not fit
    assert!(!can_schedule(&review(250, 0, 0), 4, u64::MAX));
    assert!(can_schedule(&review(250, 0, 0), 4, u64::MAX - 86_400));
    assert!(!can_schedule(&review(250, 0, 0), 4, u64::MAX - 86_399));
    assert!(can_schedule(&review(250, 0, 0), 1, u64::MAX));
}

#[test]
fn test_new_review_data_has_the_defaults() {
    let fresh = ReviewData::new(12, 1_700_000_000);
    assert_eq!(
        fresh,
        ReviewData {
            flashcard_id: 12,
            easiness_factor: INITIAL_EASINESS,
            interval_days: 0,
            repetitions: 0,
            next_review_date: 1_700_000_000,
        }
    );
    assert_eq!(INITIAL_EASINESS, 250);
    assert_eq!(MIN_EASINESS, 130);
    assert!(fresh.is_due(1_700_000_000));
    assert!(fresh.is_due(1_700_000_001));
    assert!(!fresh.is_due(1_699_999_999));
}
