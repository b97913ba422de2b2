use flashmaster::grade::Grade;
use flashmaster::models::{Card, Deck, DueStatus, EF_DEFAULT, EF_MAX, EF_MIN};
use flashmaster::errors::CoreError;
use flashmaster::scheduler::{
    apply_grade, clamp_ef, grade_checked, grow_interval, schedule, to_signed, updated_ef,
};
use flashmaster::time::{Timestamp, NANOS_PER_DAY};

fn at(nanos: i128) -> Timestamp {
    Timestamp { nanos }
}

#[test]
fn easy_from_new() {
    let deck = Deck::new("Test");
    let card = Card::new(deck.id, "hola", "hello");
    let before = Timestamp::now();

    let out = apply_grade(card, Grade::Easy, Timestamp::now());
    let c = out.updated_card;

    assert_eq!(c.reps, 1);
    assert_eq!(c.interval_days, 1);
    assert!(c.ef > 250 && c.ef <= EF_MAX);
    assert!(c.due_at.nanos >= before.nanos + NANOS_PER_DAY);
    assert_eq!(c.last_grade, Some(Grade::Easy));
    assert!(out.review.interval_applied >= 1);
}

#[test]
fn medium_progression() {
    let deck = Deck::new("Test");
    let mut card = Card::new(deck.id, "a", "b");
    // first correct to bump reps to 1
    let out1 = apply_grade(card, Grade::Medium, Timestamp::now());
    card = out1.updated_card;
    assert_eq!(card.reps, 1);
    assert_eq!(card.interval_days, 1);

    // second correct should set interval to 6
    let out2 = apply_grade(card, Grade::Medium, Timestamp::now());
    let c2 = out2.updated_card;
    assert_eq!(c2.reps, 2);
    assert_eq!(c2.interval_days, 6);
}

#[test]
fn hard_resets_interval() {
    let deck = Deck::new("Test");
    let mut card = Card::new(deck.id, "x", "y");
    let out1 = apply_grade(card, Grade::Easy, Timestamp::now());
    card = out1.updated_card;

    let out2 = apply_grade(card, Grade::Hard, Timestamp::now());
    let c2 = out2.updated_card;

    assert_eq!(c2.reps, 0);
    assert_eq!(c2.interval_days, 1);
    assert!(c2.ef >= EF_MIN && c2.ef <= EF_MAX);
    assert_eq!(c2.last_grade, Some(Grade::Hard));
}

#[test]
fn new_card_starts_with_default_schedule() {
    let c = Card::with_identity(7, 3, "q", "a", at(1_000));
    assert_eq!(c.id, 7);
    assert_eq!(c.deck_id, 3);
    assert_eq!(c.front, "q");
    assert_eq!(c.back, "a");
    assert_eq!(c.hint, None);
    assert!(c.tags.is_empty());
    assert_eq!(c.reps, 0);
    assert_eq!(c.interval_days, 0);
    assert_eq!(c.ef, EF_DEFAULT);
    assert_eq!(c.due_at, at(1_000));
    assert_eq!(c.created_at, at(1_000));
    assert_eq!(c.last_grade, None);
    assert_eq!(c.last_reviewed_at, None);
    assert!(!c.suspended);
    assert!(c.is_new());
}

#[test]
fn schedule_is_exact_for_each_grade() {
    let now = at(5 * NANOS_PER_DAY);
    let base = Card::with_identity(1, 2, "f", "b", at(0));

    let easy = schedule(base.clone(), Grade::Easy, now, 99);
    assert_eq!(easy.updated_card.ef, 260);
    assert_eq!(easy.updated_card.reps, 1);
    assert_eq!(easy.updated_card.interval_days, 1);
    assert_eq!(easy.updated_card.due_at, at(6 * NANOS_PER_DAY));
    assert_eq!(easy.updated_card.last_reviewed_at, Some(now));
    assert_eq!(easy.updated_card.last_grade, Some(Grade::Easy));
    assert_eq!(easy.review.id, 99);
    assert_eq!(easy.review.card_id, 1);
    assert_eq!(easy.review.grade, Grade::Easy);
    assert_eq!(easy.review.reviewed_at, now);
    assert_eq!(easy.review.interval_applied, 1);
    assert_eq!(easy.review.ef_after, 260);

    let medium = schedule(base.clone(), Grade::Medium, now, 100);
    assert_eq!(medium.updated_card.ef, 250);
    assert_eq!(medium.updated_card.reps, 1);

    let hard = schedule(base.clone(), Grade::Hard, now, 101);
    assert_eq!(hard.updated_card.ef, 236);
    assert_eq!(hard.updated_card.reps, 0);
    assert_eq!(hard.updated_card.interval_days, 1);
    assert_eq!(hard.updated_card.due_at, at(6 * NANOS_PER_DAY));
}

#[test]
fn third_repetition_multiplies_the_interval() {
    let now = at(0);
    let mut card = Card::with_identity(1, 2, "f", "b", at(0));
    card.reps = 2;
    card.interval_days = 6;
    card.ef = 250;
    let out = schedule(card, Grade::Medium, now, 1);
    assert_eq!(out.updated_card.reps, 3);
    assert_eq!(out.updated_card.interval_days, 15);
    assert_eq!(out.updated_card.due_at, at(15 * NANOS_PER_DAY));
    assert_eq!(out.review.interval_applied, 15);

    let mut card2 = Card::with_identity(1, 2, "f", "b", at(0));
    card2.reps = 2;
    card2.interval_days = 6;
    card2.ef = 250;
    let out2 = schedule(card2, Grade::Easy, now, 1);
    // 6 * 2.60 = 15.6, rounded to 16
    assert_eq!(out2.updated_card.interval_days, 16);
    assert_eq!(out2.updated_card.ef, 260);
}

#[test]
fn hard_resets_whatever_the_prior_interval() {
    let now = at(0);
    let mut card = Card::with_identity(1, 2, "f", "b", at(0));
    card.reps = 40;
    card.interval_days = 4_000_000;
    card.ef = 280;
    let out = schedule(card, Grade::Hard, now, 1);
    assert_eq!(out.updated_card.reps, 0);
    assert_eq!(out.updated_card.interval_days, 1);
    assert_eq!(out.updated_card.ef, 266);
}

#[test]
fn easiness_stays_within_bounds_over_long_sequences() {
    let grades = [Grade::Easy, Grade::Hard, Grade::Medium];
    let mut start: u32 = EF_MIN;
    while start <= EF_MAX {
        let mut k: usize = 0;
        while k < 3 {
            let mut ef: u32 = start;
            let mut n: usize = 0;
            while n < 40 {
                ef = updated_ef(ef, grades[(n + k) % 3]);
                assert!(ef >= EF_MIN && ef <= EF_MAX);
                ef = updated_ef(ef, grades[k]);
                assert!(ef >= EF_MIN && ef <= EF_MAX);
                n += 1;
            }
            k += 1;
        }
        start += 1;
    }
}

#[test]
fn easiness_is_clamped_at_both_ends() {
    assert_eq!(updated_ef(280, Grade::Easy), 280);
    assert_eq!(updated_ef(275, Grade::Easy), 280);
    assert_eq!(updated_ef(130, Grade::Hard), 130);
    assert_eq!(updated_ef(140, Grade::Hard), 130);
    assert_eq!(updated_ef(144, Grade::Hard), 130);
    assert_eq!(updated_ef(145, Grade::Hard), 131);
    assert_eq!(updated_ef(200, Grade::Medium), 200);
    assert_eq!(updated_ef(0, Grade::Medium), 130);
    assert_eq!(updated_ef(u32::MAX, Grade::Easy), 280);
    assert_eq!(clamp_ef(-5), 130);
    assert_eq!(clamp_ef(129), 130);
    assert_eq!(clamp_ef(130), 130);
    assert_eq!(clamp_ef(281), 280);
    assert_eq!(clamp_ef(i64::MAX), 280);
    assert_eq!(clamp_ef(205), 205);
}

#[test]
fn interval_growth_rounds_to_the_nearest_day() {
    assert_eq!(grow_interval(0, 250), 3);
    assert_eq!(grow_interval(1, 250), 3);
    assert_eq!(grow_interval(1, 130), 1);
    assert_eq!(grow_interval(1, 149), 1);
    assert_eq!(grow_interval(1, 150), 2);
    assert_eq!(grow_interval(6, 250), 15);
    assert_eq!(grow_interval(6, 260), 16);
    assert_eq!(grow_interval(15, 250), 38);
    assert_eq!(grow_interval(10, 133), 13);
    assert_eq!(grow_interval(u32::MAX, 280), u32::MAX);
    assert_eq!(grow_interval(u32::MAX, 130), u32::MAX);
}

#[test]
fn interval_is_recorded_with_the_same_bits() {
    assert_eq!(to_signed(0), 0);
    assert_eq!(to_signed(15), 15);
    assert_eq!(to_signed(0x7fff_ffff), i32::MAX);
    assert_eq!(to_signed(0x8000_0000), i32::MIN);
    assert_eq!(to_signed(u32::MAX), -1);
}

#[test]
fn a_card_without_repetitions_is_new_whatever_its_due_instant() {
    let now = at(100 * NANOS_PER_DAY);
    let dues: [i128; 5] =
        [i128::MIN, 0, 100 * NANOS_PER_DAY, 500 * NANOS_PER_DAY, i128::MAX];
    for d in dues {
        let mut c = Card::with_identity(1, 2, "f", "b", at(0));
        c.due_at = at(d);
        assert_eq!(c.due_status(now), DueStatus::New);
    }
}

#[test]
fn due_status_follows_the_order_of_checks() {
    let now = at(100 * NANOS_PER_DAY);
    let mut c = Card::with_identity(1, 2, "f", "b", at(0));
    c.reps = 1;
    c.interval_days = 1;

    c.due_at = at(now.nanos + 1);
    assert_eq!(c.due_status(now), DueStatus::Future);
    c.due_at = now;
    assert_eq!(c.due_status(now), DueStatus::DueToday);
    c.due_at = at(now.nanos - NANOS_PER_DAY + 1);
    assert_eq!(c.due_status(now), DueStatus::DueToday);
    c.due_at = at(now.nanos - NANOS_PER_DAY);
    assert_eq!(c.due_status(now), DueStatus::Lapsed);
    c.due_at = at(i128::MIN);
    assert_eq!(c.due_status(now), DueStatus::Lapsed);
    c.due_at = at(i128::MAX);
    assert_eq!(c.due_status(now), DueStatus::Future);
    c.due_at = at(i128::MAX);
    assert_eq!(c.due_status(at(i128::MAX)), DueStatus::DueToday);
}

#[test]
fn grades_have_stable_scores() {
    assert_eq!(Grade::Hard.as_score(), 1);
    assert_eq!(Grade::Medium.as_score(), 2);
    assert_eq!(Grade::Easy.as_score(), 3);
}

#[test]
fn grading_is_refused_only_where_the_count_cannot_grow() {
    let now = at(3 * NANOS_PER_DAY);
    let mut worn = Card::with_identity(1, 2, "f", "b", at(0));
    worn.reps = u32::MAX;
    worn.interval_days = 9;
    assert!(matches!(
        grade_checked(worn.clone(), Grade::Medium, now),
        Err(CoreError::Invalid("reps"))
    ));
    assert!(matches!(
        grade_checked(worn.clone(), Grade::Easy, now),
        Err(CoreError::Invalid("reps"))
    ));
    let hard = grade_checked(worn.clone(), Grade::Hard, now).unwrap();
    assert_eq!(hard.updated_card.reps, 0);
    assert_eq!(hard.updated_card.interval_days, 1);
    assert_eq!(hard.review.grade, Grade::Hard);

    let mut near = Card::with_identity(1, 2, "f", "b", at(0));
    near.reps = u32::MAX - 1;
    near.interval_days = 10;
    near.ef = 200;
    let out = grade_checked(near, Grade::Medium, now).unwrap();
    assert_eq!(out.updated_card.reps, u32::MAX);
    assert_eq!(out.updated_card.interval_days, 20);
    assert_eq!(out.updated_card.ef, 200);
    assert_eq!(out.updated_card.due_at, at(23 * NANOS_PER_DAY));
    assert_eq!(out.review.card_id, 1);
    assert_eq!(out.review.interval_applied, 20);
    assert_eq!(out.review.ef_after, 200);
    assert_eq!(out.review.reviewed_at, now);

    let fresh = Card::with_identity(5, 2, "f", "b", at(0));
    let first = grade_checked(fresh, Grade::Easy, now).unwrap();
    assert_eq!(first.updated_card.reps, 1);
    assert_eq!(first.updated_card.ef, 260);
}
