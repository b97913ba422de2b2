use vstd::prelude::*;
use crate::errors::CoreError;
use crate::grade::{score_of, Grade};
use crate::ids::random_id;
use crate::models::{Card, CardView, Review, ReviewId, EF_MAX, EF_MIN};
use crate::time::{Timestamp, NANOS_PER_DAY};

verus! {

/// What one grading of a card yields: the card with its new scheduling
/// state, and the record of the grading.
pub struct ScheduleOutcome {
    pub updated_card: Card,
    pub review: Review,
}

/// The change of the easiness factor that a grade brings, in hundredths: ten
/// up for Easy, none for Medium, fourteen down for Hard.
pub open spec fn ef_delta(g: Grade) -> int {
    match g {
        Grade::Easy => 10,
        Grade::Medium => 0,
        Grade::Hard => -14,
    }
}

/// The change of the easiness factor follows the formula
/// `0.1 - (3 - s) * (0.08 + (3 - s) * 0.02)` over the score `s` of the grade,
/// here in hundredths.
pub proof fn lemma_ef_delta_formula(g: Grade)
    ensures
        ef_delta(g) == 10 - (3 - score_of(g)) * (8 + (3 - score_of(g)) * 2),
{
    let k = 3 - score_of(g);
    assert(k == 0 || k == 1 || k == 2);
    assert(k * (8 + k * 2) == if k == 0 { 0int } else if k == 1 { 10 } else { 24 }) by (nonlinear_arith)
        requires
            k == 0 || k == 1 || k == 2,
    ;
}

/// `x` brought into the range of the easiness factor.
pub open spec fn clamped_ef(x: int) -> int {
    if x < EF_MIN {
        EF_MIN as int
    } else if x > EF_MAX {
        EF_MAX as int
    } else {
        x
    }
}

/// The easiness factor after a grade.
pub open spec fn next_ef(ef: u32, g: Grade) -> int {
    clamped_ef(ef + ef_delta(g))
}

/// The repetition count after a grade: Hard resets it, the others add one.
pub open spec fn next_reps(reps: u32, g: Grade) -> int {
    if g == Grade::Hard {
        0
    } else {
        reps + 1
    }
}

/// The interval of a card past its second repetition: the prior interval, at
/// least one day, times the new easiness factor, rounded to the nearest day
/// (halves upwards), at least one day and at most what the field can hold.
pub open spec fn grown_interval(prior: u32, new_ef: int) -> int {
    let base = if prior < 1 { 1 } else { prior as int };
    let rounded = (base * new_ef + 50) / 100;
    if rounded < 1 {
        1
    } else if rounded > u32::MAX {
        u32::MAX as int
    } else {
        rounded
    }
}

/// The interval in days after a grade: one day after Hard and after the
/// first repetition, six days after the second, and from then on the prior
/// interval grown by the new easiness factor.
pub open spec fn next_interval(reps: u32, prior: u32, ef: u32, g: Grade) -> int {
    if g == Grade::Hard {
        1
    } else if reps + 1 == 1 {
        1
    } else if reps + 1 == 2 {
        6
    } else {
        grown_interval(prior, next_ef(ef, g))
    }
}

/// A day count as the signed 32-bit number with the same bits.
pub open spec fn as_signed(days: int) -> int {
    if days <= i32::MAX {
        days
    } else {
        days - 0x1_0000_0000
    }
}

/// The card after grading it with `g` at `now`. Only the scheduling fields
/// change.
pub open spec fn graded(card: CardView, g: Grade, now: Timestamp) -> CardView {
    let days = next_interval(card.reps, card.interval_days, card.ef, g);
    CardView {
        reps: next_reps(card.reps, g) as u32,
        interval_days: days as u32,
        ef: next_ef(card.ef, g) as u32,
        due_at: Timestamp { nanos: (now.nanos + days * NANOS_PER_DAY) as i128 },
        last_grade: Some(g),
        last_reviewed_at: Some(now),
        ..card
    }
}

/// The record of grading `card` with `g` at `now`, under the identifier `id`.
pub open spec fn review_of(id: ReviewId, card: CardView, g: Grade, now: Timestamp) -> Review {
    Review {
        id,
        card_id: card.id,
        grade: g,
        reviewed_at: now,
        interval_applied: as_signed(next_interval(card.reps, card.interval_days, card.ef, g)) as i32,
        ef_after: next_ef(card.ef, g) as u32,
    }
}

/// The easiness factor after a sequence of grades, one after the other.
pub open spec fn ef_after_all(ef: u32, grades: Seq<Grade>) -> int
    decreases grades.len(),
{
    if grades.len() == 0 {
        ef as int
    } else {
        next_ef(ef_after_all(ef, grades.drop_last()) as u32, grades.last())
    }
}

/// Whatever the easiness factor was, after a grade it lies within its
/// bounds, and so it does after any sequence of one or more grades.
pub proof fn lemma_ef_stays_within_bounds(ef: u32, grades: Seq<Grade>)
    requires
        grades.len() > 0,
    ensures
        EF_MIN <= ef_after_all(ef, grades) <= EF_MAX,
        forall|g: Grade| EF_MIN <= #[trigger] next_ef(ef, g) <= EF_MAX,
{
}

/// Easy on a card that was never reviewed: one repetition, an interval of
/// one day, a greater easiness factor, due a day after the review.
pub proof fn lemma_easy_on_new_card(card: CardView, now: Timestamp)
    requires
        card.reps == 0,
        card.ef == crate::models::EF_DEFAULT,
        now.schedulable(),
    ensures
        graded(card, Grade::Easy, now).reps == 1,
        graded(card, Grade::Easy, now).interval_days == 1,
        graded(card, Grade::Easy, now).ef == 260,
        graded(card, Grade::Easy, now).due_at.nanos == now.nanos + NANOS_PER_DAY,
        graded(card, Grade::Easy, now).last_grade == Some(Grade::Easy),
{
}

/// Medium twice on a card that was never reviewed: after the first, one
/// repetition and an interval of one day; after the second, two repetitions
/// and an interval of six days.
pub proof fn lemma_medium_twice_on_new_card(card: CardView, first: Timestamp, second: Timestamp)
    requires
        card.reps == 0,
        first.schedulable(),
        second.schedulable(),
    ensures
        graded(card, Grade::Medium, first).reps == 1,
        graded(card, Grade::Medium, first).interval_days == 1,
        graded(graded(card, Grade::Medium, first), Grade::Medium, second).reps == 2,
        graded(graded(card, Grade::Medium, first), Grade::Medium, second).interval_days == 6,
{
}

/// Hard resets the repetitions to none and the interval to one day,
/// whatever they were.
pub proof fn lemma_hard_resets(card: CardView, now: Timestamp)
    ensures
        graded(card, Grade::Hard, now).reps == 0,
        graded(card, Grade::Hard, now).interval_days == 1,
{
}

/// Brings a value into the range of the easiness factor.
pub fn clamp_ef(x: i64) -> (ef: u32)
    ensures
        ef == clamped_ef(x as int),
        EF_MIN <= ef <= EF_MAX,
{
    if x < 130 {
        EF_MIN
    } else if x > 280 {
        EF_MAX
    } else {
        x as u32
    }
}

/// The easiness factor after grading a card whose factor is `ef`.
pub fn updated_ef(ef: u32, grade: Grade) -> (r: u32)
    ensures
        r == next_ef(ef, grade),
        EF_MIN <= r <= EF_MAX,
{
    let g: i64 = grade.as_score() as i64;
    let k: i64 = 3 - g;
    let inner: i64 = 8 + k * 2;
    assert(0 <= k * inner <= 24) by (nonlinear_arith)
        requires
            0 <= k <= 2,
            8 <= inner <= 12,
    ;
    let delta: i64 = 10 - k * inner;
    proof {
        lemma_ef_delta_formula(grade);
    }
    clamp_ef(ef as i64 + delta)
}

/// The interval of a card past its second repetition.
pub fn grow_interval(prior: u32, new_ef: u32) -> (days: u32)
    requires
        EF_MIN <= new_ef <= EF_MAX,
    ensures
        days == grown_interval(prior, new_ef as int),
        days >= 1,
{
    let base: u64 = if prior < 1 { 1 } else { prior as u64 };
    let factor: u64 = new_ef as u64;
    assert(base * factor <= 0xffff_ffff * 280) by (nonlinear_arith)
        requires
            base <= 0xffff_ffff,
            factor <= 280,
    ;
    let rounded: u64 = (base * factor + 50) / 100;
    if rounded < 1 {
        1
    } else if rounded > 0xffff_ffff {
        u32::MAX
    } else {
        rounded as u32
    }
}

/// The signed 32-bit number with the same bits as `days`.
pub fn to_signed(days: u32) -> (r: i32)
    ensures
        r == as_signed(days as int),
{
    if days <= 0x7fff_ffff {
        days as i32
    } else {
        let low: u32 = days - 0x8000_0000;
        (low as i32) + i32::MIN
    }
}

/// Grades a card at `now` and records the grading under the identifier
/// `review_id`. The easiness factor moves by the grade's delta and is
/// clamped; Hard resets the repetitions and the interval, Medium and Easy
/// add a repetition and lengthen the interval; the card falls due the new
/// interval after `now`.
pub fn schedule(card: Card, grade: Grade, now: Timestamp, review_id: ReviewId) -> (out:
    ScheduleOutcome)
    requires
        grade != Grade::Hard ==> card.reps < u32::MAX,
        now.schedulable(),
    ensures
        out.updated_card@ == graded(card@, grade, now),
        out.review == review_of(review_id, card@, grade, now),
        out.updated_card@.wf(),
        grade == Grade::Hard ==> out.updated_card.reps == 0 && out.updated_card.interval_days == 1,
{
    let mut card = card;
    let new_ef = updated_ef(card.ef, grade);
    let new_reps: u32;
    let new_interval: u32;
    if grade.as_score() < 2 {
        new_reps = 0;
        new_interval = 1;
    } else {
        new_reps = card.reps + 1;
        new_interval = if new_reps == 1 {
            1
        } else if new_reps == 2 {
            6
        } else {
            grow_interval(card.interval_days, new_ef)
        };
    }
    card.ef = new_ef;
    card.reps = new_reps;
    card.interval_days = new_interval;
    card.due_at = now.plus_days(new_interval);
    card.last_grade = Some(grade);
    card.last_reviewed_at = Some(now);
    let review = Review::with_id(review_id, card.id, grade, now, to_signed(new_interval), new_ef);
    ScheduleOutcome { updated_card: card, review }
}

/// Grades a card at `now`, as `schedule` does, and records the grading under
/// a random identifier.
pub fn apply_grade(card: Card, grade: Grade, now: Timestamp) -> (out: ScheduleOutcome)
    requires
        grade != Grade::Hard ==> card.reps < u32::MAX,
        now.schedulable(),
    ensures
        out.updated_card@ == graded(card@, grade, now),
        out.review == review_of(out.review.id, card@, grade, now),
        out.updated_card@.wf(),
        grade == Grade::Hard ==> out.updated_card.reps == 0 && out.updated_card.interval_days == 1,
{
    let id = random_id();
    schedule(card, grade, now, id)
}

/// Grades a card at `now`, as `apply_grade` does, where its repetition
/// count can still grow. Fails with `Invalid("reps")` exactly when the grade
/// is not Hard and the count is at its limit.
pub fn grade_checked(card: Card, grade: Grade, now: Timestamp) -> (r: Result<
    ScheduleOutcome,
    CoreError,
>)
    requires
        now.schedulable(),
    ensures
        match r {
            Ok(out) => {
                &&& !(card.reps == u32::MAX && grade != Grade::Hard)
                &&& out.updated_card@ == graded(card@, grade, now)
                &&& out.review == review_of(out.review.id, card@, grade, now)
                &&& out.updated_card@.wf()
            },
            Err(e) => card.reps == u32::MAX && grade != Grade::Hard && e == CoreError::Invalid(
                "reps",
            ),
        },
{
    if card.reps == u32::MAX && grade != Grade::Hard {
        return Err(CoreError::Invalid("reps"));
    }
    Ok(apply_grade(card, grade, now))
}

} // verus!
