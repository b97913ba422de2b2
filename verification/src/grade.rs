use vstd::prelude::*;
use crate::text::{lowercased, same_text, to_lower};

verus! {

/// The learner's self-assessed recall quality for one review.
#[derive(Clone, Copy, Debug, PartialEq, Eq, Structural)]
pub enum Grade {
    Hard,
    Medium,
    Easy,
}

/// The ordinal score of a grade: Hard is 1, Medium is 2, Easy is 3.
pub open spec fn score_of(g: Grade) -> int {
    match g {
        Grade::Hard => 1,
        Grade::Medium => 2,
        Grade::Easy => 3,
    }
}

impl Grade {
    /// Ordinal score used by the scheduling formula and by every stored encoding.
    pub fn as_score(&self) -> (s: i32)
        ensures
            s == score_of(*self),
    {
        match self {
            Grade::Hard => 1,
            Grade::Medium => 2,
            Grade::Easy => 3,
        }
    }
}

/// The grade that a stored number stands for: 1 is Hard, 2 is Medium, 3 is
/// Easy, and no other number is a grade.
pub open spec fn grade_of_code(code: int) -> Option<Grade> {
    if code == 1 {
        Some(Grade::Hard)
    } else if code == 2 {
        Some(Grade::Medium)
    } else if code == 3 {
        Some(Grade::Easy)
    } else {
        None
    }
}

/// The grade that a lowercase word names: `1`, `h` and `hard` name Hard;
/// `2`, `m`, `med` and `medium` name Medium; `3`, `e` and `easy` name Easy.
pub open spec fn grade_named(word: Seq<char>) -> Option<Grade> {
    if word == "1"@ || word == "h"@ || word == "hard"@ {
        Some(Grade::Hard)
    } else if word == "2"@ || word == "m"@ || word == "med"@ || word == "medium"@ {
        Some(Grade::Medium)
    } else if word == "3"@ || word == "e"@ || word == "easy"@ {
        Some(Grade::Easy)
    } else {
        None
    }
}

/// Reading back the number under which a grade is stored gives the grade,
/// and the number of a grade that was read is the number that was read.
pub proof fn lemma_grade_code_round_trip(g: Grade, code: int)
    ensures
        grade_of_code(score_of(g)) == Some(g),
        grade_of_code(code) is Some ==> score_of(grade_of_code(code)->0) == code,
{
}

/// The number under which a grade is stored in a 64-bit column.
pub fn grade_to_i(g: &Grade) -> (code: i64)
    ensures
        code == score_of(*g),
{
    match g {
        Grade::Hard => 1,
        Grade::Medium => 2,
        Grade::Easy => 3,
    }
}

/// The grade that is stored under a number in a 64-bit column.
pub fn grade_from_i(code: i64) -> (g: Option<Grade>)
    ensures
        g == grade_of_code(code as int),
{
    if code == 1 {
        Some(Grade::Hard)
    } else if code == 2 {
        Some(Grade::Medium)
    } else if code == 3 {
        Some(Grade::Easy)
    } else {
        None
    }
}

/// The number under which a grade is stored in a 16-bit column.
pub fn grade_to_i16(g: &Grade) -> (code: i16)
    ensures
        code == score_of(*g),
{
    match g {
        Grade::Hard => 1,
        Grade::Medium => 2,
        Grade::Easy => 3,
    }
}

/// The grade that is stored under a number in a 16-bit column.
pub fn grade_from_i16(code: i16) -> (g: Option<Grade>)
    ensures
        g == grade_of_code(code as int),
{
    if code == 1 {
        Some(Grade::Hard)
    } else if code == 2 {
        Some(Grade::Medium)
    } else if code == 3 {
        Some(Grade::Easy)
    } else {
        None
    }
}

/// The number under which a truth value is stored: 1 for true, 0 for false.
pub fn bool_to_i(b: bool) -> (code: i64)
    ensures
        code == if b { 1int } else { 0 },
{
    if b {
        1
    } else {
        0
    }
}

/// The grade that a lowercase word names, if it names one.
pub fn grade_from_word(word: &str) -> (g: Option<Grade>)
    ensures
        g == grade_named(word@),
{
    if same_text(word, "1") || same_text(word, "h") || same_text(word, "hard") {
        Some(Grade::Hard)
    } else if same_text(word, "2") || same_text(word, "m") || same_text(word, "med") || same_text(
        word,
        "medium",
    ) {
        Some(Grade::Medium)
    } else if same_text(word, "3") || same_text(word, "e") || same_text(word, "easy") {
        Some(Grade::Easy)
    } else {
        None
    }
}

/// Reads a grade from a word, whatever the case of its letters.
pub fn parse_grade(s: &str) -> (g: Option<Grade>)
    ensures
        g == grade_named(lowercased(s@)),
{
    let word = to_lower(s);
    grade_from_word(word.as_str())
}

} // verus!
