use vstd::prelude::*;
use crate::grade::Grade;

verus! {

/// What a key press asks the terminal interface to do.
#[derive(Clone, Copy, Debug, PartialEq, Eq, Structural)]
pub enum Action {
    Quit,
    Up,
    Down,
    Enter,
    ToggleReveal,
    GradeHard,
    GradeMedium,
    GradeEasy,
    Skip,
    Nothing,
}

/// A key as the interface reads it.
#[derive(Clone, Copy, Debug, PartialEq, Eq, Structural)]
pub enum Key {
    Char(char),
    Esc,
    Up,
    Down,
    Enter,
    Other,
}

/// What the interface shows: the selected deck, the position in the review
/// queue, whether the answer is revealed and whether a review is going on.
#[derive(Clone, Copy, Debug, PartialEq, Eq, Structural)]
pub struct TuiState {
    pub sel: usize,
    pub idx: usize,
    pub reveal: bool,
    pub in_review: bool,
}

/// What the surroundings of the interface have to do after a step.
#[derive(Clone, Copy, Debug, PartialEq, Eq, Structural)]
pub enum Effect {
    /// Nothing but drawing the new state.
    Redraw,
    /// Leave the interface.
    Quit,
    /// Build the review queue of the selected deck anew.
    BuildQueue,
    /// Grade the card at the given position of the queue and store the result.
    Grade(usize, Grade),
}

/// The action that a key asks for. `plain` says that no modifier key was
/// held; only skipping asks for that.
pub open spec fn action_of(key: Key, plain: bool) -> Action {
    match key {
        Key::Esc => Action::Quit,
        Key::Up => Action::Up,
        Key::Down => Action::Down,
        Key::Enter => Action::Enter,
        Key::Char(c) => if c == 'q' {
            Action::Quit
        } else if c == 'k' {
            Action::Up
        } else if c == 'j' {
            Action::Down
        } else if c == ' ' {
            Action::ToggleReveal
        } else if c == '1' || c == 'h' {
            Action::GradeHard
        } else if c == '2' || c == 'm' {
            Action::GradeMedium
        } else if c == '3' || c == 'e' {
            Action::GradeEasy
        } else if c == 's' && plain {
            Action::Skip
        } else {
            Action::Nothing
        },
        Key::Other => Action::Nothing,
    }
}

/// The grade that a grading action stands for.
pub open spec fn grade_of(action: Action) -> Option<Grade> {
    match action {
        Action::GradeHard => Some(Grade::Hard),
        Action::GradeMedium => Some(Grade::Medium),
        Action::GradeEasy => Some(Grade::Easy),
        _ => None,
    }
}

/// The state after an action, with `n_decks` decks on the left and
/// `queue_len` cards in the review queue.
pub open spec fn next_state(s: TuiState, action: Action, n_decks: usize, queue_len: usize) -> TuiState {
    match action {
        Action::Quit | Action::Nothing => s,
        Action::Up => if !s.in_review && s.sel > 0 {
            TuiState { sel: (s.sel - 1) as usize, ..s }
        } else {
            s
        },
        Action::Down => if !s.in_review && s.sel + 1 < n_decks {
            TuiState { sel: (s.sel + 1) as usize, ..s }
        } else {
            s
        },
        Action::Enter => if !s.in_review {
            TuiState { idx: 0, reveal: false, in_review: true, ..s }
        } else {
            s
        },
        Action::ToggleReveal => if s.in_review {
            TuiState { reveal: !s.reveal, ..s }
        } else {
            s
        },
        Action::Skip => if s.in_review && s.idx + 1 < queue_len {
            TuiState { idx: (s.idx + 1) as usize, reveal: false, ..s }
        } else {
            s
        },
        Action::GradeHard | Action::GradeMedium | Action::GradeEasy => if s.in_review && s.idx
            < queue_len {
            if s.idx + 1 < queue_len {
                TuiState { idx: (s.idx + 1) as usize, reveal: false, ..s }
            } else {
                TuiState { in_review: false, ..s }
            }
        } else {
            s
        },
    }
}

/// What is to be done after an action.
pub open spec fn effect_of(s: TuiState, action: Action, queue_len: usize) -> Effect {
    match action {
        Action::Quit => Effect::Quit,
        Action::Enter => if !s.in_review {
            Effect::BuildQueue
        } else {
            Effect::Redraw
        },
        Action::GradeHard | Action::GradeMedium | Action::GradeEasy => if s.in_review && s.idx
            < queue_len {
            Effect::Grade(s.idx, grade_of(action)->0)
        } else {
            Effect::Redraw
        },
        _ => Effect::Redraw,
    }
}

/// The action that a key asks for.
pub fn map_key(key: Key, plain: bool) -> (a: Action)
    ensures
        a == action_of(key, plain),
{
    match key {
        Key::Esc => Action::Quit,
        Key::Up => Action::Up,
        Key::Down => Action::Down,
        Key::Enter => Action::Enter,
        Key::Char(c) => {
            if c == 'q' {
                Action::Quit
            } else if c == 'k' {
                Action::Up
            } else if c == 'j' {
                Action::Down
            } else if c == ' ' {
                Action::ToggleReveal
            } else if c == '1' || c == 'h' {
                Action::GradeHard
            } else if c == '2' || c == 'm' {
                Action::GradeMedium
            } else if c == '3' || c == 'e' {
                Action::GradeEasy
            } else if c == 's' && plain {
                Action::Skip
            } else {
                Action::Nothing
            }
        },
        Key::Other => Action::Nothing,
    }
}

impl TuiState {
    /// The state in which the interface starts.
    pub fn new() -> (s: TuiState)
        ensures
            s == (TuiState { sel: 0, idx: 0, reveal: false, in_review: false }),
    {
        TuiState { sel: 0, idx: 0, reveal: false, in_review: false }
    }

    /// Keeps the selection within the list after the decks were loaded: at
    /// most the last deck, and the first where there is none.
    pub fn clamp_selection(&mut self, n_decks: usize)
        ensures
            *final(self) == (TuiState {
                sel: if n_decks == 0 {
                    0
                } else if old(self).sel < n_decks {
                    old(self).sel
                } else {
                    (n_decks - 1) as usize
                },
                ..*old(self)
            }),
    {
        let last = if n_decks == 0 {
            0
        } else {
            n_decks - 1
        };
        if self.sel > last {
            self.sel = last;
        }
    }

    /// Takes one action: moves to the next state and says what is to be
    /// done.
    pub fn step(&mut self, action: Action, n_decks: usize, queue_len: usize) -> (e: Effect)
        ensures
            *final(self) == next_state(*old(self), action, n_decks, queue_len),
            e == effect_of(*old(self), action, queue_len),
    {
        match action {
            Action::Quit => Effect::Quit,
            Action::Nothing => Effect::Redraw,
            Action::Up => {
                if !self.in_review && self.sel > 0 {
                    self.sel = self.sel - 1;
                }
                Effect::Redraw
            },
            Action::Down => {
                if !self.in_review && n_decks > 0 && self.sel < n_decks - 1 {
                    self.sel = self.sel + 1;
                }
                Effect::Redraw
            },
            Action::Enter => {
                if !self.in_review {
                    self.in_review = true;
                    self.idx = 0;
                    self.reveal = false;
                    Effect::BuildQueue
                } else {
                    Effect::Redraw
                }
            },
            Action::ToggleReveal => {
                if self.in_review {
                    self.reveal = !self.reveal;
                }
                Effect::Redraw
            },
            Action::Skip => {
                if self.in_review && queue_len > 0 && self.idx < queue_len - 1 {
                    self.idx = self.idx + 1;
                    self.reveal = false;
                }
                Effect::Redraw
            },
            Action::GradeHard | Action::GradeMedium | Action::GradeEasy => {
                if self.in_review && self.idx < queue_len {
                    let grade = match action {
                        Action::GradeHard => Grade::Hard,
                        Action::GradeMedium => Grade::Medium,
                        _ => Grade::Easy,
                    };
                    let at = self.idx;
                    if self.idx < queue_len - 1 {
                        self.idx = self.idx + 1;
                        self.reveal = false;
                    } else {
                        self.in_review = false;
                    }
                    Effect::Grade(at, grade)
                } else {
                    Effect::Redraw
                }
            },
        }
    }
}

} // verus!
