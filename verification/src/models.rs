use vstd::prelude::*;
use crate::grade::Grade;
use crate::ids::random_id;
use crate::time::{Timestamp, NANOS_PER_DAY};

verus! {

pub type DeckId = u128;

pub type CardId = u128;

pub type ReviewId = u128;

/// Smallest easiness factor, in hundredths (1.30).
pub const EF_MIN: u32 = 130;

/// Largest easiness factor, in hundredths (2.80).
pub const EF_MAX: u32 = 280;

/// Easiness factor of a card that was never reviewed, in hundredths (2.50).
pub const EF_DEFAULT: u32 = 250;

/// How ready a card is for review at a given instant.
#[derive(Clone, Copy, Debug, PartialEq, Eq, Structural)]
pub enum DueStatus {
    New,
    DueToday,
    Lapsed,
    Future,
}

/// A named collection of cards.
#[derive(Debug)]
pub struct Deck {
    pub id: DeckId,
    pub name: String,
    pub created_at: Timestamp,
}

/// A flashcard together with its scheduling state. The easiness factor `ef`
/// is kept in hundredths, so 250 stands for 2.50.
#[derive(Debug)]
pub struct Card {
    pub id: CardId,
    pub deck_id: DeckId,
    pub front: String,
    pub back: String,
    pub hint: Option<String>,
    pub tags: Vec<String>,
    pub reps: u32,
    pub interval_days: u32,
    pub ef: u32,
    pub due_at: Timestamp,
    pub last_grade: Option<Grade>,
    pub last_reviewed_at: Option<Timestamp>,
    pub suspended: bool,
    pub created_at: Timestamp,
}

/// The record of one grading of one card. `ef_after` is in hundredths.
#[derive(Debug)]
pub struct Review {
    pub id: ReviewId,
    pub card_id: CardId,
    pub grade: Grade,
    pub reviewed_at: Timestamp,
    pub interval_applied: i32,
    pub ef_after: u32,
}

/// The characters of each string of a list, in order.
pub open spec fn texts(items: Seq<String>) -> Seq<Seq<char>> {
    items.map_values(|s: String| s@)
}

/// The characters of an optional string.
pub open spec fn opt_text(item: Option<String>) -> Option<Seq<char>> {
    match item {
        Some(s) => Some(s@),
        None => None,
    }
}

/// What a deck holds, with its name as a sequence of characters.
pub struct DeckView {
    pub id: DeckId,
    pub name: Seq<char>,
    pub created_at: Timestamp,
}

/// What a card holds, with every text as a sequence of characters.
pub struct CardView {
    pub id: CardId,
    pub deck_id: DeckId,
    pub front: Seq<char>,
    pub back: Seq<char>,
    pub hint: Option<Seq<char>>,
    pub tags: Seq<Seq<char>>,
    pub reps: u32,
    pub interval_days: u32,
    pub ef: u32,
    pub due_at: Timestamp,
    pub last_grade: Option<Grade>,
    pub last_reviewed_at: Option<Timestamp>,
    pub suspended: bool,
    pub created_at: Timestamp,
}

impl View for Deck {
    type V = DeckView;

    open spec fn view(&self) -> DeckView {
        DeckView { id: self.id, name: self.name@, created_at: self.created_at }
    }
}

impl View for Card {
    type V = CardView;

    open spec fn view(&self) -> CardView {
        CardView {
            id: self.id,
            deck_id: self.deck_id,
            front: self.front@,
            back: self.back@,
            hint: opt_text(self.hint),
            tags: texts(self.tags@),
            reps: self.reps,
            interval_days: self.interval_days,
            ef: self.ef,
            due_at: self.due_at,
            last_grade: self.last_grade,
            last_reviewed_at: self.last_reviewed_at,
            suspended: self.suspended,
            created_at: self.created_at,
        }
    }
}

/// The views of a sequence of decks, in order.
pub open spec fn deck_views(decks: Seq<Deck>) -> Seq<DeckView> {
    decks.map_values(|d: Deck| d@)
}

/// The views of a sequence of cards, in order.
pub open spec fn card_views(cards: Seq<Card>) -> Seq<CardView> {
    cards.map_values(|c: Card| c@)
}

/// A copy of an optional string with the same characters.
pub fn copy_hint(hint: &Option<String>) -> (r: Option<String>)
    ensures
        opt_text(r) == opt_text(*hint),
{
    match hint {
        Some(h) => Some(h.clone()),
        None => None,
    }
}

/// A copy of a list of strings with the same characters in the same order.
pub fn copy_strings(items: &[String]) -> (r: Vec<String>)
    ensures
        texts(r@) == texts(items@),
{
    let mut out: Vec<String> = Vec::new();
    let mut i: usize = 0;
    while i < items.len()
        invariant
            i <= items.len(),
            out@.len() == i,
            forall|j: int| 0 <= j < i ==> out@[j]@ == items@[j]@,
        decreases items.len() - i,
    {
        out.push(items[i].clone());
        i += 1;
    }
    proof {
        assert(texts(out@) =~= texts(items@));
    }
    out
}

impl Clone for Deck {
    fn clone(&self) -> (r: Self)
        ensures
            r@ == self@,
    {
        Deck { id: self.id, name: self.name.clone(), created_at: self.created_at }
    }
}

impl Clone for Review {
    fn clone(&self) -> (r: Self)
        ensures
            r == *self,
    {
        Review {
            id: self.id,
            card_id: self.card_id,
            grade: self.grade,
            reviewed_at: self.reviewed_at,
            interval_applied: self.interval_applied,
            ef_after: self.ef_after,
        }
    }
}

impl Clone for Card {
    fn clone(&self) -> (r: Self)
        ensures
            r@ == self@,
    {
        Card {
            id: self.id,
            deck_id: self.deck_id,
            front: self.front.clone(),
            back: self.back.clone(),
            hint: copy_hint(&self.hint),
            tags: copy_strings(self.tags.as_slice()),
            reps: self.reps,
            interval_days: self.interval_days,
            ef: self.ef,
            due_at: self.due_at,
            last_grade: self.last_grade,
            last_reviewed_at: self.last_reviewed_at,
            suspended: self.suspended,
            created_at: self.created_at,
        }
    }
}

/// The due status of a card with the given repetition count and due instant,
/// seen at `now`. A card without repetitions is new whatever its due instant;
/// otherwise it is future while `now` lies before the due instant, lapsed
/// once a full day has passed since, and due today in between.
pub open spec fn due_status_of(reps: u32, due_at: Timestamp, now: Timestamp) -> DueStatus {
    if reps == 0 {
        DueStatus::New
    } else if due_at.nanos > now.nanos {
        DueStatus::Future
    } else if now.nanos - due_at.nanos >= NANOS_PER_DAY {
        DueStatus::Lapsed
    } else {
        DueStatus::DueToday
    }
}

impl CardView {
    /// The due status of the card at `now`.
    pub open spec fn due_status(self, now: Timestamp) -> DueStatus {
        due_status_of(self.reps, self.due_at, now)
    }

    /// The scheduling fields are consistent: the easiness factor lies within
    /// its bounds, and a card that was reviewed has an interval of at least
    /// one day.
    pub open spec fn wf(self) -> bool {
        &&& EF_MIN <= self.ef <= EF_MAX
        &&& self.reps >= 1 ==> self.interval_days >= 1
    }

    /// The view of a card that was just created in the given deck.
    pub open spec fn fresh(
        id: CardId,
        deck_id: DeckId,
        front: Seq<char>,
        back: Seq<char>,
        created_at: Timestamp,
    ) -> CardView {
        CardView {
            id,
            deck_id,
            front,
            back,
            hint: None,
            tags: Seq::empty(),
            reps: 0,
            interval_days: 0,
            ef: EF_DEFAULT,
            due_at: created_at,
            last_grade: None,
            last_reviewed_at: None,
            suspended: false,
            created_at,
        }
    }
}

impl Deck {
    /// A deck with the given identity.
    pub fn with_identity(id: DeckId, name: &str, created_at: Timestamp) -> (d: Deck)
        ensures
            d@ == (DeckView { id, name: name@, created_at }),
    {
        Deck { id, name: name.to_owned(), created_at }
    }

    /// A deck with the given name, a random identifier and the current
    /// instant as its creation time.
    pub fn new(name: &str) -> (d: Deck)
        ensures
            d@.name == name@,
            d.created_at.schedulable(),
    {
        let id = random_id();
        let at = Timestamp::now();
        Deck::with_identity(id, name, at)
    }
}

impl Card {
    /// A new, never reviewed card with the given identity. Its due instant
    /// starts out as its creation time.
    pub fn with_identity(
        id: CardId,
        deck_id: DeckId,
        front: &str,
        back: &str,
        created_at: Timestamp,
    ) -> (c: Card)
        ensures
            c@ == CardView::fresh(id, deck_id, front@, back@, created_at),
            c@.wf(),
    {
        let c = Card {
            id,
            deck_id,
            front: front.to_owned(),
            back: back.to_owned(),
            hint: None,
            tags: Vec::new(),
            reps: 0,
            interval_days: 0,
            ef: EF_DEFAULT,
            due_at: created_at,
            last_grade: None,
            last_reviewed_at: None,
            suspended: false,
            created_at,
        };
        proof {
            assert(c@.tags =~= Seq::<Seq<char>>::empty());
        }
        c
    }

    /// A new, never reviewed card in the given deck, with a random identifier
    /// and the current instant as its creation time.
    pub fn new(deck_id: DeckId, front: &str, back: &str) -> (c: Card)
        ensures
            c@ == CardView::fresh(c.id, deck_id, front@, back@, c.created_at),
            c@.wf(),
            c.created_at.schedulable(),
    {
        let id = random_id();
        let at = Timestamp::now();
        Card::with_identity(id, deck_id, front, back, at)
    }

    /// True for a card that has no successful repetition behind it.
    pub fn is_new(&self) -> (b: bool)
        ensures
            b == (self.reps == 0),
    {
        self.reps == 0
    }

    /// The due status of the card at `now`.
    pub fn due_status(&self, now: Timestamp) -> (s: DueStatus)
        ensures
            s == self@.due_status(now),
            self.reps == 0 ==> s == DueStatus::New,
    {
        if self.is_new() {
            DueStatus::New
        } else if self.due_at.nanos > now.nanos {
            DueStatus::Future
        } else if self.due_at.at_least_a_day_before(now) {
            DueStatus::Lapsed
        } else {
            DueStatus::DueToday
        }
    }
}

impl Review {
    /// A review record with the given identifier.
    pub fn with_id(
        id: ReviewId,
        card_id: CardId,
        grade: Grade,
        reviewed_at: Timestamp,
        interval_applied: i32,
        ef_after: u32,
    ) -> (r: Review)
        ensures
            r == (Review { id, card_id, grade, reviewed_at, interval_applied, ef_after }),
    {
        Review { id, card_id, grade, reviewed_at, interval_applied, ef_after }
    }

    /// A review record with a random identifier.
    pub fn new(
        card_id: CardId,
        grade: Grade,
        reviewed_at: Timestamp,
        interval_applied: i32,
        ef_after: u32,
    ) -> (r: Review)
        ensures
            r == (Review { id: r.id, card_id, grade, reviewed_at, interval_applied, ef_after }),
    {
        let id = random_id();
        Review::with_id(id, card_id, grade, reviewed_at, interval_applied, ef_after)
    }
}

} // verus!
