use vstd::prelude::*;
use crate::index::{
    by_card, by_id, card_id_of, deck_id_of, is_flattening, is_listing,
    lemma_flattening_files_back, lemma_listing_files_back, Index, IndexView,
};
use crate::errors::CoreError;
use crate::index::opt_str_text;
use crate::models::{
    card_views, deck_views, texts, Card, CardId, CardView, Deck, DeckId, DeckView, Review,
};
use crate::time::Timestamp;

verus! {

/// The version tag of the snapshot format.
pub const FILE_VERSION: u32 = 1;

/// How many backups are kept where nothing else is asked for.
pub const DEFAULT_MAX_BACKUPS: usize = 10;

/// A snapshot: all that a store holds, as it is written to the file.
pub struct FileImage {
    pub version: u32,
    pub created_at: Timestamp,
    pub updated_at: Timestamp,
    pub decks: Vec<Deck>,
    pub cards: Vec<Card>,
    pub reviews: Vec<Review>,
}

/// What a snapshot holds.
pub struct FileImageView {
    pub version: u32,
    pub created_at: Timestamp,
    pub updated_at: Timestamp,
    pub decks: Seq<DeckView>,
    pub cards: Seq<CardView>,
    pub reviews: Seq<Review>,
}

impl View for FileImage {
    type V = FileImageView;

    open spec fn view(&self) -> FileImageView {
        FileImageView {
            version: self.version,
            created_at: self.created_at,
            updated_at: self.updated_at,
            decks: deck_views(self.decks@),
            cards: card_views(self.cards@),
            reviews: self.reviews@,
        }
    }
}

/// What the state of a store holds: its index and the instants of its
/// creation and of its last change.
pub struct StateView {
    pub created_at: Timestamp,
    pub updated_at: Timestamp,
    pub index: IndexView,
}

impl FileImageView {
    /// The state that a store has after loading this snapshot at `now`.
    pub open spec fn loaded(self, now: Timestamp) -> StateView {
        StateView {
            created_at: self.created_at,
            updated_at: now,
            index: IndexView {
                decks: by_id(self.decks, deck_id_of()),
                cards: by_id(self.cards, card_id_of()),
                reviews: by_card(self.reviews),
            },
        }
    }
}

impl StateView {
    /// `img` is a snapshot of this state: it carries the current version
    /// tag and the two instants, lists every deck and every card once, and
    /// holds the reviews of each card in their order.
    pub open spec fn is_image(self, img: FileImageView) -> bool {
        &&& img.version == FILE_VERSION
        &&& img.created_at == self.created_at
        &&& img.updated_at == self.updated_at
        &&& is_listing(img.decks, deck_id_of(), self.index.decks)
        &&& is_listing(img.cards, card_id_of(), self.index.cards)
        &&& is_flattening(img.reviews, self.index.reviews)
    }
}

/// Loading a snapshot of a state gives that state back: the same index and
/// the same instant of creation.
pub proof fn lemma_snapshot_round_trip(s: StateView, img: FileImageView, now: Timestamp)
    requires
        s.index.wf(),
        s.is_image(img),
    ensures
        img.loaded(now).index == s.index,
        img.loaded(now).created_at == s.created_at,
        img.loaded(s.updated_at) == s,
{
    lemma_listing_files_back(img.decks, deck_id_of(), s.index.decks);
    lemma_listing_files_back(img.cards, card_id_of(), s.index.cards);
    lemma_flattening_files_back(img.reviews, s.index.reviews);
}

/// The state of a durable store: the index and the instants of its creation
/// and of its last change.
pub struct State {
    created_at: Timestamp,
    updated_at: Timestamp,
    index: Index,
}

impl View for State {
    type V = StateView;

    closed spec fn view(&self) -> StateView {
        StateView { created_at: self.created_at, updated_at: self.updated_at, index: self.index@ }
    }
}

impl State {
    /// The state of a store that was created at `now` and holds nothing.
    pub fn new_empty(now: Timestamp) -> (s: State)
        ensures
            s@ == (StateView { created_at: now, updated_at: now, index: IndexView::empty() }),
            s@.index.wf(),
    {
        State { created_at: now, updated_at: now, index: Index::new() }
    }

    /// A snapshot of the state.
    pub fn to_image(&self) -> (img: FileImage)
        requires
            self@.index.wf(),
        ensures
            self@.is_image(img@),
    {
        FileImage {
            version: FILE_VERSION,
            created_at: self.created_at,
            updated_at: self.updated_at,
            decks: self.index.list_decks(),
            cards: self.index.list_cards(None),
            reviews: self.index.all_reviews(),
        }
    }

    /// The state that a store has after loading a snapshot at `now`. Of two
    /// decks or cards with the same identifier the later one stays.
    pub fn from_image(img: FileImage, now: Timestamp) -> (s: State)
        ensures
            s@ == img@.loaded(now),
            s@.index.wf(),
    {
        State {
            created_at: img.created_at,
            updated_at: now,
            index: Index::from_lists(&img.decks, &img.cards, &img.reviews),
        }
    }

    /// Marks the state as changed at `now` and hands back the snapshot that
    /// is to be written.
    pub fn snapshot(&mut self, now: Timestamp) -> (img: FileImage)
        requires
            old(self)@.index.wf(),
        ensures
            final(self)@ == (StateView { updated_at: now, ..old(self)@ }),
            final(self)@.is_image(img@),
    {
        self.updated_at = now;
        self.to_image()
    }

    /// The index of the state.
    pub fn index(&self) -> (r: &Index)
        ensures
            r@ == self@.index,
    {
        &self.index
    }
}

/// The outcome of a change to a durable store: what the caller asked for,
/// and the snapshot that has to reach the disk before the caller may see it.
pub struct Persist<T> {
    pub value: T,
    pub image: FileImage,
}

impl State {
    /// Creates a deck and marks the state as changed. Fails with
    /// `Conflict("deck name already exists")` exactly when the name is
    /// taken, the case of ASCII letters aside; the state is then as before.
    pub fn create_deck(&mut self, name: &str) -> (r: Result<Persist<Deck>, CoreError>)
        requires
            old(self)@.index.wf(),
        ensures
            final(self)@.index.wf(),
            final(self)@.created_at == old(self)@.created_at,
            match r {
                Ok(p) => {
                    &&& !old(self)@.index.name_taken(name@)
                    &&& p.value@.name == name@
                    &&& final(self)@.index == old(self)@.index.with_deck(p.value@)
                    &&& final(self)@.is_image(p.image@)
                },
                Err(e) => {
                    &&& old(self)@.index.name_taken(name@)
                    &&& e == CoreError::Conflict("deck name already exists")
                    &&& final(self)@ == old(self)@
                },
            },
    {
        match self.index.create_deck(name) {
            Ok(value) => {
                let image = self.snapshot(Timestamp::now());
                Ok(Persist { value, image })
            },
            Err(e) => Err(e),
        }
    }

    /// Deletes a deck with its cards and their reviews and marks the state
    /// as changed. Fails with `NotFound("deck")` exactly when there is no
    /// such deck; the state is then as before.
    pub fn delete_deck(&mut self, id: DeckId) -> (r: Result<Persist<()>, CoreError>)
        requires
            old(self)@.index.wf(),
        ensures
            final(self)@.index.wf(),
            final(self)@.created_at == old(self)@.created_at,
            match r {
                Ok(p) => {
                    &&& old(self)@.index.decks.contains_key(id)
                    &&& final(self)@.index == old(self)@.index.without_deck(id)
                    &&& final(self)@.is_image(p.image@)
                },
                Err(e) => {
                    &&& !old(self)@.index.decks.contains_key(id)
                    &&& e == CoreError::NotFound("deck")
                    &&& final(self)@ == old(self)@
                },
            },
    {
        match self.index.delete_deck(id) {
            Ok(value) => {
                let image = self.snapshot(Timestamp::now());
                Ok(Persist { value, image })
            },
            Err(e) => Err(e),
        }
    }

    /// Adds a new card to a deck and marks the state as changed. Fails with
    /// `NotFound("deck")` exactly when there is no such deck; the state is
    /// then as before.
    pub fn add_card(
        &mut self,
        deck_id: DeckId,
        front: &str,
        back: &str,
        hint: Option<&str>,
        tags: &[String],
    ) -> (r: Result<Persist<Card>, CoreError>)
        requires
            old(self)@.index.wf(),
        ensures
            final(self)@.index.wf(),
            final(self)@.created_at == old(self)@.created_at,
            match r {
                Ok(p) => {
                    &&& old(self)@.index.decks.contains_key(deck_id)
                    &&& p.value@ == (CardView {
                        hint: opt_str_text(hint),
                        tags: texts(tags@),
                        ..CardView::fresh(
                            p.value.id,
                            deck_id,
                            front@,
                            back@,
                            p.value.created_at,
                        )
                    })
                    &&& final(self)@.index == old(self)@.index.with_card(p.value@)
                    &&& final(self)@.is_image(p.image@)
                },
                Err(e) => {
                    &&& !old(self)@.index.decks.contains_key(deck_id)
                    &&& e == CoreError::NotFound("deck")
                    &&& final(self)@ == old(self)@
                },
            },
    {
        match self.index.add_card(deck_id, front, back, hint, tags) {
            Ok(value) => {
                let image = self.snapshot(Timestamp::now());
                Ok(Persist { value, image })
            },
            Err(e) => Err(e),
        }
    }

    /// Replaces a card as a whole and marks the state as changed. Fails with
    /// `NotFound("card")` exactly when no card has its identifier; the state
    /// is then as before.
    pub fn update_card(&mut self, card: &Card) -> (r: Result<Persist<Card>, CoreError>)
        requires
            old(self)@.index.wf(),
        ensures
            final(self)@.index.wf(),
            final(self)@.created_at == old(self)@.created_at,
            match r {
                Ok(p) => {
                    &&& old(self)@.index.cards.contains_key(card.id)
                    &&& p.value@ == card@
                    &&& final(self)@.index == old(self)@.index.with_card(card@)
                    &&& final(self)@.is_image(p.image@)
                },
                Err(e) => {
                    &&& !old(self)@.index.cards.contains_key(card.id)
                    &&& e == CoreError::NotFound("card")
                    &&& final(self)@ == old(self)@
                },
            },
    {
        match self.index.update_card(card) {
            Ok(value) => {
                let image = self.snapshot(Timestamp::now());
                Ok(Persist { value, image })
            },
            Err(e) => Err(e),
        }
    }

    /// Deletes a card with its reviews and marks the state as changed. Fails
    /// with `NotFound("card")` exactly when there is no such card; the state
    /// is then as before.
    pub fn delete_card(&mut self, id: CardId) -> (r: Result<Persist<()>, CoreError>)
        requires
            old(self)@.index.wf(),
        ensures
            final(self)@.index.wf(),
            final(self)@.created_at == old(self)@.created_at,
            match r {
                Ok(p) => {
                    &&& old(self)@.index.cards.contains_key(id)
                    &&& final(self)@.index == old(self)@.index.without_card(id)
                    &&& final(self)@.is_image(p.image@)
                },
                Err(e) => {
                    &&& !old(self)@.index.cards.contains_key(id)
                    &&& e == CoreError::NotFound("card")
                    &&& final(self)@ == old(self)@
                },
            },
    {
        match self.index.delete_card(id) {
            Ok(value) => {
                let image = self.snapshot(Timestamp::now());
                Ok(Persist { value, image })
            },
            Err(e) => Err(e),
        }
    }

    /// Suspends a card or takes it back into review, and marks the state as
    /// changed. Fails with `NotFound("card")` exactly when there is no such
    /// card; the state is then as before.
    pub fn set_suspended(&mut self, id: CardId, suspended: bool) -> (r: Result<
        Persist<()>,
        CoreError,
    >)
        requires
            old(self)@.index.wf(),
        ensures
            final(self)@.index.wf(),
            final(self)@.created_at == old(self)@.created_at,
            match r {
                Ok(p) => {
                    &&& old(self)@.index.cards.contains_key(id)
                    &&& final(self)@.index == (IndexView {
                        cards: old(self)@.index.cards.insert(
                            id,
                            CardView { suspended, ..old(self)@.index.cards[id] },
                        ),
                        ..old(self)@.index
                    })
                    &&& final(self)@.is_image(p.image@)
                },
                Err(e) => {
                    &&& !old(self)@.index.cards.contains_key(id)
                    &&& e == CoreError::NotFound("card")
                    &&& final(self)@ == old(self)@
                },
            },
    {
        match self.index.set_suspended(id, suspended) {
            Ok(value) => {
                let image = self.snapshot(Timestamp::now());
                Ok(Persist { value, image })
            },
            Err(e) => Err(e),
        }
    }

    /// Records a review and marks the state as changed. Whether the card of
    /// the review exists is not looked at.
    pub fn insert_review(&mut self, review: &Review) -> (p: Persist<()>)
        requires
            old(self)@.index.wf(),
        ensures
            final(self)@.index.wf(),
            final(self)@.created_at == old(self)@.created_at,
            final(self)@.index == old(self)@.index.with_review(*review),
            final(self)@.is_image(p.image@),
    {
        let _ = self.index.insert_review(review);
        let image = self.snapshot(Timestamp::now());
        Persist { value: (), image }
    }
}

/// The number of backups that a store keeps when `max_backups` are asked
/// for: at least one.
pub fn effective_retention(max_backups: usize) -> (keep: usize)
    ensures
        keep == if max_backups < 1 {
            1
        } else {
            max_backups as int
        },
{
    if max_backups < 1 {
        1
    } else {
        max_backups
    }
}

} // verus!
