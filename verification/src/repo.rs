use vstd::prelude::*;
use crate::errors::CoreError;
use crate::index::{card_id_of, deck_id_of, is_listing, opt_str_text, Index, IndexView};
use crate::models::{
    card_views, deck_views, opt_text, texts, Card, CardId, CardView, Deck, DeckId, DeckView,
    Review,
};
use crate::grade::Grade;
use crate::ids::{format_uuid, parsed_uuid, uuid_from_str, uuid_text};
use crate::order::is_stable_sort;
use crate::scheduler::{grade_checked, graded, review_of};
use crate::text::{eq_ignore_ascii_case, same_ignoring_ascii_case};
use crate::time::Timestamp;

verus! {

/// The storage interface through which every front end reaches decks, cards
/// and reviews. A fallible backend may fail with `Storage` on any operation,
/// and then holds what it held before; every other outcome is fixed by what
/// the repository holds.
pub trait Repository {
    /// What the repository holds.
    spec fn state(&self) -> IndexView;

    /// True for a repository whose operations can fail with `Storage`. One
    /// that cannot owes every outcome to what it holds.
    spec fn fallible(&self) -> bool;

    /// Creates a deck. Fails with `Conflict` exactly when the name is taken,
    /// the case of ASCII letters aside.
    fn create_deck(&mut self, name: &str) -> (r: Result<Deck, CoreError>)
        requires
            old(self).state().wf(),
        ensures
            final(self).state().wf(),
            final(self).fallible() == old(self).fallible(),
            match r {
                Ok(d) => {
                    &&& !old(self).state().name_taken(name@)
                    &&& d@.name == name@
                    &&& final(self).state() == old(self).state().with_deck(d@)
                },
                Err(CoreError::Conflict(_)) => old(self).state().name_taken(name@) && final(self).state() == old(self).state(),
                Err(CoreError::Storage(_)) => {
                    &&& old(self).fallible()
                    &&& !old(self).state().name_taken(name@)
                    &&& final(self).state() == old(self).state()
                },
                Err(_) => false,
            },
    ;

    /// The deck with the given identifier. Fails with `NotFound` exactly
    /// when there is none.
    fn get_deck(&self, id: DeckId) -> (r: Result<Deck, CoreError>)
        requires
            self.state().wf(),
        ensures
            match r {
                Ok(d) => self.state().decks.contains_key(id) && d@ == self.state().decks[id],
                Err(CoreError::NotFound(_)) => !self.state().decks.contains_key(id),
                Err(CoreError::Storage(_)) => self.fallible(),
                Err(_) => false,
            },
    ;

    /// Every deck, each once, in no particular order.
    fn list_decks(&self) -> (r: Result<Vec<Deck>, CoreError>)
        requires
            self.state().wf(),
        ensures
            match r {
                Ok(out) => is_listing(deck_views(out@), deck_id_of(), self.state().decks),
                Err(CoreError::Storage(_)) => self.fallible(),
                Err(_) => false,
            },
    ;

    /// Deletes a deck with its cards and their reviews. Fails with
    /// `NotFound` exactly when there is no such deck.
    fn delete_deck(&mut self, id: DeckId) -> (r: Result<(), CoreError>)
        requires
            old(self).state().wf(),
        ensures
            final(self).state().wf(),
            final(self).fallible() == old(self).fallible(),
            match r {
                Ok(_) => old(self).state().decks.contains_key(id) && final(self).state() == old(self).state().without_deck(id),
                Err(CoreError::NotFound(_)) => !old(self).state().decks.contains_key(id) && final(self).state() == old(self).state(),
                Err(CoreError::Storage(_)) => {
                    &&& old(self).fallible()
                    &&& old(self).state().decks.contains_key(id)
                    &&& final(self).state() == old(self).state()
                },
                Err(_) => false,
            },
    ;

    /// Adds a new card to a deck. Fails with `NotFound` exactly when there
    /// is no such deck.
    fn add_card(
        &mut self,
        deck_id: DeckId,
        front: &str,
        back: &str,
        hint: Option<&str>,
        tags: &[String],
    ) -> (r: Result<Card, CoreError>)
        requires
            old(self).state().wf(),
        ensures
            final(self).state().wf(),
            final(self).fallible() == old(self).fallible(),
            match r {
                Ok(c) => {
                    &&& old(self).state().decks.contains_key(deck_id)
                    &&& c@ == (CardView {
                        hint: opt_str_text(hint),
                        tags: texts(tags@),
                        ..CardView::fresh(c.id, deck_id, front@, back@, c.created_at)
                    })
                    &&& final(self).state() == old(self).state().with_card(c@)
                },
                Err(CoreError::NotFound(_)) => !old(self).state().decks.contains_key(deck_id)
                    && final(self).state() == old(self).state(),
                Err(CoreError::Storage(_)) => {
                    &&& old(self).fallible()
                    &&& old(self).state().decks.contains_key(deck_id)
                    &&& final(self).state() == old(self).state()
                },
                Err(_) => false,
            },
    ;

    /// The card with the given identifier. Fails with `NotFound` exactly
    /// when there is none.
    fn get_card(&self, id: CardId) -> (r: Result<Card, CoreError>)
        requires
            self.state().wf(),
        ensures
            match r {
                Ok(c) => self.state().cards.contains_key(id) && c@ == self.state().cards[id],
                Err(CoreError::NotFound(_)) => !self.state().cards.contains_key(id),
                Err(CoreError::Storage(_)) => self.fallible(),
                Err(_) => false,
            },
    ;

    /// The cards of one deck, or all cards, each once, in no particular
    /// order.
    fn list_cards(&self, deck_id: Option<DeckId>) -> (r: Result<Vec<Card>, CoreError>)
        requires
            self.state().wf(),
        ensures
            match r {
                Ok(out) => is_listing(
                    card_views(out@),
                    card_id_of(),
                    match deck_id {
                        Some(d) => self.state().cards.restrict(self.state().cards_of(d)),
                        None => self.state().cards,
                    },
                ),
                Err(CoreError::Storage(_)) => self.fallible(),
                Err(_) => false,
            },
    ;

    /// Replaces a card as a whole. Fails with `NotFound` exactly when no
    /// card has its identifier.
    fn update_card(&mut self, card: &Card) -> (r: Result<Card, CoreError>)
        requires
            old(self).state().wf(),
        ensures
            final(self).state().wf(),
            final(self).fallible() == old(self).fallible(),
            match r {
                Ok(c) => {
                    &&& old(self).state().cards.contains_key(card.id)
                    &&& c@ == card@
                    &&& final(self).state() == old(self).state().with_card(card@)
                },
                Err(CoreError::NotFound(_)) => !old(self).state().cards.contains_key(card.id)
                    && final(self).state() == old(self).state(),
                Err(CoreError::Storage(_)) => {
                    &&& old(self).fallible()
                    &&& old(self).state().cards.contains_key(card.id)
                    &&& final(self).state() == old(self).state()
                },
                Err(_) => false,
            },
    ;

    /// Deletes a card with its reviews. Fails with `NotFound` exactly when
    /// there is no such card.
    fn delete_card(&mut self, id: CardId) -> (r: Result<(), CoreError>)
        requires
            old(self).state().wf(),
        ensures
            final(self).state().wf(),
            final(self).fallible() == old(self).fallible(),
            match r {
                Ok(_) => old(self).state().cards.contains_key(id) && final(self).state() == old(self).state().without_card(id),
                Err(CoreError::NotFound(_)) => !old(self).state().cards.contains_key(id) && final(self).state() == old(self).state(),
                Err(CoreError::Storage(_)) => {
                    &&& old(self).fallible()
                    &&& old(self).state().cards.contains_key(id)
                    &&& final(self).state() == old(self).state()
                },
                Err(_) => false,
            },
    ;

    /// Suspends a card or takes it back into review. Fails with `NotFound`
    /// exactly when there is no such card.
    fn set_suspended(&mut self, id: CardId, suspended: bool) -> (r: Result<(), CoreError>)
        requires
            old(self).state().wf(),
        ensures
            final(self).state().wf(),
            final(self).fallible() == old(self).fallible(),
            match r {
                Ok(_) => old(self).state().cards.contains_key(id) && final(self).state() == (
                IndexView {
                    cards: old(self).state().cards.insert(
                        id,
                        CardView { suspended, ..old(self).state().cards[id] },
                    ),
                    ..old(self).state()
                }),
                Err(CoreError::NotFound(_)) => !old(self).state().cards.contains_key(id) && final(self).state() == old(self).state(),
                Err(CoreError::Storage(_)) => {
                    &&& old(self).fallible()
                    &&& old(self).state().cards.contains_key(id)
                    &&& final(self).state() == old(self).state()
                },
                Err(_) => false,
            },
    ;

    /// Records a review. Whether its card exists is not looked at.
    fn insert_review(&mut self, review: &Review) -> (r: Result<(), CoreError>)
        requires
            old(self).state().wf(),
        ensures
            final(self).state().wf(),
            final(self).fallible() == old(self).fallible(),
            match r {
                Ok(_) => final(self).state() == old(self).state().with_review(*review),
                Err(CoreError::Storage(_)) => old(self).fallible() && final(self).state() == old(self).state(),
                Err(_) => false,
            },
    ;

    /// The reviews of a card ordered by the instant of the review; none for
    /// a card without reviews.
    fn list_reviews_for_card(&self, card_id: CardId) -> (r: Result<Vec<Review>, CoreError>)
        requires
            self.state().wf(),
        ensures
            match r {
                Ok(out) => is_stable_sort(out@, self.state().reviews_for(card_id)),
                Err(CoreError::Storage(_)) => self.fallible(),
                Err(_) => false,
            },
    ;
}

/// A repository that lives in memory only. None of its operations fails
/// with `Storage`.
pub struct MemoryRepo {
    index: Index,
}

impl MemoryRepo {
    /// A repository that holds nothing.
    pub fn new() -> (r: MemoryRepo)
        ensures
            r.state() == IndexView::empty(),
            r.state().wf(),
    {
        MemoryRepo { index: Index::new() }
    }
}

impl Repository for MemoryRepo {
    closed spec fn state(&self) -> IndexView {
        self.index@
    }

    open spec fn fallible(&self) -> bool {
        false
    }

    fn create_deck(&mut self, name: &str) -> (r: Result<Deck, CoreError>)
        ensures
            old(self).state().name_taken(name@) <==> r is Err,
            r matches Err(e) ==> e == CoreError::Conflict("deck name already exists"),
    {
        self.index.create_deck(name)
    }

    fn get_deck(&self, id: DeckId) -> (r: Result<Deck, CoreError>)
        ensures
            self.state().decks.contains_key(id) <==> r is Ok,
            r matches Err(e) ==> e == CoreError::NotFound("deck"),
    {
        self.index.get_deck(id)
    }

    fn list_decks(&self) -> (r: Result<Vec<Deck>, CoreError>)
        ensures
            r is Ok,
    {
        Ok(self.index.list_decks())
    }

    fn delete_deck(&mut self, id: DeckId) -> (r: Result<(), CoreError>)
        ensures
            old(self).state().decks.contains_key(id) <==> r is Ok,
            r matches Err(e) ==> e == CoreError::NotFound("deck"),
    {
        self.index.delete_deck(id)
    }

    fn add_card(
        &mut self,
        deck_id: DeckId,
        front: &str,
        back: &str,
        hint: Option<&str>,
        tags: &[String],
    ) -> (r: Result<Card, CoreError>)
        ensures
            old(self).state().decks.contains_key(deck_id) <==> r is Ok,
            r matches Err(e) ==> e == CoreError::NotFound("deck"),
    {
        self.index.add_card(deck_id, front, back, hint, tags)
    }

    fn get_card(&self, id: CardId) -> (r: Result<Card, CoreError>)
        ensures
            self.state().cards.contains_key(id) <==> r is Ok,
            r matches Err(e) ==> e == CoreError::NotFound("card"),
    {
        self.index.get_card(id)
    }

    fn list_cards(&self, deck_id: Option<DeckId>) -> (r: Result<Vec<Card>, CoreError>)
        ensures
            r is Ok,
    {
        Ok(self.index.list_cards(deck_id))
    }

    fn update_card(&mut self, card: &Card) -> (r: Result<Card, CoreError>)
        ensures
            old(self).state().cards.contains_key(card.id) <==> r is Ok,
            r matches Err(e) ==> e == CoreError::NotFound("card"),
    {
        self.index.update_card(card)
    }

    fn delete_card(&mut self, id: CardId) -> (r: Result<(), CoreError>)
        ensures
            old(self).state().cards.contains_key(id) <==> r is Ok,
            r matches Err(e) ==> e == CoreError::NotFound("card"),
    {
        self.index.delete_card(id)
    }

    fn set_suspended(&mut self, id: CardId, suspended: bool) -> (r: Result<(), CoreError>)
        ensures
            old(self).state().cards.contains_key(id) <==> r is Ok,
            r matches Err(e) ==> e == CoreError::NotFound("card"),
    {
        self.index.set_suspended(id, suspended)
    }

    fn insert_review(&mut self, review: &Review) -> (r: Result<(), CoreError>)
        ensures
            r is Ok,
    {
        self.index.insert_review(review)
    }

    fn list_reviews_for_card(&self, card_id: CardId) -> (r: Result<Vec<Review>, CoreError>)
        ensures
            r is Ok,
    {
        Ok(self.index.list_reviews_for_card(card_id))
    }
}

/// The first deck of the list whose name is `name`, the case of ASCII
/// letters aside.
pub fn find_by_name(decks: &Vec<Deck>, name: &str) -> (r: Option<Deck>)
    ensures
        match r {
            Some(d) => exists|i: int|
                0 <= i < decks@.len() && d@ == (#[trigger] decks@[i])@ && same_ignoring_ascii_case(
                    d@.name,
                    name@,
                ) && forall|j: int|
                    0 <= j < i ==> !same_ignoring_ascii_case((#[trigger] decks@[j])@.name, name@),
            None => forall|j: int|
                0 <= j < decks@.len() ==> !same_ignoring_ascii_case(
                    (#[trigger] decks@[j])@.name,
                    name@,
                ),
        },
{
    let mut i: usize = 0;
    while i < decks.len()
        invariant
            i <= decks.len(),
            forall|j: int|
                0 <= j < i ==> !same_ignoring_ascii_case((#[trigger] decks@[j])@.name, name@),
        decreases decks.len() - i,
    {
        if eq_ignore_ascii_case(decks[i].name.as_str(), name) {
            return Some(decks[i].clone());
        }
        i += 1;
    }
    None
}

/// A listing of the decks holds a deck with a given name exactly when the
/// name is taken.
pub proof fn lemma_listing_knows_names(out: Seq<Deck>, v: IndexView, name: Seq<char>)
    requires
        is_listing(deck_views(out), deck_id_of(), v.decks),
    ensures
        v.name_taken(name) <==> exists|i: int|
            0 <= i < out.len() && same_ignoring_ascii_case((#[trigger] out[i])@.name, name),
{
    let views = deck_views(out);
    if v.name_taken(name) {
        let k = choose|k: DeckId|
            v.decks.contains_key(k) && same_ignoring_ascii_case((#[trigger] v.decks[k]).name, name);
        let i = choose|i: int| 0 <= i < views.len() && deck_id_of()(#[trigger] views[i]) == k;
        assert(v.decks[deck_id_of()(views[i])] == views[i]);
        assert(same_ignoring_ascii_case(out[i]@.name, name));
    }
    if exists|i: int|
        0 <= i < out.len() && same_ignoring_ascii_case((#[trigger] out[i])@.name, name) {
        let i = choose|i: int|
            0 <= i < out.len() && same_ignoring_ascii_case((#[trigger] out[i])@.name, name);
        assert(v.decks.contains_key(deck_id_of()(views[i])) && v.decks[deck_id_of()(views[i])]
            == views[i]);
        assert(same_ignoring_ascii_case(v.decks[views[i].id].name, name));
    }
}

/// Finds the deck that a selector means: the deck with that identifier
/// where the selector spells the identifier of a deck, else a deck with
/// that name, the case of ASCII letters aside. Fails with
/// `NotFound("deck")` where there is neither. Where the repository fails to
/// look an identifier up, the name is tried all the same.
pub fn resolve_deck<R: Repository>(repo: &R, sel: &str) -> (r: Result<Deck, CoreError>)
    requires
        repo.state().wf(),
    ensures
        match r {
            Ok(d) => {
                &&& repo.state().decks.contains_key(d.id)
                &&& d@ == repo.state().decks[d.id]
                &&& parsed_uuid(sel@) == Some(d.id) || same_ignoring_ascii_case(d@.name, sel@)
                &&& (!repo.fallible() && parsed_uuid(sel@) is Some
                    && repo.state().decks.contains_key(parsed_uuid(sel@)->0)) ==> d.id
                    == parsed_uuid(sel@)->0
            },
            Err(e) => {
                &&& e == CoreError::NotFound("deck") || (e matches CoreError::Storage(_)
                    && repo.fallible())
                &&& e matches CoreError::NotFound(_) ==> !repo.state().name_taken(sel@)
                &&& !repo.fallible() ==> !(parsed_uuid(sel@) is Some
                    && repo.state().decks.contains_key(parsed_uuid(sel@)->0))
            },
        },
{
    match uuid_from_str(sel) {
        Ok(id) => {
            match repo.get_deck(id) {
                Ok(d) => {
                    return Ok(d);
                },
                Err(_) => {},
            }
        },
        Err(_) => {},
    }
    match repo.list_decks() {
        Ok(decks) => {
            proof {
                lemma_listing_knows_names(decks@, repo.state(), sel@);
            }
            match find_by_name(&decks, sel) {
                Some(d) => {
                    proof {
                        let i = choose|i: int|
                            0 <= i < decks@.len() && d@ == (#[trigger] decks@[i])@
                                && same_ignoring_ascii_case(d@.name, sel@);
                        let views = deck_views(decks@);
                        assert(repo.state().decks.contains_key(deck_id_of()(views[i]))
                            && repo.state().decks[deck_id_of()(views[i])] == views[i]);
                    }
                    Ok(d)
                },
                None => Err(CoreError::NotFound("deck")),
            }
        },
        Err(e) => Err(e),
    }
}

/// The deck with the given name, the case of ASCII letters aside, created
/// where there is none yet.
pub fn ensure_deck_by_name<R: Repository>(repo: &mut R, name: &str) -> (r: Result<Deck, CoreError>)
    requires
        old(repo).state().wf(),
    ensures
        final(repo).state().wf(),
        final(repo).fallible() == old(repo).fallible(),
        match r {
            Ok(d) => same_ignoring_ascii_case(d@.name, name@) && if old(repo).state().name_taken(
                name@,
            ) {
                &&& final(repo).state() == old(repo).state()
                &&& old(repo).state().decks.contains_key(d.id)
                &&& d@ == old(repo).state().decks[d.id]
            } else {
                &&& d@.name == name@
                &&& final(repo).state() == old(repo).state().with_deck(d@)
            },
            Err(CoreError::Storage(_)) => old(repo).fallible() && final(repo).state() == old(repo).state(),
            Err(_) => false,
        },
{
    match repo.list_decks() {
        Ok(decks) => {
            proof {
                lemma_listing_knows_names(decks@, repo.state(), name@);
            }
            match find_by_name(&decks, name) {
                Some(d) => {
                    proof {
                        let i = choose|i: int|
                            0 <= i < decks@.len() && d@ == (#[trigger] decks@[i])@
                                && same_ignoring_ascii_case(d@.name, name@);
                        let views = deck_views(decks@);
                        assert(repo.state().decks.contains_key(deck_id_of()(views[i]))
                            && repo.state().decks[deck_id_of()(views[i])] == views[i]);
                    }
                    Ok(d)
                },
                None => {
                    let r = repo.create_deck(name);
                    proof {
                        lemma_same_text_ignoring_case(name@);
                    }
                    r
                },
            }
        },
        Err(e) => Err(e),
    }
}

/// Every text is itself, the case of ASCII letters aside.
pub proof fn lemma_same_text_ignoring_case(text: Seq<char>)
    ensures
        same_ignoring_ascii_case(text, text),
{
}

/// Grades a card at `now` and stores the outcome: first the card with its
/// new schedule, then the record of the review. The two steps are not one
/// transaction: where the second fails, the card keeps its new schedule
/// and no record is stored. Fails with `NotFound` exactly when there is no
/// such card, and with `Invalid("reps")` exactly when the card is there, the
/// grade is not Hard and the repetition count cannot grow any further. A
/// repository that cannot fail owes success in every other case.
pub fn review_card<R: Repository>(repo: &mut R, card_id: CardId, grade: Grade, now: Timestamp) -> (r:
    Result<(), CoreError>)
    requires
        old(repo).state().wf(),
        now.schedulable(),
    ensures
        final(repo).state().wf(),
        final(repo).fallible() == old(repo).fallible(),
        match r {
            Ok(_) => {
                &&& old(repo).state().cards.contains_key(card_id)
                &&& !(old(repo).state().cards[card_id].reps == u32::MAX && grade != Grade::Hard)
                &&& exists|review_id: u128|
                    final(repo).state() == old(repo).state().with_card(
                        graded(old(repo).state().cards[card_id], grade, now),
                    ).with_review(
                        #[trigger] review_of(
                            review_id,
                            old(repo).state().cards[card_id],
                            grade,
                            now,
                        ),
                    )
            },
            Err(CoreError::NotFound(_)) => !old(repo).state().cards.contains_key(card_id)
                && final(repo).state() == old(repo).state(),
            Err(CoreError::Invalid(_)) => {
                &&& old(repo).state().cards.contains_key(card_id)
                &&& old(repo).state().cards[card_id].reps == u32::MAX
                &&& grade != Grade::Hard
                &&& final(repo).state() == old(repo).state()
            },
            Err(CoreError::Storage(_)) => {
                &&& old(repo).fallible()
                &&& final(repo).state() == old(repo).state() || (old(repo).state().cards.contains_key(card_id) && final(repo).state() == old(repo).state().with_card(graded(old(repo).state().cards[card_id], grade, now)))
            },
            Err(_) => false,
        },
{
    let card = match repo.get_card(card_id) {
        Ok(c) => c,
        Err(e) => {
            return Err(e);
        },
    };
    let ghost before = card@;
    let out = match grade_checked(card, grade, now) {
        Ok(out) => out,
        Err(e) => {
            return Err(e);
        },
    };
    proof {
        assert(out.updated_card@.id == card_id);
    }
    match repo.update_card(&out.updated_card) {
        Ok(_) => {},
        Err(e) => {
            return Err(e);
        },
    }
    match repo.insert_review(&out.review) {
        Ok(_) => {
            proof {
                assert(out.review == review_of(out.review.id, before, grade, now));
            }
            Ok(())
        },
        Err(e) => Err(e),
    }
}

/// The name of the first deck of the list with the given identifier.
pub open spec fn name_of_first(decks: Seq<DeckView>, id: DeckId) -> Option<Seq<char>>
    decreases decks.len(),
{
    if decks.len() == 0 {
        None
    } else if decks[0].id == id {
        Some(decks[0].name)
    } else {
        name_of_first(decks.drop_first(), id)
    }
}

/// The selector by which a deck is looked for: the name of the deck of the
/// list with the given identifier, else the name that is given, else the
/// identifier in its textual form.
pub open spec fn selector_for(decks: Seq<DeckView>, id: DeckId, name: Option<Seq<char>>) -> Seq<
    char,
> {
    if name_of_first(decks, id) is Some {
        name_of_first(decks, id)->0
    } else if name is Some {
        name->0
    } else {
        uuid_text(id)
    }
}

/// The selector by which a deck is looked for: the name of the deck of the
/// list with the given identifier, else the name that is given, else the
/// identifier in its textual form.
pub fn select_deck_by_id_or_name(decks: &Vec<Deck>, id: DeckId, name: Option<String>) -> (r: String)
    ensures
        r@ == selector_for(deck_views(decks@), id, opt_text(name)),
        name_of_first(deck_views(decks@), id) is None && name is None ==> parsed_uuid(r@) == Some(
            id,
        ),
{
    let ghost all = deck_views(decks@);
    let mut i: usize = 0;
    proof {
        assert(all.subrange(0, all.len() as int) =~= all);
    }
    while i < decks.len()
        invariant
            i <= decks.len(),
            all == deck_views(decks@),
            name_of_first(all.subrange(i as int, all.len() as int), id) == name_of_first(all, id),
        decreases decks.len() - i,
    {
        let ghost rest = all.subrange(i as int, all.len() as int);
        proof {
            assert(rest[0] == decks@[i as int]@);
            assert(rest.drop_first() =~= all.subrange(i as int + 1, all.len() as int));
        }
        if decks[i].id == id {
            return decks[i].name.clone();
        }
        i += 1;
    }
    match name {
        Some(n) => n,
        None => format_uuid(id),
    }
}

} // verus!
