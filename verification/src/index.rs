use vstd::prelude::*;
use std::collections::HashMap;
use vstd::std_specs::iter::IteratorSpec;
use crate::errors::CoreError;
use crate::ids::random_id;
use crate::models::{
    card_views, copy_strings, deck_views, texts, Card, CardId, CardView, Deck, DeckId, DeckView,
    Review,
};
use crate::order::{is_stable_sort, sort_by_key_stable, Keyed};
use crate::filters::lemma_filter_push;
use crate::text::{eq_ignore_ascii_case, same_ignoring_ascii_case};
use crate::time::Timestamp;

verus! {

broadcast use vstd::std_specs::hash::group_hash_axioms;

/// What an index holds: the decks and the cards by their identifiers, and
/// the reviews of each card in the order in which they were recorded.
pub struct IndexView {
    pub decks: Map<DeckId, DeckView>,
    pub cards: Map<CardId, CardView>,
    pub reviews: Map<CardId, Seq<Review>>,
}

impl IndexView {
    /// The index that holds nothing.
    pub open spec fn empty() -> IndexView {
        IndexView { decks: Map::empty(), cards: Map::empty(), reviews: Map::empty() }
    }

    /// Every deck and card is filed under its own identifier, and every list
    /// of reviews is non-empty and holds reviews of the card it is filed
    /// under.
    pub open spec fn wf(self) -> bool {
        &&& self.decks.dom().finite()
        &&& self.cards.dom().finite()
        &&& self.reviews.dom().finite()
        &&& forall|k: DeckId| self.decks.contains_key(k) ==> (#[trigger] self.decks[k]).id == k
        &&& forall|k: CardId| self.cards.contains_key(k) ==> (#[trigger] self.cards[k]).id == k
        &&& forall|k: CardId|
            self.reviews.contains_key(k) ==> (#[trigger] self.reviews[k]).len() > 0
        &&& forall|k: CardId, i: int|
            self.reviews.contains_key(k) && 0 <= i < self.reviews[k].len() ==> (
            #[trigger] self.reviews[k][i]).card_id == k
    }

    /// True when some deck has the given name, the case of ASCII letters
    /// aside.
    pub open spec fn name_taken(self, name: Seq<char>) -> bool {
        exists|k: DeckId|
            self.decks.contains_key(k) && same_ignoring_ascii_case(
                (#[trigger] self.decks[k]).name,
                name,
            )
    }

    /// The index with one more deck, filed under its identifier.
    pub open spec fn with_deck(self, d: DeckView) -> IndexView {
        IndexView { decks: self.decks.insert(d.id, d), ..self }
    }

    /// The index with the card filed under its identifier, in place of any
    /// card that was filed there.
    pub open spec fn with_card(self, c: CardView) -> IndexView {
        IndexView { cards: self.cards.insert(c.id, c), ..self }
    }

    /// The identifiers of the cards that belong to the deck.
    pub open spec fn cards_of(self, deck: DeckId) -> Set<CardId> {
        Set::new(|k: CardId| self.cards.contains_key(k) && self.cards[k].deck_id == deck)
    }

    /// The index without the deck, without the cards that belong to it and
    /// without the reviews of those cards.
    pub open spec fn without_deck(self, deck: DeckId) -> IndexView {
        IndexView {
            decks: self.decks.remove(deck),
            cards: self.cards.remove_keys(self.cards_of(deck)),
            reviews: self.reviews.remove_keys(self.cards_of(deck)),
        }
    }

    /// The index without the card and without its reviews.
    pub open spec fn without_card(self, card: CardId) -> IndexView {
        IndexView {
            cards: self.cards.remove(card),
            reviews: self.reviews.remove(card),
            ..self
        }
    }

    /// The reviews recorded for the card, oldest record first; none for a
    /// card without reviews.
    pub open spec fn reviews_for(self, card: CardId) -> Seq<Review> {
        if self.reviews.contains_key(card) {
            self.reviews[card]
        } else {
            Seq::empty()
        }
    }

    /// The index with one more review at the end of its card's list.
    pub open spec fn with_review(self, r: Review) -> IndexView {
        IndexView {
            reviews: self.reviews.insert(r.card_id, self.reviews_for(r.card_id).push(r)),
            ..self
        }
    }
}

/// `out` lists what `m` holds: every item of `out` is filed in `m` under its
/// identifier, no identifier occurs twice, and every key of `m` occurs.
pub open spec fn is_listing<V>(out: Seq<V>, id: spec_fn(V) -> u128, m: Map<u128, V>) -> bool {
    &&& forall|i: int|
        0 <= i < out.len() ==> m.contains_key(id(#[trigger] out[i])) && m[id(out[i])] == out[i]
    &&& forall|i: int, j: int|
        0 <= i < j < out.len() ==> id(#[trigger] out[i]) != id(#[trigger] out[j])
    &&& forall|k: u128|
        #[trigger] m.contains_key(k) ==> exists|i: int|
            0 <= i < out.len() && id(#[trigger] out[i]) == k
}

/// The identifier of a deck.
pub open spec fn deck_id_of() -> spec_fn(DeckView) -> u128 {
    |d: DeckView| d.id
}

/// The identifier of a card.
pub open spec fn card_id_of() -> spec_fn(CardView) -> u128 {
    |c: CardView| c.id
}

/// The characters of an optional string slice.
pub open spec fn opt_str_text(item: Option<&str>) -> Option<Seq<char>> {
    match item {
        Some(s) => Some(s@),
        None => None,
    }
}

impl Keyed for Review {
    open spec fn key_of(&self) -> (int, int) {
        (self.reviewed_at.nanos as int, 0)
    }

    fn key(&self) -> (k: (i128, i128)) {
        (self.reviewed_at.nanos, 0)
    }
}

/// A copy of every review, in order.
pub fn copy_reviews(items: &Vec<Review>) -> (out: Vec<Review>)
    ensures
        out@ == items@,
{
    let mut out: Vec<Review> = Vec::new();
    let mut i: usize = 0;
    while i < items.len()
        invariant
            i <= items.len(),
            out@ == items@.subrange(0, i as int),
        decreases items.len() - i,
    {
        out.push(items[i].clone());
        i += 1;
    }
    proof {
        assert(out@ =~= items@);
    }
    out
}

/// Deleting a deck cascades: afterwards the deck is gone and no card belongs
/// to it, so that a listing of its cards is empty, whether it had cards or
/// not.
pub proof fn lemma_delete_deck_cascades(v: IndexView, deck: DeckId, listed_cards: Seq<CardView>)
    requires
        is_listing(
            listed_cards,
            card_id_of(),
            v.without_deck(deck).cards.restrict(v.without_deck(deck).cards_of(deck)),
        ),
    ensures
        !v.without_deck(deck).decks.contains_key(deck),
        v.without_deck(deck).cards_of(deck) == Set::<CardId>::empty(),
        listed_cards.len() == 0,
{
    let w = v.without_deck(deck);
    assert(w.cards_of(deck) =~= Set::<CardId>::empty());
    if listed_cards.len() > 0 {
        assert(w.cards.restrict(w.cards_of(deck)).contains_key(card_id_of()(listed_cards[0])));
    }
}

/// After a deck is deleted, a card that belonged to it is gone and has no
/// reviews left, so that a listing of its reviews is empty.
pub proof fn lemma_delete_deck_takes_cards_along(
    v: IndexView,
    deck: DeckId,
    card: CardId,
    listed_reviews: Seq<Review>,
)
    requires
        v.cards_of(deck).contains(card),
        is_stable_sort(listed_reviews, v.without_deck(deck).reviews_for(card)),
    ensures
        !v.without_deck(deck).cards.contains_key(card),
        v.without_deck(deck).reviews_for(card) == Seq::<Review>::empty(),
        listed_reviews.len() == 0,
{
}

/// A deck that is not there cannot be deleted, and deleting a deck leaves
/// every other deck, every card of another deck and the reviews of every
/// card of another deck as they were.
pub proof fn lemma_delete_deck_spares_the_rest(v: IndexView, deck: DeckId)
    ensures
        forall|d: DeckId|
            d != deck && v.decks.contains_key(d) ==> #[trigger] v.without_deck(
                deck,
            ).decks.contains_key(d) && v.without_deck(deck).decks[d] == v.decks[d],
        forall|c: CardId|
            v.cards.contains_key(c) && v.cards[c].deck_id != deck ==> #[trigger] v.without_deck(
                deck,
            ).cards.contains_key(c) && v.without_deck(deck).cards[c] == v.cards[c]
                && v.without_deck(deck).reviews_for(c) == v.reviews_for(c),
{
}

/// The map that files each item of a sequence under its identifier. Where
/// an identifier occurs more than once, the last item with it stays.
pub open spec fn by_id<V>(s: Seq<V>, id: spec_fn(V) -> u128) -> Map<u128, V>
    decreases s.len(),
{
    if s.len() == 0 {
        Map::empty()
    } else {
        by_id(s.drop_last(), id).insert(id(s.last()), s.last())
    }
}

/// Selects the reviews of one card.
pub open spec fn for_card(card: CardId) -> spec_fn(Review) -> bool {
    |r: Review| r.card_id == card
}

/// The map that files under each card the reviews of it that a sequence
/// holds, in their order. A card without reviews has no entry.
pub open spec fn by_card(s: Seq<Review>) -> Map<CardId, Seq<Review>> {
    Map::new(|k: CardId| s.filter(for_card(k)).len() > 0, |k: CardId| s.filter(for_card(k)))
}

/// `out` holds for every card the reviews that `m` files under it, in the
/// same order, and nothing else.
pub open spec fn is_flattening(out: Seq<Review>, m: Map<CardId, Seq<Review>>) -> bool {
    forall|k: CardId| #[trigger]
        out.filter(for_card(k)) == if m.contains_key(k) {
            m[k]
        } else {
            Seq::empty()
        }
}

/// A selection that every item meets keeps the whole sequence.
pub proof fn lemma_filter_all<A>(s: Seq<A>, pred: spec_fn(A) -> bool)
    requires
        forall|i: int| 0 <= i < s.len() ==> pred(#[trigger] s[i]),
    ensures
        s.filter(pred) == s,
    decreases s.len(),
{
    reveal(Seq::filter);
    if s.len() > 0 {
        lemma_filter_all(s.drop_last(), pred);
        assert(s.drop_last().push(s.last()) =~= s);
    }
}

/// A selection that no item meets keeps nothing.
pub proof fn lemma_filter_none<A>(s: Seq<A>, pred: spec_fn(A) -> bool)
    requires
        forall|i: int| 0 <= i < s.len() ==> !pred(#[trigger] s[i]),
    ensures
        s.filter(pred) == Seq::<A>::empty(),
    decreases s.len(),
{
    reveal(Seq::filter);
    if s.len() > 0 {
        lemma_filter_none(s.drop_last(), pred);
    }
}

/// Filing the items of a listing under their identifiers gives back the map
/// that was listed.
pub proof fn lemma_listing_files_back<V>(out: Seq<V>, id: spec_fn(V) -> u128, m: Map<u128, V>)
    requires
        is_listing(out, id, m),
    ensures
        by_id(out, id) == m,
{
    lemma_by_id_prefix(out, id, out.len() as int);
    assert(out.subrange(0, out.len() as int) =~= out);
    let f = by_id(out, id);
    assert forall|k: u128| f.contains_key(k) <==> m.contains_key(k) by {
        if m.contains_key(k) {
            let i = choose|i: int| 0 <= i < out.len() && id(#[trigger] out[i]) == k;
            assert(f.contains_key(id(out[i])));
        }
        if f.contains_key(k) {
            let i = choose|i: int| 0 <= i < out.len() && id(#[trigger] out[i]) == k;
            assert(m.contains_key(id(out[i])));
        }
    }
    assert forall|k: u128| f.contains_key(k) implies f[k] == m[k] by {
        let i = choose|i: int| 0 <= i < out.len() && id(#[trigger] out[i]) == k;
        assert(f[id(out[i])] == out[i]);
    }
    assert(f =~= m);
}

/// What filing the first `n` items of a sequence without repeated
/// identifiers gives: an entry for each of their identifiers, holding the
/// item.
pub proof fn lemma_by_id_prefix<V>(out: Seq<V>, id: spec_fn(V) -> u128, n: int)
    requires
        0 <= n <= out.len(),
        forall|i: int, j: int|
            0 <= i < j < out.len() ==> id(#[trigger] out[i]) != id(#[trigger] out[j]),
    ensures
        forall|k: u128|
            by_id(out.subrange(0, n), id).contains_key(k) <==> exists|i: int|
                0 <= i < n && id(#[trigger] out[i]) == k,
        forall|i: int|
            0 <= i < n ==> by_id(out.subrange(0, n), id).contains_key(id(#[trigger] out[i]))
                && by_id(out.subrange(0, n), id)[id(out[i])] == out[i],
    decreases n,
{
    let cur = out.subrange(0, n);
    if n > 0 {
        lemma_by_id_prefix(out, id, n - 1);
        let prev = out.subrange(0, n - 1);
        assert(cur.drop_last() =~= prev);
        assert(cur.last() == out[n - 1]);
        let pm = by_id(prev, id);
        let cm = by_id(cur, id);
        assert(cm == pm.insert(id(out[n - 1]), out[n - 1]));
        assert forall|k: u128| cm.contains_key(k) <==> exists|i: int|
            0 <= i < n && id(#[trigger] out[i]) == k by {
            if cm.contains_key(k) {
                if k == id(out[n - 1]) {
                } else {
                    assert(pm.contains_key(k));
                    let i = choose|i: int| 0 <= i < n - 1 && id(#[trigger] out[i]) == k;
                    assert(0 <= i < n && id(out[i]) == k);
                }
            }
            if exists|i: int| 0 <= i < n && id(#[trigger] out[i]) == k {
                let i = choose|i: int| 0 <= i < n && id(#[trigger] out[i]) == k;
                if i < n - 1 {
                    assert(pm.contains_key(id(out[i])));
                }
            }
        }
        assert forall|i: int| 0 <= i < n implies cm.contains_key(id(#[trigger] out[i])) && cm[id(
            out[i],
        )] == out[i] by {
            if i < n - 1 {
                assert(pm.contains_key(id(out[i])) && pm[id(out[i])] == out[i]);
                assert(id(out[i]) != id(out[n - 1]));
            }
        }
    }
}

/// Filing the reviews of a flattening under their cards gives back the map
/// that was flattened, where that map holds no empty list.
pub proof fn lemma_flattening_files_back(out: Seq<Review>, m: Map<CardId, Seq<Review>>)
    requires
        is_flattening(out, m),
        forall|k: CardId| m.contains_key(k) ==> (#[trigger] m[k]).len() > 0,
    ensures
        by_card(out) == m,
{
    let f = by_card(out);
    assert forall|k: CardId| f.contains_key(k) <==> m.contains_key(k) by {
        assert(out.filter(for_card(k)) == if m.contains_key(k) {
            m[k]
        } else {
            Seq::empty()
        });
        if m.contains_key(k) {
            assert(m[k].len() > 0);
        }
    }
    assert forall|k: CardId| f.contains_key(k) implies f[k] == m[k] by {
        assert(out.filter(for_card(k)) == if m.contains_key(k) {
            m[k]
        } else {
            Seq::empty()
        });
    }
    assert(f =~= m);
}

/// The in-memory index of a store.
pub struct Index {
    decks: HashMap<DeckId, Deck>,
    cards: HashMap<CardId, Card>,
    reviews: HashMap<CardId, Vec<Review>>,
}

impl View for Index {
    type V = IndexView;

    closed spec fn view(&self) -> IndexView {
        IndexView {
            decks: self.decks@.map_values(|d: Deck| d@),
            cards: self.cards@.map_values(|c: Card| c@),
            reviews: self.reviews@.map_values(|v: Vec<Review>| v@),
        }
    }
}

/// The keys of a map, each once, in the order in which the map hands them
/// out.
pub fn keys_of<V>(m: &HashMap<u128, V>) -> (out: Vec<u128>)
    ensures
        out@.no_duplicates(),
        forall|k: u128| out@.contains(k) <==> m@.contains_key(k),
{
    let mut out: Vec<u128> = Vec::new();
    for k in it: m.keys()
        invariant
            out@.len() == it.index(),
            forall|i: int| 0 <= i < out@.len() ==> out@[i] == *it.seq()[i],
            it.seq() == m.keys().remaining(),
    {
        out.push(*k);
    }
    proof {
        assert(out@ =~= m.keys().remaining().unref());
        assert forall|k: u128| out@.contains(k) <==> m@.contains_key(k) by {
            assert(out@.to_set().contains(k) <==> out@.contains(k));
        }
    }
    out
}

impl Index {
    /// An index that holds nothing.
    pub fn new() -> (r: Index)
        ensures
            r@ == IndexView::empty(),
            r@.wf(),
    {
        let r = Index { decks: HashMap::new(), cards: HashMap::new(), reviews: HashMap::new() };
        proof {
            assert(r@.decks =~= Map::empty());
            assert(r@.cards =~= Map::empty());
            assert(r@.reviews =~= Map::empty());
        }
        r
    }

    /// The deck with the given identifier, or `NotFound("deck")` where the
    /// index holds none.
    pub fn get_deck(&self, id: DeckId) -> (r: Result<Deck, CoreError>)
        ensures
            match r {
                Ok(d) => self@.decks.contains_key(id) && d@ == self@.decks[id],
                Err(e) => !self@.decks.contains_key(id) && e == CoreError::NotFound("deck"),
            },
    {
        match self.decks.get(&id) {
            Some(d) => Ok(d.clone()),
            None => Err(CoreError::NotFound("deck")),
        }
    }

    /// The card with the given identifier, or `NotFound("card")` where the
    /// index holds none.
    pub fn get_card(&self, id: CardId) -> (r: Result<Card, CoreError>)
        ensures
            match r {
                Ok(c) => self@.cards.contains_key(id) && c@ == self@.cards[id],
                Err(e) => !self@.cards.contains_key(id) && e == CoreError::NotFound("card"),
            },
    {
        match self.cards.get(&id) {
            Some(c) => Ok(c.clone()),
            None => Err(CoreError::NotFound("card")),
        }
    }

    /// True when some deck has the given name, the case of ASCII letters
    /// aside.
    #[verifier::loop_isolation(false)]
    pub fn name_in_use(&self, name: &str) -> (b: bool)
        ensures
            b == self@.name_taken(name@),
    {
        let ids = keys_of(&self.decks);
        let mut i: usize = 0;
        while i < ids.len()
            invariant
                i <= ids.len(),
                forall|j: int|
                    0 <= j < i ==> !same_ignoring_ascii_case(
                        (#[trigger] self@.decks[ids@[j]]).name,
                        name@,
                    ),
            decreases ids.len() - i,
        {
            assert(ids@.contains(ids@[i as int]));
            match self.decks.get(&ids[i]) {
                Some(d) => {
                    if eq_ignore_ascii_case(d.name.as_str(), name) {
                        assert(self@.decks.contains_key(ids@[i as int]));
                        assert(self@.decks[ids@[i as int]].name == d.name@);
                        return true;
                    }
                },
                None => {},
            }
            i += 1;
        }
        proof {
            assert forall|k: DeckId| self@.decks.contains_key(k) implies !same_ignoring_ascii_case(
                (#[trigger] self@.decks[k]).name,
                name@,
            ) by {
                assert(ids@.contains(k));
                let j = choose|j: int| 0 <= j < ids@.len() && ids@[j] == k;
                assert(!same_ignoring_ascii_case(self@.decks[ids@[j]].name, name@));
            }
        }
        false
    }

    /// Files a deck with the given identity, unless its name is taken.
    pub fn create_deck_with(&mut self, id: DeckId, name: &str, created_at: Timestamp) -> (r: Result<
        Deck,
        CoreError,
    >)
        ensures
            old(self)@.wf() ==> final(self)@.wf(),
            match r {
                Ok(d) => {
                    &&& !old(self)@.name_taken(name@)
                    &&& d@ == (DeckView { id, name: name@, created_at })
                    &&& final(self)@ == old(self)@.with_deck(d@)
                },
                Err(e) => {
                    &&& old(self)@.name_taken(name@)
                    &&& e == CoreError::Conflict("deck name already exists")
                    &&& final(self)@ == old(self)@
                },
            },
    {
        if self.name_in_use(name) {
            return Err(CoreError::Conflict("deck name already exists"));
        }
        let deck = Deck::with_identity(id, name, created_at);
        let copy = deck.clone();
        self.decks.insert(id, deck);
        proof {
            assert(self@.decks =~= old(self)@.decks.insert(id, copy@));
        }
        Ok(copy)
    }

    /// Creates a deck with the given name, a random identifier and the
    /// current instant as its creation time. Fails with
    /// `Conflict("deck name already exists")` exactly when some deck has the
    /// name already, the case of ASCII letters aside.
    pub fn create_deck(&mut self, name: &str) -> (r: Result<Deck, CoreError>)
        ensures
            old(self)@.wf() ==> final(self)@.wf(),
            match r {
                Ok(d) => {
                    &&& !old(self)@.name_taken(name@)
                    &&& d@.name == name@
                    &&& final(self)@ == old(self)@.with_deck(d@)
                },
                Err(e) => {
                    &&& old(self)@.name_taken(name@)
                    &&& e == CoreError::Conflict("deck name already exists")
                    &&& final(self)@ == old(self)@
                },
            },
    {
        let id = random_id();
        let at = Timestamp::now();
        self.create_deck_with(id, name, at)
    }

    /// Every deck of the index, each once, in no particular order.
    #[verifier::loop_isolation(false)]
    pub fn list_decks(&self) -> (out: Vec<Deck>)
        requires
            self@.wf(),
        ensures
            is_listing(deck_views(out@), deck_id_of(), self@.decks),
    {
        let ids = keys_of(&self.decks);
        let mut out: Vec<Deck> = Vec::new();
        let mut i: usize = 0;
        while i < ids.len()
            invariant
                i <= ids.len(),
                out@.len() == i,
                forall|j: int| 0 <= j < i ==> (#[trigger] out@[j])@ == self@.decks[ids@[j]],
            decreases ids.len() - i,
        {
            assert(ids@.contains(ids@[i as int]));
            match self.decks.get(&ids[i]) {
                Some(d) => {
                    out.push(d.clone());
                },
                None => {
                    assert(false);
                },
            }
            i += 1;
        }
        proof {
            let views = deck_views(out@);
            assert forall|j: int| 0 <= j < views.len() implies self@.decks.contains_key(
                deck_id_of()(#[trigger] views[j]),
            ) && self@.decks[deck_id_of()(views[j])] == views[j] by {
                assert(ids@.contains(ids@[j]));
                assert(out@[j]@ == self@.decks[ids@[j]]);
            }
            assert forall|a: int, b: int| 0 <= a < b < views.len() implies deck_id_of()(
                #[trigger] views[a],
            ) != deck_id_of()(#[trigger] views[b]) by {
                assert(ids@.contains(ids@[a]));
                assert(ids@.contains(ids@[b]));
                assert(out@[a]@ == self@.decks[ids@[a]]);
                assert(out@[b]@ == self@.decks[ids@[b]]);
            }
            assert forall|k: u128| #[trigger] self@.decks.contains_key(k) implies exists|j: int|
                0 <= j < views.len() && deck_id_of()(#[trigger] views[j]) == k by {
                assert(ids@.contains(k));
                let j = choose|j: int| 0 <= j < ids@.len() && ids@[j] == k;
                assert(out@[j]@ == self@.decks[ids@[j]]);
                assert(deck_id_of()(views[j]) == k);
            }
        }
        out
    }

    /// Files a new card with the given identity in the deck, or fails with
    /// `NotFound("deck")` where the index holds no such deck. The tags are
    /// kept as given.
    pub fn add_card_with(
        &mut self,
        id: CardId,
        created_at: Timestamp,
        deck_id: DeckId,
        front: &str,
        back: &str,
        hint: Option<&str>,
        tags: &[String],
    ) -> (r: Result<Card, CoreError>)
        ensures
            old(self)@.wf() ==> final(self)@.wf(),
            match r {
                Ok(c) => {
                    &&& old(self)@.decks.contains_key(deck_id)
                    &&& c@ == (CardView {
                        hint: opt_str_text(hint),
                        tags: texts(tags@),
                        ..CardView::fresh(id, deck_id, front@, back@, created_at)
                    })
                    &&& final(self)@ == old(self)@.with_card(c@)
                },
                Err(e) => {
                    &&& !old(self)@.decks.contains_key(deck_id)
                    &&& e == CoreError::NotFound("deck")
                    &&& final(self)@ == old(self)@
                },
            },
    {
        if !self.decks.contains_key(&deck_id) {
            return Err(CoreError::NotFound("deck"));
        }
        let mut card = Card::with_identity(id, deck_id, front, back, created_at);
        card.hint = match hint {
            Some(h) => Some(h.to_owned()),
            None => None,
        };
        card.tags = copy_strings(tags);
        let copy = card.clone();
        self.cards.insert(id, card);
        proof {
            assert(self@.cards =~= old(self)@.cards.insert(id, copy@));
        }
        Ok(copy)
    }

    /// Adds a new card to the deck, with a random identifier and the current
    /// instant as its creation time, or fails with `NotFound("deck")` where
    /// the index holds no such deck.
    pub fn add_card(
        &mut self,
        deck_id: DeckId,
        front: &str,
        back: &str,
        hint: Option<&str>,
        tags: &[String],
    ) -> (r: Result<Card, CoreError>)
        ensures
            old(self)@.wf() ==> final(self)@.wf(),
            match r {
                Ok(c) => {
                    &&& old(self)@.decks.contains_key(deck_id)
                    &&& c@ == (CardView {
                        hint: opt_str_text(hint),
                        tags: texts(tags@),
                        ..CardView::fresh(c.id, deck_id, front@, back@, c.created_at)
                    })
                    &&& final(self)@ == old(self)@.with_card(c@)
                },
                Err(e) => {
                    &&& !old(self)@.decks.contains_key(deck_id)
                    &&& e == CoreError::NotFound("deck")
                    &&& final(self)@ == old(self)@
                },
            },
    {
        let id = random_id();
        let at = Timestamp::now();
        self.add_card_with(id, at, deck_id, front, back, hint, tags)
    }

    /// Replaces the card that is filed under the identifier of `card`, or
    /// fails with `NotFound("card")` where the index holds none.
    pub fn update_card(&mut self, card: &Card) -> (r: Result<Card, CoreError>)
        ensures
            old(self)@.wf() ==> final(self)@.wf(),
            match r {
                Ok(c) => {
                    &&& old(self)@.cards.contains_key(card.id)
                    &&& c@ == card@
                    &&& final(self)@ == old(self)@.with_card(card@)
                },
                Err(e) => {
                    &&& !old(self)@.cards.contains_key(card.id)
                    &&& e == CoreError::NotFound("card")
                    &&& final(self)@ == old(self)@
                },
            },
    {
        if !self.cards.contains_key(&card.id) {
            return Err(CoreError::NotFound("card"));
        }
        let stored = card.clone();
        self.cards.insert(card.id, stored);
        proof {
            assert(self@.cards =~= old(self)@.cards.insert(card.id, card@));
        }
        Ok(card.clone())
    }

    /// Removes the card and its reviews, or fails with `NotFound("card")`
    /// where the index holds no such card.
    pub fn delete_card(&mut self, id: CardId) -> (r: Result<(), CoreError>)
        ensures
            old(self)@.wf() ==> final(self)@.wf(),
            match r {
                Ok(_) => old(self)@.cards.contains_key(id) && final(self)@ == old(self)@.without_card(id),
                Err(e) => {
                    &&& !old(self)@.cards.contains_key(id)
                    &&& e == CoreError::NotFound("card")
                    &&& final(self)@ == old(self)@
                },
            },
    {
        if self.cards.remove(&id).is_none() {
            proof {
                assert(self@.cards =~= old(self)@.cards);
            }
            return Err(CoreError::NotFound("card"));
        }
        self.reviews.remove(&id);
        proof {
            assert(self@.cards =~= old(self)@.cards.remove(id));
            assert(self@.reviews =~= old(self)@.reviews.remove(id));
        }
        Ok(())
    }

    /// Suspends the card or takes it back into review, or fails with
    /// `NotFound("card")` where the index holds no such card.
    pub fn set_suspended(&mut self, id: CardId, suspended: bool) -> (r: Result<(), CoreError>)
        ensures
            old(self)@.wf() ==> final(self)@.wf(),
            match r {
                Ok(_) => old(self)@.cards.contains_key(id) && final(self)@ == (IndexView {
                    cards: old(self)@.cards.insert(
                        id,
                        CardView { suspended, ..old(self)@.cards[id] },
                    ),
                    ..old(self)@
                }),
                Err(e) => {
                    &&& !old(self)@.cards.contains_key(id)
                    &&& e == CoreError::NotFound("card")
                    &&& final(self)@ == old(self)@
                },
            },
    {
        match self.cards.remove(&id) {
            Some(c) => {
                let mut card = c;
                card.suspended = suspended;
                let ghost v = card@;
                self.cards.insert(id, card);
                proof {
                    assert(self@.cards =~= old(self)@.cards.insert(id, v));
                }
                Ok(())
            },
            None => {
                proof {
                    assert(self@.cards =~= old(self)@.cards);
                }
                Err(CoreError::NotFound("card"))
            },
        }
    }

    /// Records a review at the end of the list of its card. Whether the
    /// card exists is not looked at.
    pub fn insert_review(&mut self, review: &Review) -> (r: Result<(), CoreError>)
        ensures
            old(self)@.wf() ==> final(self)@.wf(),
            r is Ok,
            final(self)@ == old(self)@.with_review(*review),
    {
        let mut list = match self.reviews.remove(&review.card_id) {
            Some(v) => v,
            None => Vec::new(),
        };
        list.push(review.clone());
        let ghost l = list@;
        self.reviews.insert(review.card_id, list);
        proof {
            assert(self@.reviews =~= old(self)@.reviews.insert(review.card_id, l));
            assert(l =~= old(self)@.reviews_for(review.card_id).push(*review));
        }
        Ok(())
    }

    /// The reviews of the card ordered by the instant of the review, reviews
    /// of the same instant in the order in which they were recorded; none
    /// for a card without reviews.
    pub fn list_reviews_for_card(&self, card_id: CardId) -> (out: Vec<Review>)
        ensures
            is_stable_sort(out@, self@.reviews_for(card_id)),
    {
        let mut out = match self.reviews.get(&card_id) {
            Some(v) => copy_reviews(v),
            None => Vec::new(),
        };
        proof {
            assert(out@ =~= self@.reviews_for(card_id));
        }
        sort_by_key_stable(&mut out);
        out
    }

    /// Removes the deck, the cards that belong to it and the reviews of
    /// those cards, or fails with `NotFound("deck")` where the index holds
    /// no such deck.
    #[verifier::loop_isolation(false)]
    pub fn delete_deck(&mut self, id: DeckId) -> (r: Result<(), CoreError>)
        ensures
            old(self)@.wf() ==> final(self)@.wf(),
            match r {
                Ok(_) => old(self)@.decks.contains_key(id) && final(self)@ == old(self)@.without_deck(id),
                Err(e) => {
                    &&& !old(self)@.decks.contains_key(id)
                    &&& e == CoreError::NotFound("deck")
                    &&& final(self)@ == old(self)@
                },
            },
    {
        if self.decks.remove(&id).is_none() {
            proof {
                assert(self@.decks =~= old(self)@.decks);
            }
            return Err(CoreError::NotFound("deck"));
        }
        let ghost before = old(self)@;
        let ghost cards0 = self.cards@;
        let ghost reviews0 = self.reviews@;
        let ids = keys_of(&self.cards);
        let mut i: usize = 0;
        while i < ids.len()
            invariant
                i <= ids.len(),
                self.decks@ == old(self).decks@.remove(id),
                forall|k: CardId| #[trigger]
                    cards0.contains_key(k) ==> (self.cards@.contains_key(k) <==> !(ids@.subrange(
                        0,
                        i as int,
                    ).contains(k) && cards0[k].deck_id == id)),
                forall|k: CardId| #[trigger]
                    self.cards@.contains_key(k) ==> cards0.contains_key(k) && self.cards@[k]
                        == cards0[k],
                forall|k: CardId| #[trigger]
                    reviews0.contains_key(k) ==> (self.reviews@.contains_key(k) <==> !(
                    ids@.subrange(0, i as int).contains(k) && cards0.contains_key(k)
                        && cards0[k].deck_id == id)),
                forall|k: CardId| #[trigger]
                    self.reviews@.contains_key(k) ==> reviews0.contains_key(k)
                        && self.reviews@[k] == reviews0[k],
            decreases ids.len() - i,
        {
            let cid = ids[i];
            let ghost done = ids@.subrange(0, i as int);
            let ghost next = ids@.subrange(0, i as int + 1);
            proof {
                assert(next =~= done.push(cid));
                assert(forall|k: CardId| next.contains(k) <==> done.contains(k) || k == cid) by {
                    assert forall|k: CardId| next.contains(k) implies done.contains(k) || k
                        == cid by {
                        let j = choose|j: int| 0 <= j < next.len() && next[j] == k;
                        if j < done.len() {
                            assert(done[j] == k);
                        }
                    }
                    assert forall|k: CardId| done.contains(k) || k == cid implies next.contains(
                        k,
                    ) by {
                        if done.contains(k) {
                            let j = choose|j: int| 0 <= j < done.len() && done[j] == k;
                            assert(next[j] == k);
                        } else {
                            assert(next[i as int] == k);
                        }
                    }
                }
                assert(ids@.contains(cid));
                assert(!done.contains(cid)) by {
                    if done.contains(cid) {
                        let j = choose|j: int| 0 <= j < done.len() && done[j] == cid;
                        assert(ids@[j] == ids@[i as int]);
                    }
                }
            }
            let owned = match self.cards.get(&cid) {
                Some(c) => c.deck_id == id,
                None => false,
            };
            if owned {
                self.cards.remove(&cid);
                self.reviews.remove(&cid);
            }
            i += 1;
        }
        proof {
            assert(ids@.subrange(0, i as int) =~= ids@);
            let gone = before.cards_of(id);
            assert forall|k: CardId| gone.contains(k) <==> (cards0.contains_key(k)
                && cards0[k].deck_id == id) by {}
            assert(self@.decks =~= before.decks.remove(id));
            assert(self@.cards =~= before.cards.remove_keys(gone));
            assert(self@.reviews =~= before.reviews.remove_keys(gone));
            assert(self@.decks.dom() =~= self.decks@.dom());
            assert(self@.cards.dom() =~= self.cards@.dom());
            assert(self@.reviews.dom() =~= self.reviews@.dom());
        }
        Ok(())
    }

    /// The cards of the index, or those of one deck where one is given,
    /// each once, in no particular order.
    #[verifier::loop_isolation(false)]
    pub fn list_cards(&self, deck_id: Option<DeckId>) -> (out: Vec<Card>)
        requires
            self@.wf(),
        ensures
            is_listing(
                card_views(out@),
                card_id_of(),
                match deck_id {
                    Some(d) => self@.cards.restrict(self@.cards_of(d)),
                    None => self@.cards,
                },
            ),
    {
        let ghost wanted = match deck_id {
            Some(d) => self@.cards.restrict(self@.cards_of(d)),
            None => self@.cards,
        };
        let ids = keys_of(&self.cards);
        let mut out: Vec<Card> = Vec::new();
        let mut i: usize = 0;
        while i < ids.len()
            invariant
                i <= ids.len(),
                forall|j: int|
                    0 <= j < out@.len() ==> wanted.contains_key((#[trigger] out@[j]).id)
                        && wanted[out@[j].id] == out@[j]@,
                forall|j: int|
                    0 <= j < out@.len() ==> ids@.subrange(0, i as int).contains(
                        (#[trigger] out@[j]).id,
                    ),
                forall|a: int, b: int|
                    0 <= a < b < out@.len() ==> (#[trigger] out@[a]).id != (#[trigger] out@[b]).id,
                forall|p: int|
                    0 <= p < i && wanted.contains_key(#[trigger] ids@[p]) ==> exists|j: int|
                        0 <= j < out@.len() && (#[trigger] out@[j]).id == ids@[p],
            decreases ids.len() - i,
        {
            let cid = ids[i];
            let ghost done = ids@.subrange(0, i as int);
            let ghost next = ids@.subrange(0, i as int + 1);
            let ghost prev = out@;
            proof {
                assert(ids@.contains(cid));
                assert forall|k: CardId| done.contains(k) implies next.contains(k) by {
                    let j = choose|j: int| 0 <= j < done.len() && done[j] == k;
                    assert(next[j] == k);
                }
                assert(next[i as int] == cid);
                assert(!done.contains(cid)) by {
                    if done.contains(cid) {
                        let j = choose|j: int| 0 <= j < done.len() && done[j] == cid;
                        assert(ids@[j] == ids@[i as int]);
                    }
                }
            }
            match self.cards.get(&cid) {
                Some(c) => {
                    let keep = match deck_id {
                        Some(d) => c.deck_id == d,
                        None => true,
                    };
                    if keep {
                        out.push(c.clone());
                        proof {
                            assert(self@.cards.contains_key(cid));
                            assert(self@.cards[cid] == c@);
                            assert(forall|j: int| 0 <= j < prev.len() ==> out@[j] == prev[j]);
                            assert(out@[prev.len() as int].id == cid);
                        }
                    }
                },
                None => {},
            }
            i += 1;
        }
        proof {
            let views = card_views(out@);
            assert(ids@.subrange(0, i as int) =~= ids@);
            assert forall|j: int| 0 <= j < views.len() implies wanted.contains_key(
                card_id_of()(#[trigger] views[j]),
            ) && wanted[card_id_of()(views[j])] == views[j] by {
                assert(views[j] == out@[j]@);
            }
            assert forall|a: int, b: int| 0 <= a < b < views.len() implies card_id_of()(
                #[trigger] views[a],
            ) != card_id_of()(#[trigger] views[b]) by {
                assert(views[a] == out@[a]@);
                assert(views[b] == out@[b]@);
            }
            assert forall|k: u128| #[trigger] wanted.contains_key(k) implies exists|j: int|
                0 <= j < views.len() && card_id_of()(#[trigger] views[j]) == k by {
                assert(ids@.contains(k));
                let p = choose|p: int| 0 <= p < ids@.len() && ids@[p] == k;
                assert(wanted.contains_key(ids@[p]));
                let j = choose|j: int| 0 <= j < out@.len() && (#[trigger] out@[j]).id == ids@[p];
                assert(views[j] == out@[j]@);
                assert(card_id_of()(views[j]) == k);
            }
        }
        out
    }

    /// Every review of the index: the reviews of each card in the order in
    /// which they were recorded, the cards in no particular order.
    #[verifier::loop_isolation(false)]
    pub fn all_reviews(&self) -> (out: Vec<Review>)
        requires
            self@.wf(),
        ensures
            is_flattening(out@, self@.reviews),
    {
        let ids = keys_of(&self.reviews);
        let mut out: Vec<Review> = Vec::new();
        let mut i: usize = 0;
        proof {
            assert forall|k: CardId| #[trigger] out@.filter(for_card(k)) == Seq::<Review>::empty() by {
                reveal(Seq::filter);
            }
        }
        while i < ids.len()
            invariant
                i <= ids.len(),
                forall|k: CardId| #[trigger]
                    out@.filter(for_card(k)) == if ids@.subrange(0, i as int).contains(k) {
                        self@.reviews[k]
                    } else {
                        Seq::empty()
                    },
            decreases ids.len() - i,
        {
            let cid = ids[i];
            let ghost done = ids@.subrange(0, i as int);
            let ghost next = ids@.subrange(0, i as int + 1);
            let ghost prev = out@;
            proof {
                assert(ids@.contains(cid));
                assert(next =~= done.push(cid));
                assert(!done.contains(cid)) by {
                    if done.contains(cid) {
                        let j = choose|j: int| 0 <= j < done.len() && done[j] == cid;
                        assert(ids@[j] == ids@[i as int]);
                    }
                }
                assert forall|k: CardId| next.contains(k) <==> done.contains(k) || k == cid by {
                    if next.contains(k) {
                        let j = choose|j: int| 0 <= j < next.len() && next[j] == k;
                        if j < done.len() {
                            assert(done[j] == k);
                        }
                    }
                    if done.contains(k) {
                        let j = choose|j: int| 0 <= j < done.len() && done[j] == k;
                        assert(next[j] == k);
                    }
                    if k == cid {
                        assert(next[i as int] == k);
                    }
                }
            }
            match self.reviews.get(&cid) {
                Some(v) => {
                    let mut part = copy_reviews(v);
                    let ghost list = part@;
                    out.append(&mut part);
                    proof {
                        assert(self@.reviews.contains_key(cid));
                        assert(self@.reviews[cid] == list);
                        assert forall|k: CardId| #[trigger]
                            out@.filter(for_card(k)) == if next.contains(k) {
                                self@.reviews[k]
                            } else {
                                Seq::empty()
                            } by {
                            Seq::filter_distributes_over_add(prev, list, for_card(k));
                            assert(prev.filter(for_card(k)) == if done.contains(k) {
                                self@.reviews[k]
                            } else {
                                Seq::empty()
                            });
                            if k == cid {
                                assert forall|j: int| 0 <= j < list.len() implies for_card(k)(
                                    #[trigger] list[j],
                                ) by {
                                    assert(self@.reviews[cid][j].card_id == cid);
                                }
                                lemma_filter_all(list, for_card(k));
                                assert(Seq::<Review>::empty() + list =~= list);
                            } else {
                                assert forall|j: int| 0 <= j < list.len() implies !for_card(k)(
                                    #[trigger] list[j],
                                ) by {
                                    assert(self@.reviews[cid][j].card_id == cid);
                                }
                                lemma_filter_none(list, for_card(k));
                                assert(prev.filter(for_card(k)) + Seq::<Review>::empty()
                                    =~= prev.filter(for_card(k)));
                            }
                        }
                    }
                },
                None => {
                    assert(false);
                },
            }
            i += 1;
        }
        proof {
            assert(ids@.subrange(0, i as int) =~= ids@);
            assert forall|k: CardId| #[trigger]
                out@.filter(for_card(k)) == if self@.reviews.contains_key(k) {
                    self@.reviews[k]
                } else {
                    Seq::empty()
                } by {
                assert(ids@.contains(k) <==> self@.reviews.contains_key(k));
            }
        }
        out
    }

    /// The index that files the decks and the cards under their
    /// identifiers, a later item replacing an earlier one with the same
    /// identifier, and the reviews under their cards in the order given.
    #[verifier::loop_isolation(false)]
    pub fn from_lists(decks: &Vec<Deck>, cards: &Vec<Card>, reviews: &Vec<Review>) -> (r: Index)
        ensures
            r@ == (IndexView {
                decks: by_id(deck_views(decks@), deck_id_of()),
                cards: by_id(card_views(cards@), card_id_of()),
                reviews: by_card(reviews@),
            }),
            r@.wf(),
    {
        let mut r = Index::new();
        let mut i: usize = 0;
        while i < decks.len()
            invariant
                i <= decks.len(),
                r@.decks == by_id(deck_views(decks@.subrange(0, i as int)), deck_id_of()),
                r@.cards == Map::<CardId, CardView>::empty(),
                r@.reviews == Map::<CardId, Seq<Review>>::empty(),
                r@.wf(),
            decreases decks.len() - i,
        {
            let d = decks[i].clone();
            let ghost before = r@;
            proof {
                let cur = deck_views(decks@.subrange(0, i as int + 1));
                assert(cur.drop_last() =~= deck_views(decks@.subrange(0, i as int)));
                assert(cur.last() == d@);
            }
            r.decks.insert(d.id, d);
            proof {
                assert(r@.decks =~= before.decks.insert(d.id, d@));
                assert(r@.cards =~= before.cards);
                assert(r@.reviews =~= before.reviews);
            }
            i += 1;
        }
        proof {
            assert(decks@.subrange(0, i as int) =~= decks@);
        }
        let mut j: usize = 0;
        while j < cards.len()
            invariant
                j <= cards.len(),
                r@.decks == by_id(deck_views(decks@), deck_id_of()),
                r@.cards == by_id(card_views(cards@.subrange(0, j as int)), card_id_of()),
                r@.reviews == Map::<CardId, Seq<Review>>::empty(),
                r@.wf(),
            decreases cards.len() - j,
        {
            let c = cards[j].clone();
            let ghost before = r@;
            proof {
                let cur = card_views(cards@.subrange(0, j as int + 1));
                assert(cur.drop_last() =~= card_views(cards@.subrange(0, j as int)));
                assert(cur.last() == c@);
            }
            r.cards.insert(c.id, c);
            proof {
                assert(r@.cards =~= before.cards.insert(c.id, c@));
                assert(r@.decks =~= before.decks);
                assert(r@.reviews =~= before.reviews);
            }
            j += 1;
        }
        proof {
            assert(cards@.subrange(0, j as int) =~= cards@);
            assert(by_card(reviews@.subrange(0, 0)) =~= Map::<CardId, Seq<Review>>::empty()) by {
                reveal(Seq::filter);
            }
        }
        let mut n: usize = 0;
        while n < reviews.len()
            invariant
                n <= reviews.len(),
                r@.decks == by_id(deck_views(decks@), deck_id_of()),
                r@.cards == by_id(card_views(cards@), card_id_of()),
                r@.reviews == by_card(reviews@.subrange(0, n as int)),
                r@.wf(),
            decreases reviews.len() - n,
        {
            let ghost before = r@;
            let ghost prefix = reviews@.subrange(0, n as int);
            let ghost grown = reviews@.subrange(0, n as int + 1);
            let rv = reviews[n].clone();
            let _ = r.insert_review(&rv);
            proof {
                assert(grown =~= prefix.push(rv));
                assert forall|k: CardId| #[trigger]
                    grown.filter(for_card(k)) == if k == rv.card_id {
                        prefix.filter(for_card(k)).push(rv)
                    } else {
                        prefix.filter(for_card(k))
                    } by {
                    lemma_filter_push(prefix, rv, for_card(k));
                }
                assert(prefix.filter(for_card(rv.card_id)) =~= before.reviews_for(rv.card_id)) by {
                    reveal(Seq::filter);
                    if !before.reviews.contains_key(rv.card_id) {
                        assert(prefix.filter(for_card(rv.card_id)).len() == 0);
                    }
                }
                assert(r@.reviews =~= by_card(grown));
            }
            n += 1;
        }
        proof {
            assert(reviews@.subrange(0, n as int) =~= reviews@);
        }
        r
    }
}

} // verus!
