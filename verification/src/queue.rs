use vstd::prelude::*;
use crate::filters::{
    filter_by_due, filter_not_suspended, has_status, lemma_filter_push, not_suspended,
};
use crate::models::{card_views, Card, CardView, DueStatus};
use crate::order::{is_stable_sort, key_le, keyed_as, sort_by_key_stable, Keyed};
use crate::time::Timestamp;

verus! {

/// The pair by which a review queue is ordered: the due instant, then the
/// creation instant.
pub open spec fn queue_key(c: CardView) -> (int, int) {
    (c.due_at.nanos as int, c.created_at.nanos as int)
}

/// Selects the cards with the given queue key.
pub open spec fn with_key(k: (int, int)) -> spec_fn(CardView) -> bool {
    |c: CardView| queue_key(c) == k
}

/// No card stands before one with a smaller queue key.
pub open spec fn in_queue_order(s: Seq<CardView>) -> bool {
    forall|i: int, j: int|
        0 <= i < j < s.len() ==> key_le(#[trigger] queue_key(s[i]), #[trigger] queue_key(s[j]))
}

/// `sorted` holds the cards of `pool` ordered by queue key, and cards with
/// the same key stand in the order they had in `pool`.
pub open spec fn is_queue_of(sorted: Seq<CardView>, pool: Seq<CardView>) -> bool {
    &&& sorted.len() == pool.len()
    &&& in_queue_order(sorted)
    &&& forall|k: (int, int)| #[trigger] sorted.filter(with_key(k)) == pool.filter(with_key(k))
}

/// The cards that go into a review queue before they are ordered: of the
/// cards that are not suspended, the new ones where asked for, then those due
/// today, then the lapsed ones where asked for.
pub open spec fn queue_pool(
    cards: Seq<CardView>,
    now: Timestamp,
    include_new: bool,
    include_lapsed: bool,
) -> Seq<CardView> {
    let active = cards.filter(not_suspended());
    let fresh = if include_new {
        active.filter(has_status(now, DueStatus::New))
    } else {
        Seq::empty()
    };
    let lapsed = if include_lapsed {
        active.filter(has_status(now, DueStatus::Lapsed))
    } else {
        Seq::empty()
    };
    fresh + active.filter(has_status(now, DueStatus::DueToday)) + lapsed
}

impl Keyed for Card {
    open spec fn key_of(&self) -> (int, int) {
        queue_key(self@)
    }

    fn key(&self) -> (k: (i128, i128)) {
        (self.due_at.nanos, self.created_at.nanos)
    }
}

/// Selecting cards and then taking views gives what taking views and then
/// selecting gives, where the two selections agree on every card.
pub proof fn lemma_views_filter(
    s: Seq<Card>,
    p: spec_fn(Card) -> bool,
    q: spec_fn(CardView) -> bool,
)
    requires
        forall|c: Card| p(c) == q(c@),
    ensures
        card_views(s.filter(p)) == card_views(s).filter(q),
    decreases s.len(),
{
    if s.len() == 0 {
        reveal(Seq::filter);
        assert(card_views(s.filter(p)) =~= card_views(s).filter(q));
    } else {
        let rest = s.drop_last();
        let c = s.last();
        lemma_views_filter(rest, p, q);
        assert(rest.push(c) =~= s);
        lemma_filter_push(rest, c, p);
        assert(card_views(s) =~= card_views(rest).push(c@));
        lemma_filter_push(card_views(rest), c@, q);
        if p(c) {
            assert(card_views(rest.filter(p).push(c)) =~= card_views(rest.filter(p)).push(c@));
        }
    }
}

/// A stable sort of cards is, seen through their views, a queue of the pool.
pub proof fn lemma_sorted_cards_are_queue(sorted: Seq<Card>, pool: Seq<Card>)
    requires
        is_stable_sort(sorted, pool),
    ensures
        is_queue_of(card_views(sorted), card_views(pool)),
{
    let sv = card_views(sorted);
    let pv = card_views(pool);
    assert forall|i: int, j: int| 0 <= i < j < sv.len() implies key_le(
        #[trigger] queue_key(sv[i]),
        #[trigger] queue_key(sv[j]),
    ) by {
        assert(key_le(sorted[i].key_of(), sorted[j].key_of()));
    }
    assert forall|k: (int, int)| #[trigger] sv.filter(with_key(k)) == pv.filter(with_key(k)) by {
        lemma_views_filter(sorted, keyed_as::<Card>(k), with_key(k));
        lemma_views_filter(pool, keyed_as::<Card>(k), with_key(k));
        assert(sorted.filter(keyed_as::<Card>(k)) == pool.filter(keyed_as::<Card>(k)));
    }
}

/// Builds the review queue at `now`: the pool of `queue_pool`, ordered by
/// due instant and then by creation instant, ties left in pool order.
pub fn review_queue(cards: &[Card], now: Timestamp, include_new: bool, include_lapsed: bool) -> (out:
    Vec<Card>)
    ensures
        is_queue_of(
            card_views(out@),
            queue_pool(card_views(cards@), now, include_new, include_lapsed),
        ),
{
    let active = filter_not_suspended(cards);
    let mut pool: Vec<Card> = Vec::new();
    if include_new {
        let mut fresh = filter_by_due(active.as_slice(), now, DueStatus::New);
        pool.append(&mut fresh);
    }
    let mut due = filter_by_due(active.as_slice(), now, DueStatus::DueToday);
    proof {
        lemma_views_add(pool@, due@);
    }
    pool.append(&mut due);
    if include_lapsed {
        let mut lapsed = filter_by_due(active.as_slice(), now, DueStatus::Lapsed);
        proof {
            lemma_views_add(pool@, lapsed@);
        }
        pool.append(&mut lapsed);
    }
    proof {
        assert(card_views(pool@) =~= queue_pool(
            card_views(cards@),
            now,
            include_new,
            include_lapsed,
        ));
    }
    let ghost unsorted = pool@;
    sort_by_key_stable(&mut pool);
    proof {
        lemma_sorted_cards_are_queue(pool@, unsorted);
    }
    pool
}

/// The views of two sequences of cards laid end to end.
pub proof fn lemma_views_add(a: Seq<Card>, b: Seq<Card>)
    ensures
        card_views(a + b) == card_views(a) + card_views(b),
{
    assert(card_views(a + b) =~= card_views(a) + card_views(b));
}

} // verus!
