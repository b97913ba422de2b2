use vstd::prelude::*;
use crate::models::{card_views, Card, CardView, DueStatus};
use crate::text::{contains, lowercased, occurs_in, same_text, to_lower, trim, trimmed};
use crate::time::Timestamp;

verus! {

/// Selects the cards that are not suspended.
pub open spec fn not_suspended() -> spec_fn(CardView) -> bool {
    |c: CardView| !c.suspended
}

/// Selects the cards whose due status at `now` is `want`.
pub open spec fn has_status(now: Timestamp, want: DueStatus) -> spec_fn(CardView) -> bool {
    |c: CardView| c.due_status(now) == want
}

/// True when the lowercase form of the front, the back, the hint or any tag
/// of the card holds `needle`.
pub open spec fn mentions(c: CardView, needle: Seq<char>) -> bool {
    ||| occurs_in(needle, lowercased(c.front))
    ||| occurs_in(needle, lowercased(c.back))
    ||| (c.hint is Some && occurs_in(needle, lowercased(c.hint->0)))
    ||| exists|i: int| 0 <= i < c.tags.len() && occurs_in(needle, lowercased(#[trigger] c.tags[i]))
}

/// Selects the cards that mention `needle`.
pub open spec fn mentioning(needle: Seq<char>) -> spec_fn(CardView) -> bool {
    |c: CardView| mentions(c, needle)
}

/// True when the lowercase form of some tag of the card is `tag`.
pub open spec fn tagged(c: CardView, tag: Seq<char>) -> bool {
    exists|i: int| 0 <= i < c.tags.len() && lowercased(#[trigger] c.tags[i]) == tag
}

/// Selects the cards that carry `tag`.
pub open spec fn tagged_with(tag: Seq<char>) -> spec_fn(CardView) -> bool {
    |c: CardView| tagged(c, tag)
}

/// Filtering a sequence that grew by one item either keeps the item or
/// leaves the filtered sequence as it was.
pub proof fn lemma_filter_push<A>(s: Seq<A>, x: A, pred: spec_fn(A) -> bool)
    ensures
        s.push(x).filter(pred) == if pred(x) {
            s.filter(pred).push(x)
        } else {
            s.filter(pred)
        },
{
    reveal(Seq::filter);
    assert(s.push(x).drop_last() =~= s);
}

/// One step of a selection loop over the first `i + 1` cards.
proof fn lemma_select_step(
    cards: Seq<Card>,
    i: int,
    before: Seq<Card>,
    after: Seq<Card>,
    pred: spec_fn(CardView) -> bool,
)
    requires
        0 <= i < cards.len(),
        card_views(before) == card_views(cards.subrange(0, i)).filter(pred),
        if pred(cards[i]@) {
            after.len() == before.len() + 1 && after.drop_last() == before && after.last()@
                == cards[i]@
        } else {
            after == before
        },
    ensures
        card_views(after) == card_views(cards.subrange(0, i + 1)).filter(pred),
{
    let prefix = card_views(cards.subrange(0, i));
    assert(card_views(cards.subrange(0, i + 1)) =~= prefix.push(cards[i]@));
    lemma_filter_push(prefix, cards[i]@, pred);
    if pred(cards[i]@) {
        assert(card_views(after) =~= card_views(before).push(cards[i]@));
    }
}

/// A copy of every card, in order.
pub fn copy_cards(cards: &[Card]) -> (out: Vec<Card>)
    ensures
        card_views(out@) == card_views(cards@),
{
    let mut out: Vec<Card> = Vec::new();
    let mut i: usize = 0;
    while i < cards.len()
        invariant
            i <= cards.len(),
            out@.len() == i,
            forall|j: int| 0 <= j < i ==> out@[j]@ == cards@[j]@,
        decreases cards.len() - i,
    {
        out.push(cards[i].clone());
        i += 1;
    }
    proof {
        assert(card_views(out@) =~= card_views(cards@));
    }
    out
}

/// The cards that are not suspended, in their order.
pub fn filter_not_suspended(cards: &[Card]) -> (out: Vec<Card>)
    ensures
        card_views(out@) == card_views(cards@).filter(not_suspended()),
{
    let mut out: Vec<Card> = Vec::new();
    let mut i: usize = 0;
    proof {
        assert(card_views(cards@.subrange(0, 0)) =~= Seq::<CardView>::empty());
        assert(card_views(out@) =~= Seq::<CardView>::empty());
        reveal(Seq::filter);
    }
    while i < cards.len()
        invariant
            i <= cards.len(),
            card_views(out@) == card_views(cards@.subrange(0, i as int)).filter(not_suspended()),
        decreases cards.len() - i,
    {
        let ghost before = out@;
        if !cards[i].suspended {
            out.push(cards[i].clone());
        }
        proof {
            assert(out@.len() > before.len() ==> out@.drop_last() =~= before);
            lemma_select_step(cards@, i as int, before, out@, not_suspended());
        }
        i += 1;
    }
    proof {
        assert(cards@.subrange(0, i as int) =~= cards@);
    }
    out
}

/// The cards whose due status at `now` is `want`, in their order.
pub fn filter_by_due(cards: &[Card], now: Timestamp, want: DueStatus) -> (out: Vec<Card>)
    ensures
        card_views(out@) == card_views(cards@).filter(has_status(now, want)),
{
    let mut out: Vec<Card> = Vec::new();
    let mut i: usize = 0;
    proof {
        assert(card_views(cards@.subrange(0, 0)) =~= Seq::<CardView>::empty());
        assert(card_views(out@) =~= Seq::<CardView>::empty());
        reveal(Seq::filter);
    }
    while i < cards.len()
        invariant
            i <= cards.len(),
            card_views(out@) == card_views(cards@.subrange(0, i as int)).filter(
                has_status(now, want),
            ),
        decreases cards.len() - i,
    {
        let ghost before = out@;
        if cards[i].due_status(now) == want {
            out.push(cards[i].clone());
        }
        proof {
            assert(out@.len() > before.len() ==> out@.drop_last() =~= before);
            lemma_select_step(cards@, i as int, before, out@, has_status(now, want));
        }
        i += 1;
    }
    proof {
        assert(cards@.subrange(0, i as int) =~= cards@);
    }
    out
}

/// True when the lowercase form of the front, the back, the hint or any tag
/// of the card holds `needle`.
pub fn card_mentions(card: &Card, needle: &str) -> (b: bool)
    ensures
        b == mentions(card@, needle@),
{
    if contains(to_lower(card.front.as_str()).as_str(), needle) {
        return true;
    }
    if contains(to_lower(card.back.as_str()).as_str(), needle) {
        return true;
    }
    match &card.hint {
        Some(h) => {
            if contains(to_lower(h.as_str()).as_str(), needle) {
                return true;
            }
        },
        None => {},
    }
    let mut i: usize = 0;
    while i < card.tags.len()
        invariant
            i <= card.tags.len(),
            forall|j: int| 0 <= j < i ==> !occurs_in(needle@, lowercased(#[trigger] card@.tags[j])),
        decreases card.tags.len() - i,
    {
        if contains(to_lower(card.tags[i].as_str()).as_str(), needle) {
            assert(card@.tags[i as int] == card.tags@[i as int]@);
            return true;
        }
        assert(card@.tags[i as int] == card.tags@[i as int]@);
        i += 1;
    }
    false
}

/// True when the lowercase form of some tag of the card is `tag`.
pub fn card_tagged(card: &Card, tag: &str) -> (b: bool)
    ensures
        b == tagged(card@, tag@),
{
    let mut i: usize = 0;
    while i < card.tags.len()
        invariant
            i <= card.tags.len(),
            forall|j: int| 0 <= j < i ==> lowercased(#[trigger] card@.tags[j]) != tag@,
        decreases card.tags.len() - i,
    {
        assert(card@.tags[i as int] == card.tags@[i as int]@);
        if same_text(to_lower(card.tags[i].as_str()).as_str(), tag) {
            return true;
        }
        i += 1;
    }
    false
}

/// The cards that mention the query, in their order. The query is trimmed
/// and made lowercase first; a query that is then empty selects every card.
pub fn filter_by_text(cards: &[Card], query: &str) -> (out: Vec<Card>)
    ensures
        card_views(out@) == ({
            let needle = lowercased(trimmed(query@));
            if needle.len() == 0 {
                card_views(cards@)
            } else {
                card_views(cards@).filter(mentioning(needle))
            }
        }),
{
    let q = to_lower(trim(query));
    if q.as_str().is_empty() {
        return copy_cards(cards);
    }
    let mut out: Vec<Card> = Vec::new();
    let mut i: usize = 0;
    proof {
        assert(card_views(cards@.subrange(0, 0)) =~= Seq::<CardView>::empty());
        assert(card_views(out@) =~= Seq::<CardView>::empty());
        reveal(Seq::filter);
    }
    while i < cards.len()
        invariant
            i <= cards.len(),
            card_views(out@) == card_views(cards@.subrange(0, i as int)).filter(mentioning(q@)),
        decreases cards.len() - i,
    {
        let ghost before = out@;
        if card_mentions(&cards[i], q.as_str()) {
            out.push(cards[i].clone());
        }
        proof {
            assert(out@.len() > before.len() ==> out@.drop_last() =~= before);
            lemma_select_step(cards@, i as int, before, out@, mentioning(q@));
        }
        i += 1;
    }
    proof {
        assert(cards@.subrange(0, i as int) =~= cards@);
    }
    out
}

/// The cards that carry the tag, in their order. The tag is trimmed and made
/// lowercase first, and compared with the lowercase form of each tag.
pub fn filter_by_tag(cards: &[Card], tag: &str) -> (out: Vec<Card>)
    ensures
        card_views(out@) == card_views(cards@).filter(tagged_with(lowercased(trimmed(tag@)))),
{
    let q = to_lower(trim(tag));
    let mut out: Vec<Card> = Vec::new();
    let mut i: usize = 0;
    proof {
        assert(card_views(cards@.subrange(0, 0)) =~= Seq::<CardView>::empty());
        assert(card_views(out@) =~= Seq::<CardView>::empty());
        reveal(Seq::filter);
    }
    while i < cards.len()
        invariant
            i <= cards.len(),
            card_views(out@) == card_views(cards@.subrange(0, i as int)).filter(tagged_with(q@)),
        decreases cards.len() - i,
    {
        let ghost before = out@;
        if card_tagged(&cards[i], q.as_str()) {
            out.push(cards[i].clone());
        }
        proof {
            assert(out@.len() > before.len() ==> out@.drop_last() =~= before);
            lemma_select_step(cards@, i as int, before, out@, tagged_with(q@));
        }
        i += 1;
    }
    proof {
        assert(cards@.subrange(0, i as int) =~= cards@);
    }
    out
}

/// How many cards of the sequence have the given due status at `now`.
pub open spec fn count_with_status(cards: Seq<CardView>, now: Timestamp, s: DueStatus) -> nat {
    cards.filter(has_status(now, s)).len()
}

/// At a fixed instant the four due statuses split any sequence of cards:
/// the four selections together hold as many cards as the sequence, and a
/// card of the sequence stands in the selection of a status exactly when
/// that is its own status, hence in exactly one of the four.
pub proof fn lemma_due_partition(cards: Seq<CardView>, now: Timestamp)
    ensures
        count_with_status(cards, now, DueStatus::New) + count_with_status(
            cards,
            now,
            DueStatus::Future,
        ) + count_with_status(cards, now, DueStatus::Lapsed) + count_with_status(
            cards,
            now,
            DueStatus::DueToday,
        ) == cards.len(),
        forall|i: int, s: DueStatus|
            0 <= i < cards.len() ==> (#[trigger] cards.filter(has_status(now, s)).contains(cards[i])
                <==> cards[i].due_status(now) == s),
    decreases cards.len(),
{
    if cards.len() == 0 {
        reveal(Seq::filter);
    } else {
        let rest = cards.drop_last();
        let c = cards.last();
        lemma_due_partition(rest, now);
        assert(rest.push(c) =~= cards);
        lemma_filter_push(rest, c, has_status(now, DueStatus::New));
        lemma_filter_push(rest, c, has_status(now, DueStatus::Future));
        lemma_filter_push(rest, c, has_status(now, DueStatus::Lapsed));
        lemma_filter_push(rest, c, has_status(now, DueStatus::DueToday));
    }
    assert forall|i: int, s: DueStatus| 0 <= i < cards.len() implies (#[trigger] cards.filter(
        has_status(now, s),
    ).contains(cards[i]) <==> cards[i].due_status(now) == s) by {
        let sel = cards.filter(has_status(now, s));
        if sel.contains(cards[i]) {
            let j = choose|j: int| 0 <= j < sel.len() && sel[j] == cards[i];
            cards.lemma_filter_pred(has_status(now, s), j);
        }
        if cards[i].due_status(now) == s {
            cards.lemma_filter_contains(has_status(now, s), i);
        }
    }
}

} // verus!
