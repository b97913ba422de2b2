use vstd::prelude::*;
use std::collections::BTreeMap;
use std::collections::HashMap;
use crate::filters::lemma_filter_push;
use crate::grade::Grade;
use crate::models::{CardId, DeckId, Review};
use crate::time::{day_int, Day};

verus! {

broadcast use {
    vstd::std_specs::btree::group_btree_axioms,
    vstd::std_specs::hash::group_hash_axioms,
    vstd::laws_cmp::group_laws_cmp,
};

/// The most reviews that can be counted.
pub const MAX_COUNTED: usize = 0xffff_ffff;

/// The earliest day from which a streak can be counted backwards.
pub const EARLIEST_TODAY: i128 = -0x7fff_ffff_ffff_ffff_ffff_ffff_0000_0000;

/// How many reviews there were, and how many with each grade.
#[derive(Clone, Copy, Debug, PartialEq, Eq, Structural)]
pub struct Totals {
    pub total: u32,
    pub hard: u32,
    pub medium: u32,
    pub easy: u32,
}

/// The counts of the reviews overall and day by day.
pub struct StatsSummary {
    pub totals: Totals,
    pub per_day: BTreeMap<Day, Totals>,
}

/// Selects the reviews with the given grade.
pub open spec fn with_grade(g: Grade) -> spec_fn(Review) -> bool {
    |r: Review| r.grade == g
}

/// Selects the reviews made on the given UTC day.
pub open spec fn on_day(d: int) -> spec_fn(Review) -> bool {
    |r: Review| r.reviewed_at.day_spec() == d
}

/// Selects the reviews of the cards that `card_to_deck` assigns to the deck.
pub open spec fn in_deck(card_to_deck: Map<CardId, DeckId>, d: DeckId) -> spec_fn(Review) -> bool {
    |r: Review| card_to_deck.contains_key(r.card_id) && card_to_deck[r.card_id] == d
}

/// `t` counts the reviews of `s`: all of them, and those of each grade.
pub open spec fn counts(t: Totals, s: Seq<Review>) -> bool {
    &&& t.total == s.len()
    &&& t.hard == s.filter(with_grade(Grade::Hard)).len()
    &&& t.medium == s.filter(with_grade(Grade::Medium)).len()
    &&& t.easy == s.filter(with_grade(Grade::Easy)).len()
}

/// The totals after one more review with the given grade.
pub open spec fn recorded(t: Totals, g: Grade) -> (int, int, int, int) {
    (
        t.total + 1,
        t.hard + if g == Grade::Hard { 1int } else { 0 },
        t.medium + if g == Grade::Medium { 1int } else { 0 },
        t.easy + if g == Grade::Easy { 1int } else { 0 },
    )
}

/// True when `t` holds exactly the four counts.
pub open spec fn holds(t: Totals, c: (int, int, int, int)) -> bool {
    t.total == c.0 && t.hard == c.1 && t.medium == c.2 && t.easy == c.3
}

impl Default for Totals {
    fn default() -> (t: Totals)
        ensures
            t == (Totals { total: 0, hard: 0, medium: 0, easy: 0 }),
    {
        Totals { total: 0, hard: 0, medium: 0, easy: 0 }
    }
}

impl Totals {
    /// Counts one more review with the given grade.
    pub fn record(&mut self, g: &Grade)
        requires
            old(self).total < u32::MAX,
            match *g {
                Grade::Hard => old(self).hard < u32::MAX,
                Grade::Medium => old(self).medium < u32::MAX,
                Grade::Easy => old(self).easy < u32::MAX,
            },
        ensures
            holds(*final(self), recorded(*old(self), *g)),
    {
        self.total += 1;
        match g {
            Grade::Hard => self.hard += 1,
            Grade::Medium => self.medium += 1,
            Grade::Easy => self.easy += 1,
        }
    }

    /// The number of reviews that were graded Medium or Easy, and the
    /// number of all reviews: the two parts of the accuracy.
    pub fn accuracy_parts(&self) -> (r: (u64, u64))
        ensures
            r.0 == self.medium + self.easy,
            r.1 == self.total,
    {
        let m: u64 = self.medium.into();
        let e: u64 = self.easy.into();
        (m + e, self.total.into())
    }
}

/// Counting one more review keeps the counts right.
pub proof fn lemma_counts_push(t: Totals, after: Totals, s: Seq<Review>, r: Review)
    requires
        counts(t, s),
        holds(after, recorded(t, r.grade)),
    ensures
        counts(after, s.push(r)),
{
    lemma_filter_push(s, r, with_grade(Grade::Hard));
    lemma_filter_push(s, r, with_grade(Grade::Medium));
    lemma_filter_push(s, r, with_grade(Grade::Easy));
}

/// The counts of no reviews are all zero, and no count exceeds the number
/// of reviews.
pub proof fn lemma_counts_bounded(t: Totals, s: Seq<Review>)
    requires
        counts(t, s),
    ensures
        t.hard <= s.len(),
        t.medium <= s.len(),
        t.easy <= s.len(),
{
    s.lemma_filter_len(with_grade(Grade::Hard));
    s.lemma_filter_len(with_grade(Grade::Medium));
    s.lemma_filter_len(with_grade(Grade::Easy));
}

/// `m` groups the reviews of `s` by a key: it has an entry for each key
/// that selects some review, and the entry counts the reviews selected.
pub open spec fn groups_by_day(m: Map<Day, Totals>, s: Seq<Review>) -> bool {
    forall|d: Day|
        (#[trigger] m.contains_key(d) <==> s.filter(on_day(day_int(d))).len() > 0) && (m.contains_key(d)
            ==> counts(m[d], s.filter(on_day(day_int(d)))))
}

/// `m` has an entry for each deck with a review of one of its cards, and
/// the entry counts those reviews.
pub open spec fn groups_by_deck(
    m: Map<DeckId, Totals>,
    s: Seq<Review>,
    card_to_deck: Map<CardId, DeckId>,
) -> bool {
    forall|d: DeckId|
        (#[trigger] m.contains_key(d) <==> s.filter(in_deck(card_to_deck, d)).len() > 0) && (
        m.contains_key(d) ==> counts(m[d], s.filter(in_deck(card_to_deck, d))))
}

/// True when some review of `s` was made on the day `d`.
pub open spec fn has_review_on(s: Seq<Review>, d: int) -> bool {
    s.filter(on_day(d)).len() > 0
}

/// Counts the reviews overall and for each UTC day on which there was one.
#[verifier::loop_isolation(false)]
pub fn summarize(reviews: &[Review]) -> (out: StatsSummary)
    requires
        reviews@.len() <= MAX_COUNTED,
    ensures
        counts(out.totals, reviews@),
        groups_by_day(out.per_day@, reviews@),
        out.per_day@.dom().finite(),
        out.per_day@.len() <= reviews@.len(),
{
    let mut totals = Totals::default();
    let mut per_day: BTreeMap<Day, Totals> = BTreeMap::new();
    let mut i: usize = 0;
    proof {
        reveal(Seq::filter);
        assert(reviews@.subrange(0, 0) =~= Seq::<Review>::empty());
        assert forall|d: Day| reviews@.subrange(0, 0).filter(on_day(day_int(d))).len() == 0 by {}
    }
    while i < reviews.len()
        invariant
            i <= reviews.len(),
            counts(totals, reviews@.subrange(0, i as int)),
            groups_by_day(per_day@, reviews@.subrange(0, i as int)),
            per_day@.dom().finite(),
            per_day@.len() <= i,
        decreases reviews.len() - i,
    {
        let r = &reviews[i];
        let ghost prefix = reviews@.subrange(0, i as int);
        let ghost grown = reviews@.subrange(0, i + 1);
        let ghost before = per_day@;
        let ghost old_totals = totals;
        proof {
            assert(grown =~= prefix.push(*r));
            lemma_counts_bounded(totals, prefix);
        }
        totals.record(&r.grade);
        proof {
            lemma_counts_push(old_totals, totals, prefix, *r);
        }
        let d = r.reviewed_at.day();
        let mut t = match per_day.get(&d) {
            Some(t) => *t,
            None => Totals::default(),
        };
        let ghost day_before = t;
        proof {
            let sel = prefix.filter(on_day(day_int(d)));
            prefix.lemma_filter_len(on_day(day_int(d)));
            if before.contains_key(d) {
                lemma_counts_bounded(t, sel);
            } else {
                assert(sel.len() == 0);
                reveal(Seq::filter);
                assert(counts(t, sel));
            }
        }
        t.record(&r.grade);
        per_day.insert(d, t);
        proof {
            assert forall|e: Day|
                (#[trigger] per_day@.contains_key(e) <==> grown.filter(on_day(day_int(e))).len() > 0) && (
                per_day@.contains_key(e) ==> counts(per_day@[e], grown.filter(on_day(day_int(e))))) by {
                lemma_filter_push(prefix, *r, on_day(day_int(e)));
                if e == d {
                    lemma_counts_push(day_before, t, prefix.filter(on_day(day_int(d))), *r);
                } else {
                    assert(before.contains_key(e) <==> prefix.filter(on_day(day_int(e))).len() > 0);
                }
            }
        }
        i += 1;
    }
    proof {
        assert(reviews@.subrange(0, i as int) =~= reviews@);
    }
    StatsSummary { totals, per_day }
}

/// The number of days in a row, counted backwards from `today`, on each of
/// which there was a review: every one of the last `streak` days has a
/// review, and the day before them has none.
#[verifier::loop_isolation(false)]
pub fn daily_streak(reviews: &[Review], today: Day) -> (streak: u32)
    requires
        reviews@.len() <= MAX_COUNTED,
        today >= EARLIEST_TODAY,
    ensures
        forall|i: int| 0 <= i < streak ==> has_review_on(reviews@, #[trigger] (today - i)),
        !has_review_on(reviews@, today - streak),
{
    let summary = summarize(reviews);
    let mut per_day = summary.per_day;
    let ghost all = per_day@;
    let mut streak: u32 = 0;
    let mut day: Day = today;
    loop
        invariant
            day == today - streak,
            per_day@.dom().finite(),
            streak + per_day@.len() == all.len(),
            forall|d: Day| #[trigger]
                per_day@.contains_key(d) <==> all.contains_key(d) && !(today - streak < d
                    <= today),
            forall|i: int| 0 <= i < streak ==> has_review_on(reviews@, #[trigger] (today - i)),
        decreases per_day@.len(),
    {
        let ghost before = per_day@;
        match per_day.remove(&day) {
            Some(_) => {
                proof {
                    assert(before.contains_key(day));
                    assert(per_day@ == before.remove(day));
                    assert(all.contains_key(day));
                    assert(has_review_on(reviews@, day_int(day)));
                    assert forall|i: int| 0 <= i < streak + 1 implies has_review_on(
                        reviews@,
                        #[trigger] (today - i),
                    ) by {
                        if i == streak {
                            assert(today - i == day_int(day));
                        }
                    }
                }
                streak += 1;
                day -= 1;
            },
            None => {
                proof {
                    assert(!before.contains_key(day));
                    assert(!all.contains_key(day));
                    assert(today - streak == day_int(day));
                }
                return streak;
            },
        }
    }
}

/// Counts the reviews for each deck, where `card_to_deck` says to which
/// deck a card belongs. Reviews of cards that it does not know are left
/// out.
#[verifier::loop_isolation(false)]
pub fn per_deck_totals(reviews: &[Review], card_to_deck: &HashMap<CardId, DeckId>) -> (out: HashMap<
    DeckId,
    Totals,
>)
    requires
        reviews@.len() <= MAX_COUNTED,
    ensures
        groups_by_deck(out@, reviews@, card_to_deck@),
{
    let mut map: HashMap<DeckId, Totals> = HashMap::new();
    let mut i: usize = 0;
    proof {
        reveal(Seq::filter);
        assert(reviews@.subrange(0, 0) =~= Seq::<Review>::empty());
        assert forall|d: DeckId|
            reviews@.subrange(0, 0).filter(in_deck(card_to_deck@, d)).len() == 0 by {}
    }
    while i < reviews.len()
        invariant
            i <= reviews.len(),
            groups_by_deck(map@, reviews@.subrange(0, i as int), card_to_deck@),
        decreases reviews.len() - i,
    {
        let r = &reviews[i];
        let ghost prefix = reviews@.subrange(0, i as int);
        let ghost grown = reviews@.subrange(0, i + 1);
        let ghost before = map@;
        proof {
            assert(grown =~= prefix.push(*r));
        }
        match card_to_deck.get(&r.card_id) {
            Some(deck_id) => {
                let d = *deck_id;
                let mut t = match map.get(&d) {
                    Some(t) => *t,
                    None => Totals::default(),
                };
                let ghost deck_before = t;
                proof {
                    let sel = prefix.filter(in_deck(card_to_deck@, d));
                    prefix.lemma_filter_len(in_deck(card_to_deck@, d));
                    if before.contains_key(d) {
                        lemma_counts_bounded(t, sel);
                    } else {
                        assert(sel.len() == 0);
                        reveal(Seq::filter);
                        assert(counts(t, sel));
                    }
                }
                t.record(&r.grade);
                map.insert(d, t);
                proof {
                    assert forall|e: DeckId|
                        (#[trigger] map@.contains_key(e) <==> grown.filter(
                            in_deck(card_to_deck@, e),
                        ).len() > 0) && (map@.contains_key(e) ==> counts(
                            map@[e],
                            grown.filter(in_deck(card_to_deck@, e)),
                        )) by {
                        lemma_filter_push(prefix, *r, in_deck(card_to_deck@, e));
                        if e == d {
                            lemma_counts_push(
                                deck_before,
                                t,
                                prefix.filter(in_deck(card_to_deck@, d)),
                                *r,
                            );
                        } else {
                            assert(before.contains_key(e) <==> prefix.filter(
                                in_deck(card_to_deck@, e),
                            ).len() > 0);
                        }
                    }
                }
            },
            None => {
                proof {
                    assert forall|e: DeckId|
                        (#[trigger] map@.contains_key(e) <==> grown.filter(
                            in_deck(card_to_deck@, e),
                        ).len() > 0) && (map@.contains_key(e) ==> counts(
                            map@[e],
                            grown.filter(in_deck(card_to_deck@, e)),
                        )) by {
                        lemma_filter_push(prefix, *r, in_deck(card_to_deck@, e));
                        assert(before.contains_key(e) <==> prefix.filter(
                            in_deck(card_to_deck@, e),
                        ).len() > 0);
                    }
                }
            },
        }
        i += 1;
    }
    proof {
        assert(reviews@.subrange(0, i as int) =~= reviews@);
    }
    map
}

} // verus!
