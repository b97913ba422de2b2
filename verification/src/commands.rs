use vstd::prelude::*;
use crate::errors::CoreError;
use crate::grade::{grade_from_word, grade_named, Grade};
use crate::filters::lemma_filter_push;
use crate::models::{card_views, copy_strings, opt_text, texts, Card, CardView};
use crate::queue::{is_queue_of, queue_pool, review_queue};
use crate::text::{
    eq_ignore_ascii_case, lowercased, same_ignoring_ascii_case, same_text, to_lower, trim, trimmed,
};
use crate::time::Timestamp;

verus! {

/// The changes that an edit asks for on one card. A field that is `None`,
/// empty or `false` asks for nothing.
pub struct CardEdit {
    pub card_id: String,
    pub front: Option<String>,
    pub back: Option<String>,
    pub hint: Option<String>,
    pub clear_hint: bool,
    pub add_tags: Vec<String>,
    pub rm_tags: Vec<String>,
    pub suspend: bool,
    pub unsuspend: bool,
}

/// The options of a review session on the command line.
pub struct ReviewCmd {
    pub deck: Option<String>,
    pub include_new: bool,
    pub include_lapsed: bool,
    pub max: usize,
}

/// The options of a query for the cards that are due. What is not given
/// counts as not asked for.
pub struct DueQuery {
    pub deck: Option<String>,
    pub include_new: Option<bool>,
    pub include_lapsed: Option<bool>,
    pub max: Option<usize>,
}

/// True when the list holds `tag`, the case of ASCII letters aside.
pub open spec fn listed(list: Seq<Seq<char>>, tag: Seq<char>) -> bool {
    exists|i: int| 0 <= i < list.len() && same_ignoring_ascii_case(#[trigger] list[i], tag)
}

/// The tags after adding each tag of `add` in turn, unless the list holds
/// it already, the case of ASCII letters aside.
pub open spec fn with_tags(tags: Seq<Seq<char>>, add: Seq<Seq<char>>) -> Seq<Seq<char>>
    decreases add.len(),
{
    if add.len() == 0 {
        tags
    } else {
        let so_far = with_tags(tags, add.drop_last());
        if listed(so_far, add.last()) {
            so_far
        } else {
            so_far.push(add.last())
        }
    }
}

/// Selects the tags that `rm` does not hold, the case of ASCII letters
/// aside.
pub open spec fn not_listed_in(rm: Seq<Seq<char>>) -> spec_fn(Seq<char>) -> bool {
    |t: Seq<char>| !listed(rm, t)
}

/// The card after an edit: the texts that are given replace the old ones, a
/// given hint wins over clearing it, tags are added and then removed, and
/// the card is suspended or taken back as asked.
pub open spec fn edited(
    card: CardView,
    front: Option<Seq<char>>,
    back: Option<Seq<char>>,
    hint: Option<Seq<char>>,
    clear_hint: bool,
    add: Seq<Seq<char>>,
    rm: Seq<Seq<char>>,
    suspend: bool,
    unsuspend: bool,
) -> CardView {
    CardView {
        front: if front is Some { front->0 } else { card.front },
        back: if back is Some { back->0 } else { card.back },
        hint: if hint is Some {
            hint
        } else if clear_hint {
            None
        } else {
            card.hint
        },
        tags: with_tags(card.tags, add).filter(not_listed_in(rm)),
        suspended: if suspend {
            true
        } else if unsuspend {
            false
        } else {
            card.suspended
        },
        ..card
    }
}

/// True when the list holds `tag`, the case of ASCII letters aside.
pub fn is_listed(list: &Vec<String>, tag: &str) -> (b: bool)
    ensures
        b == listed(texts(list@), tag@),
{
    let mut i: usize = 0;
    while i < list.len()
        invariant
            i <= list.len(),
            forall|j: int| 0 <= j < i ==> !same_ignoring_ascii_case(#[trigger] texts(list@)[j], tag@),
        decreases list.len() - i,
    {
        if eq_ignore_ascii_case(list[i].as_str(), tag) {
            assert(texts(list@)[i as int] == list@[i as int]@);
            return true;
        }
        assert(texts(list@)[i as int] == list@[i as int]@);
        i += 1;
    }
    false
}

/// Adds each tag in turn, unless the list holds it already, the case of
/// ASCII letters aside.
pub fn add_tags(tags: &mut Vec<String>, add: &Vec<String>)
    ensures
        texts(final(tags)@) == with_tags(texts(old(tags)@), texts(add@)),
{
    let mut i: usize = 0;
    proof {
        assert(texts(add@.subrange(0, 0)) =~= Seq::<Seq<char>>::empty());
    }
    while i < add.len()
        invariant
            i <= add.len(),
            texts(tags@) == with_tags(texts(old(tags)@), texts(add@.subrange(0, i as int))),
        decreases add.len() - i,
    {
        proof {
            let grown = texts(add@.subrange(0, i as int + 1));
            assert(grown.drop_last() =~= texts(add@.subrange(0, i as int)));
            assert(grown.last() == add@[i as int]@);
        }
        let ghost before = tags@;
        if !is_listed(tags, add[i].as_str()) {
            tags.push(add[i].clone());
            proof {
                assert(texts(tags@) =~= texts(before).push(add@[i as int]@));
            }
        }
        i += 1;
    }
    proof {
        assert(add@.subrange(0, i as int) =~= add@);
    }
}

/// The tags that `rm` does not hold, the case of ASCII letters aside, in
/// their order.
pub fn remove_tags(tags: &Vec<String>, rm: &Vec<String>) -> (out: Vec<String>)
    ensures
        texts(out@) == texts(tags@).filter(not_listed_in(texts(rm@))),
{
    let mut out: Vec<String> = Vec::new();
    let mut i: usize = 0;
    proof {
        reveal(Seq::filter);
        assert(texts(tags@.subrange(0, 0)) =~= Seq::<Seq<char>>::empty());
        assert(texts(out@) =~= Seq::<Seq<char>>::empty());
    }
    while i < tags.len()
        invariant
            i <= tags.len(),
            texts(out@) == texts(tags@.subrange(0, i as int)).filter(not_listed_in(texts(rm@))),
        decreases tags.len() - i,
    {
        proof {
            let prefix = texts(tags@.subrange(0, i as int));
            assert(texts(tags@.subrange(0, i as int + 1)) =~= prefix.push(tags@[i as int]@));
            lemma_filter_push(prefix, tags@[i as int]@, not_listed_in(texts(rm@)));
        }
        let ghost before = out@;
        if !is_listed(rm, tags[i].as_str()) {
            out.push(tags[i].clone());
            proof {
                assert(texts(out@) =~= texts(before).push(tags@[i as int]@));
            }
        }
        i += 1;
    }
    proof {
        assert(tags@.subrange(0, i as int) =~= tags@);
    }
    out
}

impl CardEdit {
    /// Applies the edit to a card. Fails with
    /// `Invalid("cannot use --suspend and --unsuspend together")` exactly
    /// when both are asked for.
    pub fn apply(&self, card: &Card) -> (r: Result<Card, CoreError>)
        ensures
            match r {
                Ok(c) => !(self.suspend && self.unsuspend) && c@ == edited(
                    card@,
                    opt_text(self.front),
                    opt_text(self.back),
                    opt_text(self.hint),
                    self.clear_hint,
                    texts(self.add_tags@),
                    texts(self.rm_tags@),
                    self.suspend,
                    self.unsuspend,
                ),
                Err(e) => self.suspend && self.unsuspend && e == CoreError::Invalid(
                    "cannot use --suspend and --unsuspend together",
                ),
            },
    {
        if self.suspend && self.unsuspend {
            return Err(CoreError::Invalid("cannot use --suspend and --unsuspend together"));
        }
        let mut out = card.clone();
        match &self.front {
            Some(f) => {
                out.front = f.clone();
            },
            None => {},
        }
        match &self.back {
            Some(b) => {
                out.back = b.clone();
            },
            None => {},
        }
        if self.clear_hint {
            out.hint = None;
        }
        match &self.hint {
            Some(h) => {
                out.hint = Some(h.clone());
            },
            None => {},
        }
        let mut tags = copy_strings(card.tags.as_slice());
        add_tags(&mut tags, &self.add_tags);
        out.tags = remove_tags(&tags, &self.rm_tags);
        if self.suspend {
            out.suspended = true;
        } else if self.unsuspend {
            out.suspended = false;
        }
        Ok(out)
    }
}

/// The first `max` cards of a queue, or all of them where there are fewer.
pub fn limit(queue: Vec<Card>, max: usize) -> (out: Vec<Card>)
    ensures
        out@ == if max <= queue@.len() {
            queue@.subrange(0, max as int)
        } else {
            queue@
        },
{
    let mut queue = queue;
    queue.truncate(max);
    queue
}

impl ReviewCmd {
    /// The cards of a review session at `now`, in the order of review: the
    /// first `max` cards of the review queue that the options ask for.
    pub fn queue(&self, cards: &[Card], now: Timestamp) -> (out: Vec<Card>)
        ensures
            exists|full: Seq<Card>|
                is_queue_of(
                    card_views(full),
                    queue_pool(card_views(cards@), now, self.include_new, self.include_lapsed),
                ) && out@ == if self.max <= full.len() {
                    full.subrange(0, self.max as int)
                } else {
                    full
                },
    {
        let full = review_queue(cards, now, self.include_new, self.include_lapsed);
        let ghost witness = full@;
        let out = limit(full, self.max);
        proof {
            assert(is_queue_of(
                card_views(witness),
                queue_pool(card_views(cards@), now, self.include_new, self.include_lapsed),
            ) && out@ == if self.max <= witness.len() {
                witness.subrange(0, self.max as int)
            } else {
                witness
            });
        }
        out
    }
}

impl DueQuery {
    /// True when the query asks for new cards.
    pub open spec fn wants_new(&self) -> bool {
        self.include_new == Some(true)
    }

    /// True when the query asks for lapsed cards.
    pub open spec fn wants_lapsed(&self) -> bool {
        self.include_lapsed == Some(true)
    }

    /// The cards that the query asks for at `now`, in the order of review:
    /// the review queue, cut to the first `max` cards where a maximum is
    /// given.
    pub fn queue(&self, cards: &[Card], now: Timestamp) -> (out: Vec<Card>)
        ensures
            exists|full: Seq<Card>|
                is_queue_of(
                    card_views(full),
                    queue_pool(card_views(cards@), now, self.wants_new(), self.wants_lapsed()),
                ) && out@ == if self.max is Some && self.max->0 <= full.len() {
                    full.subrange(0, self.max->0 as int)
                } else {
                    full
                },
    {
        let include_new = match self.include_new {
            Some(b) => b,
            None => false,
        };
        let include_lapsed = match self.include_lapsed {
            Some(b) => b,
            None => false,
        };
        let full = review_queue(cards, now, include_new, include_lapsed);
        let ghost witness = full@;
        let out = match self.max {
            Some(m) => limit(full, m),
            None => full,
        };
        proof {
            assert(is_queue_of(
                card_views(witness),
                queue_pool(card_views(cards@), now, self.wants_new(), self.wants_lapsed()),
            ) && out@ == if self.max is Some && self.max->0 <= witness.len() {
                witness.subrange(0, self.max->0 as int)
            } else {
                witness
            });
        }
        out
    }
}

/// What the learner answers when asked to grade a card.
#[derive(Clone, Copy, Debug, PartialEq, Eq, Structural)]
pub enum ReviewInput {
    /// Grade the card.
    Grade(Grade),
    /// Leave the card as it is and go on.
    Skip,
    /// End the session.
    Quit,
    /// Nothing that is understood: ask again.
    Unknown,
}

/// What a trimmed lowercase answer means: a grade by its number, letter or
/// name, `s` or `skip`, `q` or `quit`.
pub open spec fn answer_named(word: Seq<char>) -> ReviewInput {
    if grade_named(word) is Some {
        ReviewInput::Grade(grade_named(word)->0)
    } else if word == "s"@ || word == "skip"@ {
        ReviewInput::Skip
    } else if word == "q"@ || word == "quit"@ {
        ReviewInput::Quit
    } else {
        ReviewInput::Unknown
    }
}

/// What a trimmed lowercase answer means.
pub fn answer_from_word(word: &str) -> (r: ReviewInput)
    ensures
        r == answer_named(word@),
{
    match grade_from_word(word) {
        Some(g) => ReviewInput::Grade(g),
        None => {
            if same_text(word, "s") || same_text(word, "skip") {
                ReviewInput::Skip
            } else if same_text(word, "q") || same_text(word, "quit") {
                ReviewInput::Quit
            } else {
                ReviewInput::Unknown
            }
        },
    }
}

/// Reads the learner's answer from a line, white space around it and the
/// case of its letters aside.
pub fn parse_review_input(line: &str) -> (r: ReviewInput)
    ensures
        r == answer_named(lowercased(trimmed(line@))),
{
    let word = to_lower(trim(line));
    answer_from_word(word.as_str())
}

} // verus!
