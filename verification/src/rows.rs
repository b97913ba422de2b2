use vstd::prelude::*;
use crate::errors::CoreError;
use crate::grade::{bool_to_i, grade_from_i, grade_of_code, grade_to_i, score_of, Grade};
use crate::ids::{format_uuid, parsed_uuid, uuid_from_str, uuid_text};
use crate::models::{opt_text, texts, Card, CardView, Deck, DeckView, Review};
use crate::time::{dt_from_str, dt_to_str, instant_of, parsed_rfc3339, text_of, Timestamp};

verus! {

/// The error of `serde_json`, `serde_json::Error`, carried through as it
/// comes; nothing is known of what it holds.
#[verifier::external_type_specification]
#[verifier::external_body]
pub struct ExJsonError(serde_json::Error);

/// The JSON text that `serde_json` writes for a list of strings.
pub uninterp spec fn json_of_tags(tags: Seq<Seq<char>>) -> Seq<char>;

/// The list of strings that a JSON text spells, or `None` where it spells
/// none.
pub uninterp spec fn tags_of_json(text: Seq<char>) -> Option<Seq<Seq<char>>>;

/// Writes a list of strings as JSON with `serde_json::to_string`. Writing
/// fails only where a value refuses to be written or a map has a key that
/// is no string; a list of strings has neither, so the call succeeds. The
/// contract names the text.
#[verifier::external_body]
pub(crate) fn encode_tags(tags: &[String]) -> (r: Result<String, serde_json::Error>)
    ensures
        r is Ok,
        r->Ok_0@ == json_of_tags(texts(tags@)),
{
    serde_json::to_string(tags)
}

/// Reads a list of strings from JSON with `serde_json::from_str`. The
/// contract names the result: the call succeeds exactly on the texts that
/// spell a list of strings, and then yields that list.
#[verifier::external_body]
pub(crate) fn decode_tags(text: &str) -> (r: Result<Vec<String>, serde_json::Error>)
    ensures
        r is Ok == tags_of_json(text@) is Some,
        r is Ok ==> Some(texts(r->Ok_0@)) == tags_of_json(text@),
{
    serde_json::from_str::<Vec<String>>(text)
}

/// The columns of a deck as a database of texts and numbers holds them.
pub struct DeckColumns {
    pub id: String,
    pub name: String,
    pub created_at: String,
}

/// The columns of a card as a database of texts and numbers holds them:
/// identifiers and instants as text, the tags as one JSON text, the grade
/// by its number, the suspension as 0 or 1. The easiness factor is in
/// hundredths.
pub struct CardColumns {
    pub id: String,
    pub deck_id: String,
    pub front: String,
    pub back: String,
    pub hint: Option<String>,
    pub tags: String,
    pub reps: i64,
    pub interval_days: i64,
    pub ef: u32,
    pub due_at: String,
    pub last_grade: Option<i64>,
    pub last_reviewed_at: Option<String>,
    pub suspended: i64,
    pub created_at: String,
}

/// The columns of a review as a database of texts and numbers holds them.
pub struct ReviewColumns {
    pub id: String,
    pub card_id: String,
    pub grade: i64,
    pub reviewed_at: String,
    pub interval_applied: i64,
    pub ef_after: u32,
}

/// The instant that a text in the format of RFC 3339 denotes.
pub open spec fn instant_in(text: Seq<char>) -> Option<Timestamp> {
    match parsed_rfc3339(text) {
        Some(p) => Some(Timestamp { nanos: instant_of(p.0 as int, p.1 as int) as i128 }),
        None => None,
    }
}

/// The instant that an optional text denotes: none for no text.
pub open spec fn opt_instant_in(text: Option<Seq<char>>) -> Option<Option<Timestamp>> {
    match text {
        Some(t) => match instant_in(t) {
            Some(i) => Some(Some(i)),
            None => None,
        },
        None => Some(None),
    }
}

/// The grade that an optional number stands for: none for no number and
/// for a number that is no grade.
pub open spec fn opt_grade_of(code: Option<i64>) -> Option<Grade> {
    match code {
        Some(c) => grade_of_code(c as int),
        None => None,
    }
}

/// The tags that a JSON text spells, and none where it spells no list.
pub open spec fn tags_in(text: Seq<char>) -> Seq<Seq<char>> {
    match tags_of_json(text) {
        Some(t) => t,
        None => Seq::empty(),
    }
}

/// Writes the tags of a card as one JSON text.
pub fn tags_to_json(tags: &[String]) -> (text: String)
    ensures
        text@ == json_of_tags(texts(tags@)),
{
    match encode_tags(tags) {
        Ok(text) => text,
        Err(_) => String::new(),
    }
}

/// Reads the tags of a card from a JSON text; a text that spells no list of
/// strings gives no tags.
pub fn tags_from_json(text: &str) -> (tags: Vec<String>)
    ensures
        texts(tags@) == tags_in(text@),
{
    match decode_tags(text) {
        Ok(tags) => tags,
        Err(_) => {
            let none: Vec<String> = Vec::new();
            proof {
                assert(texts(none@) =~= Seq::<Seq<char>>::empty());
            }
            none
        },
    }
}

/// The low 32 bits of a number, as columns of 64 bits are read into
/// counters of 32.
pub fn low_bits(n: i64) -> (r: u32)
    ensures
        r == n as u32,
{
    #[verifier::truncate]
    (n as u32)
}

/// The low 32 bits of a number as a signed number.
pub fn low_bits_signed(n: i64) -> (r: i32)
    ensures
        r == n as i32,
{
    #[verifier::truncate]
    (n as i32)
}

/// Reads a deck from its columns. Fails with `Invalid("uuid")` where the
/// identifier is no identifier, else with `Invalid("datetime")` where the
/// instant is no instant.
pub fn deck_from_columns(c: &DeckColumns) -> (r: Result<Deck, CoreError>)
    ensures
        match r {
            Ok(d) => parsed_uuid(c.id@) is Some && instant_in(c.created_at@) is Some && d@ == (
            DeckView {
                id: parsed_uuid(c.id@)->0,
                name: c.name@,
                created_at: instant_in(c.created_at@)->0,
            }),
            Err(e) => if parsed_uuid(c.id@) is None {
                e == CoreError::Invalid("uuid")
            } else {
                instant_in(c.created_at@) is None && e == CoreError::Invalid("datetime")
            },
        },
{
    let id = match uuid_from_str(c.id.as_str()) {
        Ok(id) => id,
        Err(e) => {
            return Err(e);
        },
    };
    let created_at = match dt_from_str(c.created_at.as_str()) {
        Ok(t) => t,
        Err(e) => {
            return Err(e);
        },
    };
    Ok(Deck { id, name: c.name.clone(), created_at })
}

/// True when every identifier and every instant of the columns reads.
pub open spec fn card_columns_read(c: CardColumns) -> bool {
    &&& parsed_uuid(c.id@) is Some
    &&& parsed_uuid(c.deck_id@) is Some
    &&& instant_in(c.due_at@) is Some
    &&& opt_instant_in(opt_text(c.last_reviewed_at)) is Some
    &&& instant_in(c.created_at@) is Some
}

/// The card that the columns spell, where they all read.
pub open spec fn card_in(c: CardColumns) -> CardView {
    CardView {
        id: parsed_uuid(c.id@)->0,
        deck_id: parsed_uuid(c.deck_id@)->0,
        front: c.front@,
        back: c.back@,
        hint: opt_text(c.hint),
        tags: tags_in(c.tags@),
        reps: c.reps as u32,
        interval_days: c.interval_days as u32,
        ef: c.ef,
        due_at: instant_in(c.due_at@)->0,
        last_grade: opt_grade_of(c.last_grade),
        last_reviewed_at: opt_instant_in(opt_text(c.last_reviewed_at))->0,
        suspended: c.suspended != 0,
        created_at: instant_in(c.created_at@)->0,
    }
}

/// Reads a card from its columns. Fails with `Invalid("uuid")` where one of
/// the identifiers is no identifier, else with `Invalid("datetime")` where
/// one of the instants is no instant. Tags that do not read are no tags, a
/// grade that is none is no grade, and the counters keep their low 32 bits.
pub fn card_from_columns(c: &CardColumns) -> (r: Result<Card, CoreError>)
    ensures
        match r {
            Ok(card) => card_columns_read(*c) && card@ == card_in(*c),
            Err(e) => !card_columns_read(*c) && if parsed_uuid(c.id@) is None || parsed_uuid(
                c.deck_id@,
            ) is None {
                e == CoreError::Invalid("uuid")
            } else {
                e == CoreError::Invalid("datetime")
            },
        },
{
    let id = match uuid_from_str(c.id.as_str()) {
        Ok(id) => id,
        Err(e) => {
            return Err(e);
        },
    };
    let deck_id = match uuid_from_str(c.deck_id.as_str()) {
        Ok(id) => id,
        Err(e) => {
            return Err(e);
        },
    };
    let tags = tags_from_json(c.tags.as_str());
    let due_at = match dt_from_str(c.due_at.as_str()) {
        Ok(t) => t,
        Err(e) => {
            return Err(e);
        },
    };
    let last_grade = match c.last_grade {
        Some(code) => grade_from_i(code),
        None => None,
    };
    let last_reviewed_at = match &c.last_reviewed_at {
        Some(text) => match dt_from_str(text.as_str()) {
            Ok(t) => Some(t),
            Err(e) => {
                return Err(e);
            },
        },
        None => None,
    };
    let created_at = match dt_from_str(c.created_at.as_str()) {
        Ok(t) => t,
        Err(e) => {
            return Err(e);
        },
    };
    Ok(
        Card {
            id,
            deck_id,
            front: c.front.clone(),
            back: c.back.clone(),
            hint: crate::models::copy_hint(&c.hint),
            tags,
            reps: low_bits(c.reps),
            interval_days: low_bits(c.interval_days),
            ef: c.ef,
            due_at,
            last_grade,
            last_reviewed_at,
            suspended: c.suspended != 0,
            created_at,
        },
    )
}

/// Reads a review from its columns. Fails with `Invalid("uuid")` where one
/// of the identifiers is no identifier, else with `Invalid("grade")` where
/// the number is no grade, else with `Invalid("datetime")` where the instant
/// is no instant.
pub fn review_from_columns(c: &ReviewColumns) -> (r: Result<Review, CoreError>)
    ensures
        match r {
            Ok(review) => {
                &&& parsed_uuid(c.id@) is Some
                &&& parsed_uuid(c.card_id@) is Some
                &&& grade_of_code(c.grade as int) is Some
                &&& instant_in(c.reviewed_at@) is Some
                &&& review == (Review {
                    id: parsed_uuid(c.id@)->0,
                    card_id: parsed_uuid(c.card_id@)->0,
                    grade: grade_of_code(c.grade as int)->0,
                    reviewed_at: instant_in(c.reviewed_at@)->0,
                    interval_applied: c.interval_applied as i32,
                    ef_after: c.ef_after,
                })
            },
            Err(e) => if parsed_uuid(c.id@) is None || parsed_uuid(c.card_id@) is None {
                e == CoreError::Invalid("uuid")
            } else if grade_of_code(c.grade as int) is None {
                e == CoreError::Invalid("grade")
            } else {
                instant_in(c.reviewed_at@) is None && e == CoreError::Invalid("datetime")
            },
        },
{
    let id = match uuid_from_str(c.id.as_str()) {
        Ok(id) => id,
        Err(e) => {
            return Err(e);
        },
    };
    let card_id = match uuid_from_str(c.card_id.as_str()) {
        Ok(id) => id,
        Err(e) => {
            return Err(e);
        },
    };
    let grade = match grade_from_i(c.grade) {
        Some(g) => g,
        None => {
            return Err(CoreError::Invalid("grade"));
        },
    };
    let reviewed_at = match dt_from_str(c.reviewed_at.as_str()) {
        Ok(t) => t,
        Err(e) => {
            return Err(e);
        },
    };
    Ok(
        Review {
            id,
            card_id,
            grade,
            reviewed_at,
            interval_applied: low_bits_signed(c.interval_applied),
            ef_after: c.ef_after,
        },
    )
}

/// The text of an optional instant: none for no instant.
pub open spec fn opt_text_of(t: Option<Timestamp>) -> Option<Option<Seq<char>>> {
    match t {
        Some(i) => match text_of(i) {
            Some(text) => Some(Some(text)),
            None => None,
        },
        None => Some(None),
    }
}

/// True when every instant of the card can be written as text.
pub open spec fn card_writes(card: CardView) -> bool {
    &&& text_of(card.due_at) is Some
    &&& opt_text_of(card.last_reviewed_at) is Some
    &&& text_of(card.created_at) is Some
}

/// Writes a card as columns. Fails with `Invalid("datetime")` exactly when
/// one of its instants has no text.
pub fn columns_from_card(card: &Card) -> (r: Result<CardColumns, CoreError>)
    ensures
        match r {
            Ok(c) => {
                &&& card_writes(card@)
                &&& c.id@ == uuid_text(card.id)
                &&& c.deck_id@ == uuid_text(card.deck_id)
                &&& c.front@ == card@.front
                &&& c.back@ == card@.back
                &&& opt_text(c.hint) == card@.hint
                &&& c.tags@ == json_of_tags(card@.tags)
                &&& c.reps == card.reps
                &&& c.interval_days == card.interval_days
                &&& c.ef == card.ef
                &&& Some(c.due_at@) == text_of(card.due_at)
                &&& c.last_grade == match card.last_grade {
                    Some(g) => Some(score_of(g) as i64),
                    None => None,
                }
                &&& Some(opt_text(c.last_reviewed_at)) == opt_text_of(card.last_reviewed_at)
                &&& c.suspended == if card.suspended { 1i64 } else { 0i64 }
                &&& Some(c.created_at@) == text_of(card.created_at)
            },
            Err(e) => !card_writes(card@) && e == CoreError::Invalid("datetime"),
        },
{
    let due_at = match dt_to_str(card.due_at) {
        Some(t) => t,
        None => {
            return Err(CoreError::Invalid("datetime"));
        },
    };
    let last_reviewed_at = match card.last_reviewed_at {
        Some(i) => match dt_to_str(i) {
            Some(t) => Some(t),
            None => {
                return Err(CoreError::Invalid("datetime"));
            },
        },
        None => None,
    };
    let created_at = match dt_to_str(card.created_at) {
        Some(t) => t,
        None => {
            return Err(CoreError::Invalid("datetime"));
        },
    };
    let tags = tags_to_json(card.tags.as_slice());
    let last_grade = match &card.last_grade {
        Some(g) => Some(grade_to_i(g)),
        None => None,
    };
    Ok(
        CardColumns {
            id: format_uuid(card.id),
            deck_id: format_uuid(card.deck_id),
            front: card.front.clone(),
            back: card.back.clone(),
            hint: crate::models::copy_hint(&card.hint),
            tags,
            reps: card.reps as i64,
            interval_days: card.interval_days as i64,
            ef: card.ef,
            due_at,
            last_grade,
            last_reviewed_at,
            suspended: bool_to_i(card.suspended),
            created_at,
        },
    )
}

} // verus!
