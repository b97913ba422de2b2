use vstd::prelude::*;
use vstd::string::StringExecFns;
use crate::filters::lemma_filter_push;
use crate::models::{opt_text, texts, Card, CardView};
use crate::text::{same_text, trim, trimmed};

verus! {

/// One card as a line of a table: the name of its deck, its texts, its tags
/// and whether it is suspended.
pub struct CardRow {
    pub deck: String,
    pub front: String,
    pub back: String,
    pub hint: Option<String>,
    pub tags: Vec<String>,
    pub suspended: bool,
}

/// What a row holds, with every text as a sequence of characters.
pub struct CardRowView {
    pub deck: Seq<char>,
    pub front: Seq<char>,
    pub back: Seq<char>,
    pub hint: Option<Seq<char>>,
    pub tags: Seq<Seq<char>>,
    pub suspended: bool,
}

impl View for CardRow {
    type V = CardRowView;

    open spec fn view(&self) -> CardRowView {
        CardRowView {
            deck: self.deck@,
            front: self.front@,
            back: self.back@,
            hint: opt_text(self.hint),
            tags: texts(self.tags@),
            suspended: self.suspended,
        }
    }
}

/// The pieces into which the separator cuts a text, in order. A text
/// without the separator is one piece; two separators in a row, and a
/// separator at either end, give an empty piece.
pub open spec fn pieces(text: Seq<char>, sep: char) -> Seq<Seq<char>>
    decreases text.len(),
{
    if text.len() == 0 {
        seq![Seq::<char>::empty()]
    } else {
        let before = pieces(text.drop_last(), sep);
        if text.last() == sep {
            before.push(Seq::empty())
        } else {
            before.drop_last().push(before.last().push(text.last()))
        }
    }
}

/// The texts laid end to end with the separator between each two.
pub open spec fn joined_with(items: Seq<Seq<char>>, sep: Seq<char>) -> Seq<char>
    decreases items.len(),
{
    if items.len() == 0 {
        Seq::empty()
    } else if items.len() == 1 {
        items[0]
    } else {
        joined_with(items.drop_last(), sep) + sep + items.last()
    }
}

/// Selects the texts that are not empty.
pub open spec fn non_empty() -> spec_fn(Seq<char>) -> bool {
    |t: Seq<char>| t.len() > 0
}

/// The field at a position of a line, or the empty text where the line is
/// too short.
pub open spec fn field_at(fields: Seq<Seq<char>>, i: int) -> Seq<char> {
    if 0 <= i < fields.len() {
        fields[i]
    } else {
        Seq::empty()
    }
}

/// The row that a line of six fields spells: deck, front, back, hint, tags
/// and the mark of suspension. White space around the deck and around the
/// mark does not count; an empty hint is no hint; the tags stand in one
/// field with semicolons between them, empty ones dropped; the card is
/// suspended where the mark is `1`. A missing field counts as empty.
pub open spec fn row_of(fields: Seq<Seq<char>>) -> CardRowView {
    CardRowView {
        deck: trimmed(field_at(fields, 0)),
        front: field_at(fields, 1),
        back: field_at(fields, 2),
        hint: if field_at(fields, 3).len() > 0 {
            Some(field_at(fields, 3))
        } else {
            None
        },
        tags: pieces(field_at(fields, 4), ';').filter(non_empty()),
        suspended: if fields.len() > 5 {
            trimmed(fields[5]) == "1"@
        } else {
            false
        },
    }
}

/// The line that stands for a card of the deck with the given name.
pub open spec fn line_of(deck_name: Seq<char>, card: CardView) -> Seq<Seq<char>> {
    seq![
        deck_name,
        card.front,
        card.back,
        if card.hint is Some { card.hint->0 } else { Seq::empty() },
        joined_with(card.tags, ";"@),
        if card.suspended { "1"@ } else { "0"@ },
    ]
}

/// Cuts a text at every semicolon with `str::split`. The pieces are those
/// of `pieces`: in order, none holding a semicolon, empty ones kept.
#[verifier::external_body]
pub(crate) fn split_semicolons(text: &str) -> (r: Vec<String>)
    ensures
        texts(r@) == pieces(text@, ';'),
{
    text.split(';').map(|s| s.to_owned()).collect()
}

/// The texts laid end to end with a semicolon between each two.
pub fn join_semicolons(items: &[String]) -> (r: String)
    ensures
        r@ == joined_with(texts(items@), ";"@),
{
    let mut out = String::new();
    let mut i: usize = 0;
    proof {
        assert(texts(items@.subrange(0, 0)) =~= Seq::<Seq<char>>::empty());
    }
    while i < items.len()
        invariant
            i <= items.len(),
            out@ == joined_with(texts(items@.subrange(0, i as int)), ";"@),
        decreases items.len() - i,
    {
        proof {
            let grown = texts(items@.subrange(0, i as int + 1));
            assert(grown.drop_last() =~= texts(items@.subrange(0, i as int)));
            assert(grown.last() == items@[i as int]@);
            if i == 0 {
                assert(grown[0] == items@[0]@);
                assert(Seq::<char>::empty() + items@[0]@ =~= items@[0]@);
            }
        }
        if i > 0 {
            out.append(";");
        }
        out.append(items[i].as_str());
        i += 1;
    }
    proof {
        assert(items@.subrange(0, i as int) =~= items@);
    }
    out
}

/// The field at a position of a line, or the empty text where the line is
/// too short.
pub fn field(fields: &[String], i: usize) -> (r: &str)
    ensures
        r@ == field_at(texts(fields@), i as int),
{
    if i < fields.len() {
        fields[i].as_str()
    } else {
        proof {
            reveal_strlit("");
            assert(""@ =~= Seq::<char>::empty());
        }
        ""
    }
}

/// Reads a row from the fields of a line.
pub fn row_from_fields(fields: &[String]) -> (row: CardRow)
    ensures
        row@ == row_of(texts(fields@)),
{
    let deck = trim(field(fields, 0)).to_owned();
    let front = field(fields, 1).to_owned();
    let back = field(fields, 2).to_owned();
    let raw_hint = field(fields, 3);
    let hint = if raw_hint.is_empty() {
        None
    } else {
        Some(raw_hint.to_owned())
    };
    let all = split_semicolons(field(fields, 4));
    let mut tags: Vec<String> = Vec::new();
    let mut i: usize = 0;
    proof {
        reveal(Seq::filter);
        assert(texts(all@.subrange(0, 0)) =~= Seq::<Seq<char>>::empty());
        assert(texts(tags@) =~= Seq::<Seq<char>>::empty());
    }
    while i < all.len()
        invariant
            i <= all.len(),
            texts(tags@) == texts(all@.subrange(0, i as int)).filter(non_empty()),
        decreases all.len() - i,
    {
        proof {
            let prefix = texts(all@.subrange(0, i as int));
            assert(texts(all@.subrange(0, i as int + 1)) =~= prefix.push(all@[i as int]@));
            lemma_filter_push(prefix, all@[i as int]@, non_empty());
        }
        let ghost before = tags@;
        if !all[i].as_str().is_empty() {
            tags.push(all[i].clone());
            proof {
                assert(texts(tags@) =~= texts(before).push(all@[i as int]@));
            }
        }
        i += 1;
    }
    proof {
        assert(all@.subrange(0, i as int) =~= all@);
    }
    let suspended = if fields.len() > 5 {
        same_text(trim(fields[5].as_str()), "1")
    } else {
        false
    };
    CardRow { deck, front, back, hint, tags, suspended }
}

/// Writes a card of the deck with the given name as the fields of a line.
pub fn fields_from_card(deck_name: &str, card: &Card) -> (fields: Vec<String>)
    ensures
        texts(fields@) == line_of(deck_name@, card@),
{
    let mut fields: Vec<String> = Vec::new();
    fields.push(deck_name.to_owned());
    fields.push(card.front.clone());
    fields.push(card.back.clone());
    fields.push(
        match &card.hint {
            Some(h) => h.clone(),
            None => String::new(),
        },
    );
    fields.push(join_semicolons(card.tags.as_slice()));
    fields.push(
        if card.suspended {
            "1".to_owned()
        } else {
            "0".to_owned()
        },
    );
    proof {
        assert(texts(fields@) =~= line_of(deck_name@, card@));
    }
    fields
}

} // verus!
