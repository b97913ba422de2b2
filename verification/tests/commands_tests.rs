use flashmaster::commands::{
    add_tags, answer_from_word, is_listed, limit, parse_review_input, remove_tags, CardEdit,
    DueQuery, ReviewCmd, ReviewInput,
};
use flashmaster::errors::CoreError;
use flashmaster::grade::Grade;
use flashmaster::models::Card;
use flashmaster::time::{Timestamp, NANOS_PER_DAY};
use flashmaster::tui::{map_key, Action, Effect, Key, TuiState};

fn at(nanos: i128) -> Timestamp {
    Timestamp { nanos }
}

fn strings(items: &[&str]) -> Vec<String> {
    items.iter().map(|s| s.to_string()).collect()
}

fn no_edit() -> CardEdit {
    CardEdit {
        card_id: String::new(),
        front: None,
        back: None,
        hint: None,
        clear_hint: false,
        add_tags: Vec::new(),
        rm_tags: Vec::new(),
        suspend: false,
        unsuspend: false,
    }
}

fn sample() -> Card {
    let mut c = Card::with_identity(1, 2, "front", "back", at(5));
    c.hint = Some("hint".to_string());
    c.tags = strings(&["Verb", "es"]);
    c.reps = 3;
    c.interval_days = 15;
    c
}

fn due(id: u128, due_at: i128, created: i128) -> Card {
    let mut c = Card::with_identity(id, 1, "f", "b", at(created));
    c.reps = 1;
    c.interval_days = 1;
    c.due_at = at(due_at);
    c
}

#[test]
fn an_empty_edit_changes_nothing() {
    let c = sample();
    let out = no_edit().apply(&c).unwrap();
    assert_eq!(out.id, c.id);
    assert_eq!(out.front, "front");
    assert_eq!(out.back, "back");
    assert_eq!(out.hint, Some("hint".to_string()));
    assert_eq!(out.tags, strings(&["Verb", "es"]));
    assert_eq!(out.reps, 3);
    assert_eq!(out.interval_days, 15);
    assert!(!out.suspended);
}

#[test]
fn an_edit_replaces_texts_and_hint() {
    let c = sample();
    let mut e = no_edit();
    e.front = Some("F".to_string());
    e.back = Some("B".to_string());
    e.clear_hint = true;
    let out = e.apply(&c).unwrap();
    assert_eq!(out.front, "F");
    assert_eq!(out.back, "B");
    assert_eq!(out.hint, None);

    // a given hint wins over clearing
    e.hint = Some("H".to_string());
    let out2 = e.apply(&c).unwrap();
    assert_eq!(out2.hint, Some("H".to_string()));
}

#[test]
fn tags_are_added_once_and_removed_whatever_the_case() {
    let c = sample();
    let mut e = no_edit();
    e.add_tags = strings(&["verb", "New", "NEW", "es", "x"]);
    let out = e.apply(&c).unwrap();
    assert_eq!(out.tags, strings(&["Verb", "es", "New", "x"]));

    e.rm_tags = strings(&["VERB", "X", "absent"]);
    let out2 = e.apply(&c).unwrap();
    assert_eq!(out2.tags, strings(&["es", "New"]));

    let mut only_rm = no_edit();
    only_rm.rm_tags = strings(&["ES"]);
    assert_eq!(only_rm.apply(&c).unwrap().tags, strings(&["Verb"]));

    let mut tags = strings(&["a"]);
    add_tags(&mut tags, &strings(&["A", "b", "B", "c"]));
    assert_eq!(tags, strings(&["a", "b", "c"]));
    assert_eq!(remove_tags(&tags, &strings(&["B"])), strings(&["a", "c"]));
    assert!(is_listed(&tags, "C"));
    assert!(!is_listed(&tags, "d"));
    assert!(!is_listed(&Vec::new(), ""));
}

#[test]
fn suspending_and_unsuspending_exclude_each_other() {
    let c = sample();
    let mut e = no_edit();
    e.suspend = true;
    assert!(e.apply(&c).unwrap().suspended);
    let mut suspended = sample();
    suspended.suspended = true;
    let mut u = no_edit();
    u.unsuspend = true;
    assert!(!u.apply(&suspended).unwrap().suspended);
    assert!(no_edit().apply(&suspended).unwrap().suspended);
    e.unsuspend = true;
    e.front = Some("F".to_string());
    assert!(matches!(
        e.apply(&c),
        Err(CoreError::Invalid("cannot use --suspend and --unsuspend together"))
    ));
}

#[test]
fn answers_are_read_from_a_line() {
    assert_eq!(parse_review_input(" 1\n"), ReviewInput::Grade(Grade::Hard));
    assert_eq!(parse_review_input("Medium"), ReviewInput::Grade(Grade::Medium));
    assert_eq!(parse_review_input("e"), ReviewInput::Grade(Grade::Easy));
    assert_eq!(parse_review_input("S"), ReviewInput::Skip);
    assert_eq!(parse_review_input("skip\r\n"), ReviewInput::Skip);
    assert_eq!(parse_review_input("q"), ReviewInput::Quit);
    assert_eq!(parse_review_input("  QUIT  "), ReviewInput::Quit);
    assert_eq!(parse_review_input(""), ReviewInput::Unknown);
    assert_eq!(parse_review_input("5"), ReviewInput::Unknown);
    assert_eq!(answer_from_word("skip"), ReviewInput::Skip);
    assert_eq!(answer_from_word(" skip"), ReviewInput::Unknown);
}

#[test]
fn a_session_takes_the_first_cards_of_the_queue() {
    let now = at(10 * NANOS_PER_DAY);
    let cards = vec![
        due(1, now.nanos - 1, 0),
        due(2, now.nanos - 3, 0),
        Card::with_identity(3, 1, "new", "b", at(4)),
        due(4, now.nanos - 2 * NANOS_PER_DAY, 0),
        due(5, now.nanos - 2, 0),
    ];
    let ids = |v: Vec<Card>| -> Vec<u128> { v.iter().map(|c| c.id).collect() };
    let cmd = ReviewCmd { deck: None, include_new: true, include_lapsed: true, max: 3 };
    assert_eq!(ids(cmd.queue(&cards, now)), vec![3, 4, 2]);
    let wide = ReviewCmd { deck: None, include_new: false, include_lapsed: false, max: 50 };
    assert_eq!(ids(wide.queue(&cards, now)), vec![2, 5, 1]);
    let zero = ReviewCmd { deck: None, include_new: true, include_lapsed: true, max: 0 };
    assert!(zero.queue(&cards, now).is_empty());

    let bare = DueQuery { deck: None, include_new: None, include_lapsed: None, max: None };
    assert_eq!(ids(bare.queue(&cards, now)), vec![2, 5, 1]);
    let full = DueQuery {
        deck: None,
        include_new: Some(true),
        include_lapsed: Some(true),
        max: Some(4),
    };
    assert_eq!(ids(full.queue(&cards, now)), vec![3, 4, 2, 5]);
    let off = DueQuery {
        deck: None,
        include_new: Some(false),
        include_lapsed: Some(false),
        max: Some(1),
    };
    assert_eq!(ids(off.queue(&cards, now)), vec![2]);
    assert_eq!(ids(limit(cards.clone(), 2)), vec![1, 2]);
    assert_eq!(limit(cards, 9).len(), 5);
}

#[test]
fn keys_map_to_actions() {
    assert_eq!(map_key(Key::Char('q'), true), Action::Quit);
    assert_eq!(map_key(Key::Esc, false), Action::Quit);
    assert_eq!(map_key(Key::Up, true), Action::Up);
    assert_eq!(map_key(Key::Char('k'), true), Action::Up);
    assert_eq!(map_key(Key::Down, true), Action::Down);
    assert_eq!(map_key(Key::Char('j'), false), Action::Down);
    assert_eq!(map_key(Key::Enter, true), Action::Enter);
    assert_eq!(map_key(Key::Char(' '), true), Action::ToggleReveal);
    assert_eq!(map_key(Key::Char('1'), true), Action::GradeHard);
    assert_eq!(map_key(Key::Char('h'), true), Action::GradeHard);
    assert_eq!(map_key(Key::Char('2'), true), Action::GradeMedium);
    assert_eq!(map_key(Key::Char('m'), true), Action::GradeMedium);
    assert_eq!(map_key(Key::Char('3'), true), Action::GradeEasy);
    assert_eq!(map_key(Key::Char('e'), false), Action::GradeEasy);
    assert_eq!(map_key(Key::Char('s'), true), Action::Skip);
    assert_eq!(map_key(Key::Char('s'), false), Action::Nothing);
    assert_eq!(map_key(Key::Char('x'), true), Action::Nothing);
    assert_eq!(map_key(Key::Char('Q'), true), Action::Nothing);
    assert_eq!(map_key(Key::Other, true), Action::Nothing);
}

#[test]
fn the_selection_moves_within_the_decks() {
    let mut s = TuiState::new();
    assert_eq!(s, TuiState { sel: 0, idx: 0, reveal: false, in_review: false });
    assert_eq!(s.step(Action::Up, 3, 0), Effect::Redraw);
    assert_eq!(s.sel, 0);
    s.step(Action::Down, 3, 0);
    s.step(Action::Down, 3, 0);
    assert_eq!(s.sel, 2);
    s.step(Action::Down, 3, 0);
    assert_eq!(s.sel, 2);
    s.step(Action::Up, 3, 0);
    assert_eq!(s.sel, 1);
    s.step(Action::Down, 0, 0);
    assert_eq!(s.sel, 1);
    s.clamp_selection(1);
    assert_eq!(s.sel, 0);
    s.sel = 7;
    s.clamp_selection(0);
    assert_eq!(s.sel, 0);
    s.sel = 2;
    s.clamp_selection(5);
    assert_eq!(s.sel, 2);
    assert_eq!(s.step(Action::Quit, 5, 0), Effect::Quit);
    assert_eq!(s.step(Action::Nothing, 5, 0), Effect::Redraw);
    assert_eq!(s.step(Action::ToggleReveal, 5, 0), Effect::Redraw);
    assert!(!s.reveal);
    assert_eq!(s.step(Action::GradeEasy, 5, 3), Effect::Redraw);
    assert_eq!(s.step(Action::Skip, 5, 3), Effect::Redraw);
    assert_eq!(s.idx, 0);
}

#[test]
fn a_review_walks_through_the_queue() {
    let mut s = TuiState { sel: 1, idx: 4, reveal: true, in_review: false };
    assert_eq!(s.step(Action::Enter, 2, 0), Effect::BuildQueue);
    assert_eq!(s, TuiState { sel: 1, idx: 0, reveal: false, in_review: true });
    assert_eq!(s.step(Action::Enter, 2, 3), Effect::Redraw);
    assert_eq!(s.step(Action::Down, 2, 3), Effect::Redraw);
    assert_eq!(s.sel, 1);
    s.step(Action::Up, 2, 3);
    assert_eq!(s.sel, 1);
    s.step(Action::ToggleReveal, 2, 3);
    assert!(s.reveal);
    assert_eq!(s.step(Action::GradeHard, 2, 3), Effect::Grade(0, Grade::Hard));
    assert_eq!(s, TuiState { sel: 1, idx: 1, reveal: false, in_review: true });
    s.step(Action::ToggleReveal, 2, 3);
    assert_eq!(s.step(Action::Skip, 2, 3), Effect::Redraw);
    assert_eq!(s, TuiState { sel: 1, idx: 2, reveal: false, in_review: true });
    assert_eq!(s.step(Action::Skip, 2, 3), Effect::Redraw);
    assert_eq!(s.idx, 2);
    assert_eq!(s.step(Action::GradeMedium, 2, 3), Effect::Grade(2, Grade::Medium));
    assert_eq!(s, TuiState { sel: 1, idx: 2, reveal: false, in_review: false });

    let mut empty = TuiState { sel: 0, idx: 0, reveal: false, in_review: true };
    assert_eq!(empty.step(Action::GradeEasy, 1, 0), Effect::Redraw);
    assert!(empty.in_review);
    let mut last = TuiState { sel: 0, idx: 0, reveal: true, in_review: true };
    assert_eq!(last.step(Action::GradeEasy, 1, 1), Effect::Grade(0, Grade::Easy));
    assert_eq!(last, TuiState { sel: 0, idx: 0, reveal: true, in_review: false });
}

#[test]
fn a_card_is_written_as_a_line() {
    let mut c = Card::with_identity(1, 2, "front", "back", at(0));
    assert_eq!(
        flashmaster::records::fields_from_card("Deck", &c),
        strings(&["Deck", "front", "back", "", "", "0"])
    );
    c.hint = Some("h".to_string());
    c.tags = strings(&["a", "b c", "d"]);
    c.suspended = true;
    assert_eq!(
        flashmaster::records::fields_from_card("D", &c),
        strings(&["D", "front", "back", "h", "a;b c;d", "1"])
    );
    assert_eq!(flashmaster::records::join_semicolons(&[]), "");
    assert_eq!(flashmaster::records::join_semicolons(&strings(&["x"])), "x");
    assert_eq!(flashmaster::records::join_semicolons(&strings(&["", ""])), ";");
}

#[test]
fn a_line_is_read_as_a_row() {
    let row = flashmaster::records::row_from_fields(&strings(&[
        "  Deck ",
        " front ",
        "back",
        "hint",
        "a;;b c;",
        " 1 ",
    ]));
    assert_eq!(row.deck, "Deck");
    assert_eq!(row.front, " front ");
    assert_eq!(row.back, "back");
    assert_eq!(row.hint, Some("hint".to_string()));
    assert_eq!(row.tags, strings(&["a", "b c"]));
    assert!(row.suspended);

    let short = flashmaster::records::row_from_fields(&strings(&["D", "f"]));
    assert_eq!(short.deck, "D");
    assert_eq!(short.front, "f");
    assert_eq!(short.back, "");
    assert_eq!(short.hint, None);
    assert!(short.tags.is_empty());
    assert!(!short.suspended);

    let zero = flashmaster::records::row_from_fields(&strings(&["D", "f", "b", "", ";", "0"]));
    assert_eq!(zero.hint, None);
    assert!(zero.tags.is_empty());
    assert!(!zero.suspended);
    let other = flashmaster::records::row_from_fields(&strings(&["D", "f", "b", " ", "t", "11"]));
    assert_eq!(other.hint, Some(" ".to_string()));
    assert_eq!(other.tags, strings(&["t"]));
    assert!(!other.suspended);
    assert!(flashmaster::records::row_from_fields(&[]).deck.is_empty());
    assert_eq!(flashmaster::records::field(&strings(&["a"]), 0), "a");
    assert_eq!(flashmaster::records::field(&strings(&["a"]), 1), "");
}

#[test]
fn white_space_of_every_script_is_trimmed() {
    assert_eq!(parse_review_input("\u{a0}q\u{3000}"), ReviewInput::Quit);
    assert_eq!(parse_review_input("\t\n\u{b}\u{c}\r 2 \u{85}\u{1680}"), ReviewInput::Grade(Grade::Medium));
    assert_eq!(parse_review_input("\u{2000}\u{200a}s\u{2028}\u{2029}\u{202f}\u{205f}"), ReviewInput::Skip);
    // a zero width space and a byte order mark are no white space
    assert_eq!(parse_review_input("\u{200b}q"), ReviewInput::Unknown);
    assert_eq!(parse_review_input("q\u{feff}"), ReviewInput::Unknown);
    assert_eq!(parse_review_input("\u{180e}q"), ReviewInput::Unknown);
    // white space inside a word stays
    assert_eq!(parse_review_input("q uit"), ReviewInput::Unknown);
    let row = flashmaster::records::row_from_fields(&strings(&["\u{3000} My Deck \u{a0}"]));
    assert_eq!(row.deck, "My Deck");
}
