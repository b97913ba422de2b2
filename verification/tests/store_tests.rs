use flashmaster::backup::{backup_file_name, backup_file_name_at, plan_rotation, BackupEntry};
use flashmaster::errors::CoreError;
use flashmaster::grade::Grade;
use flashmaster::models::{Card, Deck, Review};
use flashmaster::store::{
    effective_retention, FileImage, State, DEFAULT_MAX_BACKUPS, FILE_VERSION,
};
use flashmaster::time::Timestamp;

fn at(nanos: i128) -> Timestamp {
    Timestamp { nanos }
}

fn entry(name: &str, modified: Option<i128>) -> BackupEntry {
    BackupEntry::new(name, modified)
}

fn names(entries: &[BackupEntry]) -> Vec<String> {
    entries.iter().map(|e| e.name.clone()).collect()
}

fn sorted_card_fronts(cards: &[Card]) -> Vec<String> {
    let mut v: Vec<String> = cards.iter().map(|c| c.front.clone()).collect();
    v.sort();
    v
}

#[test]
fn an_empty_state_has_an_empty_snapshot() {
    let s = State::new_empty(at(77));
    let img = s.to_image();
    assert_eq!(img.version, FILE_VERSION);
    assert_eq!(img.version, 1);
    assert_eq!(img.created_at, at(77));
    assert_eq!(img.updated_at, at(77));
    assert!(img.decks.is_empty());
    assert!(img.cards.is_empty());
    assert!(img.reviews.is_empty());
}

#[test]
fn a_snapshot_loads_back_to_the_same_index() {
    let mut s = State::new_empty(at(1));
    let a = s.create_deck("A").unwrap().value;
    let b = s.create_deck("B").unwrap().value;
    let tags = vec!["t1".to_string(), "t2".to_string()];
    let c1 = s.add_card(a.id, "one", "1", Some("h"), &tags).unwrap().value;
    let c2 = s.add_card(b.id, "two", "2", None, &[]).unwrap().value;
    let r1 = Review::with_id(1, c1.id, Grade::Easy, at(30), 1, 260);
    let r2 = Review::with_id(2, c2.id, Grade::Hard, at(20), 1, 246);
    let r3 = Review::with_id(3, c1.id, Grade::Medium, at(10), 6, 250);
    s.insert_review(&r1);
    s.insert_review(&r2);
    let last = s.insert_review(&r3);
    s.set_suspended(c2.id, true).unwrap();

    let img = s.to_image();
    assert_eq!(img.decks.len(), 2);
    assert_eq!(img.cards.len(), 2);
    assert_eq!(img.reviews.len(), 3);
    assert_eq!(last.image.reviews.len(), 3);

    let loaded = State::from_image(img, at(500));
    let again = loaded.to_image();
    assert_eq!(again.created_at, at(1));
    assert_eq!(again.updated_at, at(500));
    assert_eq!(loaded.index().get_deck(a.id).unwrap().name, "A");
    assert_eq!(loaded.index().get_deck(b.id).unwrap().name, "B");
    assert_eq!(loaded.index().list_decks().len(), 2);
    let got1 = loaded.index().get_card(c1.id).unwrap();
    assert_eq!(got1.front, "one");
    assert_eq!(got1.hint, Some("h".to_string()));
    assert_eq!(got1.tags, tags);
    assert_eq!(got1.deck_id, a.id);
    assert_eq!(got1.created_at, c1.created_at);
    assert!(loaded.index().get_card(c2.id).unwrap().suspended);
    assert_eq!(
        sorted_card_fronts(&loaded.index().list_cards(None)),
        vec!["one".to_string(), "two".to_string()]
    );
    // the reviews of a card keep the order in which they were recorded
    let kept: Vec<u128> =
        again.reviews.iter().filter(|r| r.card_id == c1.id).map(|r| r.id).collect();
    assert_eq!(kept, vec![1, 3]);
    // and are listed by instant
    let listed: Vec<u128> =
        loaded.index().list_reviews_for_card(c1.id).iter().map(|r| r.id).collect();
    assert_eq!(listed, vec![3, 1]);
    assert_eq!(loaded.index().list_reviews_for_card(c2.id).len(), 1);
}

#[test]
fn loading_keeps_the_last_of_two_items_with_one_identifier() {
    let img = FileImage {
        version: 1,
        created_at: at(3),
        updated_at: at(4),
        decks: vec![
            Deck::with_identity(1, "first", at(0)),
            Deck::with_identity(2, "other", at(0)),
            Deck::with_identity(1, "second", at(0)),
        ],
        cards: vec![
            Card::with_identity(10, 1, "old", "x", at(0)),
            Card::with_identity(10, 2, "new", "y", at(0)),
        ],
        reviews: vec![
            Review::with_id(1, 10, Grade::Easy, at(5), 1, 260),
            Review::with_id(2, 99, Grade::Hard, at(6), 1, 246),
        ],
    };
    let s = State::from_image(img, at(9));
    assert_eq!(s.index().list_decks().len(), 2);
    assert_eq!(s.index().get_deck(1).unwrap().name, "second");
    assert_eq!(s.index().get_card(10).unwrap().front, "new");
    assert_eq!(s.index().get_card(10).unwrap().deck_id, 2);
    assert_eq!(s.index().list_reviews_for_card(10).len(), 1);
    // a review of a card that is not there is kept all the same
    assert_eq!(s.index().list_reviews_for_card(99).len(), 1);
    assert_eq!(s.to_image().reviews.len(), 2);
}

#[test]
fn changes_hand_out_the_snapshot_to_write() {
    let mut s = State::new_empty(at(1));
    let p = s.create_deck("A").unwrap();
    assert_eq!(p.image.decks.len(), 1);
    assert_eq!(p.image.decks[0].id, p.value.id);
    assert_eq!(p.image.created_at, at(1));
    assert!(p.image.updated_at.nanos > 1);
    assert!(matches!(
        s.create_deck("a"),
        Err(CoreError::Conflict("deck name already exists"))
    ));
    assert!(matches!(
        s.add_card(p.value.id.wrapping_add(1), "f", "b", None, &[]),
        Err(CoreError::NotFound("deck"))
    ));
    let c = s.add_card(p.value.id, "f", "b", None, &[]).unwrap();
    assert_eq!(c.image.cards.len(), 1);
    let mut edited = c.value.clone();
    edited.back = "B".to_string();
    let u = s.update_card(&edited).unwrap();
    assert_eq!(u.image.cards[0].back, "B");
    assert!(matches!(
        s.set_suspended(c.value.id.wrapping_add(1), true),
        Err(CoreError::NotFound("card"))
    ));
    let r = s.insert_review(&Review::with_id(1, c.value.id, Grade::Easy, at(2), 1, 260));
    assert_eq!(r.image.reviews.len(), 1);
    let d = s.delete_card(c.value.id).unwrap();
    assert!(d.image.cards.is_empty());
    assert!(d.image.reviews.is_empty());
    assert!(matches!(s.delete_card(c.value.id), Err(CoreError::NotFound("card"))));
    let c2 = s.add_card(p.value.id, "f", "b", None, &[]).unwrap();
    s.insert_review(&Review::with_id(2, c2.value.id, Grade::Easy, at(2), 1, 260));
    let gone = s.delete_deck(p.value.id).unwrap();
    assert!(gone.image.decks.is_empty());
    assert!(gone.image.cards.is_empty());
    assert!(gone.image.reviews.is_empty());
    assert!(matches!(s.delete_deck(p.value.id), Err(CoreError::NotFound("deck"))));
    let mut snap_state = State::new_empty(at(1));
    let img = snap_state.snapshot(at(8));
    assert_eq!(img.updated_at, at(8));
    assert_eq!(img.created_at, at(1));
}

#[test]
fn retention_is_at_least_one() {
    assert_eq!(effective_retention(0), 1);
    assert_eq!(effective_retention(1), 1);
    assert_eq!(effective_retention(10), 10);
    assert_eq!(effective_retention(usize::MAX), usize::MAX);
    assert_eq!(DEFAULT_MAX_BACKUPS, 10);
}

fn is_snapshot_name(name: &str) -> bool {
    BackupEntry::new(name, None).is_snapshot()
}

#[test]
fn only_json_files_count_as_backups() {
    assert!(is_snapshot_name("flashmaster-20240101-120000.json"));
    assert!(is_snapshot_name("a.b.json"));
    assert!(is_snapshot_name("..json"));
    assert!(!is_snapshot_name("x.JSON"));
    assert!(!is_snapshot_name("x.json.tmp"));
    assert!(!is_snapshot_name("json"));
    assert!(!is_snapshot_name(".json"));
    assert!(!is_snapshot_name("x.jsonl"));
    assert!(!is_snapshot_name("x.json."));
    assert!(!is_snapshot_name(""));
    assert!(!is_snapshot_name("."));
    assert!(!is_snapshot_name(".."));
    let e = BackupEntry::new("a.tar.gz", Some(4));
    assert_eq!(e.name, "a.tar.gz");
    assert_eq!(e.extension, Some("gz".to_string()));
    assert_eq!(e.modified, Some(4));
    assert_eq!(BackupEntry::new("a.", None).extension, Some(String::new()));
    assert_eq!(BackupEntry::new("..a", None).extension, Some("a".to_string()));
    assert_eq!(BackupEntry::new(".hidden", None).extension, None);
    assert_eq!(BackupEntry::new("..", None).extension, None);
    assert_eq!(BackupEntry::new("plain", None).extension, None);
    // the fields decide, not the name
    let odd = BackupEntry { name: "x.txt".to_string(), extension: Some("json".to_string()), modified: None };
    assert!(odd.is_snapshot());
}

#[test]
fn rotation_keeps_the_newest_backups() {
    let entries = vec![
        entry("c.json", Some(30)),
        entry("a.json", Some(10)),
        entry("notes.txt", Some(1)),
        entry("e.json", Some(50)),
        entry("b.json", Some(20)),
        entry("d.json", Some(40)),
        entry(".tmpXyZ", Some(60)),
    ];
    let plan = plan_rotation(&entries, 2);
    assert_eq!(names(&plan.remove), vec!["a.json", "b.json", "c.json"]);
    assert_eq!(names(&plan.keep), vec!["d.json", "e.json"]);

    let all = plan_rotation(&entries, 5);
    assert!(all.remove.is_empty());
    assert_eq!(names(&all.keep), vec!["a.json", "b.json", "c.json", "d.json", "e.json"]);

    let more = plan_rotation(&entries, 9);
    assert!(more.remove.is_empty());
    assert_eq!(more.keep.len(), 5);

    let none = plan_rotation(&entries, 0);
    assert_eq!(none.remove.len(), 5);
    assert!(none.keep.is_empty());

    let empty = plan_rotation(&[], 3);
    assert!(empty.remove.is_empty());
    assert!(empty.keep.is_empty());
}

#[test]
fn rotation_puts_unknown_instants_first_and_keeps_ties_in_order() {
    let entries = vec![
        entry("t2.json", Some(5)),
        entry("u1.json", None),
        entry("t1.json", Some(5)),
        entry("neg.json", Some(-7)),
        entry("u2.json", None),
    ];
    let plan = plan_rotation(&entries, 2);
    assert_eq!(names(&plan.remove), vec!["u1.json", "u2.json", "neg.json"]);
    assert_eq!(names(&plan.keep), vec!["t2.json", "t1.json"]);
}

#[test]
fn repeated_writes_settle_at_the_retention() {
    let keep: usize = 3;
    let mut files: Vec<BackupEntry> = Vec::new();
    let mut n: i128 = 0;
    while n < 8 {
        files.push(entry(&format!("flashmaster-{}.json", n), Some(n)));
        let plan = plan_rotation(&files, keep);
        files = plan.keep;
        n += 1;
        let expected = if (n as usize) < keep { n as usize } else { keep };
        assert_eq!(files.len(), expected);
    }
    assert_eq!(
        names(&files),
        vec!["flashmaster-5.json", "flashmaster-6.json", "flashmaster-7.json"]
    );
}

#[test]
fn backups_are_named_after_the_local_time() {
    assert_eq!(backup_file_name_at("20240101-120000"), "flashmaster-20240101-120000.json");
    assert_eq!(backup_file_name_at(""), "flashmaster-.json");
    assert!(is_snapshot_name(&backup_file_name_at("20240101-120000")));
    assert!(is_snapshot_name(&backup_file_name_at("a.b")));
    let now = backup_file_name();
    assert!(now.starts_with("flashmaster-"));
    assert!(now.ends_with(".json"));
    assert_eq!(now.len(), "flashmaster-".len() + "YYYYmmdd-HHMMSS".len() + ".json".len());
    assert!(now["flashmaster-".len()..now.len() - ".json".len()]
        .chars()
        .all(|c| c.is_ascii_digit() || c == '-'));
    assert!(is_snapshot_name(&now));
}
