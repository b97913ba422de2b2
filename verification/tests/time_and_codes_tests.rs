use flashmaster::errors::CoreError;
use flashmaster::grade::{
    bool_to_i, grade_from_i, grade_from_i16, grade_from_word, grade_to_i, grade_to_i16,
    parse_grade, Grade,
};
use flashmaster::ids::uuid_from_str;
use flashmaster::repo::select_deck_by_id_or_name;
use flashmaster::models::{Deck, Review};
use flashmaster::paths::{default_database_file, default_store_file};
use flashmaster::time::{dt_from_str, dt_to_str, Timestamp, NANOS_PER_DAY, NANOS_PER_SEC};

#[test]
fn grade_codes_round_trip() {
    for g in [Grade::Hard, Grade::Medium, Grade::Easy] {
        assert_eq!(grade_from_i(grade_to_i(&g)), Some(g));
        assert_eq!(grade_from_i16(grade_to_i16(&g)), Some(g));
        assert_eq!(grade_to_i(&g), i64::from(g.as_score()));
    }
    assert_eq!(grade_to_i(&Grade::Hard), 1);
    assert_eq!(grade_to_i(&Grade::Medium), 2);
    assert_eq!(grade_to_i16(&Grade::Easy), 3);
    assert_eq!(grade_from_i(0), None);
    assert_eq!(grade_from_i(4), None);
    assert_eq!(grade_from_i(-1), None);
    assert_eq!(grade_from_i16(0), None);
    assert_eq!(grade_from_i16(i16::MAX), None);
    assert_eq!(bool_to_i(true), 1);
    assert_eq!(bool_to_i(false), 0);
}

#[test]
fn grades_are_parsed_whatever_the_case() {
    assert_eq!(parse_grade("1"), Some(Grade::Hard));
    assert_eq!(parse_grade("h"), Some(Grade::Hard));
    assert_eq!(parse_grade("HARD"), Some(Grade::Hard));
    assert_eq!(parse_grade("2"), Some(Grade::Medium));
    assert_eq!(parse_grade("M"), Some(Grade::Medium));
    assert_eq!(parse_grade("Med"), Some(Grade::Medium));
    assert_eq!(parse_grade("medium"), Some(Grade::Medium));
    assert_eq!(parse_grade("3"), Some(Grade::Easy));
    assert_eq!(parse_grade("E"), Some(Grade::Easy));
    assert_eq!(parse_grade("Easy"), Some(Grade::Easy));
    assert_eq!(parse_grade(""), None);
    assert_eq!(parse_grade("4"), None);
    assert_eq!(parse_grade(" hard"), None);
    assert_eq!(parse_grade("harder"), None);
    assert_eq!(grade_from_word("hard"), Some(Grade::Hard));
    assert_eq!(grade_from_word("HARD"), None);
}

#[test]
fn identifiers_are_read_from_text() {
    let r = uuid_from_str("67e55044-10b1-426f-9247-bb680e5fe0c8");
    assert!(matches!(r, Ok(0x67e5504410b1426f9247bb680e5fe0c8)));
    let plain = uuid_from_str("67e5504410b1426f9247bb680e5fe0c8");
    assert!(matches!(plain, Ok(0x67e5504410b1426f9247bb680e5fe0c8)));
    assert!(matches!(uuid_from_str("not a uuid"), Err(CoreError::Invalid("uuid"))));
    assert!(matches!(uuid_from_str(""), Err(CoreError::Invalid("uuid"))));
}

#[test]
fn random_identifiers_differ() {
    let a = Deck::new("a");
    let b = Deck::new("a");
    assert_ne!(a.id, b.id);
    assert_eq!(a.name, "a");
    let r1 = Review::new(5, Grade::Easy, Timestamp { nanos: 9 }, 1, 260);
    let r2 = Review::new(5, Grade::Easy, Timestamp { nanos: 9 }, 1, 260);
    assert_ne!(r1.id, r2.id);
    assert_eq!(r1.card_id, 5);
    assert_eq!(r1.grade, Grade::Easy);
    assert_eq!(r1.reviewed_at, Timestamp { nanos: 9 });
    assert_eq!(r1.interval_applied, 1);
    assert_eq!(r1.ef_after, 260);
}

#[test]
fn instants_are_built_from_seconds_and_nanoseconds() {
    assert_eq!(Timestamp::from_parts(0, 0).nanos, 0);
    assert_eq!(Timestamp::from_parts(1, 5).nanos, NANOS_PER_SEC + 5);
    assert_eq!(Timestamp::from_parts(-1, 5).nanos, -NANOS_PER_SEC + 5);
    assert_eq!(
        Timestamp::from_parts(i64::MAX, u32::MAX).nanos,
        i128::from(i64::MAX) * NANOS_PER_SEC + i128::from(u32::MAX)
    );
    let t = Timestamp::from_parts(1_431_648_000, 999_999_999);
    assert_eq!(t.whole_secs(), 1_431_648_000);
    assert_eq!(t.subsec_nanos(), 999_999_999);
    let early = Timestamp::from_parts(-3, 250);
    assert_eq!(early.whole_secs(), -3);
    assert_eq!(early.subsec_nanos(), 250);
    let edge = Timestamp { nanos: -1 };
    assert_eq!(edge.whole_secs(), -1);
    assert_eq!(edge.subsec_nanos(), 999_999_999);
    let lowest = Timestamp { nanos: i128::MIN };
    assert_eq!(lowest.whole_secs(), i128::MIN.div_euclid(NANOS_PER_SEC));
    assert_eq!(i128::from(lowest.subsec_nanos()), i128::MIN.rem_euclid(NANOS_PER_SEC));
}

#[test]
fn days_are_counted_from_the_epoch() {
    assert_eq!(Timestamp { nanos: 0 }.day(), 0);
    assert_eq!(Timestamp { nanos: NANOS_PER_DAY - 1 }.day(), 0);
    assert_eq!(Timestamp { nanos: NANOS_PER_DAY }.day(), 1);
    assert_eq!(Timestamp { nanos: -1 }.day(), -1);
    assert_eq!(Timestamp { nanos: -NANOS_PER_DAY }.day(), -1);
    assert_eq!(Timestamp { nanos: -NANOS_PER_DAY - 1 }.day(), -2);
    assert_eq!(Timestamp { nanos: 0 }.plus_days(3).nanos, 3 * NANOS_PER_DAY);
    assert_eq!(
        Timestamp { nanos: 7 }.plus_days(u32::MAX).nanos,
        7 + i128::from(u32::MAX) * NANOS_PER_DAY
    );
    let t = Timestamp { nanos: 10 };
    assert!(t.at_least_a_day_before(Timestamp { nanos: 10 + NANOS_PER_DAY }));
    assert!(!t.at_least_a_day_before(Timestamp { nanos: 9 + NANOS_PER_DAY }));
    assert!(!Timestamp { nanos: i128::MAX }.at_least_a_day_before(Timestamp { nanos: i128::MAX }));
}

#[test]
fn the_clock_reads_a_present_day_instant() {
    let a = Timestamp::now();
    let b = Timestamp::now();
    // later than the first of January 2020 and not running backwards by a day
    assert!(a.nanos > 1_577_836_800 * NANOS_PER_SEC);
    assert!(b.nanos + NANOS_PER_DAY > a.nanos);
}

#[test]
fn store_files_lie_below_the_data_directory() {
    let (file, backups) = default_store_file("/data/flashmaster");
    assert_eq!(file, "/data/flashmaster/flashmaster.json");
    assert_eq!(backups, "/data/flashmaster/backups");
    assert_eq!(default_database_file("/data"), "/data/flashmaster.sqlite3");
    let (rel, _) = default_store_file(".");
    assert_eq!(rel, "./flashmaster.json");
}

#[test]
fn each_error_kind_has_its_own_code() {
    assert_eq!(CoreError::NotFound("deck").code(), 2);
    assert_eq!(CoreError::Invalid("uuid").code(), 3);
    assert_eq!(CoreError::Conflict("deck name already exists").code(), 4);
    assert_eq!(CoreError::Storage("io").code(), 5);
}

#[test]
fn a_deck_is_selected_by_name_before_identifier() {
    let decks = vec![
        Deck::with_identity(1, "one", Timestamp { nanos: 0 }),
        Deck::with_identity(2, "two", Timestamp { nanos: 0 }),
        Deck::with_identity(1, "uno", Timestamp { nanos: 0 }),
    ];
    assert_eq!(select_deck_by_id_or_name(&decks, 1, None), "one");
    assert_eq!(select_deck_by_id_or_name(&decks, 2, Some("other".to_string())), "two");
    assert_eq!(select_deck_by_id_or_name(&decks, 3, Some("other".to_string())), "other");
    let id: u128 = 0x67e5504410b1426f9247bb680e5fe0c8;
    let text = select_deck_by_id_or_name(&decks, id, None);
    assert_eq!(text, "67e55044-10b1-426f-9247-bb680e5fe0c8");
    assert!(matches!(uuid_from_str(&text), Ok(0x67e5504410b1426f9247bb680e5fe0c8)));
    assert_eq!(
        select_deck_by_id_or_name(&Vec::new(), 0, None),
        "00000000-0000-0000-0000-000000000000"
    );
    let max = select_deck_by_id_or_name(&Vec::new(), u128::MAX, None);
    assert!(matches!(uuid_from_str(&max), Ok(u128::MAX)));
}

#[test]
fn instants_are_read_and_written_as_rfc3339() {
    let t = dt_from_str("1996-12-19T16:39:57-08:00").unwrap();
    assert_eq!(t, Timestamp::from_parts(851_042_397, 0));
    let frac = dt_from_str("2015-05-15T00:00:00.250Z").unwrap();
    assert_eq!(frac, Timestamp::from_parts(1_431_648_000, 250_000_000));
    assert!(matches!(dt_from_str("yesterday"), Err(CoreError::Invalid("datetime"))));
    assert!(matches!(dt_from_str(""), Err(CoreError::Invalid("datetime"))));
    assert_eq!(
        dt_to_str(Timestamp::from_parts(1_431_648_000, 0)),
        Some("2015-05-15T00:00:00+00:00".to_string())
    );
    assert_eq!(
        dt_to_str(Timestamp::from_parts(-1, 500_000_000)),
        Some("1969-12-31T23:59:59.500+00:00".to_string())
    );
    let text = dt_to_str(frac).unwrap();
    assert_eq!(dt_from_str(&text).unwrap(), frac);
    assert_eq!(dt_to_str(Timestamp { nanos: i128::MAX }), None);
    assert_eq!(dt_to_str(Timestamp { nanos: i128::MIN }), None);
    assert_eq!(dt_to_str(Timestamp::from_parts(i64::MAX, 0)), None);
}
