use locked_calendar::calendar::{month_range, parse_date, parse_optional_date, Date};
use locked_calendar::decimal::{parse_u64, u64_to_text, ParseIntError};
use locked_calendar::crypto::AesGcmCryptoProvider;
use locked_calendar::entities::{EncryptedNoteRecord, Note};
use locked_calendar::note_service::NoteService;
use locked_calendar::errors::{CommandError, DomainError};
use locked_calendar::meta::{MetaStore, KEY_LOCK_TIMEOUT, KEY_SYNC_DRIVE_ETAG, KEY_SYNC_DRIVE_FILE_ID, KEY_VAULT_ID};
use locked_calendar::store::{record_from_row, NoteStore};
use locked_calendar::text::{contains_text, eq_ignore_ascii_case, take_chars, text_less, trim_text};

fn record(id: &str, date: Date) -> EncryptedNoteRecord {
    EncryptedNoteRecord {
        id: id.to_string(),
        entry_date: date,
        title_enc: vec![1],
        content_enc: vec![2],
        tags_enc: vec![3],
        is_favorite: false,
        is_done: false,
        mood: None,
        created_at: 1,
        updated_at: 2,
    }
}

#[test]
fn decimal_text_round_trips_and_errors_are_named() {
    assert_eq!(u64_to_text(0), "0");
    assert_eq!(u64_to_text(18446744073709551615), "18446744073709551615");
    assert_eq!(parse_u64("600").ok(), Some(600));
    assert!(matches!(parse_u64(""), Err(ParseIntError::Empty)));
    assert!(matches!(parse_u64("6x"), Err(ParseIntError::InvalidDigit)));
    assert!(matches!(parse_u64("18446744073709551616"), Err(ParseIntError::PosOverflow)));
    assert_eq!(ParseIntError::InvalidDigit.message(), "invalid digit found in string");
    assert_eq!(ParseIntError::Empty.message(), "cannot parse integer from empty string");
}

#[test]
fn text_helpers() {
    assert_eq!(trim_text("  a b \n"), "a b");
    assert_eq!(take_chars("héllo", 2), "hé");
    assert!(eq_ignore_ascii_case("Sport", "sPORT"));
    assert!(!eq_ignore_ascii_case("Sport", "Sports"));
    assert!(contains_text("needle in hay", "in h"));
    assert!(!contains_text("hay", "needle"));
    assert!(text_less("2024-01-31", "2024-02-01"));
    assert!(!text_less("b", "a"));
}

#[test]
fn calendar_helpers() {
    assert_eq!(parse_date("2024-02-29").unwrap(), Date { year: 2024, month: 2, day: 29 });
    assert_eq!(parse_date("2023-02-29").unwrap_err(), "Invalid date format. Use YYYY-MM-DD.");
    assert_eq!(parse_optional_date(&Some(String::new())).unwrap(), None);
    assert_eq!(parse_optional_date(&None).unwrap(), None);
    assert!(parse_optional_date(&Some("x".to_string())).is_err());
    assert_eq!(
        month_range(2024, 2).unwrap(),
        (Date { year: 2024, month: 2, day: 1 }, Date { year: 2024, month: 2, day: 29 })
    );
    assert_eq!(month_range(2023, 12).unwrap().1, Date { year: 2023, month: 12, day: 31 });
    assert_eq!(month_range(2024, 0).unwrap_err(), "Invalid month");
}

#[test]
fn error_messages_for_users() {
    assert_eq!(DomainError::NotInitialized.to_user_message(), "Set up a master password to continue.");
    assert_eq!(DomainError::AlreadyInitialized.to_user_message(), "Master password is already configured.");
    assert_eq!(DomainError::InvalidPassword.to_user_message(), "Incorrect password.");
    assert_eq!(DomainError::NotFound.to_user_message(), "Note not found.");
    assert_eq!(DomainError::Validation("Bad".to_string()).to_user_message(), "Bad");
    assert_eq!(DomainError::Crypto("tag".to_string()).to_user_message(), "Could not process encrypted data.");
    assert_eq!(CommandError::from(DomainError::Locked).message, "Please unlock the application first.");
}

#[test]
fn metadata_table() {
    let mut meta = MetaStore::new();
    assert_eq!(meta.get_lock_timeout_secs().unwrap(), 600);
    meta.set(KEY_LOCK_TIMEOUT, b"90");
    assert_eq!(meta.get_lock_timeout_secs().unwrap(), 90);
    meta.set(KEY_LOCK_TIMEOUT, b"x");
    assert!(matches!(meta.get_lock_timeout_secs(), Err(DomainError::Storage(_))));
    meta.set(KEY_VAULT_ID, &[0xff, 0xfe]);
    assert!(matches!(meta.get_vault_id(), Err(DomainError::Storage(_))));
    meta.remove(KEY_VAULT_ID);
    assert!(meta.get_vault_id().unwrap().is_none());
    let id = meta.ensure_vault_id().unwrap();
    assert_eq!(meta.ensure_vault_id().unwrap(), id);
    meta.set_sync_drive_file_id("F");
    meta.set_sync_drive_etag("E");
    assert_eq!(meta.get_sync_drive_file_id().unwrap(), Some("F".to_string()));
    meta.clear_sync_credentials();
    assert!(meta.get(KEY_SYNC_DRIVE_FILE_ID).is_none());
    assert!(meta.get(KEY_SYNC_DRIVE_ETAG).is_none());
    assert_eq!(meta.get_vault_id().unwrap(), Some(id));
}

#[test]
fn notes_table() {
    let mut store = NoteStore::new();
    let a = Date { year: 2024, month: 1, day: 1 };
    let b = Date { year: 2025, month: 1, day: 1 };
    store.create(record("a", a)).unwrap();
    store.create(record("b", b)).unwrap();
    match store.create(record("a", b)) {
        Err(DomainError::Storage(m)) => assert_eq!(m, "UNIQUE constraint failed: notes.id"),
        other => panic!("unexpected {:?}", other),
    }
    let all = store.list_all();
    assert_eq!(all[0].id, "b");
    assert_eq!(all[1].id, "a");
    let future = store.list_future(a);
    assert_eq!(future.len(), 1);
    assert_eq!(store.get_by_date(b).unwrap().id, "b");
    assert!(matches!(store.update(record("zz", a)), Err(DomainError::NotFound)));
    let mut changed = record("a", b);
    changed.is_done = true;
    store.update(changed).unwrap();
    assert!(!store.get_by_id("a").unwrap().is_done);
    assert_eq!(store.list_for_month(2025, 1).unwrap().len(), 2);
    assert!(matches!(store.list_for_month(2025, 13), Err(DomainError::Validation(_))));
    assert_eq!(store.list_by_month_day(1, 1).len(), 2);
    store.delete("a").unwrap();
    assert!(matches!(store.delete("a"), Err(DomainError::NotFound)));
}

#[test]
fn row_is_read_into_a_record() {
    let r = record_from_row(
        "67E55044-10B1-426F-9247-BB680E5FE0C8".to_string(),
        "2024-05-30",
        vec![1],
        vec![2],
        vec![3],
        1,
        0,
        Some(4),
        "2024-05-30T10:00:00+02:00",
        "1970-01-01T00:00:00Z",
    )
    .unwrap();
    assert_eq!(r.id, "67e55044-10b1-426f-9247-bb680e5fe0c8");
    assert_eq!(r.entry_date, Date { year: 2024, month: 5, day: 30 });
    assert_eq!(r.title_enc, vec![1]);
    assert!(r.is_favorite);
    assert!(!r.is_done);
    assert_eq!(r.mood, Some(4));
    assert_eq!(r.created_at, 1717056000000000000);
    assert_eq!(r.updated_at, 0);
}

#[test]
fn bad_row_columns_are_storage_errors() {
    let row = |id: &str, day: &str, mood: Option<i64>, created: &str| {
        record_from_row(id.to_string(), day, vec![], vec![], vec![], 0, 1, mood, created, "2024-01-01T00:00:00Z")
    };
    let good_id = "67e55044-10b1-426f-9247-bb680e5fe0c8";
    assert!(matches!(row("not-a-uuid", "2024-05-30", None, "2024-01-01T00:00:00Z"), Err(DomainError::Storage(_))));
    assert!(matches!(row(good_id, "2024-02-30", None, "2024-01-01T00:00:00Z"), Err(DomainError::Storage(_))));
    match row(good_id, "2024-05-30", Some(300), "2024-01-01T00:00:00Z") {
        Err(DomainError::Storage(m)) => assert_eq!(m, "Integer 300 out of range at index 7"),
        other => panic!("unexpected {:?}", other),
    }
    match row(good_id, "2024-05-30", Some(-1), "2024-01-01T00:00:00Z") {
        Err(DomainError::Storage(m)) => assert_eq!(m, "Integer -1 out of range at index 7"),
        other => panic!("unexpected {:?}", other),
    }
    match row("not-a-uuid", "2024-05-30", None, "2024-01-01T00:00:00Z") {
        Err(DomainError::Storage(m)) => assert!(m.starts_with("Conversion error from type Text at index: 0, ")),
        other => panic!("unexpected {:?}", other),
    }
    match row(good_id, "2024-05-30", None, "yesterday") {
        Err(DomainError::Storage(m)) => assert!(m.starts_with("Conversion error from type Text at index: 8, ")),
        other => panic!("unexpected {:?}", other),
    }
    assert!(matches!(row(good_id, "2024-05-30", None, "yesterday"), Err(DomainError::Storage(_))));
    match row(good_id, "2024-05-30", None, "3000-01-01T00:00:00Z") {
        Err(DomainError::Storage(m)) => assert_eq!(m, "Conversion error from type Text at index: 8, Stored time is out of range."),
        other => panic!("unexpected {:?}", other),
    }
    let ok = row(good_id, "2024-05-30", None, "2024-01-01T00:00:00Z").unwrap();
    assert!(ok.is_done);
    assert_eq!(ok.mood, None);
}

#[test]
fn days_are_written_with_four_digit_years_and_signs_beyond() {
    let note = |year: i32| Note {
        id: "x".to_string(),
        entry_date: Date { year, month: 3, day: 7 },
        title: String::new(),
        content: String::new(),
        tags: vec![],
        is_favorite: false,
        is_done: false,
        mood: None,
        created_at: 0,
        updated_at: 0,
    };
    assert_eq!(NoteService::<AesGcmCryptoProvider>::to_response(&note(2024)).entry_date, "2024-03-07");
    assert_eq!(NoteService::<AesGcmCryptoProvider>::to_response(&note(5)).entry_date, "0005-03-07");
    assert_eq!(NoteService::<AesGcmCryptoProvider>::to_response(&note(12345)).entry_date, "+12345-03-07");
    assert_eq!(NoteService::<AesGcmCryptoProvider>::to_response(&note(-3)).entry_date, "-0003-03-07");
}
