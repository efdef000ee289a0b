use locked_calendar::auth_service::SessionKey;
use locked_calendar::calendar::Date;
use locked_calendar::commands::{map_err, nonblank_query};
use locked_calendar::crypto::AesGcmCryptoProvider;
use locked_calendar::errors::DomainError;
use locked_calendar::export_service::ExportService;
use locked_calendar::note_service::NoteService;
use locked_calendar::store::Database;

#[test]
fn export_lists_decrypted_notes_latest_first() {
    let mut db = Database::new();
    let notes = NoteService::new(AesGcmCryptoProvider::new());
    let session = Some(SessionKey([9u8; 32]));
    notes
        .save(&mut db, &session, None, Date { year: 2024, month: 1, day: 2 }, "Early".to_string(), "a".to_string(), vec![], false)
        .unwrap();
    notes
        .save(&mut db, &session, None, Date { year: 2024, month: 3, day: 4 }, "Late".to_string(), "b".to_string(), vec!["t".to_string()], true)
        .unwrap();
    let export = ExportService::new(AesGcmCryptoProvider::new());
    let p = export.export_payload_with(&db, &session, 0).unwrap();
    assert_eq!(p.version, 1);
    assert_eq!(p.exported_at, "1970-01-01T00:00:00+00:00");
    assert_eq!(p.notes.len(), 2);
    assert_eq!(p.notes[0].title, "Late");
    assert_eq!(p.notes[0].entry_date, "2024-03-04");
    assert_eq!(p.notes[0].tags, vec!["t"]);
    assert!(p.notes[0].is_favorite);
    assert!(!p.notes[0].is_done);
    assert_eq!(p.notes[0].mood, None);
    assert_eq!(p.notes[1].title, "Early");
}

#[test]
fn export_carries_done_mark_and_mood() {
    let mut db = Database::new();
    let notes = NoteService::new(AesGcmCryptoProvider::new());
    let session = Some(SessionKey([9u8; 32]));
    let saved = notes
        .save(&mut db, &session, None, Date { year: 2024, month: 6, day: 1 }, "Day".to_string(), "".to_string(), vec![], false)
        .unwrap();
    let mut record = db.notes.get_by_id(&saved.id).unwrap();
    record.is_done = true;
    record.mood = Some(4);
    db.notes.delete(&saved.id).unwrap();
    db.notes.create(record).unwrap();
    let export = ExportService::new(AesGcmCryptoProvider::new());
    let p = export.export_payload_with(&db, &session, 0).unwrap();
    assert_eq!(p.notes.len(), 1);
    assert!(p.notes[0].is_done);
    assert_eq!(p.notes[0].mood, Some(4));
    assert_eq!(p.notes[0].title, "Day");
}

#[test]
fn export_needs_unlocked_session_and_right_key() {
    let mut db = Database::new();
    let notes = NoteService::new(AesGcmCryptoProvider::new());
    let session = Some(SessionKey([9u8; 32]));
    notes
        .save(&mut db, &session, None, Date { year: 2024, month: 1, day: 2 }, "T".to_string(), "c".to_string(), vec![], false)
        .unwrap();
    let export = ExportService::new(AesGcmCryptoProvider::new());
    assert!(matches!(export.export_payload(&db, &None), Err(DomainError::Locked)));
    assert!(matches!(export.export_payload(&db, &Some(SessionKey([8u8; 32]))), Err(DomainError::Crypto(_))));
    assert_eq!(export.export_payload(&db, &session).unwrap().notes.len(), 1);
}

#[test]
fn command_errors_show_user_messages() {
    assert_eq!(map_err(DomainError::Locked), "Please unlock the application first.");
    assert_eq!(map_err(DomainError::Storage("disk".to_string())), "Could not access local storage.");
    assert_eq!(map_err(DomainError::Sync("Drive down".to_string())), "Drive down");
}

#[test]
fn blank_search_text_is_dropped() {
    assert_eq!(nonblank_query(None), None);
    assert_eq!(nonblank_query(Some(" \t ".to_string())), None);
    assert_eq!(nonblank_query(Some(" hi ".to_string())), Some(" hi ".to_string()));
}
