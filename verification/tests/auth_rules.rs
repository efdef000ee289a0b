use locked_calendar::auth_service::AuthService;
use locked_calendar::calendar::Date;
use locked_calendar::note_service::NoteService;
use locked_calendar::crypto::AesGcmCryptoProvider;
use locked_calendar::errors::DomainError;
use locked_calendar::store::Database;

#[test]
fn unlock_after_setup_gives_the_same_key() {
    let mut db = Database::new();
    let auth = AuthService::new(AesGcmCryptoProvider::new());
    let key = auth.setup_master_password(&mut db, "password1").unwrap();
    assert!(auth.is_initialized(&db).unwrap());
    let again = auth.unlock(&db, "password1").unwrap();
    assert_eq!(key.0, again.0);
}

#[test]
fn setup_is_refused_twice_and_wrong_password_is_refused() {
    let mut db = Database::new();
    let auth = AuthService::new(AesGcmCryptoProvider::new());
    auth.setup_master_password(&mut db, "password1").unwrap();
    assert!(matches!(auth.setup_master_password(&mut db, "password2"), Err(DomainError::AlreadyInitialized)));
    assert!(matches!(auth.unlock(&db, "password2"), Err(DomainError::InvalidPassword)));
}

#[test]
fn short_password_and_missing_setup_are_refused() {
    let mut db = Database::new();
    let auth = AuthService::with_default_crypto();
    match auth.setup_master_password(&mut db, "short") {
        Err(DomainError::Validation(m)) => assert_eq!(m, "Password must be at least 8 characters."),
        other => panic!("unexpected {:?}", other.is_ok()),
    }
    assert!(!auth.is_initialized(&db).unwrap());
    assert!(matches!(auth.unlock(&db, "password1"), Err(DomainError::NotInitialized)));
}

#[test]
fn change_password_with_wrong_current_password_changes_nothing() {
    let mut db = Database::new();
    let auth = AuthService::new(AesGcmCryptoProvider::new());
    let notes = NoteService::new(AesGcmCryptoProvider::new());
    let session = Some(auth.setup_master_password(&mut db, "password1").unwrap());
    let date = Date { year: 2024, month: 5, day: 30 };
    notes
        .save(&mut db, &session, None, date, "Title".into(), "Content".into(), vec![], false)
        .unwrap();
    let salt_before = db.meta.get("salt");
    let hash_before = db.meta.get("password_hash");
    let title_before = db.notes.get_by_date(date).unwrap().title_enc;

    let result = auth.change_password(&mut db, &notes, "wrong", "password2");
    assert!(matches!(result, Err(DomainError::InvalidPassword)));

    assert_eq!(db.meta.get("salt"), salt_before);
    assert_eq!(db.meta.get("password_hash"), hash_before);
    assert_eq!(db.notes.get_by_date(date).unwrap().title_enc, title_before);
    let note = notes.get_by_date(&db, &session, date).unwrap().unwrap();
    assert_eq!(note.title, "Title");
    assert_eq!(note.content, "Content");
}
