use locked_calendar::auth_service::{AuthService, SessionKey};
use locked_calendar::calendar::Date;
use locked_calendar::crypto::{AesGcmCryptoProvider, CryptoProvider};
use locked_calendar::note_service::NoteService;
use locked_calendar::store::Database;

#[test]
fn reencrypt_all_roundtrip() {
    let mut db = Database::new();
    let crypto = AesGcmCryptoProvider::new();
    let notes = NoteService::new(AesGcmCryptoProvider::new());
    let salt = AesGcmCryptoProvider::generate_salt();
    let key_a = crypto.derive_key("key-a", &salt).unwrap();
    let key_b = crypto.derive_key("key-b", &salt).unwrap();
    let session_a = Some(SessionKey(key_a));
    let date = Date { year: 2024, month: 5, day: 30 };

    notes
        .save(
            &mut db,
            &session_a,
            None,
            date,
            "Title".to_string(),
            "Content".to_string(),
            vec!["tag".to_string()],
            true,
        )
        .unwrap();

    notes.reencrypt_all(&mut db, &key_a, &key_b).unwrap();

    let session_b = Some(SessionKey(key_b));
    let note = notes.get_by_date(&db, &session_b, date).unwrap().unwrap();
    assert_eq!(note.title, "Title");
    assert_eq!(note.content, "Content");
    assert_eq!(note.tags, vec!["tag"]);
    assert!(note.is_favorite);

    assert!(notes.get_by_date(&db, &session_a, date).is_err());
}

#[test]
fn aes_roundtrip() {
    let crypto = AesGcmCryptoProvider::new();
    let salt = vec![1u8; 32];
    let key = crypto.derive_key("test-password", &salt).unwrap();
    let enc = crypto.encrypt("secret note", &key).unwrap();
    let dec = crypto.decrypt(&enc, &key).unwrap();
    assert_eq!(dec, "secret note");
}

#[test]
fn argon2_deterministic_key() {
    let crypto = AesGcmCryptoProvider::new();
    let salt = vec![2u8; 32];
    let k1 = crypto.derive_key("pw", &salt).unwrap();
    let k2 = crypto.derive_key("pw", &salt).unwrap();
    assert_eq!(k1, k2);
}

#[test]
fn password_verify_fails_wrong() {
    let crypto = AesGcmCryptoProvider::new();
    let salt = AesGcmCryptoProvider::generate_salt();
    let hash = crypto.hash_password("correct", &salt).unwrap();
    assert!(!crypto.verify_password("wrong", &hash, &salt).unwrap());
    assert!(crypto.verify_password("correct", &hash, &salt).unwrap());
}
