use base64::Engine;
use chrono::TimeZone;
use locked_calendar::auth_service::{AuthService, SessionKey};
use locked_calendar::calendar::{Date, Timestamp};
use locked_calendar::crypto::AesGcmCryptoProvider;
use locked_calendar::note_service::NoteService;
use locked_calendar::store::Database;
use locked_calendar::sync::{SyncBundle, SyncTombstone, SYNC_BUNDLE_VERSION};
use locked_calendar::sync_service::SyncService;

fn b64(bytes: &[u8]) -> String {
    base64::engine::general_purpose::STANDARD.encode(bytes)
}

fn at(y: i32, m: u32, d: u32) -> Timestamp {
    chrono::Utc.with_ymd_and_hms(y, m, d, 0, 0, 0).unwrap().timestamp_nanos_opt().unwrap()
}

/// Sets up the master password and the vault id; gives the vault id and
/// the session key.
fn setup_vault(db: &mut Database, password: &str) -> (String, SessionKey) {
    let auth = AuthService::new(AesGcmCryptoProvider::new());
    let key = auth.setup_master_password(db, password).unwrap();
    (db.meta.ensure_vault_id().unwrap(), key)
}

fn save_note(db: &mut Database, key: SessionKey, title: &str, updated_at: Timestamp) {
    let notes = NoteService::new(AesGcmCryptoProvider::new());
    let session = Some(key);
    let date = Date { year: 2024, month: 5, day: 30 };
    let saved = notes
        .save(db, &session, None, date, title.to_string(), "body".to_string(), vec![], false)
        .unwrap();
    let mut record = db.notes.get_by_id(&saved.id).unwrap();
    record.updated_at = updated_at;
    db.notes.update(record).unwrap();
}

fn random_uuid() -> String {
    uuid::Uuid::new_v4().to_string()
}

#[test]
fn remote_newer_overwrites_local() {
    let mut db = Database::new();
    let (vault_id, key) = setup_vault(&mut db, "password1");
    save_note(&mut db, key, "local", at(2024, 1, 1));

    let mut remote = SyncService::build_bundle(&mut db).unwrap();
    remote.notes[0].title_enc = b64(b"remote ciphertext");
    remote.notes[0].updated_at = at(2025, 1, 1);

    let result = SyncService::merge_remote(&mut db, &remote).unwrap();
    assert_eq!(result.notes_applied, 1);

    let rebuilt = SyncService::build_bundle(&mut db).unwrap();
    assert_eq!(rebuilt.notes[0].title_enc, remote.notes[0].title_enc);
    let _ = vault_id;
}

#[test]
fn local_newer_kept_when_remote_older() {
    let mut db = Database::new();
    let (_, key) = setup_vault(&mut db, "password1");
    save_note(&mut db, key, "local", at(2025, 1, 1));

    let local = SyncService::build_bundle(&mut db).unwrap();
    let mut remote = SyncService::build_bundle(&mut db).unwrap();
    remote.notes[0].title_enc = b64(b"old remote");
    remote.notes[0].updated_at = at(2024, 1, 1);

    let result = SyncService::merge_remote(&mut db, &remote).unwrap();
    assert_eq!(result.notes_kept_local, 1);
    assert_eq!(local.notes[0].title_enc, SyncService::build_bundle(&mut db).unwrap().notes[0].title_enc);
}

#[test]
fn tombstone_deletes_when_newer() {
    let mut db = Database::new();
    let (vault_id, key) = setup_vault(&mut db, "password1");
    save_note(&mut db, key, "note", at(2024, 1, 1));
    let note_id = SyncService::build_bundle(&mut db).unwrap().notes[0].id.clone();

    let remote = SyncBundle {
        version: SYNC_BUNDLE_VERSION,
        vault_id,
        kdf_salt: b64(&db.meta.get_kdf_salt().unwrap()),
        notes: vec![],
        deleted_ids: vec![SyncTombstone { id: note_id, deleted_at: at(2025, 1, 1) }],
        synced_at: chrono::Utc::now().timestamp_nanos_opt().unwrap(),
    };

    let result = SyncService::merge_remote(&mut db, &remote).unwrap();
    assert_eq!(result.notes_deleted, 1);
    assert!(db.notes.list_all().is_empty());
}

#[test]
fn vault_mismatch_rejected_when_local_has_notes() {
    let mut db = Database::new();
    let (_, key) = setup_vault(&mut db, "password1");
    save_note(&mut db, key, "note", at(2024, 1, 1));

    let remote = SyncBundle {
        version: SYNC_BUNDLE_VERSION,
        vault_id: random_uuid(),
        kdf_salt: b64(&[1u8; 32]),
        notes: vec![],
        deleted_ids: vec![],
        synced_at: chrono::Utc::now().timestamp_nanos_opt().unwrap(),
    };

    assert!(SyncService::merge_remote(&mut db, &remote).is_err());
}

#[test]
fn empty_local_adopts_remote_salt() {
    let mut db = Database::new();
    setup_vault(&mut db, "password1");

    let remote = SyncBundle {
        version: SYNC_BUNDLE_VERSION,
        vault_id: random_uuid(),
        kdf_salt: b64(&[9u8; 32]),
        notes: vec![],
        deleted_ids: vec![],
        synced_at: chrono::Utc::now().timestamp_nanos_opt().unwrap(),
    };

    SyncService::merge_remote(&mut db, &remote).unwrap();
    let salt = db.meta.get_kdf_salt().unwrap();
    assert_eq!(salt, vec![9u8; 32]);
    assert_eq!(db.meta.get_vault_id().unwrap().unwrap(), remote.vault_id);
}
