use base64::Engine;
use locked_calendar::calendar::{Date, Timestamp};
use locked_calendar::entities::EncryptedNoteRecord;
use locked_calendar::errors::DomainError;
use locked_calendar::store::Database;
use locked_calendar::sync::{SyncBundle, SyncNoteRecord, SyncTombstone, SYNC_BUNDLE_VERSION};
use locked_calendar::sync_service::SyncService;

const ID_A: &str = "0f8fad5b-d9cb-469f-a165-70867728950e";
const ID_B: &str = "7c9e6679-7425-40de-944b-e07fc1f90ae7";
const ID_C: &str = "16fd2706-8baf-433b-82eb-8c7fada847da";
const VAULT: &str = "3b241101-e2bb-4255-8caf-4136c566a962";

fn b64(bytes: &[u8]) -> String {
    base64::engine::general_purpose::STANDARD.encode(bytes)
}

fn record(id: &str, title: &[u8], updated_at: Timestamp) -> EncryptedNoteRecord {
    EncryptedNoteRecord {
        id: id.to_string(),
        entry_date: Date { year: 2024, month: 5, day: 30 },
        title_enc: title.to_vec(),
        content_enc: b"content".to_vec(),
        tags_enc: b"tags".to_vec(),
        is_favorite: false,
        is_done: true,
        mood: Some(3),
        created_at: 10,
        updated_at,
    }
}

fn journal_with(records: Vec<EncryptedNoteRecord>) -> Database {
    let mut db = Database::new();
    db.meta.set_kdf_salt(&[7u8; 32]);
    db.meta.set_vault_id(VAULT);
    for r in records {
        db.notes.create(r).unwrap();
    }
    db
}

fn remote_note(id: &str, title: &[u8], updated_at: Timestamp) -> SyncNoteRecord {
    SyncNoteRecord {
        id: id.to_string(),
        entry_date: "2024-05-30".to_string(),
        title_enc: b64(title),
        content_enc: b64(b"remote content"),
        tags_enc: b64(b"remote tags"),
        is_favorite: true,
        is_done: false,
        mood: Some(5),
        created_at: 20,
        updated_at,
    }
}

fn bundle(notes: Vec<SyncNoteRecord>, deleted: Vec<SyncTombstone>) -> SyncBundle {
    SyncBundle {
        version: SYNC_BUNDLE_VERSION,
        vault_id: VAULT.to_string(),
        kdf_salt: b64(&[7u8; 32]),
        notes,
        deleted_ids: deleted,
        synced_at: 0,
    }
}

fn sync_message(e: DomainError) -> String {
    match e {
        DomainError::Sync(m) => m,
        other => panic!("expected a sync error, got {:?}", other),
    }
}

#[test]
fn newer_remote_note_replaces_local_with_its_done_mark_and_mood() {
    let mut db = journal_with(vec![record(ID_A, b"local", 100)]);
    let r = SyncService::merge_remote(&mut db, &bundle(vec![remote_note(ID_A, b"remote", 200)], vec![])).unwrap();
    assert_eq!(r.notes_applied, 1);
    assert_eq!(r.notes_kept_local, 0);
    let stored = db.notes.get_by_id(ID_A).unwrap();
    assert_eq!(stored.title_enc, b"remote".to_vec());
    assert_eq!(stored.updated_at, 200);
    assert!(stored.is_favorite);
    assert!(!stored.is_done);
    assert_eq!(stored.mood, Some(5));
    assert_eq!(stored.created_at, 10);
}

#[test]
fn equal_timestamps_keep_local() {
    let mut db = journal_with(vec![record(ID_A, b"local", 100)]);
    let r = SyncService::merge_remote(&mut db, &bundle(vec![remote_note(ID_A, b"remote", 100)], vec![])).unwrap();
    assert_eq!(r.notes_kept_local, 1);
    assert_eq!(db.notes.get_by_id(ID_A).unwrap().title_enc, b"local".to_vec());
    assert_eq!(db.notes.get_by_id(ID_A).unwrap().mood, Some(3));
}

#[test]
fn unknown_remote_note_is_added_with_its_done_mark_and_mood() {
    let mut db = journal_with(vec![record(ID_A, b"local", 100)]);
    let r = SyncService::merge_remote(&mut db, &bundle(vec![remote_note(ID_B, b"new", 50)], vec![])).unwrap();
    assert_eq!(r.notes_applied, 1);
    let added = db.notes.get_by_id(ID_B).unwrap();
    assert_eq!(added.title_enc, b"new".to_vec());
    assert!(!added.is_done);
    assert_eq!(added.mood, Some(5));
    assert_eq!(db.notes.len(), 2);
}

#[test]
fn older_tombstone_keeps_note_but_is_recorded() {
    let mut db = journal_with(vec![record(ID_A, b"local", 100)]);
    let t = SyncTombstone { id: ID_A.to_string(), deleted_at: 50 };
    let r = SyncService::merge_remote(&mut db, &bundle(vec![], vec![t])).unwrap();
    assert_eq!(r.notes_deleted, 0);
    assert_eq!(r.tombstones_applied, 0);
    assert!(db.notes.get_by_id(ID_A).is_some());
    let ts = SyncService::merge_tombstones_local(&db).unwrap();
    assert_eq!(ts.len(), 1);
    assert_eq!(ts[0].deleted_at, 50);
}

#[test]
fn tombstone_for_unknown_note_counts_as_applied() {
    let mut db = journal_with(vec![record(ID_A, b"local", 100)]);
    let t = SyncTombstone { id: ID_B.to_string(), deleted_at: 50 };
    let r = SyncService::merge_remote(&mut db, &bundle(vec![], vec![t])).unwrap();
    assert_eq!(r.tombstones_applied, 1);
    assert_eq!(r.notes_deleted, 0);
}

#[test]
fn local_tombstone_suppresses_older_remote_note() {
    let mut db = journal_with(vec![]);
    SyncService::record_tombstone_with(&mut db, ID_B, 500).unwrap();
    db.notes.create(record(ID_A, b"x", 1)).unwrap();
    let r = SyncService::merge_remote(&mut db, &bundle(vec![remote_note(ID_B, b"old", 400)], vec![])).unwrap();
    assert_eq!(r.notes_applied, 0);
    assert!(db.notes.get_by_id(ID_B).is_none());
    assert_eq!(SyncService::merge_tombstones_local(&db).unwrap().len(), 1);
}

#[test]
fn newer_remote_note_clears_local_tombstone() {
    let mut db = journal_with(vec![record(ID_A, b"x", 1)]);
    SyncService::record_tombstone_with(&mut db, ID_B, 500).unwrap();
    let r = SyncService::merge_remote(&mut db, &bundle(vec![remote_note(ID_B, b"new", 600)], vec![])).unwrap();
    assert_eq!(r.notes_applied, 1);
    assert!(db.notes.get_by_id(ID_B).is_some());
    assert!(SyncService::merge_tombstones_local(&db).unwrap().is_empty());
}

#[test]
fn unsupported_version_is_refused() {
    let mut db = journal_with(vec![record(ID_A, b"local", 100)]);
    let mut b = bundle(vec![], vec![]);
    b.version = 2;
    let e = SyncService::merge_remote(&mut db, &b).unwrap_err();
    assert_eq!(sync_message(e), "Unsupported sync bundle version: 2");
}

#[test]
fn other_vault_is_refused_with_message() {
    let mut db = journal_with(vec![record(ID_A, b"local", 100)]);
    let mut b = bundle(vec![], vec![]);
    b.vault_id = ID_B.to_string();
    let e = SyncService::merge_remote(&mut db, &b).unwrap_err();
    assert_eq!(
        sync_message(e),
        "This journal belongs to a different vault. Disconnect sync or use the same vault on all devices."
    );
}

#[test]
fn bad_note_id_stops_merge() {
    let mut db = journal_with(vec![record(ID_A, b"local", 100)]);
    let e = SyncService::merge_remote(&mut db, &bundle(vec![remote_note("not-a-uuid", b"x", 5)], vec![])).unwrap_err();
    assert!(sync_message(e).starts_with("Invalid note id in sync bundle: "));
    assert!(SyncService::merge_tombstones_local(&db).unwrap().is_empty());
}

#[test]
fn bad_date_and_bad_base64_are_reported() {
    let mut db = journal_with(vec![record(ID_A, b"local", 100)]);
    let mut n = remote_note(ID_B, b"x", 5);
    n.entry_date = "2024-13-01".to_string();
    let e = SyncService::merge_remote(&mut db, &bundle(vec![n], vec![])).unwrap_err();
    assert!(sync_message(e).starts_with("Invalid entry date in sync bundle: "));

    let mut n = remote_note(ID_B, b"x", 5);
    n.title_enc = "***".to_string();
    let e = SyncService::merge_remote(&mut db, &bundle(vec![n], vec![])).unwrap_err();
    assert!(sync_message(e).starts_with("Invalid title_enc encoding: "));
}

#[test]
fn failure_keeps_earlier_changes_but_not_tombstones() {
    let mut db = journal_with(vec![record(ID_A, b"local", 100)]);
    let t = SyncTombstone { id: ID_B.to_string(), deleted_at: 50 };
    let good = remote_note(ID_A, b"remote", 200);
    let bad = remote_note("nope", b"x", 5);
    assert!(SyncService::merge_remote(&mut db, &bundle(vec![good, bad], vec![t])).is_err());
    assert_eq!(db.notes.get_by_id(ID_A).unwrap().title_enc, b"remote".to_vec());
    assert!(SyncService::merge_tombstones_local(&db).unwrap().is_empty());
}

#[test]
fn empty_journal_with_bad_salt_is_refused() {
    let mut db = Database::new();
    let mut b = bundle(vec![], vec![]);
    b.kdf_salt = "!!".to_string();
    let e = SyncService::merge_remote(&mut db, &b).unwrap_err();
    assert!(sync_message(e).starts_with("Invalid kdf_salt in sync bundle: "));
    assert!(db.meta.get_kdf_salt().is_none());
}

#[test]
fn journal_with_notes_keeps_its_salt() {
    let mut db = journal_with(vec![record(ID_A, b"local", 100)]);
    let mut b = bundle(vec![], vec![]);
    b.kdf_salt = b64(&[1u8; 32]);
    SyncService::adopt_remote_vault_if_empty(&mut db, &b).unwrap();
    assert_eq!(db.meta.get_kdf_salt().unwrap(), vec![7u8; 32]);
}

#[test]
fn bundle_carries_notes_in_base64_and_tombstones() {
    let mut db = journal_with(vec![record(ID_A, b"local", 100)]);
    SyncService::record_tombstone_with(&mut db, ID_B, 42).unwrap();
    SyncService::record_tombstone_with(&mut db, ID_B, 43).unwrap();
    let b = SyncService::build_bundle_with(&mut db, 99).unwrap();
    assert_eq!(b.version, 1);
    assert_eq!(b.vault_id, VAULT);
    assert_eq!(b.kdf_salt, b64(&[7u8; 32]));
    assert_eq!(b.synced_at, 99);
    assert_eq!(b.notes.len(), 1);
    assert_eq!(b.notes[0].entry_date, "2024-05-30");
    assert_eq!(b.notes[0].title_enc, "bG9jYWw=");
    assert_eq!(b.deleted_ids.len(), 1);
    assert_eq!(b.deleted_ids[0].deleted_at, 43);
}

#[test]
fn bundle_needs_a_salt() {
    let mut db = Database::new();
    let e = SyncService::build_bundle_with(&mut db, 1).unwrap_err();
    assert!(matches!(e, DomainError::NotInitialized));
    assert!(db.meta.get_vault_id().unwrap().is_some());
}

#[test]
fn merging_own_bundle_changes_nothing() {
    let mut db = journal_with(vec![record(ID_A, b"a", 100), record(ID_B, b"b", 200)]);
    SyncService::record_tombstone_with(&mut db, "5a1c0b3e-0000-4000-8000-000000000000", 7).unwrap();
    let own = SyncService::build_bundle_with(&mut db, 1).unwrap();
    let r = SyncService::merge_remote(&mut db, &own).unwrap();
    assert_eq!(r.notes_applied, 0);
    assert_eq!(r.notes_kept_local, 2);
    assert_eq!(r.tombstones_applied, 0);
    assert_eq!(db.notes.get_by_id(ID_A).unwrap().title_enc, b"a".to_vec());
    assert_eq!(db.notes.len(), 2);
}

#[test]
fn remote_ids_are_stored_in_canonical_form() {
    let mut db = journal_with(vec![record(ID_A, b"local", 100)]);
    let upper = "7C9E6679-7425-40DE-944B-E07FC1F90AE7";
    let r = SyncService::merge_remote(&mut db, &bundle(vec![remote_note(upper, b"new", 50)], vec![])).unwrap();
    assert_eq!(r.notes_applied, 1);
    assert!(db.notes.get_by_id(ID_B).is_some());
    assert!(db.notes.get_by_id(upper).is_none());
}


#[test]
fn new_device_receives_every_note() {
    let mut db = Database::new();
    let t = SyncTombstone { id: "5a1c0b3e-0000-4000-8000-000000000000".to_string(), deleted_at: 3 };
    let r = SyncService::merge_remote(
        &mut db,
        &bundle(vec![remote_note(ID_A, b"a", 10), remote_note(ID_B, b"b", 20)], vec![t]),
    )
    .unwrap();
    assert_eq!(r.notes_applied, 2);
    assert_eq!(r.tombstones_applied, 1);
    assert_eq!(db.notes.len(), 2);
    assert_eq!(db.notes.records()[0].id, ID_A);
    assert_eq!(db.notes.records()[1].title_enc, b"b".to_vec());
    assert_eq!(db.meta.get_kdf_salt().unwrap(), vec![7u8; 32]);
    assert_eq!(db.meta.get_vault_id().unwrap().unwrap(), VAULT);
}

#[test]
fn note_sent_in_a_bundle_reads_back_the_same() {
    let record = EncryptedNoteRecord {
        id: ID_A.to_string(),
        entry_date: Date { year: 2024, month: 2, day: 29 },
        title_enc: vec![1, 2, 3],
        content_enc: vec![],
        tags_enc: vec![255, 0],
        is_favorite: true,
        is_done: true,
        mood: Some(2),
        created_at: 5,
        updated_at: 7,
    };
    let sent = SyncService::record_to_sync(&record);
    assert_eq!(sent.entry_date, "2024-02-29");
    assert_eq!(sent.title_enc, b64(&[1, 2, 3]));
    let back = SyncService::sync_to_record(&sent).unwrap();
    assert_eq!(back.id, ID_A);
    assert_eq!(back.entry_date, record.entry_date);
    assert_eq!(back.title_enc, record.title_enc);
    assert_eq!(back.content_enc, record.content_enc);
    assert_eq!(back.tags_enc, record.tags_enc);
    assert!(back.is_favorite);
    assert!(back.is_done);
    assert_eq!(back.mood, Some(2));
    assert_eq!((back.created_at, back.updated_at), (5, 7));
}

#[test]
fn bundle_note_ids_are_read_in_canonical_form() {
    let mut sent = SyncService::record_to_sync(&EncryptedNoteRecord {
        id: ID_B.to_string(),
        entry_date: Date { year: 2024, month: 1, day: 1 },
        title_enc: vec![],
        content_enc: vec![],
        tags_enc: vec![],
        is_favorite: false,
        is_done: false,
        mood: None,
        created_at: 0,
        updated_at: 0,
    });
    sent.id = ID_B.to_uppercase();
    assert_eq!(SyncService::sync_to_record(&sent).unwrap().id, ID_B);
}

#[test]
fn merging_the_same_bundle_twice_changes_nothing_more() {
    let mut db = journal_with(vec![record(ID_A, b"local a", 100), record(ID_C, b"local c", 100)]);
    let remote = bundle(
        vec![remote_note(ID_A, b"remote a", 200), remote_note(ID_B, b"remote b", 50)],
        vec![SyncTombstone { id: ID_C.to_string(), deleted_at: 150 }],
    );
    let first = SyncService::merge_remote(&mut db, &remote).unwrap();
    assert_eq!(first.notes_applied, 2);
    assert_eq!(first.notes_deleted, 1);
    let notes_once: Vec<(String, Vec<u8>, Timestamp)> =
        db.notes.records().iter().map(|r| (r.id.clone(), r.title_enc.clone(), r.updated_at)).collect();
    let tombstones_once: Vec<(String, Timestamp)> =
        SyncService::merge_tombstones_local(&db).unwrap().iter().map(|t| (t.id.clone(), t.deleted_at)).collect();

    let second = SyncService::merge_remote(&mut db, &remote).unwrap();
    assert_eq!(second.notes_applied, 0);
    assert_eq!(second.notes_deleted, 0);
    let notes_twice: Vec<(String, Vec<u8>, Timestamp)> =
        db.notes.records().iter().map(|r| (r.id.clone(), r.title_enc.clone(), r.updated_at)).collect();
    let tombstones_twice: Vec<(String, Timestamp)> =
        SyncService::merge_tombstones_local(&db).unwrap().iter().map(|t| (t.id.clone(), t.deleted_at)).collect();
    assert_eq!(notes_twice, notes_once);
    assert_eq!(tombstones_twice, tombstones_once);
    assert_eq!(tombstones_once, vec![(ID_C.to_string(), 150)]);
}

#[test]
fn merging_twice_changes_nothing_when_tombstones_name_bundle_notes() {
    let mut db = journal_with(vec![record(ID_A, b"local a", 100)]);
    let remote = bundle(
        vec![remote_note(ID_A, b"remote a", 200), remote_note(ID_B, b"remote b", 50)],
        vec![
            SyncTombstone { id: ID_A.to_string(), deleted_at: 150 },
            SyncTombstone { id: ID_B.to_string(), deleted_at: 300 },
        ],
    );
    SyncService::merge_remote(&mut db, &remote).unwrap();
    let notes_once: Vec<(String, Vec<u8>, Timestamp)> =
        db.notes.records().iter().map(|r| (r.id.clone(), r.title_enc.clone(), r.updated_at)).collect();
    let tombstones_once: Vec<(String, Timestamp)> =
        SyncService::merge_tombstones_local(&db).unwrap().iter().map(|t| (t.id.clone(), t.deleted_at)).collect();
    assert_eq!(notes_once, vec![(ID_A.to_string(), b"remote a".to_vec(), 200)]);
    assert_eq!(tombstones_once, vec![(ID_B.to_string(), 300)]);

    let second = SyncService::merge_remote(&mut db, &remote).unwrap();
    assert_eq!(second.notes_applied, 0);
    assert_eq!(second.notes_deleted, 0);
    let notes_twice: Vec<(String, Vec<u8>, Timestamp)> =
        db.notes.records().iter().map(|r| (r.id.clone(), r.title_enc.clone(), r.updated_at)).collect();
    let tombstones_twice: Vec<(String, Timestamp)> =
        SyncService::merge_tombstones_local(&db).unwrap().iter().map(|t| (t.id.clone(), t.deleted_at)).collect();
    assert_eq!(notes_twice, notes_once);
    assert_eq!(tombstones_twice, tombstones_once);
}
