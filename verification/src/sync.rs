use vstd::prelude::*;
use crate::calendar::Timestamp;

verus! {

/// The format version of sync bundles that this library reads and writes.
pub const SYNC_BUNDLE_VERSION: u32 = 1;
/// The name of the bundle file in the user's Drive.
pub const SYNC_DRIVE_FILENAME: &'static str = "locked-calendar-sync.json";

/// A record that a note was deleted, and when.
#[derive(Debug)]
pub struct SyncTombstone {
    pub id: String,
    pub deleted_at: Timestamp,
}

pub struct TombstoneView {
    pub id: Seq<char>,
    pub deleted_at: Timestamp,
}

impl View for SyncTombstone {
    type V = TombstoneView;

    open spec fn view(&self) -> TombstoneView {
        TombstoneView { id: self.id@, deleted_at: self.deleted_at }
    }
}

/// The abstract values of a list of tombstones.
pub open spec fn tombstone_views(s: Seq<SyncTombstone>) -> Seq<TombstoneView> {
    s.map_values(|t: SyncTombstone| t@)
}

impl SyncTombstone {
    pub fn duplicate(&self) -> (r: SyncTombstone)
        ensures
            r@ == self@,
    {
        SyncTombstone { id: self.id.clone(), deleted_at: self.deleted_at }
    }
}

/// A stored note as the sync bundle carries it: encrypted fields in
/// standard base64, the day as `YYYY-MM-DD`, with the day's done mark and
/// mood.
#[derive(Debug)]
pub struct SyncNoteRecord {
    pub id: String,
    pub entry_date: String,
    pub title_enc: String,
    pub content_enc: String,
    pub tags_enc: String,
    pub is_favorite: bool,
    pub is_done: bool,
    pub mood: Option<u8>,
    pub created_at: Timestamp,
    pub updated_at: Timestamp,
}

pub struct SyncNoteView {
    pub id: Seq<char>,
    pub entry_date: Seq<char>,
    pub title_enc: Seq<char>,
    pub content_enc: Seq<char>,
    pub tags_enc: Seq<char>,
    pub is_favorite: bool,
    pub is_done: bool,
    pub mood: Option<u8>,
    pub created_at: Timestamp,
    pub updated_at: Timestamp,
}

impl View for SyncNoteRecord {
    type V = SyncNoteView;

    open spec fn view(&self) -> SyncNoteView {
        SyncNoteView {
            id: self.id@,
            entry_date: self.entry_date@,
            title_enc: self.title_enc@,
            content_enc: self.content_enc@,
            tags_enc: self.tags_enc@,
            is_favorite: self.is_favorite,
            is_done: self.is_done,
            mood: self.mood,
            created_at: self.created_at,
            updated_at: self.updated_at,
        }
    }
}

/// Everything one device shares with the others: the vault's identity and
/// key-derivation salt, every stored note and every deletion.
#[derive(Debug)]
pub struct SyncBundle {
    pub version: u32,
    pub vault_id: String,
    /// The key-derivation salt in standard base64.
    pub kdf_salt: String,
    pub notes: Vec<SyncNoteRecord>,
    pub deleted_ids: Vec<SyncTombstone>,
    pub synced_at: Timestamp,
}

/// The abstract value of a bundle.
pub struct BundleView {
    pub version: u32,
    pub vault_id: Seq<char>,
    pub kdf_salt: Seq<char>,
    pub notes: Seq<SyncNoteView>,
    pub deleted: Seq<TombstoneView>,
    pub synced_at: Timestamp,
}

/// The abstract values of a list of bundle notes.
pub open spec fn sync_note_views(s: Seq<SyncNoteRecord>) -> Seq<SyncNoteView> {
    s.map_values(|n: SyncNoteRecord| n@)
}

impl View for SyncBundle {
    type V = BundleView;

    open spec fn view(&self) -> BundleView {
        BundleView {
            version: self.version,
            vault_id: self.vault_id@,
            kdf_salt: self.kdf_salt@,
            notes: sync_note_views(self.notes@),
            deleted: tombstone_views(self.deleted_ids@),
            synced_at: self.synced_at,
        }
    }
}

/// A bundle read from the remote store, with the version tag it had.
#[derive(Debug)]
pub struct RemoteSyncPayload {
    pub bundle: SyncBundle,
    pub etag: Option<String>,
}

/// What a merge did.
#[derive(Debug)]
pub struct SyncMergeResult {
    /// Remote notes written locally (new, or newer than the local copy).
    pub notes_applied: u32,
    /// Remote notes not newer than the local copy.
    pub notes_kept_local: u32,
    pub tombstones_applied: u32,
    pub notes_deleted: u32,
}

impl SyncMergeResult {
    pub fn new() -> (r: SyncMergeResult)
        ensures
            r.notes_applied == 0 && r.notes_kept_local == 0 && r.tombstones_applied == 0 && r.notes_deleted == 0,
    {
        SyncMergeResult { notes_applied: 0, notes_kept_local: 0, tombstones_applied: 0, notes_deleted: 0 }
    }
}

#[derive(Debug)]
pub struct SyncStatusResponse {
    pub connected: bool,
    pub last_sync_at: Option<String>,
    pub in_progress: bool,
    pub error: Option<String>,
}

#[derive(Debug)]
pub struct SyncNowResponse {
    pub merged: SyncMergeResult,
    pub pushed: bool,
    pub last_sync_at: String,
}

#[derive(Debug)]
pub struct SyncConnectResponse {
    pub connected: bool,
}

} // verus!
