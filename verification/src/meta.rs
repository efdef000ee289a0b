use vstd::prelude::*;
use vstd::utf8::{decode_utf8, encode_utf8, valid_utf8};
use crate::decimal::{decimal_text, int_error_text, lemma_decimal_roundtrip, parse_u64, parse_u64_spec, u64_to_text};
use crate::errors::{DomainError, DomainResult, ErrorView};
use crate::ids::{new_uuid_text, uuid_canonical};
use crate::sync::{SyncTombstone, TombstoneView, tombstone_views};
use crate::text::{lemma_utf8_roundtrip, text_bytes, text_from_utf8, utf8_error_text};

verus! {

pub const KEY_PASSWORD_HASH: &'static str = "password_hash";
pub const KEY_SALT: &'static str = "salt";
pub const KEY_LOCK_TIMEOUT: &'static str = "lock_timeout_secs";
pub const KEY_VAULT_ID: &'static str = "vault_id";
pub const KEY_SYNC_REFRESH_TOKEN_ENC: &'static str = "sync_refresh_token_enc";
pub const KEY_SYNC_DRIVE_FILE_ID: &'static str = "sync_drive_file_id";
pub const KEY_SYNC_DRIVE_ETAG: &'static str = "sync_drive_etag";

/// The idle time after which the journal locks itself, unless the user
/// chose another.
pub const DEFAULT_LOCK_TIMEOUT_SECS: u64 = 600;

/// The abstract value of the vault's metadata: a key-value table and the
/// list of deletions that sync shares.
pub struct MetaView {
    pub values: Map<Seq<char>, Seq<u8>>,
    pub tombstones: Seq<TombstoneView>,
}

pub open spec fn has_key(e: Seq<(String, Vec<u8>)>, k: Seq<char>) -> bool {
    exists|i: int| 0 <= i < e.len() && #[trigger] e[i].0@ == k
}

pub open spec fn keys_unique(e: Seq<(String, Vec<u8>)>) -> bool {
    forall|i: int, j: int| 0 <= i < e.len() && 0 <= j < e.len() && i != j ==> #[trigger] e[i].0@ != #[trigger] e[j].0@
}

/// The table that a list of distinct key-value pairs holds.
pub open spec fn entries_map(e: Seq<(String, Vec<u8>)>) -> Map<Seq<char>, Seq<u8>> {
    Map::new(|k: Seq<char>| has_key(e, k), |k: Seq<char>| e[choose|i: int| 0 <= i < e.len() && #[trigger] e[i].0@ == k].1@)
}

proof fn lemma_entries_lookup(e: Seq<(String, Vec<u8>)>, i: int)
    requires
        keys_unique(e),
        0 <= i < e.len(),
    ensures
        entries_map(e).contains_key(e[i].0@),
        entries_map(e)[e[i].0@] == e[i].1@,
{
    let k = e[i].0@;
    assert(has_key(e, k));
    let j = choose|j: int| 0 <= j < e.len() && #[trigger] e[j].0@ == k;
    assert(j == i);
}

/// The vault's metadata table.
pub struct MetaStore {
    entries: Vec<(String, Vec<u8>)>,
    tombstones: Vec<SyncTombstone>,
}

impl View for MetaStore {
    type V = MetaView;

    closed spec fn view(&self) -> MetaView {
        MetaView {
            values: entries_map(self.entries@),
            tombstones: tombstone_views(self.tombstones@),
        }
    }
}

impl MetaStore {
    pub closed spec fn wf(&self) -> bool {
        keys_unique(self.entries@)
    }

    /// An empty metadata table.
    pub fn new() -> (r: MetaStore)
        ensures
            r.wf(),
            r@.values == Map::<Seq<char>, Seq<u8>>::empty(),
            r@.tombstones == Seq::<TombstoneView>::empty(),
    {
        let r = MetaStore { entries: Vec::new(), tombstones: Vec::new() };
        proof {
            assert(r@.values =~= Map::<Seq<char>, Seq<u8>>::empty());
            assert(r@.tombstones =~= Seq::<TombstoneView>::empty());
        }
        r
    }

    fn position(&self, key: &str) -> (r: Option<usize>)
        ensures
            match r {
                Some(i) => i < self.entries@.len() && self.entries@[i as int].0@ == key@,
                None => !has_key(self.entries@, key@),
            },
    {
        let k = key.to_string();
        let mut i: usize = 0;
        while i < self.entries.len()
            invariant
                i <= self.entries@.len(),
                k@ == key@,
                forall|j: int| 0 <= j < i ==> #[trigger] self.entries@[j].0@ != key@,
            decreases self.entries.len() - i,
        {
            if self.entries[i].0 == k {
                return Some(i);
            }
            i = i + 1;
        }
        None
    }

    /// The value stored under a key.
    pub fn get(&self, key: &str) -> (r: Option<Vec<u8>>)
        requires
            self.wf(),
        ensures
            match r {
                Some(v) => self@.values.contains_key(key@) && v@ == self@.values[key@],
                None => !self@.values.contains_key(key@),
            },
    {
        match self.position(key) {
            Some(i) => {
                proof {
                    lemma_entries_lookup(self.entries@, i as int);
                }
                Some(self.entries[i].1.clone())
            },
            None => None,
        }
    }

    /// Stores a value under a key, replacing any earlier one.
    pub fn set(&mut self, key: &str, value: &[u8])
        requires
            old(self).wf(),
        ensures
            final(self).wf(),
            final(self)@.values == old(self)@.values.insert(key@, value@),
            final(self)@.tombstones == old(self)@.tombstones,
    {
        let ghost before = self.entries@;
        let v = vstd::slice::slice_to_vec(value);
        match self.position(key) {
            Some(i) => {
                let _ = self.entries.remove(i);
                self.entries.insert(i, (key.to_string(), v));
                proof {
                    let after = self.entries@;
                    assert(after =~= before.update(i as int, after[i as int]));
                    assert forall|k: Seq<char>| #[trigger] entries_map(after).contains_key(k) == old(self)@.values.insert(key@, value@).contains_key(k) by {
                        if k != key@ && has_key(before, k) {
                            let j = choose|j: int| 0 <= j < before.len() && #[trigger] before[j].0@ == k;
                            assert(after[j].0@ == k);
                        }
                        if has_key(after, k) && k != key@ {
                            let j = choose|j: int| 0 <= j < after.len() && #[trigger] after[j].0@ == k;
                            assert(before[j].0@ == k);
                        }
                        assert(after[i as int].0@ == key@);
                    }
                    assert(keys_unique(after));
                    assert forall|k: Seq<char>| #[trigger] entries_map(after).contains_key(k) implies entries_map(after)[k] == old(self)@.values.insert(key@, value@)[k] by {
                        let j = choose|j: int| 0 <= j < after.len() && #[trigger] after[j].0@ == k;
                        lemma_entries_lookup(after, j);
                        if k != key@ {
                            assert(j != i);
                            assert(before[j] == after[j]);
                            lemma_entries_lookup(before, j);
                        } else {
                            assert(j == i);
                        }
                    }
                    assert(entries_map(after) =~= old(self)@.values.insert(key@, value@));
                }
            },
            None => {
                self.entries.push((key.to_string(), v));
                proof {
                    let after = self.entries@;
                    assert(after =~= before.push(after[before.len() as int]));
                    assert(keys_unique(after));
                    assert forall|k: Seq<char>| #[trigger] entries_map(after).contains_key(k) == old(self)@.values.insert(key@, value@).contains_key(k) by {
                        if k != key@ && has_key(before, k) {
                            let j = choose|j: int| 0 <= j < before.len() && #[trigger] before[j].0@ == k;
                            assert(after[j].0@ == k);
                        }
                        if has_key(after, k) && k != key@ {
                            let j = choose|j: int| 0 <= j < after.len() && #[trigger] after[j].0@ == k;
                            assert(j < before.len());
                            assert(before[j].0@ == k);
                        }
                        assert(after[before.len() as int].0@ == key@);
                    }
                    assert forall|k: Seq<char>| #[trigger] entries_map(after).contains_key(k) implies entries_map(after)[k] == old(self)@.values.insert(key@, value@)[k] by {
                        let j = choose|j: int| 0 <= j < after.len() && #[trigger] after[j].0@ == k;
                        lemma_entries_lookup(after, j);
                        if k != key@ {
                            assert(j != before.len());
                            assert(before[j] == after[j]);
                            lemma_entries_lookup(before, j);
                        }
                    }
                    assert(entries_map(after) =~= old(self)@.values.insert(key@, value@));
                }
            },
        }
        proof {
            assert(self.tombstones@ == old(self).tombstones@);
        }
    }

    /// Removes the value stored under a key.
    pub fn remove(&mut self, key: &str)
        requires
            old(self).wf(),
        ensures
            final(self).wf(),
            final(self)@.values == old(self)@.values.remove(key@),
            final(self)@.tombstones == old(self)@.tombstones,
    {
        let ghost before = self.entries@;
        match self.position(key) {
            Some(i) => {
                let _ = self.entries.remove(i);
                proof {
                    let after = self.entries@;
                    assert(after =~= before.remove(i as int));
                    assert(keys_unique(after));
                    assert forall|k: Seq<char>| #[trigger] entries_map(after).contains_key(k) == old(self)@.values.remove(key@).contains_key(k) by {
                        if k != key@ && has_key(before, k) {
                            let j = choose|j: int| 0 <= j < before.len() && #[trigger] before[j].0@ == k;
                            assert(j != i);
                            if j < i {
                                assert(after[j].0@ == k);
                            } else {
                                assert(after[j - 1].0@ == k);
                            }
                        }
                        if has_key(after, k) {
                            let j = choose|j: int| 0 <= j < after.len() && #[trigger] after[j].0@ == k;
                            if j < i {
                                assert(before[j].0@ == k);
                            } else {
                                assert(before[j + 1].0@ == k);
                                assert(j + 1 != i);
                            }
                        }
                    }
                    assert forall|k: Seq<char>| #[trigger] entries_map(after).contains_key(k) implies entries_map(after)[k] == old(self)@.values.remove(key@)[k] by {
                        let j = choose|j: int| 0 <= j < after.len() && #[trigger] after[j].0@ == k;
                        lemma_entries_lookup(after, j);
                        if j < i {
                            lemma_entries_lookup(before, j);
                        } else {
                            lemma_entries_lookup(before, j + 1);
                        }
                    }
                    assert(entries_map(after) =~= old(self)@.values.remove(key@));
                }
            },
            None => {
                proof {
                    assert(entries_map(before) =~= old(self)@.values.remove(key@));
                }
            },
        }
    }

    /// Whether a master password has been set up.
    pub fn is_initialized(&self) -> (r: bool)
        requires
            self.wf(),
        ensures
            r == self@.values.contains_key(KEY_PASSWORD_HASH@),
    {
        self.get(KEY_PASSWORD_HASH).is_some()
    }

    /// The idle time before locking, in seconds: the stored decimal text, or
    /// the default when none is stored.
    pub fn get_lock_timeout_secs(&self) -> (r: DomainResult<u64>)
        requires
            self.wf(),
        ensures
            !self@.values.contains_key(KEY_LOCK_TIMEOUT@) ==> r == Ok::<u64, DomainError>(DEFAULT_LOCK_TIMEOUT_SECS),
            self@.values.contains_key(KEY_LOCK_TIMEOUT@) ==> {
                let bytes = self@.values[KEY_LOCK_TIMEOUT@];
                match r {
                    Ok(n) => valid_utf8(bytes) && parse_u64_spec(decode_utf8(bytes)) == Ok::<int, crate::decimal::ParseIntError>(n as int),
                    Err(e) => if !valid_utf8(bytes) {
                        e@ == ErrorView::Storage(utf8_error_text(bytes))
                    } else {
                        parse_u64_spec(decode_utf8(bytes)) is Err
                            && e@ == ErrorView::Storage(int_error_text(parse_u64_spec(decode_utf8(bytes))->Err_0))
                    },
                }
            },
    {
        match self.get(KEY_LOCK_TIMEOUT) {
            Some(bytes) => {
                let s = match text_from_utf8(bytes) {
                    Ok(s) => s,
                    Err(msg) => { return Err(DomainError::Storage(msg)); },
                };
                match parse_u64(s.as_str()) {
                    Ok(n) => Ok(n),
                    Err(e) => Err(DomainError::Storage(e.message())),
                }
            },
            None => Ok(DEFAULT_LOCK_TIMEOUT_SECS),
        }
    }

    /// Stores the idle time before locking, as decimal text.
    pub fn set_lock_timeout_secs(&mut self, secs: u64)
        requires
            old(self).wf(),
        ensures
            final(self).wf(),
            final(self)@.values == old(self)@.values.insert(KEY_LOCK_TIMEOUT@, encode_utf8(decimal_text(secs as nat))),
            final(self)@.tombstones == old(self)@.tombstones,
    {
        let text = u64_to_text(secs);
        let bytes = text_bytes(text.as_str());
        self.set(KEY_LOCK_TIMEOUT, bytes.as_slice());
    }

    /// The vault's key-derivation salt.
    pub fn get_kdf_salt(&self) -> (r: Option<Vec<u8>>)
        requires
            self.wf(),
        ensures
            match r {
                Some(v) => self@.values.contains_key(KEY_SALT@) && v@ == self@.values[KEY_SALT@],
                None => !self@.values.contains_key(KEY_SALT@),
            },
    {
        self.get(KEY_SALT)
    }

    pub fn set_kdf_salt(&mut self, salt: &[u8])
        requires
            old(self).wf(),
        ensures
            final(self).wf(),
            final(self)@.values == old(self)@.values.insert(KEY_SALT@, salt@),
            final(self)@.tombstones == old(self)@.tombstones,
    {
        self.set(KEY_SALT, salt);
    }

    /// The vault's identity, if one was stored.
    pub fn get_vault_id(&self) -> (r: DomainResult<Option<String>>)
        requires
            self.wf(),
        ensures
            match r {
                Ok(Some(id)) => self@.values.contains_key(KEY_VAULT_ID@) && self@.values[KEY_VAULT_ID@] == encode_utf8(id@)
                    && valid_utf8(self@.values[KEY_VAULT_ID@]),
                Ok(None) => !self@.values.contains_key(KEY_VAULT_ID@),
                Err(e) => e@ == ErrorView::Storage(utf8_error_text(self@.values[KEY_VAULT_ID@])) && self@.values.contains_key(KEY_VAULT_ID@)
                    && !valid_utf8(self@.values[KEY_VAULT_ID@]),
            },
    {
        match self.get(KEY_VAULT_ID) {
            Some(bytes) => {
                let ghost b = bytes@;
                match text_from_utf8(bytes) {
                    Ok(s) => {
                        proof {
                            vstd::utf8::decode_utf8_encode_utf8(b);
                        }
                        Ok(Some(s))
                    },
                    Err(msg) => Err(DomainError::Storage(msg)),
                }
            },
            None => Ok(None),
        }
    }

    pub fn set_vault_id(&mut self, id: &str)
        requires
            old(self).wf(),
        ensures
            final(self).wf(),
            final(self)@.values == old(self)@.values.insert(KEY_VAULT_ID@, encode_utf8(id@)),
            final(self)@.tombstones == old(self)@.tombstones,
    {
        let bytes = text_bytes(id);
        self.set(KEY_VAULT_ID, bytes.as_slice());
    }

    /// The vault's identity; a fresh random one is stored first when none is.
    pub fn ensure_vault_id(&mut self) -> (r: DomainResult<String>)
        requires
            old(self).wf(),
        ensures
            final(self).wf(),
            final(self)@.tombstones == old(self)@.tombstones,
            match r {
                Ok(id) => {
                    &&& final(self)@.values.contains_key(KEY_VAULT_ID@)
                    &&& final(self)@.values[KEY_VAULT_ID@] == encode_utf8(id@)
                    &&& old(self)@.values.contains_key(KEY_VAULT_ID@) ==> final(self)@ == old(self)@
                    &&& !old(self)@.values.contains_key(KEY_VAULT_ID@) ==> final(self)@.values == old(self)@.values.insert(KEY_VAULT_ID@, encode_utf8(id@)) && uuid_canonical(id@) == Ok::<Seq<char>, Seq<char>>(id@)
                },
                Err(e) => e@ == ErrorView::Storage(utf8_error_text(old(self)@.values[KEY_VAULT_ID@])) && final(self)@ == old(self)@
                    && old(self)@.values.contains_key(KEY_VAULT_ID@) && !valid_utf8(old(self)@.values[KEY_VAULT_ID@]),
            },
    {
        match self.get_vault_id() {
            Ok(Some(id)) => Ok(id),
            Ok(None) => {
                let id = new_uuid_text();
                self.set_vault_id(id.as_str());
                Ok(id)
            },
            Err(e) => Err(e),
        }
    }

    /// The deletions that sync shares.
    pub fn get_tombstones(&self) -> (r: Vec<SyncTombstone>)
        ensures
            tombstone_views(r@) == self@.tombstones,
    {
        let mut out: Vec<SyncTombstone> = Vec::new();
        let mut i: usize = 0;
        while i < self.tombstones.len()
            invariant
                i <= self.tombstones@.len(),
                out@.len() == i,
                forall|j: int| 0 <= j < i ==> (#[trigger] out@[j])@ == self.tombstones@[j]@,
            decreases self.tombstones.len() - i,
        {
            let t = self.tombstones[i].duplicate();
            out.push(t);
            i = i + 1;
        }
        proof {
            assert(tombstone_views(out@) =~= tombstone_views(self.tombstones@));
        }
        out
    }

    pub fn set_tombstones(&mut self, tombstones: Vec<SyncTombstone>)
        requires
            old(self).wf(),
        ensures
            final(self).wf(),
            final(self)@.values == old(self)@.values,
            final(self)@.tombstones == tombstone_views(tombstones@),
    {
        self.tombstones = tombstones;
    }

    pub fn get_sync_drive_file_id(&self) -> (r: DomainResult<Option<String>>)
        requires
            self.wf(),
        ensures
            match r {
                Ok(Some(id)) => self@.values.contains_key(KEY_SYNC_DRIVE_FILE_ID@) && self@.values[KEY_SYNC_DRIVE_FILE_ID@] == encode_utf8(id@),
                Ok(None) => !self@.values.contains_key(KEY_SYNC_DRIVE_FILE_ID@),
                Err(e) => self@.values.contains_key(KEY_SYNC_DRIVE_FILE_ID@) && !valid_utf8(self@.values[KEY_SYNC_DRIVE_FILE_ID@])
                    && e@ == ErrorView::Storage(utf8_error_text(self@.values[KEY_SYNC_DRIVE_FILE_ID@])),
            },
    {
        self.get_text(KEY_SYNC_DRIVE_FILE_ID)
    }

    pub fn set_sync_drive_file_id(&mut self, id: &str)
        requires
            old(self).wf(),
        ensures
            final(self).wf(),
            final(self)@.values == old(self)@.values.insert(KEY_SYNC_DRIVE_FILE_ID@, encode_utf8(id@)),
            final(self)@.tombstones == old(self)@.tombstones,
    {
        let bytes = text_bytes(id);
        self.set(KEY_SYNC_DRIVE_FILE_ID, bytes.as_slice());
    }

    pub fn get_sync_drive_etag(&self) -> (r: DomainResult<Option<String>>)
        requires
            self.wf(),
        ensures
            match r {
                Ok(Some(tag)) => self@.values.contains_key(KEY_SYNC_DRIVE_ETAG@) && self@.values[KEY_SYNC_DRIVE_ETAG@] == encode_utf8(tag@),
                Ok(None) => !self@.values.contains_key(KEY_SYNC_DRIVE_ETAG@),
                Err(e) => self@.values.contains_key(KEY_SYNC_DRIVE_ETAG@) && !valid_utf8(self@.values[KEY_SYNC_DRIVE_ETAG@])
                    && e@ == ErrorView::Storage(utf8_error_text(self@.values[KEY_SYNC_DRIVE_ETAG@])),
            },
    {
        self.get_text(KEY_SYNC_DRIVE_ETAG)
    }

    pub fn set_sync_drive_etag(&mut self, tag: &str)
        requires
            old(self).wf(),
        ensures
            final(self).wf(),
            final(self)@.values == old(self)@.values.insert(KEY_SYNC_DRIVE_ETAG@, encode_utf8(tag@)),
            final(self)@.tombstones == old(self)@.tombstones,
    {
        let bytes = text_bytes(tag);
        self.set(KEY_SYNC_DRIVE_ETAG, bytes.as_slice());
    }

    /// Forgets the Drive connection: refresh token, file id and etag.
    pub fn clear_sync_credentials(&mut self)
        requires
            old(self).wf(),
        ensures
            final(self).wf(),
            final(self)@.values == old(self)@.values.remove(KEY_SYNC_REFRESH_TOKEN_ENC@).remove(KEY_SYNC_DRIVE_FILE_ID@).remove(KEY_SYNC_DRIVE_ETAG@),
            final(self)@.tombstones == old(self)@.tombstones,
    {
        self.remove(KEY_SYNC_REFRESH_TOKEN_ENC);
        self.remove(KEY_SYNC_DRIVE_FILE_ID);
        self.remove(KEY_SYNC_DRIVE_ETAG);
    }

    /// A value stored as UTF-8 text.
    fn get_text(&self, key: &str) -> (r: DomainResult<Option<String>>)
        requires
            self.wf(),
        ensures
            match r {
                Ok(Some(s)) => self@.values.contains_key(key@) && self@.values[key@] == encode_utf8(s@),
                Ok(None) => !self@.values.contains_key(key@),
                Err(e) => self@.values.contains_key(key@) && !valid_utf8(self@.values[key@])
                    && e@ == ErrorView::Storage(utf8_error_text(self@.values[key@])),
            },
    {
        match self.get(key) {
            Some(bytes) => {
                let ghost b = bytes@;
                match text_from_utf8(bytes) {
                    Ok(s) => {
                        proof {
                            vstd::utf8::decode_utf8_encode_utf8(b);
                        }
                        Ok(Some(s))
                    },
                    Err(msg) => Err(DomainError::Storage(msg)),
                }
            },
            None => Ok(None),
        }
    }
}

/// Storing an idle time and reading it back gives the same time.
pub proof fn lemma_lock_timeout_roundtrip(secs: u64)
    ensures
        valid_utf8(encode_utf8(decimal_text(secs as nat))),
        parse_u64_spec(decode_utf8(encode_utf8(decimal_text(secs as nat)))) == Ok::<int, crate::decimal::ParseIntError>(secs as int),
{
    lemma_utf8_roundtrip(decimal_text(secs as nat));
    lemma_decimal_roundtrip(secs);
}

} // verus!
