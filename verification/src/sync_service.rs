use vstd::prelude::*;
use vstd::utf8::{decode_utf8, encode_utf8, valid_utf8};
use crate::calendar::{Date, Timestamp, date_parse, date_text, format_date, now, parse_ymd, valid_date};
use crate::decimal::{decimal_text, u64_to_text};
use crate::encoding::{b64_decode, b64_decoded, b64_encode, b64_encoded};
use crate::entities::{EncryptedNoteRecord, RecordView};
use crate::errors::{DomainError, DomainResult, ErrorView};
use crate::ids::{canonical_uuid, uuid_canonical};
use crate::meta::{KEY_SALT, KEY_VAULT_ID, MetaView};
use crate::store::{Database, dates_desc, has_id, ids_unique, record_views, synced_record};
use crate::sync::{
    BundleView, SYNC_BUNDLE_VERSION, SyncBundle, SyncMergeResult, SyncNoteRecord, SyncNoteView,
    SyncTombstone, TombstoneView, sync_note_views, tombstone_views,
};
use crate::text::utf8_error_text;

verus! {

broadcast use vstd::seq_lib::group_to_multiset_ensures;

/// The ids of a list of stored notes.
pub open spec fn record_ids(s: Seq<RecordView>) -> Seq<Seq<char>> {
    s.map_values(|r: RecordView| r.id)
}

/// The ids of a list of tombstones.
pub open spec fn tombstone_ids(s: Seq<TombstoneView>) -> Seq<Seq<char>> {
    s.map_values(|t: TombstoneView| t.id)
}

/// `i` is the first position of `id`.
pub open spec fn is_first(ids: Seq<Seq<char>>, id: Seq<char>, i: int) -> bool {
    &&& 0 <= i < ids.len()
    &&& ids[i] == id
    &&& forall|j: int| 0 <= j < i ==> ids[j] != id
}

/// `i` is the last position of `id`.
pub open spec fn is_last(ids: Seq<Seq<char>>, id: Seq<char>, i: int) -> bool {
    &&& 0 <= i < ids.len()
    &&& ids[i] == id
    &&& forall|j: int| i < j < ids.len() ==> ids[j] != id
}

/// The first position of `id` in a list of ids.
pub open spec fn first_pos(ids: Seq<Seq<char>>, id: Seq<char>) -> Option<int> {
    if exists|i: int| is_first(ids, id, i) {
        Some(choose|i: int| is_first(ids, id, i))
    } else {
        None
    }
}

/// The last position of `id` in a list of ids.
pub open spec fn last_pos(ids: Seq<Seq<char>>, id: Seq<char>) -> Option<int> {
    if exists|i: int| is_last(ids, id, i) {
        Some(choose|i: int| is_last(ids, id, i))
    } else {
        None
    }
}

pub proof fn lemma_first_pos(ids: Seq<Seq<char>>, id: Seq<char>, i: int)
    requires
        is_first(ids, id, i),
    ensures
        first_pos(ids, id) == Some(i),
{
    let k = choose|k: int| is_first(ids, id, k);
    assert(is_first(ids, id, k));
    if k < i {
        assert(ids[k] != id);
    } else if i < k {
        assert(ids[i] != id);
    }
}

pub proof fn lemma_first_pos_none(ids: Seq<Seq<char>>, id: Seq<char>)
    requires
        forall|j: int| 0 <= j < ids.len() ==> ids[j] != id,
    ensures
        first_pos(ids, id) is None,
{
    if exists|i: int| is_first(ids, id, i) {
        let k = choose|k: int| is_first(ids, id, k);
        assert(ids[k] == id);
    }
}

pub proof fn lemma_last_pos(ids: Seq<Seq<char>>, id: Seq<char>, i: int)
    requires
        is_last(ids, id, i),
    ensures
        last_pos(ids, id) == Some(i),
{
    let k = choose|k: int| is_last(ids, id, k);
    assert(is_last(ids, id, k));
    if k < i {
        assert(ids[i] != id);
    } else if i < k {
        assert(ids[k] != id);
    }
}

pub proof fn lemma_last_pos_none(ids: Seq<Seq<char>>, id: Seq<char>)
    requires
        forall|j: int| 0 <= j < ids.len() ==> ids[j] != id,
    ensures
        last_pos(ids, id) is None,
{
    if exists|i: int| is_last(ids, id, i) {
        let k = choose|k: int| is_last(ids, id, k);
        assert(ids[k] == id);
    }
}

/// In a list whose ids are unique, a note's position is the first
/// position of its id.
pub proof fn lemma_unique_first(s: Seq<RecordView>, i: int)
    requires
        ids_unique(s),
        0 <= i < s.len(),
    ensures
        first_pos(record_ids(s), s[i].id) == Some(i),
{
    let ids = record_ids(s);
    assert forall|j: int| 0 <= j < i implies ids[j] != s[i].id by {
        assert(s[j].id != s[i].id);
    }
    lemma_first_pos(ids, s[i].id, i);
}

/// A stored note as the bundle carries it.
pub open spec fn sync_view_of(r: RecordView) -> SyncNoteView {
    SyncNoteView {
        id: r.id,
        entry_date: date_text(r.entry_date),
        title_enc: b64_encoded(r.title_enc),
        content_enc: b64_encoded(r.content_enc),
        tags_enc: b64_encoded(r.tags_enc),
        is_favorite: r.is_favorite,
        is_done: r.is_done,
        mood: r.mood,
        created_at: r.created_at,
        updated_at: r.updated_at,
    }
}

/// The stored note that a bundle note stands for, or the error that
/// reading it reports.
pub open spec fn sync_record_of(n: SyncNoteView) -> Result<RecordView, ErrorView> {
    match uuid_canonical(n.id) {
        Err(m) => Err(ErrorView::Sync("Invalid note id in sync bundle: "@ + m)),
        Ok(id) => match date_parse(n.entry_date) {
            Err(m) => Err(ErrorView::Sync("Invalid entry date in sync bundle: "@ + m)),
            Ok(d) => match b64_decoded(n.title_enc) {
                Err(m) => Err(ErrorView::Sync("Invalid title_enc encoding: "@ + m)),
                Ok(t) => match b64_decoded(n.content_enc) {
                    Err(m) => Err(ErrorView::Sync("Invalid content_enc encoding: "@ + m)),
                    Ok(c) => match b64_decoded(n.tags_enc) {
                        Err(m) => Err(ErrorView::Sync("Invalid tags_enc encoding: "@ + m)),
                        Ok(g) => Ok(
                            RecordView {
                                id,
                                entry_date: d,
                                title_enc: t,
                                content_enc: c,
                                tags_enc: g,
                                is_favorite: n.is_favorite,
                                is_done: n.is_done,
                                mood: n.mood,
                                created_at: n.created_at,
                                updated_at: n.updated_at,
                            },
                        ),
                    },
                },
            },
        },
    }
}

/// What a merge has counted so far.
#[verifier::ext_equal]
pub struct MergeTally {
    pub applied: nat,
    pub kept: nat,
    pub tombstones: nat,
    pub deleted: nat,
}

/// The state of a merge between two steps: the notes table, the local
/// notes that it still compares against (as read before the merge, less
/// those deleted), the merged tombstones, and the counts.
#[verifier::ext_equal]
pub struct MergeState {
    pub notes: Seq<RecordView>,
    pub known: Seq<RecordView>,
    pub tombstones: Seq<TombstoneView>,
    pub tally: MergeTally,
}

/// Records a deletion in a tombstone list: the first tombstone with the
/// same id takes the new time; otherwise the tombstone is appended.
pub open spec fn upsert_tombstone(ts: Seq<TombstoneView>, t: TombstoneView) -> Seq<TombstoneView> {
    match first_pos(tombstone_ids(ts), t.id) {
        Some(i) => ts.update(i, TombstoneView { id: ts[i].id, deleted_at: t.deleted_at }),
        None => ts.push(t),
    }
}

/// One remote tombstone. It applies when it is newer than the last local
/// tombstone for its id (as stored before the merge), or when there is
/// none. An applied tombstone deletes the local note it names if it is
/// newer than the note's last change, and is recorded in the merged list.
pub open spec fn tombstone_step(initial: Seq<TombstoneView>, st: MergeState, t: TombstoneView) -> (MergeState, Option<ErrorView>) {
    let newer = match last_pos(tombstone_ids(initial), t.id) {
        Some(i) => t.deleted_at > initial[i].deleted_at,
        None => true,
    };
    if !newer {
        (st, None)
    } else {
        let ts = upsert_tombstone(st.tombstones, t);
        match first_pos(record_ids(st.known), t.id) {
            Some(k) => if t.deleted_at > st.known[k].updated_at {
                match first_pos(record_ids(st.notes), t.id) {
                    Some(i) => (
                        MergeState {
                            notes: st.notes.remove(i),
                            known: st.known.remove(k),
                            tombstones: ts,
                            tally: MergeTally { deleted: st.tally.deleted + 1, tombstones: st.tally.tombstones + 1, ..st.tally },
                        },
                        None,
                    ),
                    None => (st, Some(ErrorView::NotFound)),
                }
            } else {
                (MergeState { tombstones: ts, ..st }, None)
            },
            None => (
                MergeState { tombstones: ts, tally: MergeTally { tombstones: st.tally.tombstones + 1, ..st.tally }, ..st },
                None,
            ),
        }
    }
}

/// The remote tombstones, one after another, up to the first failure.
pub open spec fn tombstone_phase(initial: Seq<TombstoneView>, st: MergeState, ts: Seq<TombstoneView>) -> (MergeState, Option<ErrorView>)
    decreases ts.len(),
{
    if ts.len() == 0 {
        (st, None)
    } else {
        let (next, err) = tombstone_step(initial, st, ts[0]);
        if err is Some {
            (next, err)
        } else {
            tombstone_phase(initial, next, ts.drop_first())
        }
    }
}

/// One remote note. A merged tombstone for its id that is at least as new
/// as the note suppresses it; an older one is dropped. Then the note
/// replaces the local one when it is newer (last write wins), is counted
/// as kept when it is not, and is stored when there is no local note.
pub open spec fn note_step(st: MergeState, n: SyncNoteView) -> (MergeState, Option<ErrorView>) {
    match sync_record_of(n) {
        Err(e) => (st, Some(e)),
        Ok(rec) => {
            let found = first_pos(tombstone_ids(st.tombstones), n.id);
            if found matches Some(i) && st.tombstones[i].deleted_at >= rec.updated_at {
                (st, None)
            } else {
                let ts = if found is Some {
                    st.tombstones.filter(|t: TombstoneView| t.id != n.id)
                } else {
                    st.tombstones
                };
                match first_pos(record_ids(st.known), n.id) {
                    Some(k) => if rec.updated_at > st.known[k].updated_at {
                        match first_pos(record_ids(st.notes), rec.id) {
                            Some(i) => (
                                MergeState {
                                    notes: st.notes.update(i, synced_record(st.notes[i], rec)),
                                    tombstones: ts,
                                    tally: MergeTally { applied: st.tally.applied + 1, ..st.tally },
                                    ..st
                                },
                                None,
                            ),
                            None => (MergeState { tombstones: ts, ..st }, Some(ErrorView::NotFound)),
                        }
                    } else {
                        (MergeState { tombstones: ts, tally: MergeTally { kept: st.tally.kept + 1, ..st.tally }, ..st }, None)
                    },
                    None => if has_id(st.notes, rec.id) {
                        (
                            MergeState { tombstones: ts, ..st },
                            Some(ErrorView::Storage("UNIQUE constraint failed: notes.id"@)),
                        )
                    } else {
                        (
                            MergeState {
                                notes: st.notes.push(rec),
                                tombstones: ts,
                                tally: MergeTally { applied: st.tally.applied + 1, ..st.tally },
                                ..st
                            },
                            None,
                        )
                    },
                }
            }
        },
    }
}

/// The remote notes, one after another, up to the first failure.
pub open spec fn note_phase(st: MergeState, ns: Seq<SyncNoteView>) -> (MergeState, Option<ErrorView>)
    decreases ns.len(),
{
    if ns.len() == 0 {
        (st, None)
    } else {
        let (next, err) = note_step(st, ns[0]);
        if err is Some {
            (next, err)
        } else {
            note_phase(next, ns.drop_first())
        }
    }
}

/// The state a merge starts from.
pub open spec fn merge_start_state(notes: Seq<RecordView>, tombstones: Seq<TombstoneView>) -> MergeState {
    MergeState { notes, known: notes, tombstones, tally: MergeTally { applied: 0, kept: 0, tombstones: 0, deleted: 0 } }
}

/// The tombstones, then the notes, of a bundle merged into the notes table.
pub open spec fn merge_run(notes: Seq<RecordView>, tombstones: Seq<TombstoneView>, remote: BundleView) -> (MergeState, Option<ErrorView>) {
    let (st, err) = tombstone_phase(tombstones, merge_start_state(notes, tombstones), remote.deleted);
    if err is Some {
        (st, err)
    } else {
        note_phase(st, remote.notes)
    }
}

/// The vault id stored in the metadata, or the error reading it reports.
pub open spec fn stored_vault_id(values: Map<Seq<char>, Seq<u8>>) -> Result<Option<Seq<char>>, ErrorView> {
    if !values.contains_key(KEY_VAULT_ID@) {
        Ok(None)
    } else if valid_utf8(values[KEY_VAULT_ID@]) {
        Ok(Some(decode_utf8(values[KEY_VAULT_ID@])))
    } else {
        Err(ErrorView::Storage(utf8_error_text(values[KEY_VAULT_ID@])))
    }
}

pub open spec fn vault_mismatch_message() -> Seq<char> {
    "This journal belongs to a different vault. Disconnect sync or use the same vault on all devices."@
}

/// The metadata once a bundle's vault is adopted: its salt and its id.
pub open spec fn adopted(meta: MetaView, salt: Seq<u8>, vault_id: Seq<char>) -> MetaView {
    MetaView { values: meta.values.insert(KEY_SALT@, salt).insert(KEY_VAULT_ID@, encode_utf8(vault_id)), ..meta }
}

/// The checks before a merge, and the metadata the merge goes on with: a
/// bundle of another version is refused; a journal with notes refuses the
/// bundle of another vault; an empty journal adopts the bundle's vault.
pub open spec fn merge_start(notes: Seq<RecordView>, meta: MetaView, remote: BundleView) -> Result<MetaView, ErrorView> {
    if remote.version != SYNC_BUNDLE_VERSION {
        Err(ErrorView::Sync("Unsupported sync bundle version: "@ + decimal_text(remote.version as nat)))
    } else {
        match stored_vault_id(meta.values) {
            Err(e) => Err(e),
            Ok(local) => if notes.len() > 0 {
                if local matches Some(l) && l != remote.vault_id {
                    Err(ErrorView::Sync(vault_mismatch_message()))
                } else {
                    Ok(meta)
                }
            } else {
                match b64_decoded(remote.kdf_salt) {
                    Err(m) => Err(ErrorView::Sync("Invalid kdf_salt in sync bundle: "@ + m)),
                    Ok(salt) => Ok(adopted(meta, salt, remote.vault_id)),
                }
            },
        }
    }
}

/// The counts of a merge result.
pub open spec fn tally_of(r: SyncMergeResult) -> MergeTally {
    MergeTally {
        applied: r.notes_applied as nat,
        kept: r.notes_kept_local as nat,
        tombstones: r.tombstones_applied as nat,
        deleted: r.notes_deleted as nat,
    }
}

/// The position of the first note with an id.
fn find_record(v: &Vec<EncryptedNoteRecord>, id: &str) -> (r: Option<usize>)
    ensures
        match r {
            Some(i) => first_pos(record_ids(record_views(v@)), id@) == Some(i as int) && i < v@.len(),
            None => first_pos(record_ids(record_views(v@)), id@) is None && !has_id(record_views(v@), id@),
        },
{
    let ghost ids = record_ids(record_views(v@));
    let key = id.to_string();
    let mut i: usize = 0;
    while i < v.len()
        invariant
            i <= v@.len(),
            key@ == id@,
            ids == record_ids(record_views(v@)),
            forall|j: int| 0 <= j < i ==> ids[j] != id@,
        decreases v.len() - i,
    {
        assert(ids[i as int] == v@[i as int].id@);
        if v[i].id == key {
            proof {
                lemma_first_pos(ids, id@, i as int);
            }
            return Some(i);
        }
        i = i + 1;
    }
    proof {
        lemma_first_pos_none(ids, id@);
        if has_id(record_views(v@), id@) {
            let k = choose|k: int| 0 <= k < record_views(v@).len() && #[trigger] record_views(v@)[k].id == id@;
            assert(ids[k] == id@);
        }
    }
    None
}

/// The position of the first tombstone with an id.
fn find_tombstone(v: &Vec<SyncTombstone>, id: &str) -> (r: Option<usize>)
    ensures
        match r {
            Some(i) => first_pos(tombstone_ids(tombstone_views(v@)), id@) == Some(i as int) && i < v@.len(),
            None => first_pos(tombstone_ids(tombstone_views(v@)), id@) is None
                && forall|j: int| 0 <= j < v@.len() ==> (#[trigger] v@[j]).id@ != id@,
        },
{
    let ghost ids = tombstone_ids(tombstone_views(v@));
    let key = id.to_string();
    let mut i: usize = 0;
    while i < v.len()
        invariant
            i <= v@.len(),
            key@ == id@,
            ids == tombstone_ids(tombstone_views(v@)),
            forall|j: int| 0 <= j < i ==> ids[j] != id@,
        decreases v.len() - i,
    {
        assert(ids[i as int] == v@[i as int].id@);
        if v[i].id == key {
            proof {
                lemma_first_pos(ids, id@, i as int);
            }
            return Some(i);
        }
        i = i + 1;
    }
    proof {
        lemma_first_pos_none(ids, id@);
        assert forall|j: int| 0 <= j < v@.len() implies (#[trigger] v@[j]).id@ != id@ by {
            assert(ids[j] == v@[j].id@);
        }
    }
    None
}

/// The position of the last tombstone with an id.
fn find_last_tombstone(v: &Vec<SyncTombstone>, id: &str) -> (r: Option<usize>)
    ensures
        match r {
            Some(i) => last_pos(tombstone_ids(tombstone_views(v@)), id@) == Some(i as int) && i < v@.len(),
            None => last_pos(tombstone_ids(tombstone_views(v@)), id@) is None,
        },
{
    let ghost ids = tombstone_ids(tombstone_views(v@));
    let key = id.to_string();
    let mut found: Option<usize> = None;
    let mut i: usize = 0;
    while i < v.len()
        invariant
            i <= v@.len(),
            key@ == id@,
            ids == tombstone_ids(tombstone_views(v@)),
            match found {
                Some(k) => k < i && ids[k as int] == id@ && forall|j: int| k < j < i ==> ids[j] != id@,
                None => forall|j: int| 0 <= j < i ==> ids[j] != id@,
            },
        decreases v.len() - i,
    {
        assert(ids[i as int] == v@[i as int].id@);
        if v[i].id == key {
            found = Some(i);
        }
        i = i + 1;
    }
    proof {
        match found {
            Some(k) => lemma_last_pos(ids, id@, k as int),
            None => lemma_last_pos_none(ids, id@),
        }
    }
    found
}

/// Records a deletion in a tombstone list (see `upsert_tombstone`).
fn upsert_tombstone_in(ts: &mut Vec<SyncTombstone>, id: &str, deleted_at: Timestamp)
    ensures
        tombstone_views(final(ts)@) == upsert_tombstone(tombstone_views(old(ts)@), TombstoneView { id: id@, deleted_at }),
{
    let ghost before = tombstone_views(ts@);
    match find_tombstone(ts, id) {
        Some(i) => {
            let old_t = ts.remove(i);
            ts.insert(i, SyncTombstone { id: old_t.id, deleted_at });
            proof {
                assert(tombstone_views(ts@) =~= before.update(i as int, TombstoneView { id: before[i as int].id, deleted_at }));
            }
        },
        None => {
            ts.push(SyncTombstone { id: id.to_string(), deleted_at });
            proof {
                assert(tombstone_views(ts@) =~= before.push(TombstoneView { id: id@, deleted_at }));
            }
        },
    }
}

/// The tombstones without those for an id, in order.
fn without_tombstones_for(ts: &Vec<SyncTombstone>, id: &str) -> (r: Vec<SyncTombstone>)
    ensures
        tombstone_views(r@) == tombstone_views(ts@).filter(|t: TombstoneView| t.id != id@),
{
    let ghost views = tombstone_views(ts@);
    let ghost pred = |t: TombstoneView| t.id != id@;
    let key = id.to_string();
    let mut out: Vec<SyncTombstone> = Vec::new();
    let mut i: usize = 0;
    while i < ts.len()
        invariant
            i <= ts@.len(),
            key@ == id@,
            views == tombstone_views(ts@),
            pred == (|t: TombstoneView| t.id != id@),
            tombstone_views(out@) == views.take(i as int).filter(pred),
        decreases ts.len() - i,
    {
        proof {
            assert(views.take(i as int + 1).drop_last() =~= views.take(i as int));
            reveal(Seq::filter);
        }
        if ts[i].id != key {
            let ghost before = out@;
            out.push(ts[i].duplicate());
            proof {
                assert(tombstone_views(out@) =~= tombstone_views(before).push(views[i as int]));
            }
        }
        i = i + 1;
    }
    proof {
        assert(views.take(ts@.len() as int) =~= views);
    }
    out
}

/// A copy of a list of records.
fn copy_records(v: &Vec<EncryptedNoteRecord>) -> (r: Vec<EncryptedNoteRecord>)
    ensures
        record_views(r@) == record_views(v@),
{
    let mut out: Vec<EncryptedNoteRecord> = Vec::new();
    let mut i: usize = 0;
    while i < v.len()
        invariant
            i <= v@.len(),
            out@.len() == i,
            forall|j: int| 0 <= j < i ==> (#[trigger] out@[j])@ == v@[j]@,
        decreases v.len() - i,
    {
        out.push(v[i].duplicate());
        i = i + 1;
    }
    proof {
        assert(record_views(out@) =~= record_views(v@));
    }
    out
}

/// The merge state that the working values of a merge stand for.
pub open spec fn state_of(notes: Seq<RecordView>, known: Seq<EncryptedNoteRecord>, ts: Seq<SyncTombstone>, r: SyncMergeResult) -> MergeState {
    MergeState { notes, known: record_views(known), tombstones: tombstone_views(ts), tally: tally_of(r) }
}

/// After the merge, the vault id is the one stored before, or a fresh one
/// where there was none.
pub open spec fn vault_kept_or_minted(before: Map<Seq<char>, Seq<u8>>, after: Map<Seq<char>, Seq<u8>>) -> bool {
    if before.contains_key(KEY_VAULT_ID@) {
        after == before
    } else {
        exists|v: Seq<char>| uuid_canonical(v) == Ok::<Seq<char>, Seq<char>>(v) && after == before.insert(KEY_VAULT_ID@, encode_utf8(v))
    }
}

/// How a merge that passed its checks ends: the notes table as the run
/// left it; on failure the metadata as it was after the checks, on success
/// the merged tombstones stored and the counts returned.
pub open spec fn merge_finished(
    notes: Seq<RecordView>,
    meta: MetaView,
    remote: BundleView,
    notes_after: Seq<RecordView>,
    meta_after: MetaView,
    r: DomainResult<SyncMergeResult>,
) -> bool {
    let run = merge_run(notes, meta.tombstones, remote);
    &&& notes_after == run.0.notes
    &&& match run.1 {
        Some(e) => r matches Err(x) && x@ == e && meta_after == meta,
        None => {
            &&& r matches Ok(res) && tally_of(res) == run.0.tally
            &&& meta_after.tombstones == run.0.tombstones
            &&& vault_kept_or_minted(meta.values, meta_after.values)
        },
    }
}

/// The notes of a bundle: every stored note once, latest day first.
pub open spec fn bundle_notes(notes: Seq<SyncNoteView>, stored: Seq<RecordView>) -> bool {
    exists|l: Seq<RecordView>|
        #![trigger l.to_multiset()]
        l.to_multiset() == stored.to_multiset() && dates_desc(l) && notes == l.map_values(|x: RecordView| sync_view_of(x))
            && forall|j: int| 0 <= j < l.len() ==> #[trigger] reads_back(l[j])
}

/// The encodings of a stored note read back: its encrypted fields from
/// base64, and its day from `YYYY-MM-DD` where the year has four digits.
pub open spec fn reads_back(r: RecordView) -> bool {
    &&& b64_decoded(b64_encoded(r.title_enc)) == Ok::<Seq<u8>, Seq<char>>(r.title_enc)
    &&& b64_decoded(b64_encoded(r.content_enc)) == Ok::<Seq<u8>, Seq<char>>(r.content_enc)
    &&& b64_decoded(b64_encoded(r.tags_enc)) == Ok::<Seq<u8>, Seq<char>>(r.tags_enc)
    &&& (0 <= r.entry_date.year <= 9999 ==> date_parse(date_text(r.entry_date)) == Ok::<Date, Seq<char>>(r.entry_date))
}

/// A stored note sent in a bundle and read back is the same note, when its
/// encodings read back, its id is a canonical UUID and its year has four
/// digits.
pub proof fn lemma_sync_round_trip(r: RecordView)
    requires
        reads_back(r),
        uuid_canonical(r.id) == Ok::<Seq<char>, Seq<char>>(r.id),
        0 <= r.entry_date.year <= 9999,
    ensures
        sync_record_of(sync_view_of(r)) == Ok::<RecordView, ErrorView>(r),
{
}

/// Runs the tombstone phase of a merge on the working values.
fn apply_tombstones(
    db: &mut Database,
    known: &mut Vec<EncryptedNoteRecord>,
    merged: &mut Vec<SyncTombstone>,
    result: &mut SyncMergeResult,
    initial: &Vec<SyncTombstone>,
    deleted: &Vec<SyncTombstone>,
) -> (r: DomainResult<()>)
    requires
        old(db).wf(),
        deleted@.len() <= u32::MAX,
        old(result).notes_applied == 0 && old(result).notes_kept_local == 0,
        old(result).tombstones_applied == 0 && old(result).notes_deleted == 0,
    ensures
        final(db).wf(),
        final(db).meta == old(db).meta,
        ({
            let run = tombstone_phase(tombstone_views(initial@), state_of(old(db).notes@, old(known)@, old(merged)@, *old(result)), tombstone_views(deleted@));
            &&& state_of(final(db).notes@, final(known)@, final(merged)@, *final(result)) == run.0
            &&& match run.1 {
                None => r is Ok,
                Some(e) => r matches Err(x) && x@ == e,
            }
        }),
        final(result).notes_applied == 0 && final(result).notes_kept_local == 0,
        final(result).tombstones_applied <= deleted@.len() && final(result).notes_deleted <= deleted@.len(),
{
    let ghost init_v = tombstone_views(initial@);
    let ghost dels = tombstone_views(deleted@);
    let ghost start = state_of(db.notes@, known@, merged@, *result);
    let mut i: usize = 0;
    proof {
        assert(dels.skip(0) =~= dels);
    }
    while i < deleted.len()
        invariant
            db.wf(),
            db.meta == old(db).meta,
            i <= deleted@.len(),
            deleted@.len() <= u32::MAX,
            init_v == tombstone_views(initial@),
            dels == tombstone_views(deleted@),
            start == state_of(old(db).notes@, old(known)@, old(merged)@, *old(result)),
            tombstone_phase(init_v, state_of(db.notes@, known@, merged@, *result), dels.skip(i as int)) == tombstone_phase(init_v, start, dels),
            result.notes_applied == 0 && result.notes_kept_local == 0,
            result.tombstones_applied <= i && result.notes_deleted <= i,
        decreases deleted.len() - i,
    {
        let ghost st = state_of(db.notes@, known@, merged@, *result);
        let ghost rest = dels.skip(i as int);
        proof {
            assert(rest[0] == deleted@[i as int]@);
            assert(rest.drop_first() =~= dels.skip(i as int + 1));
        }
        let t = &deleted[i];
        let newer = match find_last_tombstone(initial, t.id.as_str()) {
            Some(k) => t.deleted_at > initial[k].deleted_at,
            None => true,
        };
        if newer {
            match find_record(known, t.id.as_str()) {
                Some(k) => {
                    if t.deleted_at > known[k].updated_at {
                        let ghost before = db.notes@;
                        match db.notes.delete(t.id.as_str()) {
                            Ok(()) => {
                                proof {
                                    let idx = choose|idx: int| 0 <= idx < before.len() && before[idx].id == t.id@ && db.notes@ == before.remove(idx);
                                    lemma_unique_first(before, idx);
                                }
                            },
                            Err(e) => {
                                proof {
                                    assert forall|j: int| 0 <= j < before.len() implies record_ids(before)[j] != t.id@ by {
                                        if record_ids(before)[j] == t.id@ {
                                            assert(before[j].id == t.id@);
                                        }
                                    }
                                    lemma_first_pos_none(record_ids(before), t.id@);
                                    assert(tombstone_step(init_v, st, rest[0]).1 == Some(ErrorView::NotFound));
                                    assert(tombstone_phase(init_v, st, rest) == tombstone_step(init_v, st, rest[0]));
                                    assert(state_of(db.notes@, known@, merged@, *result) =~= st);
                                }
                                return Err(e);
                            },
                        }
                        let ghost kv = known@;
                        let _ = known.remove(k);
                        proof {
                            assert(record_views(known@) =~= record_views(kv).remove(k as int));
                        }
                        result.notes_deleted = result.notes_deleted + 1;
                        result.tombstones_applied = result.tombstones_applied + 1;
                    }
                },
                None => {
                    result.tombstones_applied = result.tombstones_applied + 1;
                },
            }
            upsert_tombstone_in(merged, t.id.as_str(), t.deleted_at);
        }
        proof {
            assert(state_of(db.notes@, known@, merged@, *result) =~= tombstone_step(init_v, st, rest[0]).0);
            assert(tombstone_step(init_v, st, rest[0]).1 is None);
        }
        i = i + 1;
    }
    proof {
        assert(dels.skip(i as int) =~= Seq::<TombstoneView>::empty());
    }
    Ok(())
}

/// Runs the note phase of a merge on the working values.
fn apply_notes(
    db: &mut Database,
    known: &Vec<EncryptedNoteRecord>,
    merged: &mut Vec<SyncTombstone>,
    result: &mut SyncMergeResult,
    notes: &Vec<SyncNoteRecord>,
    bound: Ghost<nat>,
) -> (r: DomainResult<()>)
    requires
        old(db).wf(),
        notes@.len() + bound@ <= u32::MAX,
        old(result).notes_applied == 0 && old(result).notes_kept_local == 0,
        old(result).tombstones_applied <= bound@ && old(result).notes_deleted <= bound@,
    ensures
        final(db).wf(),
        final(db).meta == old(db).meta,
        ({
            let run = note_phase(state_of(old(db).notes@, known@, old(merged)@, *old(result)), sync_note_views(notes@));
            &&& state_of(final(db).notes@, known@, final(merged)@, *final(result)) == run.0
            &&& match run.1 {
                None => r is Ok,
                Some(e) => r matches Err(x) && x@ == e,
            }
        }),
{
    let ghost ns = sync_note_views(notes@);
    let ghost start = state_of(db.notes@, known@, merged@, *result);
    let mut j: usize = 0;
    proof {
        assert(ns.skip(0) =~= ns);
    }
    while j < notes.len()
        invariant
            db.wf(),
            db.meta == old(db).meta,
            j <= notes@.len(),
            notes@.len() + bound@ <= u32::MAX,
            ns == sync_note_views(notes@),
            start == state_of(old(db).notes@, known@, old(merged)@, *old(result)),
            note_phase(state_of(db.notes@, known@, merged@, *result), ns.skip(j as int)) == note_phase(start, ns),
            result.notes_applied + result.notes_kept_local <= j,
            result.tombstones_applied == old(result).tombstones_applied,
            result.notes_deleted == old(result).notes_deleted,
        decreases notes.len() - j,
    {
        let ghost st = state_of(db.notes@, known@, merged@, *result);
        let ghost rest = ns.skip(j as int);
        proof {
            assert(rest[0] == notes@[j as int]@);
            assert(rest.drop_first() =~= ns.skip(j as int + 1));
        }
        let n = &notes[j];
        let rec = match SyncService::sync_to_record(n) {
            Ok(x) => x,
            Err(e) => {
                proof {
                    assert(note_phase(st, rest) == note_step(st, rest[0]));
                }
                return Err(e);
            },
        };
        let found = find_tombstone(merged, n.id.as_str());
        let skip = match found {
            Some(k) => merged[k].deleted_at >= rec.updated_at,
            None => false,
        };
        if !skip {
            if found.is_some() {
                let kept = without_tombstones_for(merged, n.id.as_str());
                *merged = kept;
            }
            match find_record(known, n.id.as_str()) {
                Some(k) => {
                    if rec.updated_at > known[k].updated_at {
                        let ghost before = db.notes@;
                        let ghost rv = rec@;
                        match db.notes.update_synced(rec) {
                            Ok(()) => {
                                proof {
                                    let idx = choose|idx: int| 0 <= idx < before.len() && before[idx].id == rv.id
                                        && db.notes@ == before.update(idx, #[trigger] synced_record(before[idx], rv));
                                    lemma_unique_first(before, idx);
                                }
                                result.notes_applied = result.notes_applied + 1;
                            },
                            Err(e) => {
                                proof {
                                    assert forall|i: int| 0 <= i < before.len() implies record_ids(before)[i] != rv.id by {
                                        if record_ids(before)[i] == rv.id {
                                            assert(before[i].id == rv.id);
                                        }
                                    }
                                    lemma_first_pos_none(record_ids(before), rv.id);
                                    assert(note_phase(st, rest) == note_step(st, rest[0]));
                                    assert(state_of(db.notes@, known@, merged@, *result) =~= note_step(st, rest[0]).0);
                                }
                                return Err(e);
                            },
                        }
                    } else {
                        result.notes_kept_local = result.notes_kept_local + 1;
                    }
                },
                None => {
                    let ghost rv = rec@;
                    match db.notes.create(rec) {
                        Ok(()) => {
                            result.notes_applied = result.notes_applied + 1;
                        },
                        Err(e) => {
                            proof {
                                assert(note_phase(st, rest) == note_step(st, rest[0]));
                                assert(state_of(db.notes@, known@, merged@, *result) =~= note_step(st, rest[0]).0);
                            }
                            return Err(e);
                        },
                    }
                },
            }
        }
        proof {
            assert(state_of(db.notes@, known@, merged@, *result) =~= note_step(st, rest[0]).0);
            assert(note_step(st, rest[0]).1 is None);
        }
        j = j + 1;
    }
    proof {
        assert(ns.skip(j as int) =~= Seq::<SyncNoteView>::empty());
    }
    Ok(())
}

proof fn lemma_salt_key_is_not_vault_key()
    ensures
        KEY_SALT@ != KEY_VAULT_ID@,
{
    reveal_strlit("salt");
    reveal_strlit("vault_id");
    assert(KEY_SALT@.len() != KEY_VAULT_ID@.len());
}

/// A reordering of valid-dated notes has valid dates.
proof fn lemma_dates_valid_reordered(a: Seq<RecordView>, b: Seq<RecordView>)
    requires
        a.to_multiset() == b.to_multiset(),
        crate::store::dates_valid(b),
    ensures
        crate::store::dates_valid(a),
{
    assert forall|i: int| 0 <= i < a.len() implies valid_date(#[trigger] a[i].entry_date) by {
        assert(a.to_multiset().count(a[i]) > 0);
        assert(b.contains(a[i]));
    }
}

/// What a bundle built from the journal holds.
pub open spec fn bundle_of(b: BundleView, notes: Seq<RecordView>, meta_before: MetaView, meta_after: MetaView, now: Timestamp) -> bool {
    &&& b.version == SYNC_BUNDLE_VERSION
    &&& meta_after.values[KEY_VAULT_ID@] == encode_utf8(b.vault_id)
    &&& (stored_vault_id(meta_before.values) matches Ok(Some(l)) ==> b.vault_id == l)
    &&& b.kdf_salt == b64_encoded(meta_before.values[KEY_SALT@])
    &&& bundle_notes(b.notes, notes)
    &&& b.deleted == meta_before.tombstones
    &&& b.synced_at == now
}

/// Merges and shares the journal's encrypted notes with other devices.
pub struct SyncService;

impl SyncService {
    /// A stored note as a bundle carries it. Read back, it gives the note
    /// again when its id is a canonical UUID and its year has four digits.
    pub fn record_to_sync(record: &EncryptedNoteRecord) -> (r: SyncNoteRecord)
        requires
            valid_date(record.entry_date),
        ensures
            r@ == sync_view_of(record@),
            reads_back(record@),
            uuid_canonical(record@.id) == Ok::<Seq<char>, Seq<char>>(record@.id) && 0 <= record.entry_date.year <= 9999
                ==> sync_record_of(r@) == Ok::<RecordView, ErrorView>(record@),
    {
        SyncNoteRecord {
            id: record.id.clone(),
            entry_date: format_date(record.entry_date),
            title_enc: b64_encode(record.title_enc.as_slice()),
            content_enc: b64_encode(record.content_enc.as_slice()),
            tags_enc: b64_encode(record.tags_enc.as_slice()),
            is_favorite: record.is_favorite,
            is_done: record.is_done,
            mood: record.mood,
            created_at: record.created_at,
            updated_at: record.updated_at,
        }
    }

    /// The stored note that a bundle note stands for.
    pub fn sync_to_record(note: &SyncNoteRecord) -> (r: DomainResult<EncryptedNoteRecord>)
        ensures
            match sync_record_of(note@) {
                Ok(v) => r matches Ok(x) && x@ == v && valid_date(x.entry_date),
                Err(e) => r matches Err(x) && x@ == e,
            },
    {
        let id = match canonical_uuid(note.id.as_str()) {
            Ok(s) => s,
            Err(m) => {
                return Err(DomainError::Sync("Invalid note id in sync bundle: ".to_string().concat(m.as_str())));
            },
        };
        let entry_date = match parse_ymd(note.entry_date.as_str()) {
            Ok(d) => d,
            Err(m) => {
                return Err(DomainError::Sync("Invalid entry date in sync bundle: ".to_string().concat(m.as_str())));
            },
        };
        let title_enc = match b64_decode(note.title_enc.as_str()) {
            Ok(v) => v,
            Err(m) => {
                return Err(DomainError::Sync("Invalid title_enc encoding: ".to_string().concat(m.as_str())));
            },
        };
        let content_enc = match b64_decode(note.content_enc.as_str()) {
            Ok(v) => v,
            Err(m) => {
                return Err(DomainError::Sync("Invalid content_enc encoding: ".to_string().concat(m.as_str())));
            },
        };
        let tags_enc = match b64_decode(note.tags_enc.as_str()) {
            Ok(v) => v,
            Err(m) => {
                return Err(DomainError::Sync("Invalid tags_enc encoding: ".to_string().concat(m.as_str())));
            },
        };
        Ok(EncryptedNoteRecord {
            id,
            entry_date,
            title_enc,
            content_enc,
            tags_enc,
            is_favorite: note.is_favorite,
            is_done: note.is_done,
            mood: note.mood,
            created_at: note.created_at,
            updated_at: note.updated_at,
        })
    }

    /// The number of stored notes.
    fn local_note_count(db: &Database) -> (n: usize)
        ensures
            n == db.notes@.len(),
    {
        db.notes.len()
    }

    /// An empty journal takes the bundle's key-derivation salt and vault
    /// id; a journal with notes keeps its own.
    pub fn adopt_remote_vault_if_empty(db: &mut Database, remote: &SyncBundle) -> (r: DomainResult<()>)
        requires
            old(db).wf(),
        ensures
            final(db).wf(),
            final(db).notes@ == old(db).notes@,
            if old(db).notes@.len() > 0 {
                r is Ok && final(db).meta@ == old(db).meta@
            } else {
                match b64_decoded(remote.kdf_salt@) {
                    Err(m) => r matches Err(x) && x@ == ErrorView::Sync("Invalid kdf_salt in sync bundle: "@ + m)
                        && final(db).meta@ == old(db).meta@,
                    Ok(salt) => r is Ok && final(db).meta@ == adopted(old(db).meta@, salt, remote.vault_id@),
                }
            },
    {
        if Self::local_note_count(db) > 0 {
            return Ok(());
        }
        let salt = match b64_decode(remote.kdf_salt.as_str()) {
            Ok(v) => v,
            Err(m) => {
                return Err(DomainError::Sync("Invalid kdf_salt in sync bundle: ".to_string().concat(m.as_str())));
            },
        };
        db.meta.set_kdf_salt(salt.as_slice());
        db.meta.set_vault_id(remote.vault_id.as_str());
        Ok(())
    }

    /// The bundle that this device shares at time `now`: the vault's id
    /// (a fresh one is stored first when there is none) and salt, every
    /// stored note latest day first, and the local tombstones. A journal
    /// without a salt has no master password yet and is refused.
    pub fn build_bundle_with(db: &mut Database, now: Timestamp) -> (r: DomainResult<SyncBundle>)
        requires
            old(db).wf(),
        ensures
            final(db).wf(),
            final(db).notes == old(db).notes,
            final(db).meta@.tombstones == old(db).meta@.tombstones,
            match stored_vault_id(old(db).meta@.values) {
                Err(e) => r matches Err(x) && x@ == e && final(db).meta@ == old(db).meta@,
                Ok(_) => {
                    &&& vault_kept_or_minted(old(db).meta@.values, final(db).meta@.values)
                    &&& if old(db).meta@.values.contains_key(KEY_SALT@) {
                        r matches Ok(b) && bundle_of(b@, old(db).notes@, old(db).meta@, final(db).meta@, now)
                    } else {
                        r matches Err(x) && x@ == ErrorView::NotInitialized
                    }
                },
            },
    {
        let ghost m0 = db.meta@;
        let vault_id = match db.meta.ensure_vault_id() {
            Ok(id) => id,
            Err(e) => {
                return Err(e);
            },
        };
        proof {
            lemma_salt_key_is_not_vault_key();
            if m0.values.contains_key(KEY_VAULT_ID@) {
                crate::text::lemma_utf8_roundtrip(vault_id@);
            }
        }
        let kdf_salt = match db.meta.get_kdf_salt() {
            Some(s) => s,
            None => {
                return Err(DomainError::NotInitialized);
            },
        };
        let records = db.notes.list_all();
        proof {
            lemma_dates_valid_reordered(record_views(records@), db.notes@);
        }
        let mut notes: Vec<SyncNoteRecord> = Vec::new();
        let mut i: usize = 0;
        while i < records.len()
            invariant
                i <= records@.len(),
                crate::store::dates_valid(record_views(records@)),
                notes@.len() == i,
                forall|j: int| 0 <= j < i ==> (#[trigger] notes@[j])@ == sync_view_of(records@[j]@),
                forall|j: int| 0 <= j < i ==> #[trigger] reads_back(record_views(records@)[j]),
            decreases records.len() - i,
        {
            proof {
                assert(record_views(records@)[i as int] == records@[i as int]@);
                assert(valid_date(record_views(records@)[i as int].entry_date));
            }
            notes.push(Self::record_to_sync(&records[i]));
            i = i + 1;
        }
        let deleted_ids = db.meta.get_tombstones();
        let b = SyncBundle {
            version: SYNC_BUNDLE_VERSION,
            vault_id,
            kdf_salt: b64_encode(kdf_salt.as_slice()),
            notes,
            deleted_ids,
            synced_at: now,
        };
        proof {
            let l = record_views(records@);
            assert(sync_note_views(b.notes@) =~= l.map_values(|x: RecordView| sync_view_of(x)));
            assert(bundle_notes(b@.notes, db.notes@));
        }
        Ok(b)
    }

    /// The bundle that this device shares now.
    pub fn build_bundle(db: &mut Database) -> (r: DomainResult<SyncBundle>)
        requires
            old(db).wf(),
        ensures
            final(db).wf(),
            final(db).notes == old(db).notes,
            final(db).meta@.tombstones == old(db).meta@.tombstones,
            match stored_vault_id(old(db).meta@.values) {
                Err(e) => r matches Err(x) && x@ == e && final(db).meta@ == old(db).meta@,
                Ok(_) => {
                    &&& vault_kept_or_minted(old(db).meta@.values, final(db).meta@.values)
                    &&& if old(db).meta@.values.contains_key(KEY_SALT@) {
                        r matches Ok(b) && bundle_of(b@, old(db).notes@, old(db).meta@, final(db).meta@, b.synced_at)
                    } else {
                        r matches Err(x) && x@ == ErrorView::NotInitialized
                    }
                },
            },
    {
        let t = now();
        Self::build_bundle_with(db, t)
    }

    /// Merges a bundle from another device into the journal.
    ///
    /// The bundle must have this library's format version. A journal with
    /// notes refuses a bundle of another vault; an empty journal adopts the
    /// bundle's salt and vault id. Then the bundle's tombstones delete the
    /// local notes they are newer than, and the bundle's notes replace the
    /// local ones they are newer than (last write wins) or are added. A
    /// failure stops the merge where it happened; the merged tombstones are
    /// stored only when the whole bundle was merged.
    pub fn merge_remote(db: &mut Database, remote: &SyncBundle) -> (r: DomainResult<SyncMergeResult>)
        requires
            old(db).wf(),
            remote.notes@.len() + remote.deleted_ids@.len() <= u32::MAX,
        ensures
            final(db).wf(),
            match merge_start(old(db).notes@, old(db).meta@, remote@) {
                Err(e) => r matches Err(x) && x@ == e && final(db).notes@ == old(db).notes@ && final(db).meta@ == old(db).meta@,
                Ok(meta) => merge_finished(old(db).notes@, meta, remote@, final(db).notes@, final(db).meta@, r),
            },
    {
        if remote.version != SYNC_BUNDLE_VERSION {
            let v = u64_to_text(remote.version as u64);
            return Err(DomainError::Sync("Unsupported sync bundle version: ".to_string().concat(v.as_str())));
        }
        let local_vault_id = match db.meta.get_vault_id() {
            Ok(v) => v,
            Err(e) => {
                return Err(e);
            },
        };
        proof {
            if local_vault_id is Some {
                crate::text::lemma_utf8_roundtrip(local_vault_id->0@);
            }
        }
        let local_note_count = Self::local_note_count(db);
        if local_note_count > 0 {
            match &local_vault_id {
                Some(local_id) => {
                    if !(*local_id == remote.vault_id) {
                        return Err(
                            DomainError::Sync(
                                "This journal belongs to a different vault. Disconnect sync or use the same vault on all devices.".to_string(),
                            ),
                        );
                    }
                },
                None => {},
            }
        } else {
            match Self::adopt_remote_vault_if_empty(db, remote) {
                Ok(()) => {},
                Err(e) => {
                    return Err(e);
                },
            }
        }
        let ghost meta1 = db.meta@;
        let ghost notes0 = db.notes@;
        proof {
            assert(merge_start(old(db).notes@, old(db).meta@, remote@) == Ok::<MetaView, ErrorView>(meta1));
        }
        let initial = db.meta.get_tombstones();
        let mut merged = db.meta.get_tombstones();
        let mut known = copy_records(db.notes.records());
        let mut result = SyncMergeResult::new();
        proof {
            assert(state_of(notes0, known@, merged@, result) =~= merge_start_state(notes0, meta1.tombstones));
        }
        match apply_tombstones(db, &mut known, &mut merged, &mut result, &initial, &remote.deleted_ids) {
            Ok(()) => {},
            Err(e) => {
                return Err(e);
            },
        }
        let ghost mid = state_of(db.notes@, known@, merged@, result);
        match apply_notes(db, &known, &mut merged, &mut result, &remote.notes, Ghost(remote.deleted_ids@.len() as nat)) {
            Ok(()) => {},
            Err(e) => {
                return Err(e);
            },
        }
        let ghost run = merge_run(notes0, meta1.tombstones, remote@);
        proof {
            assert(state_of(db.notes@, known@, merged@, result) == run.0);
        }
        db.meta.set_tombstones(merged);
        let ghost before_id = db.meta@;
        match db.meta.ensure_vault_id() {
            Ok(id) => {
                proof {
                    if !meta1.values.contains_key(KEY_VAULT_ID@) {
                        assert(uuid_canonical(id@) == Ok::<Seq<char>, Seq<char>>(id@) && db.meta@.values == meta1.values.insert(KEY_VAULT_ID@, encode_utf8(id@)));
                    }
                }
            },
            Err(e) => {
                proof {
                    vstd::utf8::encode_utf8_valid_utf8(remote.vault_id@);
                    assert(false);
                }
                return Err(e);
            },
        }
        Ok(result)
    }

    /// The tombstones stored locally.
    pub fn merge_tombstones_local(db: &Database) -> (r: DomainResult<Vec<SyncTombstone>>)
        ensures
            r matches Ok(v) && tombstone_views(v@) == db.meta@.tombstones,
    {
        Ok(db.meta.get_tombstones())
    }

    /// Records at time `now` that the note with the given id was deleted.
    pub fn record_tombstone_with(db: &mut Database, id: &str, now: Timestamp) -> (r: DomainResult<()>)
        requires
            old(db).wf(),
        ensures
            final(db).wf(),
            r is Ok,
            final(db).notes == old(db).notes,
            final(db).meta@.values == old(db).meta@.values,
            final(db).meta@.tombstones == upsert_tombstone(old(db).meta@.tombstones, TombstoneView { id: id@, deleted_at: now }),
    {
        let mut tombstones = db.meta.get_tombstones();
        upsert_tombstone_in(&mut tombstones, id, now);
        db.meta.set_tombstones(tombstones);
        Ok(())
    }

    /// Records, at the current time, that the note with the given id was
    /// deleted.
    pub fn record_tombstone(db: &mut Database, id: &str) -> (r: DomainResult<()>)
        requires
            old(db).wf(),
        ensures
            final(db).wf(),
            r is Ok,
            final(db).notes == old(db).notes,
            final(db).meta@.values == old(db).meta@.values,
            exists|t: Timestamp| final(db).meta@.tombstones == upsert_tombstone(old(db).meta@.tombstones, TombstoneView { id: id@, deleted_at: t }),
    {
        let t = now();
        Self::record_tombstone_with(db, id, t)
    }
}

} // verus!
