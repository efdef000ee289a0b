//! Laws of sync merging: last write wins, deletions propagate, a new
//! device receives every note, a journal's own bundle changes nothing, and
//! merging a bundle a second time changes nothing.

use vstd::prelude::*;
use crate::calendar::Timestamp;
use crate::entities::RecordView;
use crate::errors::ErrorView;
use crate::ids::uuid_canonical;
use crate::store::{dates_desc, has_id, ids_unique, synced_record};
use crate::sync::{BundleView, SyncNoteView, TombstoneView};
use crate::sync_service::{
    MergeState, bundle_notes, first_pos, last_pos, lemma_first_pos, lemma_first_pos_none, lemma_last_pos, lemma_last_pos_none, lemma_unique_first,
    merge_run, merge_start_state, note_phase, note_step, reads_back, record_ids, sync_record_of, sync_view_of,
    tombstone_ids, tombstone_phase, tombstone_step, upsert_tombstone,
};

verus! {

broadcast use vstd::seq_lib::group_to_multiset_ensures;


/// Every note of a bundle reads as a stored note under its own id.
pub open spec fn reads_as_itself(ns: Seq<SyncNoteView>) -> bool {
    forall|j: int| 0 <= j < ns.len() ==> ((#[trigger] sync_record_of(ns[j])) matches Ok(rec) && rec.id == ns[j].id)
}

/// No two notes of a bundle share an id.
pub open spec fn distinct_note_ids(ns: Seq<SyncNoteView>) -> bool {
    forall|i: int, j: int| 0 <= i < ns.len() && 0 <= j < ns.len() && i != j ==> #[trigger] ns[i].id != #[trigger] ns[j].id
}

/// No tombstone names the id.
pub open spec fn no_tombstone_for(ts: Seq<TombstoneView>, x: Seq<char>) -> bool {
    forall|j: int| 0 <= j < ts.len() ==> (#[trigger] ts[j]).id != x
}

proof fn lemma_filter_keeps_absence(ts: Seq<TombstoneView>, y: Seq<char>, x: Seq<char>)
    requires
        no_tombstone_for(ts, x),
    ensures
        no_tombstone_for(ts.filter(|t: TombstoneView| t.id != y), x),
{
    let p = |t: TombstoneView| t.id != y;
    let f = ts.filter(p);
    assert forall|j: int| 0 <= j < f.len() implies (#[trigger] f[j]).id != x by {
        assert(f.contains(f[j]));
        ts.lemma_filter_contains_rev(p, f[j]);
    }
}

/// A note step for another id leaves the note at `p` as it is.
proof fn lemma_note_step_other(st: MergeState, n: SyncNoteView, x: Seq<char>, p: int)
    requires
        ids_unique(st.notes),
        0 <= p < st.notes.len(),
        st.notes[p].id == x,
        sync_record_of(n) matches Ok(rec) && rec.id == n.id,
        n.id != x,
        note_step(st, n).1 is None,
    ensures
        ({
            let next = note_step(st, n).0;
            &&& ids_unique(next.notes)
            &&& p < next.notes.len()
            &&& next.notes[p] == st.notes[p]
            &&& next.known == st.known
            &&& no_tombstone_for(st.tombstones, x) ==> no_tombstone_for(next.tombstones, x)
        }),
{
    let rec = sync_record_of(n)->Ok_0;
    let next = note_step(st, n).0;
    if no_tombstone_for(st.tombstones, x) {
        lemma_filter_keeps_absence(st.tombstones, n.id, x);
    }
    match first_pos(record_ids(st.notes), rec.id) {
        Some(i) => {
            assert(record_ids(st.notes)[i] == rec.id);
            assert(st.notes[i].id == rec.id);
        },
        None => {},
    }
    if next.notes != st.notes {
        if next.notes.len() == st.notes.len() {
            let i = first_pos(record_ids(st.notes), rec.id)->0;
            assert(next.notes == st.notes.update(i, synced_record(st.notes[i], rec)));
            assert forall|a: int, b: int| 0 <= a < next.notes.len() && 0 <= b < next.notes.len() && a != b implies #[trigger] next.notes[a].id != #[trigger] next.notes[b].id by {
                assert(next.notes[a].id == st.notes[a].id);
                assert(next.notes[b].id == st.notes[b].id);
            }
        } else {
            assert(next.notes == st.notes.push(rec));
            assert(!has_id(st.notes, rec.id));
            assert forall|a: int, b: int| 0 <= a < next.notes.len() && 0 <= b < next.notes.len() && a != b implies #[trigger] next.notes[a].id != #[trigger] next.notes[b].id by {
                if a < st.notes.len() && b < st.notes.len() {
                } else if a < st.notes.len() {
                    assert(st.notes[a].id != rec.id);
                } else {
                    assert(st.notes[b].id != rec.id);
                }
            }
        }
    }
}

/// Notes for other ids leave the note at `p` as it is.
proof fn lemma_note_phase_other(st: MergeState, ns: Seq<SyncNoteView>, x: Seq<char>, p: int)
    requires
        ids_unique(st.notes),
        0 <= p < st.notes.len(),
        st.notes[p].id == x,
        reads_as_itself(ns),
        forall|j: int| 0 <= j < ns.len() ==> (#[trigger] ns[j]).id != x,
        note_phase(st, ns).1 is None,
    ensures
        ({
            let out = note_phase(st, ns).0;
            &&& ids_unique(out.notes)
            &&& p < out.notes.len()
            &&& out.notes[p] == st.notes[p]
            &&& out.known == st.known
            &&& no_tombstone_for(st.tombstones, x) ==> no_tombstone_for(out.tombstones, x)
        }),
    decreases ns.len(),
{
    if ns.len() > 0 {
        assert(ns[0].id != x);
        assert(sync_record_of(ns[0]) matches Ok(rec) && rec.id == ns[0].id);
        lemma_note_step_other(st, ns[0], x, p);
        let next = note_step(st, ns[0]).0;
        let rest = ns.drop_first();
        assert forall|j: int| 0 <= j < rest.len() implies ((#[trigger] sync_record_of(rest[j])) matches Ok(rec) && rec.id == rest[j].id) by {
            assert(rest[j] == ns[j + 1]);
        }
        assert forall|j: int| 0 <= j < rest.len() implies (#[trigger] rest[j]).id != x by {
            assert(rest[j] == ns[j + 1]);
        }
        lemma_note_phase_other(next, rest, x, p);
    }
}

/// The step for a note's own id applies last-write-wins to it.
proof fn lemma_note_phase_lww(st: MergeState, ns: Seq<SyncNoteView>, x: Seq<char>, p: int, q: int)
    requires
        ids_unique(st.notes),
        0 <= p < st.notes.len(),
        st.notes[p].id == x,
        first_pos(record_ids(st.known), x) == Some(p),
        st.known[p] == st.notes[p],
        no_tombstone_for(st.tombstones, x),
        reads_as_itself(ns),
        distinct_note_ids(ns),
        0 <= q < ns.len(),
        ns[q].id == x,
        note_phase(st, ns).1 is None,
    ensures
        ({
            let rec = sync_record_of(ns[q])->Ok_0;
            let out = note_phase(st, ns).0;
            &&& p < out.notes.len()
            &&& out.notes[p] == if rec.updated_at > st.notes[p].updated_at {
                synced_record(st.notes[p], rec)
            } else {
                st.notes[p]
            }
        }),
    decreases ns.len(),
{
    let rest = ns.drop_first();
    assert forall|j: int| 0 <= j < rest.len() implies ((#[trigger] sync_record_of(rest[j])) matches Ok(rec) && rec.id == rest[j].id) by {
        assert(rest[j] == ns[j + 1]);
    }
    assert(sync_record_of(ns[0]) matches Ok(rec) && rec.id == ns[0].id);
    if q == 0 {
        let rec = sync_record_of(ns[0])->Ok_0;
        let next = note_step(st, ns[0]).0;
        lemma_first_pos_none(tombstone_ids(st.tombstones), x);
        assert(first_pos(tombstone_ids(st.tombstones), ns[0].id) is None) by {
            assert forall|j: int| 0 <= j < tombstone_ids(st.tombstones).len() implies tombstone_ids(st.tombstones)[j] != x by {
                assert(st.tombstones[j].id != x);
            }
            lemma_first_pos_none(tombstone_ids(st.tombstones), x);
        }
        if rec.updated_at > st.known[p].updated_at {
            lemma_unique_first(st.notes, p);
            assert(next.notes == st.notes.update(p, synced_record(st.notes[p], rec)));
            assert forall|a: int, b: int| 0 <= a < next.notes.len() && 0 <= b < next.notes.len() && a != b implies #[trigger] next.notes[a].id != #[trigger] next.notes[b].id by {
                assert(next.notes[a].id == st.notes[a].id);
                assert(next.notes[b].id == st.notes[b].id);
            }
        }
        assert forall|j: int| 0 <= j < rest.len() implies (#[trigger] rest[j]).id != x by {
            assert(rest[j] == ns[j + 1]);
            assert(ns[j + 1].id != ns[0].id);
        }
        lemma_note_phase_other(next, rest, x, p);
    } else {
        assert(ns[0].id != x) by {
            assert(ns[0].id != ns[q].id);
        }
        lemma_note_step_other(st, ns[0], x, p);
        let next = note_step(st, ns[0]).0;
        assert(distinct_note_ids(rest)) by {
            assert forall|a: int, b: int| 0 <= a < rest.len() && 0 <= b < rest.len() && a != b implies #[trigger] rest[a].id != #[trigger] rest[b].id by {
                assert(rest[a] == ns[a + 1]);
                assert(rest[b] == ns[b + 1]);
            }
        }
        assert(rest[q - 1] == ns[q]);
        lemma_note_phase_lww(next, rest, x, p, q - 1);
    }
}

/// Last write wins: when a bundle without tombstones is merged, a bundle
/// note that has a local counterpart replaces it if it is newer, done mark
/// and mood included, and leaves it as it is otherwise; either way the
/// local note keeps its id and creation time. This holds of bundles whose
/// notes have distinct ids that read back as themselves, when no local
/// tombstone names the note.
pub proof fn lemma_merge_last_write_wins(notes: Seq<RecordView>, ts: Seq<TombstoneView>, remote: BundleView, q: int, p: int)
    requires
        ids_unique(notes),
        remote.deleted.len() == 0,
        reads_as_itself(remote.notes),
        distinct_note_ids(remote.notes),
        0 <= q < remote.notes.len(),
        0 <= p < notes.len(),
        notes[p].id == remote.notes[q].id,
        no_tombstone_for(ts, remote.notes[q].id),
        merge_run(notes, ts, remote).1 is None,
    ensures
        ({
            let rec = sync_record_of(remote.notes[q])->Ok_0;
            let after = merge_run(notes, ts, remote).0.notes;
            &&& p < after.len()
            &&& after[p] == if rec.updated_at > notes[p].updated_at {
                synced_record(notes[p], rec)
            } else {
                notes[p]
            }
            &&& after[p].id == notes[p].id && after[p].created_at == notes[p].created_at
        }),
{
    let st = merge_start_state(notes, ts);
    assert(tombstone_phase(ts, st, remote.deleted) == (st, None::<ErrorView>));
    lemma_unique_first(notes, p);
    assert(sync_record_of(remote.notes[q]) matches Ok(rec) && rec.id == remote.notes[q].id);
    lemma_note_phase_lww(st, remote.notes, notes[p].id, p, q);
}


/// No two tombstones of a list share an id.
pub open spec fn distinct_tombstone_ids(ts: Seq<TombstoneView>) -> bool {
    forall|i: int, j: int| 0 <= i < ts.len() && 0 <= j < ts.len() && i != j ==> #[trigger] ts[i].id != #[trigger] ts[j].id
}

proof fn lemma_remove_keeps_unique(s: Seq<RecordView>, i: int)
    requires
        ids_unique(s),
        0 <= i < s.len(),
    ensures
        ids_unique(s.remove(i)),
{
    let r = s.remove(i);
    assert forall|a: int, b: int| 0 <= a < r.len() && 0 <= b < r.len() && a != b implies #[trigger] r[a].id != #[trigger] r[b].id by {
        let a2 = if a < i { a } else { a + 1 };
        let b2 = if b < i { b } else { b + 1 };
        assert(r[a] == s[a2]);
        assert(r[b] == s[b2]);
    }
}

proof fn lemma_remove_other_keeps(s: Seq<RecordView>, i: int, rec: RecordView)
    requires
        0 <= i < s.len(),
        s.contains(rec),
        s[i].id != rec.id,
    ensures
        s.remove(i).contains(rec),
{
    let k = choose|k: int| 0 <= k < s.len() && s[k] == rec;
    assert(k != i);
    if k < i {
        assert(s.remove(i)[k] == rec);
    } else {
        assert(s.remove(i)[k - 1] == rec);
    }
}

proof fn lemma_remove_keeps_absent(s: Seq<RecordView>, i: int, x: Seq<char>)
    requires
        0 <= i < s.len(),
        !has_id(s, x),
    ensures
        !has_id(s.remove(i), x),
{
    if has_id(s.remove(i), x) {
        let k = choose|k: int| 0 <= k < s.remove(i).len() && #[trigger] s.remove(i)[k].id == x;
        if k < i {
            assert(s[k].id == x);
        } else {
            assert(s[k + 1].id == x);
        }
    }
}

/// A tombstone step for another id keeps the note `rec` where it was, and
/// keeps an absent id absent.
proof fn lemma_tombstone_step_other(initial: Seq<TombstoneView>, st: MergeState, t: TombstoneView, rec: RecordView)
    requires
        ids_unique(st.notes),
        ids_unique(st.known),
        t.id != rec.id,
        tombstone_step(initial, st, t).1 is None,
    ensures
        ({
            let next = tombstone_step(initial, st, t).0;
            &&& ids_unique(next.notes)
            &&& ids_unique(next.known)
            &&& st.notes.contains(rec) ==> next.notes.contains(rec)
            &&& st.known.contains(rec) ==> next.known.contains(rec)
            &&& !has_id(st.notes, rec.id) ==> !has_id(next.notes, rec.id)
        }),
{
    let next = tombstone_step(initial, st, t).0;
    if next.notes != st.notes {
        let k = first_pos(record_ids(st.known), t.id)->0;
        let i = first_pos(record_ids(st.notes), t.id)->0;
        assert(record_ids(st.known)[k] == t.id);
        assert(record_ids(st.notes)[i] == t.id);
        assert(st.known[k].id == t.id);
        assert(st.notes[i].id == t.id);
        lemma_remove_keeps_unique(st.notes, i);
        lemma_remove_keeps_unique(st.known, k);
        if st.notes.contains(rec) {
            lemma_remove_other_keeps(st.notes, i, rec);
        }
        if st.known.contains(rec) {
            lemma_remove_other_keeps(st.known, k, rec);
        }
        if !has_id(st.notes, rec.id) {
            lemma_remove_keeps_absent(st.notes, i, rec.id);
        }
    }
}

proof fn lemma_tombstone_phase_other(initial: Seq<TombstoneView>, st: MergeState, ts: Seq<TombstoneView>, rec: RecordView)
    requires
        ids_unique(st.notes),
        ids_unique(st.known),
        forall|j: int| 0 <= j < ts.len() ==> (#[trigger] ts[j]).id != rec.id,
        tombstone_phase(initial, st, ts).1 is None,
    ensures
        ({
            let out = tombstone_phase(initial, st, ts).0;
            &&& ids_unique(out.notes)
            &&& ids_unique(out.known)
            &&& st.notes.contains(rec) ==> out.notes.contains(rec)
            &&& st.known.contains(rec) ==> out.known.contains(rec)
            &&& !has_id(st.notes, rec.id) ==> !has_id(out.notes, rec.id)
        }),
    decreases ts.len(),
{
    if ts.len() > 0 {
        assert(ts[0].id != rec.id);
        lemma_tombstone_step_other(initial, st, ts[0], rec);
        let rest = ts.drop_first();
        assert forall|j: int| 0 <= j < rest.len() implies (#[trigger] rest[j]).id != rec.id by {
            assert(rest[j] == ts[j + 1]);
        }
        lemma_tombstone_phase_other(initial, tombstone_step(initial, st, ts[0]).0, rest, rec);
    }
}

proof fn lemma_unique_contains_first(s: Seq<RecordView>, rec: RecordView)
    requires
        ids_unique(s),
        s.contains(rec),
    ensures
        first_pos(record_ids(s), rec.id) matches Some(k) && s[k] == rec,
{
    let k = choose|k: int| 0 <= k < s.len() && s[k] == rec;
    lemma_unique_first(s, k);
}

proof fn lemma_tombstone_phase_deletes(initial: Seq<TombstoneView>, st: MergeState, ts: Seq<TombstoneView>, rec: RecordView, q: int)
    requires
        ids_unique(st.notes),
        ids_unique(st.known),
        st.notes.contains(rec),
        st.known.contains(rec),
        distinct_tombstone_ids(ts),
        0 <= q < ts.len(),
        ts[q].id == rec.id,
        ts[q].deleted_at > rec.updated_at,
        forall|j: int| 0 <= j < initial.len() && (#[trigger] initial[j]).id == rec.id ==> initial[j].deleted_at < ts[q].deleted_at,
        tombstone_phase(initial, st, ts).1 is None,
    ensures
        !has_id(tombstone_phase(initial, st, ts).0.notes, rec.id),
    decreases ts.len(),
{
    let rest = ts.drop_first();
    if q == 0 {
        let t = ts[0];
        let next = tombstone_step(initial, st, t).0;
        match last_pos(tombstone_ids(initial), t.id) {
            Some(i) => {
                assert(tombstone_ids(initial)[i] == t.id);
                assert(initial[i].id == rec.id);
            },
            None => {},
        }
        lemma_unique_contains_first(st.known, rec);
        lemma_unique_contains_first(st.notes, rec);
        let i = first_pos(record_ids(st.notes), rec.id)->0;
        assert(next.notes == st.notes.remove(i));
        lemma_remove_keeps_unique(st.notes, i);
        lemma_remove_keeps_unique(st.known, first_pos(record_ids(st.known), rec.id)->0);
        assert(!has_id(next.notes, rec.id)) by {
            if has_id(next.notes, rec.id) {
                let k = choose|k: int| 0 <= k < next.notes.len() && #[trigger] next.notes[k].id == rec.id;
                if k < i {
                    assert(st.notes[k].id == st.notes[i].id);
                } else {
                    assert(st.notes[k + 1].id == st.notes[i].id);
                }
            }
        }
        assert forall|j: int| 0 <= j < rest.len() implies (#[trigger] rest[j]).id != rec.id by {
            assert(rest[j] == ts[j + 1]);
            assert(ts[j + 1].id != ts[0].id);
        }
        lemma_tombstone_phase_other(initial, next, rest, rec);
    } else {
        assert(ts[0].id != rec.id) by {
            assert(ts[0].id != ts[q].id);
        }
        lemma_tombstone_step_other(initial, st, ts[0], rec);
        assert(distinct_tombstone_ids(rest)) by {
            assert forall|a: int, b: int| 0 <= a < rest.len() && 0 <= b < rest.len() && a != b implies #[trigger] rest[a].id != #[trigger] rest[b].id by {
                assert(rest[a] == ts[a + 1]);
                assert(rest[b] == ts[b + 1]);
            }
        }
        assert(rest[q - 1] == ts[q]);
        lemma_tombstone_phase_deletes(initial, tombstone_step(initial, st, ts[0]).0, rest, rec, q - 1);
    }
}

/// Notes for other ids do not bring back an absent id.
proof fn lemma_note_phase_keeps_absent(st: MergeState, ns: Seq<SyncNoteView>, x: Seq<char>)
    requires
        !has_id(st.notes, x),
        reads_as_itself(ns),
        forall|j: int| 0 <= j < ns.len() ==> (#[trigger] ns[j]).id != x,
        note_phase(st, ns).1 is None,
    ensures
        !has_id(note_phase(st, ns).0.notes, x),
    decreases ns.len(),
{
    if ns.len() > 0 {
        let n = ns[0];
        assert(n.id != x);
        assert(sync_record_of(n) matches Ok(rec) && rec.id == n.id);
        let rec = sync_record_of(n)->Ok_0;
        let next = note_step(st, n).0;
        assert(!has_id(next.notes, x)) by {
            if has_id(next.notes, x) {
                let k = choose|k: int| 0 <= k < next.notes.len() && #[trigger] next.notes[k].id == x;
                if k < st.notes.len() {
                    if next.notes.len() == st.notes.len() && next.notes != st.notes {
                        let i = first_pos(record_ids(st.notes), rec.id)->0;
                        assert(next.notes == st.notes.update(i, synced_record(st.notes[i], rec)));
                        assert(next.notes[k].id == st.notes[k].id);
                    } else if next.notes.len() > st.notes.len() {
                        assert(next.notes == st.notes.push(rec));
                        assert(next.notes[k] == st.notes[k]);
                    }
                    assert(st.notes[k].id == x);
                } else {
                    assert(next.notes == st.notes.push(rec));
                }
            }
        }
        let rest = ns.drop_first();
        assert forall|j: int| 0 <= j < rest.len() implies ((#[trigger] sync_record_of(rest[j])) matches Ok(r) && r.id == rest[j].id) by {
            assert(rest[j] == ns[j + 1]);
        }
        assert forall|j: int| 0 <= j < rest.len() implies (#[trigger] rest[j]).id != x by {
            assert(rest[j] == ns[j + 1]);
        }
        lemma_note_phase_keeps_absent(next, rest, x);
    }
}

/// Deletions propagate: when a bundle carries a tombstone for a local note
/// that is newer than the note's last change and than every local
/// tombstone for it, a successful merge leaves no note with that id. This
/// holds of bundles whose tombstones have distinct ids and whose notes
/// read back as themselves under other ids.
pub proof fn lemma_merge_tombstone_deletes(notes: Seq<RecordView>, ts: Seq<TombstoneView>, remote: BundleView, q: int, p: int)
    requires
        ids_unique(notes),
        0 <= p < notes.len(),
        distinct_tombstone_ids(remote.deleted),
        0 <= q < remote.deleted.len(),
        remote.deleted[q].id == notes[p].id,
        remote.deleted[q].deleted_at > notes[p].updated_at,
        forall|j: int| 0 <= j < ts.len() && (#[trigger] ts[j]).id == notes[p].id ==> ts[j].deleted_at < remote.deleted[q].deleted_at,
        reads_as_itself(remote.notes),
        forall|j: int| 0 <= j < remote.notes.len() ==> (#[trigger] remote.notes[j]).id != notes[p].id,
        merge_run(notes, ts, remote).1 is None,
    ensures
        !has_id(merge_run(notes, ts, remote).0.notes, notes[p].id),
{
    let st = merge_start_state(notes, ts);
    assert(notes.contains(notes[p]));
    lemma_tombstone_phase_deletes(ts, st, remote.deleted, notes[p], q);
    let mid = tombstone_phase(ts, st, remote.deleted).0;
    lemma_note_phase_keeps_absent(mid, remote.notes, notes[p].id);
}


/// Tombstones that are no newer than the last local one for their id
/// change nothing.
proof fn lemma_tombstone_phase_stale(initial: Seq<TombstoneView>, st: MergeState, ts: Seq<TombstoneView>)
    requires
        forall|k: int| 0 <= k < ts.len() ==> (last_pos(tombstone_ids(initial), #[trigger] ts[k].id) matches Some(j)
            && initial[j].deleted_at >= ts[k].deleted_at),
    ensures
        tombstone_phase(initial, st, ts) == (st, None::<ErrorView>),
    decreases ts.len(),
{
    if ts.len() > 0 {
        assert(last_pos(tombstone_ids(initial), ts[0].id) matches Some(j) && initial[j].deleted_at >= ts[0].deleted_at);
        let rest = ts.drop_first();
        assert forall|k: int| 0 <= k < rest.len() implies (last_pos(tombstone_ids(initial), #[trigger] rest[k].id) matches Some(j)
            && initial[j].deleted_at >= rest[k].deleted_at) by {
            assert(rest[k] == ts[k + 1]);
        }
        lemma_tombstone_phase_stale(initial, st, rest);
    }
}

/// A note of the journal as it reads back from its own bundle.
pub open spec fn own_note_reads_back(n: SyncNoteView, notes: Seq<RecordView>) -> bool {
    &&& sync_record_of(n) is Ok
    &&& sync_record_of(n)->Ok_0.id == n.id
    &&& first_pos(record_ids(notes), n.id) is Some
    &&& notes[first_pos(record_ids(notes), n.id)->Some_0].updated_at == sync_record_of(n)->Ok_0.updated_at
}

/// Notes that read back as stored notes of the same age change no note.
proof fn lemma_note_phase_same_age(st: MergeState, ns: Seq<SyncNoteView>)
    requires
        st.known == st.notes,
        forall|j: int| 0 <= j < ns.len() ==> #[trigger] own_note_reads_back(ns[j], st.notes),
    ensures
        note_phase(st, ns).1 is None,
        note_phase(st, ns).0.notes == st.notes,
        note_phase(st, ns).0.tally.applied == st.tally.applied,
    decreases ns.len(),
{
    if ns.len() > 0 {
        assert(own_note_reads_back(ns[0], st.notes));
        let next = note_step(st, ns[0]).0;
        assert(note_step(st, ns[0]).1 is None);
        assert(next.notes == st.notes && next.known == st.known);
        let rest = ns.drop_first();
        assert forall|j: int| 0 <= j < rest.len() implies #[trigger] own_note_reads_back(rest[j], next.notes) by {
            assert(rest[j] == ns[j + 1]);
            assert(own_note_reads_back(ns[j + 1], st.notes));
        }
        lemma_note_phase_same_age(next, rest);
    }
}

/// Merging a journal's own bundle changes no note and applies none: the
/// local tombstones delete nothing and no bundle note is newer. This holds of
/// journals whose note ids are canonical UUIDs, whose days have four-digit
/// years, and whose tombstones have distinct ids.
pub proof fn lemma_merge_own_bundle_keeps_notes(notes: Seq<RecordView>, ts: Seq<TombstoneView>, b: BundleView)
    requires
        ids_unique(notes),
        forall|i: int| 0 <= i < notes.len() ==> uuid_canonical(#[trigger] notes[i].id) == Ok::<Seq<char>, Seq<char>>(notes[i].id),
        forall|i: int| 0 <= i < notes.len() ==> 0 <= (#[trigger] notes[i]).entry_date.year <= 9999,
        distinct_tombstone_ids(ts),
        b.deleted == ts,
        bundle_notes(b.notes, notes),
    ensures
        merge_run(notes, ts, b).1 is None,
        merge_run(notes, ts, b).0.notes == notes,
        merge_run(notes, ts, b).0.tally.applied == 0,
{
    let st = merge_start_state(notes, ts);
    assert forall|k: int| 0 <= k < ts.len() implies (last_pos(tombstone_ids(ts), #[trigger] ts[k].id) matches Some(j)
        && ts[j].deleted_at >= ts[k].deleted_at) by {
        let ids = tombstone_ids(ts);
        assert forall|j: int| k < j < ids.len() implies ids[j] != ts[k].id by {
            assert(ts[j].id != ts[k].id);
        }
        lemma_last_pos(ids, ts[k].id, k);
    }
    lemma_tombstone_phase_stale(ts, st, ts);
    let l = choose|l: Seq<RecordView>|
        #![trigger l.to_multiset()]
        l.to_multiset() == notes.to_multiset() && dates_desc(l) && b.notes == l.map_values(|x: RecordView| sync_view_of(x))
            && forall|j: int| 0 <= j < l.len() ==> #[trigger] reads_back(l[j]);
    assert forall|j: int| 0 <= j < b.notes.len() implies #[trigger] own_note_reads_back(b.notes[j], notes) by {
        let r = l[j];
        assert(b.notes[j] == sync_view_of(r));
        assert(l.to_multiset().count(r) > 0);
        assert(notes.contains(r));
        let p = choose|p: int| 0 <= p < notes.len() && notes[p] == r;
        assert(uuid_canonical(notes[p].id) == Ok::<Seq<char>, Seq<char>>(notes[p].id));
        assert(0 <= notes[p].entry_date.year <= 9999);
        assert(reads_back(l[j]));
        lemma_unique_first(notes, p);
    }
    lemma_note_phase_same_age(st, b.notes);
}


/// A recorded deletion is shared: after recording that a note was deleted
/// at a time, the tombstone list holds a tombstone for that id and time.
pub proof fn lemma_recorded_tombstone_is_shared(ts: Seq<TombstoneView>, id: Seq<char>, at: Timestamp)
    ensures
        exists|i: int|
            0 <= i < upsert_tombstone(ts, TombstoneView { id, deleted_at: at }).len()
                && #[trigger] upsert_tombstone(ts, TombstoneView { id, deleted_at: at })[i] == (TombstoneView { id, deleted_at: at }),
{
    let t = TombstoneView { id, deleted_at: at };
    let u = upsert_tombstone(ts, t);
    match first_pos(tombstone_ids(ts), id) {
        Some(i) => {
            assert(tombstone_ids(ts)[i] == id);
            assert(u[i] == t);
        },
        None => {
            assert(u[ts.len() as int] == t);
        },
    }
}


/// The stored notes that a bundle's notes read as.
pub open spec fn read_notes(ns: Seq<SyncNoteView>) -> Seq<RecordView> {
    ns.map_values(|n: SyncNoteView| sync_record_of(n)->Ok_0)
}

/// No tombstone of the list names one of the notes.
pub open spec fn no_tombstone_names(ts: Seq<TombstoneView>, ns: Seq<SyncNoteView>) -> bool {
    forall|k: int, j: int| 0 <= k < ts.len() && 0 <= j < ns.len() ==> #[trigger] ts[k].id != #[trigger] ns[j].id
}

proof fn lemma_upsert_names(ts: Seq<TombstoneView>, t: TombstoneView, ns: Seq<SyncNoteView>)
    requires
        no_tombstone_names(ts, ns),
        forall|j: int| 0 <= j < ns.len() ==> t.id != (#[trigger] ns[j]).id,
    ensures
        no_tombstone_names(upsert_tombstone(ts, t), ns),
{
    let u = upsert_tombstone(ts, t);
    match first_pos(tombstone_ids(ts), t.id) {
        Some(i) => {
            assert(tombstone_ids(ts)[i] == t.id);
            assert forall|k: int, j: int| 0 <= k < u.len() && 0 <= j < ns.len() implies #[trigger] u[k].id != #[trigger] ns[j].id by {
                if k != i {
                    assert(u[k] == ts[k]);
                }
            }
        },
        None => {
            assert forall|k: int, j: int| 0 <= k < u.len() && 0 <= j < ns.len() implies #[trigger] u[k].id != #[trigger] ns[j].id by {
                if k < ts.len() {
                    assert(u[k] == ts[k]);
                }
            }
        },
    }
}

/// With no local notes to compare against, tombstones delete nothing and
/// are only recorded.
proof fn lemma_tombstone_phase_unknown(initial: Seq<TombstoneView>, st: MergeState, ts: Seq<TombstoneView>, ns: Seq<SyncNoteView>)
    requires
        st.known.len() == 0,
        no_tombstone_names(st.tombstones, ns),
        no_tombstone_names(ts, ns),
    ensures
        tombstone_phase(initial, st, ts).1 is None,
        tombstone_phase(initial, st, ts).0.notes == st.notes,
        tombstone_phase(initial, st, ts).0.known.len() == 0,
        no_tombstone_names(tombstone_phase(initial, st, ts).0.tombstones, ns),
    decreases ts.len(),
{
    if ts.len() > 0 {
        let t = ts[0];
        lemma_first_pos_none(record_ids(st.known), t.id);
        assert forall|j: int| 0 <= j < ns.len() implies t.id != (#[trigger] ns[j]).id by {
            assert(ts[0].id != ns[j].id);
        }
        lemma_upsert_names(st.tombstones, t, ns);
        let next = tombstone_step(initial, st, t).0;
        let rest = ts.drop_first();
        assert(no_tombstone_names(rest, ns)) by {
            assert forall|k: int, j: int| 0 <= k < rest.len() && 0 <= j < ns.len() implies #[trigger] rest[k].id != #[trigger] ns[j].id by {
                assert(rest[k] == ts[k + 1]);
            }
        }
        lemma_tombstone_phase_unknown(initial, next, rest, ns);
    }
}

/// With no local notes to compare against, each bundle note is stored.
proof fn lemma_note_phase_fresh(st: MergeState, ns: Seq<SyncNoteView>)
    requires
        st.known.len() == 0,
        no_tombstone_names(st.tombstones, ns),
        reads_as_itself(ns),
        distinct_note_ids(ns),
        forall|i: int, j: int| 0 <= i < st.notes.len() && 0 <= j < ns.len() ==> #[trigger] st.notes[i].id != #[trigger] ns[j].id,
    ensures
        note_phase(st, ns).1 is None,
        note_phase(st, ns).0.notes == st.notes + read_notes(ns),
    decreases ns.len(),
{
    if ns.len() == 0 {
        assert(st.notes + read_notes(ns) =~= st.notes);
    } else {
        let n = ns[0];
        assert(sync_record_of(n) matches Ok(rec) && rec.id == n.id);
        let rec = sync_record_of(n)->Ok_0;
        assert forall|k: int| 0 <= k < tombstone_ids(st.tombstones).len() implies tombstone_ids(st.tombstones)[k] != n.id by {
            assert(st.tombstones[k].id != ns[0].id);
        }
        lemma_first_pos_none(tombstone_ids(st.tombstones), n.id);
        lemma_first_pos_none(record_ids(st.known), n.id);
        assert(!has_id(st.notes, rec.id)) by {
            if has_id(st.notes, rec.id) {
                let i = choose|i: int| 0 <= i < st.notes.len() && #[trigger] st.notes[i].id == rec.id;
                assert(st.notes[i].id != ns[0].id);
            }
        }
        let next = note_step(st, n).0;
        assert(next.notes == st.notes.push(rec));
        let rest = ns.drop_first();
        assert forall|j: int| 0 <= j < rest.len() implies ((#[trigger] sync_record_of(rest[j])) matches Ok(r) && r.id == rest[j].id) by {
            assert(rest[j] == ns[j + 1]);
        }
        assert(distinct_note_ids(rest)) by {
            assert forall|a: int, b: int| 0 <= a < rest.len() && 0 <= b < rest.len() && a != b implies #[trigger] rest[a].id != #[trigger] rest[b].id by {
                assert(rest[a] == ns[a + 1]);
                assert(rest[b] == ns[b + 1]);
            }
        }
        assert(no_tombstone_names(next.tombstones, rest)) by {
            assert forall|k: int, j: int| 0 <= k < next.tombstones.len() && 0 <= j < rest.len() implies #[trigger] next.tombstones[k].id != #[trigger] rest[j].id by {
                assert(next.tombstones == st.tombstones);
                assert(rest[j] == ns[j + 1]);
            }
        }
        assert forall|i: int, j: int| 0 <= i < next.notes.len() && 0 <= j < rest.len() implies #[trigger] next.notes[i].id != #[trigger] rest[j].id by {
            assert(rest[j] == ns[j + 1]);
            if i < st.notes.len() {
                assert(next.notes[i] == st.notes[i]);
            } else {
                assert(next.notes[i] == rec);
                assert(ns[0].id != ns[j + 1].id);
            }
        }
        lemma_note_phase_fresh(next, rest);
        assert(st.notes.push(rec) + read_notes(rest) =~= st.notes + read_notes(ns));
    }
}

/// A new device receives every note: merging a bundle into a journal with
/// no notes stores each bundle note, in the bundle's order. This holds of
/// bundles whose notes have distinct ids that read back as themselves and
/// that no tombstone, local or in the bundle, names.
pub proof fn lemma_merge_into_empty_journal(ts: Seq<TombstoneView>, remote: BundleView)
    requires
        reads_as_itself(remote.notes),
        distinct_note_ids(remote.notes),
        no_tombstone_names(ts, remote.notes),
        no_tombstone_names(remote.deleted, remote.notes),
    ensures
        merge_run(Seq::empty(), ts, remote).1 is None,
        merge_run(Seq::empty(), ts, remote).0.notes == read_notes(remote.notes),
{
    let st = merge_start_state(Seq::empty(), ts);
    lemma_tombstone_phase_unknown(ts, st, remote.deleted, remote.notes);
    let mid = tombstone_phase(ts, st, remote.deleted).0;
    lemma_note_phase_fresh(mid, remote.notes);
    assert(Seq::<RecordView>::empty() + read_notes(remote.notes) =~= read_notes(remote.notes));
}

/// The notes hold the bundle note's id at least as new as the bundle note.
pub open spec fn holds_newer(notes: Seq<RecordView>, n: SyncNoteView) -> bool {
    exists|p: int| 0 <= p < notes.len() && (#[trigger] notes[p]).id == n.id
        && notes[p].updated_at >= sync_record_of(n)->Ok_0.updated_at
}

/// The local note that the merge compares against for `x`, if any, is as
/// old as the one in the notes table.
pub open spec fn known_agrees(st: MergeState, x: Seq<char>) -> bool {
    first_pos(record_ids(st.known), x) matches Some(k) ==> exists|p: int| 0 <= p < st.notes.len()
        && (#[trigger] st.notes[p]).id == x && st.notes[p].updated_at == st.known[k].updated_at
}

/// A tombstone list holds a tombstone for `t`'s id at least as new as `t`.
pub open spec fn records_newer(ts: Seq<TombstoneView>, t: TombstoneView) -> bool {
    exists|j: int| 0 <= j < ts.len() && (#[trigger] ts[j]).id == t.id && ts[j].deleted_at >= t.deleted_at
}

/// Whether a bundle tombstone is newer than the last local tombstone for
/// its id (or there is none).
pub open spec fn newer_than_local(initial: Seq<TombstoneView>, t: TombstoneView) -> bool {
    match last_pos(tombstone_ids(initial), t.id) {
        Some(i) => t.deleted_at > initial[i].deleted_at,
        None => true,
    }
}

proof fn lemma_upsert_facts(ts: Seq<TombstoneView>, t: TombstoneView)
    requires
        distinct_tombstone_ids(ts),
    ensures
        ({
            let u = upsert_tombstone(ts, t);
            &&& distinct_tombstone_ids(u)
            &&& records_newer(u, t)
            &&& u.len() >= ts.len()
            &&& forall|j: int| 0 <= j < ts.len() && ts[j].id != t.id ==> #[trigger] u[j] == ts[j]
        }),
{
    let u = upsert_tombstone(ts, t);
    let ids = tombstone_ids(ts);
    match first_pos(ids, t.id) {
        Some(i) => {
            assert(ids[i] == t.id);
            assert(u[i].id == t.id && u[i].deleted_at == t.deleted_at);
            assert forall|a: int, b: int| 0 <= a < u.len() && 0 <= b < u.len() && a != b implies #[trigger] u[a].id != #[trigger] u[b].id by {
                assert(u[a].id == ts[a].id);
                assert(u[b].id == ts[b].id);
            }
            assert forall|j: int| 0 <= j < ts.len() && ts[j].id != t.id implies #[trigger] u[j] == ts[j] by {
                assert(j != i);
            }
        },
        None => {
            assert forall|j: int| 0 <= j < ts.len() implies ts[j].id != t.id by {
                if ts[j].id == t.id {
                    assert forall|m: int| 0 <= m < j implies ids[m] != t.id by {
                        assert(ts[m].id != ts[j].id);
                    }
                    lemma_first_pos(ids, t.id, j);
                }
            }
            assert(u[ts.len() as int] == t);
            assert forall|a: int, b: int| 0 <= a < u.len() && 0 <= b < u.len() && a != b implies #[trigger] u[a].id != #[trigger] u[b].id by {
                if a < ts.len() && b < ts.len() {
                    assert(u[a] == ts[a] && u[b] == ts[b]);
                } else if a < ts.len() {
                    assert(u[a] == ts[a]);
                } else {
                    assert(u[b] == ts[b]);
                }
            }
        },
    }
}

proof fn lemma_tombstone_step_facts(initial: Seq<TombstoneView>, st: MergeState, t: TombstoneView)
    requires
        st.notes == st.known,
        ids_unique(st.notes),
        distinct_tombstone_ids(st.tombstones),
        tombstone_step(initial, st, t).1 is None,
    ensures
        ({
            let next = tombstone_step(initial, st, t).0;
            &&& next.notes == next.known
            &&& ids_unique(next.notes)
            &&& distinct_tombstone_ids(next.tombstones)
            &&& next.tombstones.len() >= st.tombstones.len()
            &&& forall|j: int| 0 <= j < st.tombstones.len() && st.tombstones[j].id != t.id ==> #[trigger] next.tombstones[j] == st.tombstones[j]
            &&& newer_than_local(initial, t) ==> records_newer(next.tombstones, t) && next.tombstones == upsert_tombstone(st.tombstones, t)
            &&& !newer_than_local(initial, t) ==> next == st
        }),
{
    let next = tombstone_step(initial, st, t).0;
    if newer_than_local(initial, t) {
        lemma_upsert_facts(st.tombstones, t);
        if next.notes != st.notes {
            let i = first_pos(record_ids(st.notes), t.id)->0;
            assert(next.notes == st.notes.remove(i));
            lemma_remove_keeps_unique(st.notes, i);
        }
    }
}

proof fn lemma_tombstone_phase_keeps(initial: Seq<TombstoneView>, st: MergeState, ts: Seq<TombstoneView>, v: TombstoneView)
    requires
        st.notes == st.known,
        ids_unique(st.notes),
        distinct_tombstone_ids(st.tombstones),
        forall|k: int| 0 <= k < ts.len() ==> (#[trigger] ts[k]).id != v.id,
        records_newer(st.tombstones, v),
        tombstone_phase(initial, st, ts).1 is None,
    ensures
        records_newer(tombstone_phase(initial, st, ts).0.tombstones, v),
    decreases ts.len(),
{
    if ts.len() > 0 {
        assert(tombstone_step(initial, st, ts[0]).1 is None);
        lemma_tombstone_step_facts(initial, st, ts[0]);
        let next = tombstone_step(initial, st, ts[0]).0;
        let j = choose|j: int| 0 <= j < st.tombstones.len() && (#[trigger] st.tombstones[j]).id == v.id
            && st.tombstones[j].deleted_at >= v.deleted_at;
        assert(ts[0].id != v.id);
        assert(next.tombstones[j] == st.tombstones[j]);
        assert(records_newer(next.tombstones, v));
        let rest = ts.drop_first();
        assert forall|k: int| 0 <= k < rest.len() implies (#[trigger] rest[k]).id != v.id by {
            assert(rest[k] == ts[k + 1]);
        }
        lemma_tombstone_phase_keeps(initial, next, rest, v);
    }
}

/// After the tombstone phase, every bundle tombstone is recorded at least
/// as new, and the notes table and the notes compared against agree.
proof fn lemma_tombstone_phase_records(initial: Seq<TombstoneView>, st: MergeState, ts: Seq<TombstoneView>)
    requires
        st.notes == st.known,
        ids_unique(st.notes),
        distinct_tombstone_ids(st.tombstones),
        distinct_tombstone_ids(ts),
        forall|j: int, k: int| 0 <= j < initial.len() && 0 <= k < ts.len() && #[trigger] initial[j].id == #[trigger] ts[k].id
            ==> st.tombstones.contains(initial[j]),
        tombstone_phase(initial, st, ts).1 is None,
    ensures
        ({
            let out = tombstone_phase(initial, st, ts).0;
            &&& out.notes == out.known
            &&& ids_unique(out.notes)
            &&& distinct_tombstone_ids(out.tombstones)
            &&& forall|k: int| 0 <= k < ts.len() ==> #[trigger] records_newer(out.tombstones, ts[k])
        }),
    decreases ts.len(),
{
    if ts.len() > 0 {
        let t = ts[0];
        assert(tombstone_step(initial, st, t).1 is None);
        lemma_tombstone_step_facts(initial, st, t);
        let next = tombstone_step(initial, st, t).0;
        if !newer_than_local(initial, t) {
            let i = last_pos(tombstone_ids(initial), t.id)->0;
            assert(tombstone_ids(initial)[i] == t.id);
            assert(initial[i].id == ts[0].id);
            assert(st.tombstones.contains(initial[i]));
            let j = choose|j: int| 0 <= j < st.tombstones.len() && st.tombstones[j] == initial[i];
            assert(st.tombstones[j].id == t.id);
            assert(records_newer(st.tombstones, t));
        }
        assert(records_newer(next.tombstones, t));
        let rest = ts.drop_first();
        assert(distinct_tombstone_ids(rest)) by {
            assert forall|a: int, b: int| 0 <= a < rest.len() && 0 <= b < rest.len() && a != b implies #[trigger] rest[a].id != #[trigger] rest[b].id by {
                assert(rest[a] == ts[a + 1]);
                assert(rest[b] == ts[b + 1]);
            }
        }
        assert forall|j: int, k: int| 0 <= j < initial.len() && 0 <= k < rest.len() && #[trigger] initial[j].id == #[trigger] rest[k].id
            implies next.tombstones.contains(initial[j]) by {
            assert(rest[k] == ts[k + 1]);
            assert(ts[k + 1].id != ts[0].id);
            assert(st.tombstones.contains(initial[j]));
            let m = choose|m: int| 0 <= m < st.tombstones.len() && st.tombstones[m] == initial[j];
            assert(next.tombstones[m] == st.tombstones[m]);
        }
        assert forall|k: int| 0 <= k < rest.len() implies (#[trigger] rest[k]).id != t.id by {
            assert(rest[k] == ts[k + 1]);
            assert(ts[k + 1].id != ts[0].id);
        }
        lemma_tombstone_phase_records(initial, next, rest);
        lemma_tombstone_phase_keeps(initial, next, rest, t);
        let out = tombstone_phase(initial, next, rest).0;
        assert(out == tombstone_phase(initial, st, ts).0);
        assert forall|k: int| 0 <= k < ts.len() implies #[trigger] records_newer(out.tombstones, ts[k]) by {
            if k > 0 {
                assert(rest[k - 1] == ts[k]);
                assert(records_newer(out.tombstones, rest[k - 1]));
            }
        }
    }
}

/// Whether no bundle note has the id.
pub open spec fn names_no_note(ns: Seq<SyncNoteView>, x: Seq<char>) -> bool {
    forall|j: int| 0 <= j < ns.len() ==> (#[trigger] ns[j]).id != x
}

/// A tombstone at least as new as the bundle note names it.
pub open spec fn suppressed_by(ts: Seq<TombstoneView>, n: SyncNoteView) -> bool {
    exists|i: int| 0 <= i < ts.len() && (#[trigger] ts[i]).id == n.id
        && ts[i].deleted_at >= sync_record_of(n)->Ok_0.updated_at
}

/// The bundle note was taken in: no tombstone names it, the notes hold it
/// at least as new, and every bundle tombstone for its id is older.
pub open spec fn taken_in(notes: Seq<RecordView>, ts: Seq<TombstoneView>, ds: Seq<TombstoneView>, n: SyncNoteView) -> bool {
    &&& no_tombstone_for(ts, n.id)
    &&& holds_newer(notes, n)
    &&& forall|k: int| 0 <= k < ds.len() && (#[trigger] ds[k]).id == n.id ==> ds[k].deleted_at < sync_record_of(n)->Ok_0.updated_at
}

/// Where a merge leaves a bundle note: kept out by a tombstone, or taken in.
pub open spec fn settled(notes: Seq<RecordView>, ts: Seq<TombstoneView>, ds: Seq<TombstoneView>, n: SyncNoteView) -> bool {
    suppressed_by(ts, n) || taken_in(notes, ts, ds, n)
}

proof fn lemma_tomb_first(ts: Seq<TombstoneView>, i: int)
    requires
        distinct_tombstone_ids(ts),
        0 <= i < ts.len(),
    ensures
        first_pos(tombstone_ids(ts), ts[i].id) == Some(i),
        last_pos(tombstone_ids(ts), ts[i].id) == Some(i),
{
    let ids = tombstone_ids(ts);
    assert forall|j: int| 0 <= j < i implies ids[j] != ts[i].id by {
        assert(ts[j].id != ts[i].id);
    }
    lemma_first_pos(ids, ts[i].id, i);
    assert forall|j: int| i < j < ids.len() implies ids[j] != ts[i].id by {
        assert(ts[j].id != ts[i].id);
    }
    lemma_last_pos(ids, ts[i].id, i);
}

proof fn lemma_tomb_absent(ts: Seq<TombstoneView>, x: Seq<char>)
    requires
        no_tombstone_for(ts, x),
    ensures
        first_pos(tombstone_ids(ts), x) is None,
        last_pos(tombstone_ids(ts), x) is None,
{
    let ids = tombstone_ids(ts);
    assert forall|j: int| 0 <= j < ids.len() implies ids[j] != x by {
        assert(ts[j].id != x);
    }
    lemma_first_pos_none(ids, x);
    lemma_last_pos_none(ids, x);
}

proof fn lemma_tomb_first_none(ts: Seq<TombstoneView>, x: Seq<char>)
    requires
        distinct_tombstone_ids(ts),
        first_pos(tombstone_ids(ts), x) is None,
    ensures
        no_tombstone_for(ts, x),
{
    assert forall|j: int| 0 <= j < ts.len() implies (#[trigger] ts[j]).id != x by {
        if ts[j].id == x {
            lemma_tomb_first(ts, j);
        }
    }
}

proof fn lemma_filter_keeps_all<A>(s: Seq<A>, p: spec_fn(A) -> bool)
    requires
        forall|j: int| 0 <= j < s.len() ==> p(#[trigger] s[j]),
    ensures
        s.filter(p) == s,
    decreases s.len(),
{
    reveal(Seq::filter);
    if s.len() > 0 {
        assert forall|j: int| 0 <= j < s.drop_last().len() implies p(#[trigger] s.drop_last()[j]) by {
            assert(s.drop_last()[j] == s[j]);
        }
        lemma_filter_keeps_all(s.drop_last(), p);
        assert(p(s[s.len() - 1]));
        assert(s.drop_last().push(s.last()) =~= s);
    }
}

proof fn lemma_filter_distinct(s: Seq<TombstoneView>, x: Seq<char>)
    requires
        distinct_tombstone_ids(s),
    ensures
        distinct_tombstone_ids(s.filter(|t: TombstoneView| t.id != x)),
    decreases s.len(),
{
    reveal(Seq::filter);
    let p = |t: TombstoneView| t.id != x;
    if s.len() > 0 {
        let d = s.drop_last();
        assert(distinct_tombstone_ids(d)) by {
            assert forall|a: int, b: int| 0 <= a < d.len() && 0 <= b < d.len() && a != b implies #[trigger] d[a].id != #[trigger] d[b].id by {
                assert(d[a] == s[a] && d[b] == s[b]);
            }
        }
        lemma_filter_distinct(d, x);
        let f = d.filter(p);
        if p(s.last()) {
            assert(s.filter(p) == f.push(s.last()));
            assert forall|a: int| 0 <= a < f.len() implies (#[trigger] f[a]).id != s.last().id by {
                assert(f.contains(f[a]));
                d.lemma_filter_contains_rev(p, f[a]);
                let b = choose|b: int| 0 <= b < d.len() && d[b] == f[a];
                assert(s[b] == d[b]);
                assert(s[b].id != s[s.len() - 1].id);
            }
            let g = f.push(s.last());
            assert forall|a: int, b: int| 0 <= a < g.len() && 0 <= b < g.len() && a != b implies #[trigger] g[a].id != #[trigger] g[b].id by {
                if a < f.len() && b < f.len() {
                    assert(g[a] == f[a] && g[b] == f[b]);
                } else if a < f.len() {
                    assert(g[a] == f[a]);
                } else {
                    assert(g[b] == f[b]);
                }
            }
        } else {
            assert(s.filter(p) == f);
        }
    }
}

proof fn lemma_note_step_tombstones(st: MergeState, n: SyncNoteView)
    requires
        distinct_tombstone_ids(st.tombstones),
        note_step(st, n).1 is None,
    ensures
        ({
            let nt = note_step(st, n).0.tombstones;
            &&& distinct_tombstone_ids(nt)
            &&& forall|e: TombstoneView| #[trigger] st.tombstones.contains(e) && e.id != n.id ==> nt.contains(e)
            &&& forall|i: int| 0 <= i < nt.len() ==> st.tombstones.contains(#[trigger] nt[i])
        }),
{
    broadcast use vstd::seq_lib::group_filter_ensures;
    let nt = note_step(st, n).0.tombstones;
    let p = |t: TombstoneView| t.id != n.id;
    if nt != st.tombstones {
        assert(nt == st.tombstones.filter(p));
        lemma_filter_distinct(st.tombstones, n.id);
        assert forall|e: TombstoneView| #[trigger] st.tombstones.contains(e) && e.id != n.id implies nt.contains(e) by {
            let k = choose|k: int| 0 <= k < st.tombstones.len() && st.tombstones[k] == e;
            st.tombstones.lemma_filter_contains(p, k);
        }
        assert forall|i: int| 0 <= i < nt.len() implies st.tombstones.contains(#[trigger] nt[i]) by {
            assert(nt.contains(nt[i]));
            st.tombstones.lemma_filter_contains_rev(p, nt[i]);
        }
    } else {
        assert forall|i: int| 0 <= i < nt.len() implies st.tombstones.contains(#[trigger] nt[i]) by {
            assert(st.tombstones[i] == nt[i]);
        }
    }
}

/// Notes for other ids keep a tombstone; no note step adds one.
proof fn lemma_note_phase_tombstones(st: MergeState, ns: Seq<SyncNoteView>, e: TombstoneView, x: Seq<char>)
    requires
        distinct_tombstone_ids(st.tombstones),
        note_phase(st, ns).1 is None,
    ensures
        ({
            let out = note_phase(st, ns).0.tombstones;
            &&& distinct_tombstone_ids(out)
            &&& st.tombstones.contains(e) && names_no_note(ns, e.id) ==> out.contains(e)
            &&& no_tombstone_for(st.tombstones, x) ==> no_tombstone_for(out, x)
        }),
    decreases ns.len(),
{
    if ns.len() > 0 {
        assert(note_step(st, ns[0]).1 is None);
        lemma_note_step_tombstones(st, ns[0]);
        let next = note_step(st, ns[0]).0;
        let rest = ns.drop_first();
        if st.tombstones.contains(e) && names_no_note(ns, e.id) {
            assert(ns[0].id != e.id);
            assert(next.tombstones.contains(e));
            assert forall|j: int| 0 <= j < rest.len() implies (#[trigger] rest[j]).id != e.id by {
                assert(rest[j] == ns[j + 1]);
            }
        }
        if no_tombstone_for(st.tombstones, x) {
            assert forall|j: int| 0 <= j < next.tombstones.len() implies (#[trigger] next.tombstones[j]).id != x by {
                assert(st.tombstones.contains(next.tombstones[j]));
            }
        }
        lemma_note_phase_tombstones(next, rest, e, x);
    }
}

/// After the note phase every bundle note is settled (kept out by a
/// tombstone, or taken in), bundle tombstones for ids of no bundle note are
/// still recorded, and one for a bundle note's id is recorded or gone.
proof fn lemma_note_phase_settles(st: MergeState, ns: Seq<SyncNoteView>, ds: Seq<TombstoneView>)
    requires
        ids_unique(st.notes),
        distinct_tombstone_ids(st.tombstones),
        reads_as_itself(ns),
        distinct_note_ids(ns),
        forall|j: int| 0 <= j < ns.len() ==> #[trigger] known_agrees(st, ns[j].id),
        forall|k: int, j: int| 0 <= k < ds.len() && 0 <= j < ns.len() && #[trigger] ds[k].id == #[trigger] ns[j].id
            ==> records_newer(st.tombstones, ds[k]),
        note_phase(st, ns).1 is None,
    ensures
        ({
            let out = note_phase(st, ns).0;
            &&& ids_unique(out.notes)
            &&& distinct_tombstone_ids(out.tombstones)
            &&& forall|j: int| 0 <= j < ns.len() ==> #[trigger] settled(out.notes, out.tombstones, ds, ns[j])
            &&& forall|k: int| 0 <= k < ds.len() && names_no_note(ns, ds[k].id) && records_newer(st.tombstones, ds[k])
                ==> #[trigger] records_newer(out.tombstones, ds[k])
            &&& forall|k: int| 0 <= k < ds.len() && !names_no_note(ns, ds[k].id)
                ==> #[trigger] records_newer(out.tombstones, ds[k]) || no_tombstone_for(out.tombstones, ds[k].id)
        }),
    decreases ns.len(),
{
    if ns.len() > 0 {
        let n = ns[0];
        let x = n.id;
        assert(sync_record_of(n) matches Ok(rec) && rec.id == n.id);
        let rec = sync_record_of(n)->Ok_0;
        assert(note_step(st, n).1 is None);
        let next = note_step(st, n).0;
        lemma_note_step_tombstones(st, n);
        assert(next.known == st.known);
        let found = first_pos(tombstone_ids(st.tombstones), x);
        let suppressed = found matches Some(i) && st.tombstones[i].deleted_at >= rec.updated_at;
        let rest = ns.drop_first();
        assert forall|j: int| 0 <= j < rest.len() implies ((#[trigger] sync_record_of(rest[j])) matches Ok(r) && r.id == rest[j].id) by {
            assert(rest[j] == ns[j + 1]);
        }
        assert(distinct_note_ids(rest)) by {
            assert forall|a: int, b: int| 0 <= a < rest.len() && 0 <= b < rest.len() && a != b implies #[trigger] rest[a].id != #[trigger] rest[b].id by {
                assert(rest[a] == ns[a + 1]);
                assert(rest[b] == ns[b + 1]);
            }
        }
        assert forall|j: int| 0 <= j < rest.len() implies (#[trigger] rest[j]).id != x by {
            assert(rest[j] == ns[j + 1]);
            assert(ns[j + 1].id != ns[0].id);
        }
        // Where the bundle note stands after its own step.
        let mut p0: int = 0;
        if suppressed {
            assert(next == st);
            let i = found->0;
            assert(tombstone_ids(st.tombstones)[i] == x);
            assert(suppressed_by(st.tombstones, n));
        } else {
            match found {
                Some(i) => {
                    assert(tombstone_ids(st.tombstones)[i] == x);
                    broadcast use vstd::seq_lib::group_filter_ensures;
                    let f = st.tombstones.filter(|t: TombstoneView| t.id != n.id);
                    assert forall|j: int| 0 <= j < f.len() implies (#[trigger] f[j]).id != x by {}
                },
                None => {
                    lemma_tomb_first_none(st.tombstones, x);
                },
            }
            assert(no_tombstone_for(next.tombstones, x));
            assert forall|k: int| 0 <= k < ds.len() && (#[trigger] ds[k]).id == n.id implies ds[k].deleted_at < rec.updated_at by {
                assert(ds[k].id == ns[0].id);
                assert(records_newer(st.tombstones, ds[k]));
                let j = choose|j: int| 0 <= j < st.tombstones.len() && (#[trigger] st.tombstones[j]).id == ds[k].id
                    && st.tombstones[j].deleted_at >= ds[k].deleted_at;
                lemma_tomb_first(st.tombstones, j);
            }
            p0 = match first_pos(record_ids(st.known), x) {
                Some(k) => if rec.updated_at > st.known[k].updated_at {
                    let i = first_pos(record_ids(st.notes), x)->0;
                    assert(record_ids(st.notes)[i] == x);
                    assert(next.notes == st.notes.update(i, synced_record(st.notes[i], rec)));
                    i
                } else {
                    assert(known_agrees(st, ns[0].id));
                    let p = choose|p: int| 0 <= p < st.notes.len()
                        && (#[trigger] st.notes[p]).id == x && st.notes[p].updated_at == st.known[k].updated_at;
                    p
                },
                None => {
                    assert(next.notes == st.notes.push(rec));
                    st.notes.len() as int
                },
            };
            assert(0 <= p0 < next.notes.len() && next.notes[p0].id == x && next.notes[p0].updated_at >= rec.updated_at);
        }
        assert(next.notes.len() >= st.notes.len());
        assert(forall|a: int| 0 <= a < st.notes.len() && st.notes[a].id != x ==> #[trigger] next.notes[a] == st.notes[a]);
        assert(forall|a: int| 0 <= a < next.notes.len() ==> (#[trigger] next.notes[a]).id == x || (a < st.notes.len() && next.notes[a] == st.notes[a]));
        assert(ids_unique(next.notes)) by {
            assert forall|a: int, b: int| 0 <= a < next.notes.len() && 0 <= b < next.notes.len() && a != b implies #[trigger] next.notes[a].id != #[trigger] next.notes[b].id by {
                if next.notes.len() > st.notes.len() {
                    assert(!has_id(st.notes, x));
                    if a < st.notes.len() && b < st.notes.len() {
                        assert(next.notes[a] == st.notes[a] && next.notes[b] == st.notes[b]);
                    } else if a < st.notes.len() {
                        assert(next.notes[a] == st.notes[a]);
                        assert(st.notes[a].id != x);
                    } else {
                        assert(next.notes[b] == st.notes[b]);
                        assert(st.notes[b].id != x);
                    }
                } else {
                    assert(next.notes[a].id == st.notes[a].id);
                    assert(next.notes[b].id == st.notes[b].id);
                }
            }
        }
        assert forall|j: int| 0 <= j < rest.len() implies #[trigger] known_agrees(next, rest[j].id) by {
            let y = rest[j].id;
            assert(rest[j] == ns[j + 1]);
            assert(known_agrees(st, ns[j + 1].id));
            if let Some(k) = first_pos(record_ids(st.known), y) {
                let p = choose|p: int| 0 <= p < st.notes.len()
                    && (#[trigger] st.notes[p]).id == y && st.notes[p].updated_at == st.known[k].updated_at;
                assert(next.notes[p] == st.notes[p]);
            }
        }
        assert forall|k: int, j: int| 0 <= k < ds.len() && 0 <= j < rest.len() && #[trigger] ds[k].id == #[trigger] rest[j].id
            implies records_newer(next.tombstones, ds[k]) by {
            assert(rest[j] == ns[j + 1]);
            assert(records_newer(st.tombstones, ds[k]));
            let w = choose|w: int| 0 <= w < st.tombstones.len() && (#[trigger] st.tombstones[w]).id == ds[k].id
                && st.tombstones[w].deleted_at >= ds[k].deleted_at;
            assert(st.tombstones.contains(st.tombstones[w]));
            assert(next.tombstones.contains(st.tombstones[w]));
        }
        lemma_note_phase_settles(next, rest, ds);
        let out = note_phase(next, rest).0;
        assert(out == note_phase(st, ns).0);
        // The bundle note's own settlement survives the rest of the phase.
        if suppressed {
            let i = found->0;
            let e = st.tombstones[i];
            lemma_note_phase_tombstones(next, rest, e, x);
            assert(st.tombstones.contains(e));
            assert(out.tombstones.contains(e));
            let w = choose|w: int| 0 <= w < out.tombstones.len() && out.tombstones[w] == e;
            assert(suppressed_by(out.tombstones, n));
        } else {
            lemma_note_phase_tombstones(next, rest, next.tombstones[0], x);
            lemma_note_phase_other(next, rest, x, p0);
            assert(out.notes[p0] == next.notes[p0]);
            assert(taken_in(out.notes, out.tombstones, ds, n));
        }
        assert(settled(out.notes, out.tombstones, ds, ns[0]));
        assert forall|j: int| 0 <= j < ns.len() implies #[trigger] settled(out.notes, out.tombstones, ds, ns[j]) by {
            if j > 0 {
                assert(rest[j - 1] == ns[j]);
            }
        }
        assert forall|k: int| 0 <= k < ds.len() && names_no_note(ns, ds[k].id) && records_newer(st.tombstones, ds[k])
            implies #[trigger] records_newer(out.tombstones, ds[k]) by {
            assert(ns[0].id != ds[k].id);
            let w = choose|w: int| 0 <= w < st.tombstones.len() && (#[trigger] st.tombstones[w]).id == ds[k].id
                && st.tombstones[w].deleted_at >= ds[k].deleted_at;
            assert(st.tombstones.contains(st.tombstones[w]));
            assert(next.tombstones.contains(st.tombstones[w]));
            let w2 = choose|w2: int| 0 <= w2 < next.tombstones.len() && next.tombstones[w2] == st.tombstones[w];
            assert(records_newer(next.tombstones, ds[k]));
            assert(names_no_note(rest, ds[k].id)) by {
                assert forall|j: int| 0 <= j < rest.len() implies (#[trigger] rest[j]).id != ds[k].id by {
                    assert(rest[j] == ns[j + 1]);
                }
            }
        }
        assert forall|k: int| 0 <= k < ds.len() && !names_no_note(ns, ds[k].id)
            implies #[trigger] records_newer(out.tombstones, ds[k]) || no_tombstone_for(out.tombstones, ds[k].id) by {
            if ds[k].id == x {
                if suppressed {
                    assert(records_newer(st.tombstones, ds[k]));
                    let w = choose|w: int| 0 <= w < st.tombstones.len() && (#[trigger] st.tombstones[w]).id == ds[k].id
                        && st.tombstones[w].deleted_at >= ds[k].deleted_at;
                    let e = st.tombstones[w];
                    lemma_note_phase_tombstones(next, rest, e, x);
                    assert(st.tombstones.contains(e));
                    assert(names_no_note(rest, e.id));
                    let w2 = choose|w2: int| 0 <= w2 < out.tombstones.len() && out.tombstones[w2] == e;
                    assert(records_newer(out.tombstones, ds[k]));
                }
            } else {
                let j = choose|j: int| 0 <= j < ns.len() && (#[trigger] ns[j]).id == ds[k].id;
                assert(j > 0);
                assert(rest[j - 1] == ns[j]);
                assert(!names_no_note(rest, ds[k].id));
            }
        }
    }
}

/// A tombstone that a second merge adds for a bundle note that the first
/// merge took in: no earlier tombstone names it, and it is older than the
/// bundle note.
pub open spec fn pending(t1: Seq<TombstoneView>, ns: Seq<SyncNoteView>, e: TombstoneView) -> bool {
    &&& no_tombstone_for(t1, e.id)
    &&& exists|q: int| 0 <= q < ns.len() && (#[trigger] ns[q]).id == e.id
        && e.deleted_at < sync_record_of(ns[q])->Ok_0.updated_at
}

/// How a bundle tombstone stands before a second merge: recorded at least
/// as new, or naming a bundle note that was taken in and is newer.
pub open spec fn replay_ok(notes: Seq<RecordView>, t1: Seq<TombstoneView>, ns: Seq<SyncNoteView>, d: TombstoneView) -> bool {
    ||| records_newer(t1, d)
    ||| no_tombstone_for(t1, d.id) && exists|q: int| 0 <= q < ns.len() && (#[trigger] ns[q]).id == d.id
        && d.deleted_at < sync_record_of(ns[q])->Ok_0.updated_at && holds_newer(notes, ns[q])
}

proof fn lemma_distinct_prefix(t1: Seq<TombstoneView>, p: Seq<TombstoneView>)
    requires
        distinct_tombstone_ids(t1 + p),
    ensures
        distinct_tombstone_ids(t1),
{
    assert forall|a: int, b: int| 0 <= a < t1.len() && 0 <= b < t1.len() && a != b implies #[trigger] t1[a].id != #[trigger] t1[b].id by {
        assert((t1 + p)[a] == t1[a] && (t1 + p)[b] == t1[b]);
    }
}

/// A second merge's tombstone phase deletes nothing: it skips the
/// tombstones already recorded and adds back those that name taken-in
/// bundle notes.
proof fn lemma_tombstone_phase_replays(t1: Seq<TombstoneView>, st: MergeState, ds: Seq<TombstoneView>, ns: Seq<SyncNoteView>, p: Seq<TombstoneView>) -> (p2: Seq<TombstoneView>)
    requires
        st.notes == st.known,
        ids_unique(st.notes),
        st.tombstones == t1 + p,
        distinct_tombstone_ids(t1 + p),
        distinct_tombstone_ids(ds),
        forall|j: int| 0 <= j < p.len() ==> #[trigger] pending(t1, ns, p[j]),
        forall|k: int| 0 <= k < ds.len() ==> #[trigger] replay_ok(st.notes, t1, ns, ds[k]),
        forall|k: int| 0 <= k < ds.len() && !records_newer(t1, #[trigger] ds[k]) ==> no_tombstone_for(p, ds[k].id),
    ensures
        tombstone_phase(t1, st, ds).1 is None,
        tombstone_phase(t1, st, ds).0.notes == st.notes,
        tombstone_phase(t1, st, ds).0.known == st.known,
        tombstone_phase(t1, st, ds).0.tombstones == t1 + p2,
        distinct_tombstone_ids(t1 + p2),
        forall|j: int| 0 <= j < p2.len() ==> #[trigger] pending(t1, ns, p2[j]),
    decreases ds.len(),
{
    if ds.len() == 0 {
        p
    } else {
        let d = ds[0];
        let x = d.id;
        let rest = ds.drop_first();
        lemma_distinct_prefix(t1, p);
        assert(distinct_tombstone_ids(rest)) by {
            assert forall|a: int, b: int| 0 <= a < rest.len() && 0 <= b < rest.len() && a != b implies #[trigger] rest[a].id != #[trigger] rest[b].id by {
                assert(rest[a] == ds[a + 1]);
                assert(rest[b] == ds[b + 1]);
            }
        }
        assert forall|k: int| 0 <= k < rest.len() implies #[trigger] replay_ok(st.notes, t1, ns, rest[k]) by {
            assert(rest[k] == ds[k + 1]);
        }
        assert(replay_ok(st.notes, t1, ns, d));
        if records_newer(t1, d) {
            let j = choose|j: int| 0 <= j < t1.len() && (#[trigger] t1[j]).id == d.id && t1[j].deleted_at >= d.deleted_at;
            lemma_tomb_first(t1, j);
            assert(!newer_than_local(t1, d));
            assert(tombstone_step(t1, st, d) == (st, None::<ErrorView>));
            assert forall|k: int| 0 <= k < rest.len() && !records_newer(t1, #[trigger] rest[k]) implies no_tombstone_for(p, rest[k].id) by {
                assert(rest[k] == ds[k + 1]);
            }
            lemma_tombstone_phase_replays(t1, st, rest, ns, p)
        } else {
            let q = choose|q: int| 0 <= q < ns.len() && (#[trigger] ns[q]).id == d.id
                && d.deleted_at < sync_record_of(ns[q])->Ok_0.updated_at && holds_newer(st.notes, ns[q]);
            assert(no_tombstone_for(t1, x));
            assert(no_tombstone_for(p, x));
            lemma_tomb_absent(t1, x);
            assert(no_tombstone_for(t1 + p, x)) by {
                assert forall|j: int| 0 <= j < (t1 + p).len() implies (#[trigger] (t1 + p)[j]).id != x by {
                    if j < t1.len() {
                        assert((t1 + p)[j] == t1[j]);
                    } else {
                        assert((t1 + p)[j] == p[j - t1.len()]);
                    }
                }
            }
            lemma_tomb_absent(t1 + p, x);
            assert(upsert_tombstone(st.tombstones, d) == st.tombstones.push(d));
            assert(holds_newer(st.notes, ns[q]));
            let pp = choose|pp: int| 0 <= pp < st.notes.len() && (#[trigger] st.notes[pp]).id == ns[q].id
                && st.notes[pp].updated_at >= sync_record_of(ns[q])->Ok_0.updated_at;
            lemma_unique_first(st.notes, pp);
            let next = tombstone_step(t1, st, d).0;
            assert(tombstone_step(t1, st, d).1 is None);
            assert(next.notes == st.notes && next.known == st.known);
            let p1 = p.push(d);
            assert(next.tombstones =~= t1 + p1);
            assert(distinct_tombstone_ids(t1 + p1)) by {
                let u = t1 + p1;
                assert forall|a: int, b: int| 0 <= a < u.len() && 0 <= b < u.len() && a != b implies #[trigger] u[a].id != #[trigger] u[b].id by {
                    if a < u.len() - 1 && b < u.len() - 1 {
                        assert(u[a] == (t1 + p)[a] && u[b] == (t1 + p)[b]);
                    } else if a < u.len() - 1 {
                        assert(u[a] == (t1 + p)[a]);
                    } else {
                        assert(u[b] == (t1 + p)[b]);
                    }
                }
            }
            assert forall|j: int| 0 <= j < p1.len() implies #[trigger] pending(t1, ns, p1[j]) by {
                if j < p.len() {
                    assert(p1[j] == p[j]);
                } else {
                    assert(p1[j] == d);
                }
            }
            assert forall|k: int| 0 <= k < rest.len() && !records_newer(t1, #[trigger] rest[k]) implies no_tombstone_for(p1, rest[k].id) by {
                assert(rest[k] == ds[k + 1]);
                assert(ds[k + 1].id != ds[0].id);
                assert forall|j: int| 0 <= j < p1.len() implies (#[trigger] p1[j]).id != rest[k].id by {
                    if j < p.len() {
                        assert(p1[j] == p[j]);
                    }
                }
            }
            lemma_tombstone_phase_replays(t1, next, rest, ns, p1)
        }
    }
}

/// A second merge's note phase changes no note and drops exactly the
/// tombstones that its tombstone phase added back.
proof fn lemma_note_phase_replays(st: MergeState, ns: Seq<SyncNoteView>, ds: Seq<TombstoneView>, t1: Seq<TombstoneView>, p: Seq<TombstoneView>)
    requires
        ids_unique(st.notes),
        st.known == st.notes,
        reads_as_itself(ns),
        distinct_note_ids(ns),
        st.tombstones == t1 + p,
        distinct_tombstone_ids(t1 + p),
        forall|j: int| 0 <= j < p.len() ==> #[trigger] pending(t1, ns, p[j]),
        forall|j: int| 0 <= j < ns.len() ==> #[trigger] settled(st.notes, t1, ds, ns[j]),
    ensures
        note_phase(st, ns).1 is None,
        note_phase(st, ns).0.notes == st.notes,
        note_phase(st, ns).0.tombstones == t1,
    decreases ns.len(),
{
    if ns.len() == 0 {
        if p.len() > 0 {
            assert(pending(t1, ns, p[0]));
        }
        assert(t1 + p =~= t1);
    } else {
        let n = ns[0];
        let x = n.id;
        assert(sync_record_of(n) matches Ok(rec) && rec.id == n.id);
        let rec = sync_record_of(n)->Ok_0;
        let rest = ns.drop_first();
        assert forall|j: int| 0 <= j < rest.len() implies ((#[trigger] sync_record_of(rest[j])) matches Ok(r) && r.id == rest[j].id) by {
            assert(rest[j] == ns[j + 1]);
        }
        assert(distinct_note_ids(rest)) by {
            assert forall|a: int, b: int| 0 <= a < rest.len() && 0 <= b < rest.len() && a != b implies #[trigger] rest[a].id != #[trigger] rest[b].id by {
                assert(rest[a] == ns[a + 1]);
                assert(rest[b] == ns[b + 1]);
            }
        }
        assert forall|j: int| 0 <= j < rest.len() implies #[trigger] settled(st.notes, t1, ds, rest[j]) by {
            assert(rest[j] == ns[j + 1]);
        }
        assert(settled(st.notes, t1, ds, n));
        let u = t1 + p;
        let found = first_pos(tombstone_ids(u), x);
        if suppressed_by(t1, n) {
            let i = choose|i: int| 0 <= i < t1.len() && (#[trigger] t1[i]).id == n.id
                && t1[i].deleted_at >= sync_record_of(n)->Ok_0.updated_at;
            assert(u[i] == t1[i]);
            lemma_tomb_first(u, i);
            assert(note_step(st, n) == (st, None::<ErrorView>));
            assert forall|j: int| 0 <= j < p.len() implies #[trigger] pending(t1, rest, p[j]) by {
                assert(pending(t1, ns, p[j]));
                let q = choose|q: int| 0 <= q < ns.len() && (#[trigger] ns[q]).id == p[j].id
                    && p[j].deleted_at < sync_record_of(ns[q])->Ok_0.updated_at;
                assert(t1[i].id != p[j].id);
                assert(q != 0);
                assert(rest[q - 1] == ns[q]);
            }
            lemma_note_phase_replays(st, rest, ds, t1, p);
        } else {
            assert(taken_in(st.notes, t1, ds, n));
            let pr = |t: TombstoneView| t.id != n.id;
            let mut p1 = p;
            match found {
                Some(i) => {
                    assert(tombstone_ids(u)[i] == x);
                    assert(i >= t1.len()) by {
                        if i < t1.len() {
                            assert(u[i] == t1[i]);
                        }
                    }
                    let e = p[i - t1.len()];
                    assert(u[i] == e);
                    assert(pending(t1, ns, e));
                    let q = choose|q: int| 0 <= q < ns.len() && (#[trigger] ns[q]).id == e.id
                        && e.deleted_at < sync_record_of(ns[q])->Ok_0.updated_at;
                    assert(q == 0);
                    Seq::filter_distributes_over_add(t1, p, pr);
                    assert forall|j: int| 0 <= j < t1.len() implies pr(#[trigger] t1[j]) by {}
                    lemma_filter_keeps_all(t1, pr);
                    assert(u.filter(pr) == t1 + p.filter(pr));
                    lemma_filter_distinct(u, x);
                    p1 = p.filter(pr);
                },
                None => {
                    lemma_tomb_first_none(u, x);
                },
            }
            let next = note_step(st, n).0;
            let pp = choose|pp: int| 0 <= pp < st.notes.len() && (#[trigger] st.notes[pp]).id == n.id
                && st.notes[pp].updated_at >= sync_record_of(n)->Ok_0.updated_at;
            lemma_unique_first(st.notes, pp);
            assert(note_step(st, n).1 is None);
            assert(next.notes == st.notes && next.known == st.known);
            assert(next.tombstones == t1 + p1);
            assert(distinct_tombstone_ids(t1 + p1));
            assert forall|j: int| 0 <= j < p1.len() implies #[trigger] pending(t1, rest, p1[j]) by {
                broadcast use vstd::seq_lib::group_filter_ensures;
                let e = p1[j];
                assert(p.contains(e) && e.id != x) by {
                    if found is Some {
                        assert(p1.contains(e));
                        p.lemma_filter_contains_rev(pr, e);
                    } else {
                        assert(p[j] == e);
                        assert(u[t1.len() + j] == e);
                    }
                }
                let jj = choose|jj: int| 0 <= jj < p.len() && p[jj] == e;
                assert(pending(t1, ns, p[jj]));
                let q = choose|q: int| 0 <= q < ns.len() && (#[trigger] ns[q]).id == e.id
                    && e.deleted_at < sync_record_of(ns[q])->Ok_0.updated_at;
                assert(q != 0);
                assert(rest[q - 1] == ns[q]);
            }
            lemma_note_phase_replays(next, rest, ds, t1, p1);
        }
    }
}

/// Merging a bundle a second time changes nothing: the second merge
/// succeeds and leaves the notes and tombstones as the first merge left
/// them. This holds when the local tombstones, the bundle's tombstones and
/// the bundle's notes each have distinct ids and the bundle's notes read
/// back as themselves.
pub proof fn lemma_merge_twice_changes_nothing(notes: Seq<RecordView>, ts: Seq<TombstoneView>, remote: BundleView)
    requires
        ids_unique(notes),
        distinct_tombstone_ids(ts),
        distinct_tombstone_ids(remote.deleted),
        reads_as_itself(remote.notes),
        distinct_note_ids(remote.notes),
        merge_run(notes, ts, remote).1 is None,
    ensures
        ({
            let once = merge_run(notes, ts, remote).0;
            let twice = merge_run(once.notes, once.tombstones, remote);
            &&& twice.1 is None
            &&& twice.0.notes == once.notes
            &&& twice.0.tombstones == once.tombstones
        }),
{
    let ns = remote.notes;
    let ds = remote.deleted;
    let st = merge_start_state(notes, ts);
    assert forall|j: int, k: int| 0 <= j < ts.len() && 0 <= k < ds.len() && #[trigger] ts[j].id == #[trigger] ds[k].id
        implies st.tombstones.contains(ts[j]) by {
        assert(st.tombstones[j] == ts[j]);
    }
    let (mid, err) = tombstone_phase(ts, st, ds);
    assert(err is None);
    lemma_tombstone_phase_records(ts, st, ds);
    assert forall|j: int| 0 <= j < ns.len() implies #[trigger] known_agrees(mid, ns[j].id) by {
        if let Some(k) = first_pos(record_ids(mid.known), ns[j].id) {
            assert(record_ids(mid.known)[k] == ns[j].id);
            assert(mid.notes[k].id == ns[j].id);
        }
    }
    assert forall|k: int, j: int| 0 <= k < ds.len() && 0 <= j < ns.len() && #[trigger] ds[k].id == #[trigger] ns[j].id
        implies records_newer(mid.tombstones, ds[k]) by {}
    lemma_note_phase_settles(mid, ns, ds);
    let once = note_phase(mid, ns).0;
    assert(merge_run(notes, ts, remote).0 == once);
    let n1 = once.notes;
    let t1 = once.tombstones;
    let st2 = merge_start_state(n1, t1);
    assert forall|k: int| 0 <= k < ds.len() implies #[trigger] replay_ok(n1, t1, ns, ds[k]) by {
        if names_no_note(ns, ds[k].id) {
            assert(records_newer(mid.tombstones, ds[k]));
            assert(records_newer(t1, ds[k]));
        } else {
            assert(records_newer(t1, ds[k]) || no_tombstone_for(t1, ds[k].id));
            if !records_newer(t1, ds[k]) {
                let q = choose|q: int| 0 <= q < ns.len() && (#[trigger] ns[q]).id == ds[k].id;
                assert(settled(n1, t1, ds, ns[q]));
                if suppressed_by(t1, ns[q]) {
                    let i = choose|i: int| 0 <= i < t1.len() && (#[trigger] t1[i]).id == ns[q].id
                        && t1[i].deleted_at >= sync_record_of(ns[q])->Ok_0.updated_at;
                    assert(t1[i].id != ds[k].id);
                }
                assert(taken_in(n1, t1, ds, ns[q]));
                assert(ds[k].deleted_at < sync_record_of(ns[q])->Ok_0.updated_at);
            }
        }
    }
    let empty = Seq::<TombstoneView>::empty();
    assert(st2.tombstones == t1 + empty);
    let p2 = lemma_tombstone_phase_replays(t1, st2, ds, ns, empty);
    let mid2 = tombstone_phase(t1, st2, ds).0;
    lemma_note_phase_replays(mid2, ns, ds, t1, p2);
}

} // verus!
