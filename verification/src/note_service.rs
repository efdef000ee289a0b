use vstd::prelude::*;
use vstd::utf8::encode_utf8;
use crate::calendar::{Date, Timestamp, date_text, format_date, format_rfc3339, now, rfc3339_text, valid_date};
use crate::crypto::{AesGcmCryptoProvider, CryptoProvider};
use crate::dto::{NoteResponse, ResponseView};
use crate::entities::{DayMarker, EncryptedNoteRecord, MarkerView, Note, NoteView, RecordView};
use crate::errors::{DomainError, DomainResult};
use crate::ids::new_uuid_text;
use crate::auth_service::SessionKey;
use crate::store::{Database, dates_desc, first_index_on, has_id, ids_unique, lemma_first_index_on_facts, month_selection, record_views, selected, updated_record};
use crate::calendar::month_ok;

verus! {

/// Longest title, in UTF-8 bytes.
pub const MAX_TITLE_LEN: usize = 512;
/// Longest content, in UTF-8 bytes.
pub const MAX_CONTENT_LEN: usize = 1_048_576;

/// What `serde_json::to_string` writes for a list of texts.
pub uninterp spec fn json_text_list(tags: Seq<Seq<char>>) -> Seq<char>;

/// What `serde_json::from_str::<Vec<String>>` reads from a text.
pub uninterp spec fn json_parse_text_list(s: Seq<char>) -> Option<Seq<Seq<char>>>;

/// An upper bound on the UTF-8 length of the JSON list of texts: the
/// brackets, and for each text its quotes, a comma and at most six bytes
/// for each of its bytes (the longest escape is `\u00XX`).
pub open spec fn json_size_bound(tags: Seq<Seq<char>>) -> nat
    decreases tags.len(),
{
    if tags.len() == 0 {
        2
    } else {
        json_size_bound(tags.drop_last()) + 6 * encode_utf8(tags.last()).len() + 3
    }
}

/// `serde_json::to_string` of a list of texts. Serialising strings cannot
/// fail, reading the JSON back gives the list, and its length stays within
/// `json_size_bound`.
#[verifier::external_body]
fn tags_to_json(tags: &Vec<String>) -> (r: Result<String, String>)
    ensures
        r is Ok,
        r matches Ok(s) ==> s@ == json_text_list(tags.deep_view()) && json_parse_text_list(s@) == Some(tags.deep_view())
            && encode_utf8(s@).len() <= json_size_bound(tags.deep_view()),
{
    serde_json::to_string(tags).map_err(|e| e.to_string())
}

/// `serde_json::from_str::<Vec<String>>`; on failure the error's message.
#[verifier::external_body]
fn tags_from_json(s: &str) -> (r: Result<Vec<String>, String>)
    ensures
        match r {
            Ok(v) => json_parse_text_list(s@) == Some(v.deep_view()),
            Err(_) => json_parse_text_list(s@) is None,
        },
{
    serde_json::from_str::<Vec<String>>(s).map_err(|e| e.to_string())
}

/// The note that a stored record decrypts to under a key, `None` when a
/// field does not decrypt or the tags are not a JSON list of texts.
pub open spec fn decoded_note<C: CryptoProvider>(c: C, r: RecordView, key: Seq<u8>) -> Option<NoteView> {
    match (c.opened(r.title_enc, key), c.opened(r.content_enc, key), c.opened(r.tags_enc, key)) {
        (Some(title), Some(content), Some(tags_text)) => match json_parse_text_list(tags_text) {
            Some(tags) => Some(
                NoteView {
                    id: r.id,
                    entry_date: r.entry_date,
                    title,
                    content,
                    tags,
                    is_favorite: r.is_favorite,
                    is_done: r.is_done,
                    mood: r.mood,
                    created_at: r.created_at,
                    updated_at: r.updated_at,
                },
            ),
            None => None,
        },
        _ => None,
    }
}

/// What the user interface receives for a note.
pub open spec fn response_of(n: NoteView) -> ResponseView {
    ResponseView {
        id: n.id,
        entry_date: date_text(n.entry_date),
        title: n.title,
        content: n.content,
        tags: n.tags,
        is_favorite: n.is_favorite,
        created_at: rfc3339_text(n.created_at),
        updated_at: rfc3339_text(n.updated_at),
    }
}

/// Why a title and content are refused, if they are.
pub open spec fn input_error(title: Seq<char>, content: Seq<char>) -> Option<Seq<char>> {
    if encode_utf8(title).len() > MAX_TITLE_LEN {
        Some("Title is too long."@)
    } else if encode_utf8(content).len() > MAX_CONTENT_LEN {
        Some("Content is too long."@)
    } else {
        None
    }
}

/// What reading a day gives: `None` when its note does not decrypt,
/// `Some(None)` when the day has no note.
pub open spec fn read_day<C: CryptoProvider>(c: C, s: Seq<RecordView>, key: Seq<u8>, d: Date) -> Option<Option<NoteView>> {
    match first_index_on(s, d) {
        None => Some(None),
        Some(i) => match decoded_note(c, s[i], key) {
            Some(n) => Some(Some(n)),
            None => None,
        },
    }
}

/// The position of the stored note with an id.
pub open spec fn index_of_id(s: Seq<RecordView>, id: Seq<char>) -> int {
    choose|i: int| 0 <= i < s.len() && s[i].id == id
}

/// A note after the editor's changes.
pub open spec fn edited(n: NoteView, date: Date, title: Seq<char>, content: Seq<char>, tags: Seq<Seq<char>>, fav: bool, now: Timestamp) -> NoteView {
    NoteView { entry_date: date, title, content, tags, is_favorite: fav, updated_at: now, ..n }
}

/// A new note.
pub open spec fn fresh_note(id: Seq<char>, date: Date, title: Seq<char>, content: Seq<char>, tags: Seq<Seq<char>>, fav: bool, now: Timestamp) -> NoteView {
    NoteView {
        id,
        entry_date: date,
        title,
        content,
        tags,
        is_favorite: fav,
        is_done: false,
        mood: None,
        created_at: now,
        updated_at: now,
    }
}

/// Whether the note's title, content and tags (as JSON) all encrypt under
/// the key.
pub open spec fn note_seals<C: CryptoProvider>(c: C, n: NoteView, key: Seq<u8>) -> bool {
    &&& c.seals(n.title, key)
    &&& c.seals(n.content, key)
    &&& c.seals(json_text_list(n.tags), key)
}

/// Encrypting the note's fields under the key fails: one of them does not
/// seal, the tags' JSON being within its bound.
pub open spec fn seal_fails<C: CryptoProvider>(c: C, n: NoteView, key: Seq<u8>) -> bool {
    !note_seals(c, n, key) && encode_utf8(json_text_list(n.tags)).len() <= json_size_bound(n.tags)
}

/// `new` is `old` with the note at `i` rewritten so that it decrypts to `n`.
pub open spec fn rewritten<C: CryptoProvider>(c: C, old: Seq<RecordView>, new: Seq<RecordView>, key: Seq<u8>, i: int, n: NoteView) -> bool {
    &&& 0 <= i < old.len()
    &&& new.len() == old.len()
    &&& forall|j: int| 0 <= j < old.len() && j != i ==> new[j] == old[j]
    &&& decoded_note(c, new[i], key) == Some(n)
}

/// `new` is `old` with one note appended that decrypts to `n`.
pub open spec fn appended<C: CryptoProvider>(c: C, old: Seq<RecordView>, new: Seq<RecordView>, key: Seq<u8>, n: NoteView) -> bool {
    &&& new.len() == old.len() + 1
    &&& new.take(old.len() as int) == old
    &&& decoded_note(c, new.last(), key) == Some(n)
}

/// The outcome of rewriting the note at `i` as `change` makes it.
pub open spec fn rewrite_outcome<C: CryptoProvider>(
    c: C,
    old: Seq<RecordView>,
    new: Seq<RecordView>,
    key: Seq<u8>,
    i: int,
    change: spec_fn(NoteView) -> NoteView,
    r: DomainResult<NoteResponse>,
) -> bool {
    match decoded_note(c, old[i], key) {
        None => r matches Err(e) && e is Crypto && new == old,
        Some(n0) => match r {
            Ok(resp) => resp@ == response_of(change(n0)) && rewritten(c, old, new, key, i, change(n0)) && note_seals(c, change(n0), key),
            Err(e) => e is Crypto && seal_fails(c, change(n0), key) && new == old,
        },
    }
}

/// The outcome of saving, once the input is accepted and the journal is
/// unlocked: a given id names the note to edit; else the day's first note
/// is edited; else a new note is stored under `new_id`.
pub open spec fn save_outcome<C: CryptoProvider>(
    c: C,
    old: Seq<RecordView>,
    new: Seq<RecordView>,
    key: Seq<u8>,
    id: Option<Seq<char>>,
    date: Date,
    title: Seq<char>,
    content: Seq<char>,
    tags: Seq<Seq<char>>,
    fav: bool,
    now: Timestamp,
    new_id: Seq<char>,
    r: DomainResult<NoteResponse>,
) -> bool {
    match id {
        Some(id) => if !has_id(old, id) {
            r matches Err(e) && e is NotFound && new == old
        } else {
            rewrite_outcome(c, old, new, key, index_of_id(old, id), |n: NoteView| edited(n, date, title, content, tags, fav, now), r)
        },
        None => match first_index_on(old, date) {
            Some(i) => rewrite_outcome(c, old, new, key, i, |n: NoteView| edited(n, date, title, content, tags, fav, now), r),
            None => match r {
                Ok(resp) => {
                    let n = fresh_note(new_id, date, title, content, tags, fav, now);
                    resp@ == response_of(n) && appended(c, old, new, key, n)
                },
                Err(e) => ((e is Crypto && seal_fails(c, fresh_note(new_id, date, title, content, tags, fav, now), key))
                    || (e is Storage && has_id(old, new_id))) && new == old,
            },
        },
    }
}

pub open spec fn opt_text(o: Option<String>) -> Option<Seq<char>> {
    match o {
        Some(s) => Some(s@),
        None => None,
    }
}

/// Everything that saving may do: refuse the input, refuse a locked
/// journal, or act as `save_outcome` says.
pub open spec fn save_result<C: CryptoProvider>(
    c: C,
    old: Seq<RecordView>,
    new: Seq<RecordView>,
    session: Option<SessionKey>,
    id: Option<Seq<char>>,
    date: Date,
    title: Seq<char>,
    content: Seq<char>,
    tags: Seq<Seq<char>>,
    fav: bool,
    now: Timestamp,
    new_id: Seq<char>,
    r: DomainResult<NoteResponse>,
) -> bool {
    match input_error(title, content) {
        Some(msg) => r matches Err(DomainError::Validation(m)) && m@ == msg && new == old,
        None => match session {
            None => r matches Err(e) && e is Locked && new == old,
            Some(k) => save_outcome(c, old, new, k.0@, id, date, title, content, tags, fav, now, new_id, r),
        },
    }
}

/// A new day's note: empty, not a favourite, not done, no mood.
pub open spec fn empty_note(id: Seq<char>, date: Date, now: Timestamp) -> NoteView {
    fresh_note(id, date, Seq::empty(), Seq::empty(), Seq::empty(), false, now)
}

/// Everything that opening a day may do: refuse a locked journal, give the
/// day's note, or store a new empty note for it under `new_id`.
pub open spec fn get_or_create_result<C: CryptoProvider>(
    c: C,
    old: Seq<RecordView>,
    new: Seq<RecordView>,
    session: Option<SessionKey>,
    date: Date,
    now: Timestamp,
    new_id: Seq<char>,
    r: DomainResult<NoteResponse>,
) -> bool {
    match session {
        None => r matches Err(e) && e is Locked && new == old,
        Some(k) => match read_day(c, old, k.0@, date) {
            None => r matches Err(e) && e is Crypto && new == old,
            Some(Some(n)) => r matches Ok(resp) && resp@ == response_of(n) && new == old,
            Some(None) => match r {
                Ok(resp) => resp@ == response_of(empty_note(new_id, date, now)) && appended(c, old, new, k.0@, empty_note(new_id, date, now)),
                Err(e) => ((e is Crypto && seal_fails(c, empty_note(new_id, date, now), k.0@))
                    || (e is Storage && has_id(old, new_id))) && new == old,
            },
        },
    }
}

/// A note with its favourite mark flipped.
pub open spec fn toggled(n: NoteView, now: Timestamp) -> NoteView {
    NoteView { is_favorite: !n.is_favorite, updated_at: now, ..n }
}

/// Everything that flipping a note's favourite mark may do.
pub open spec fn toggle_result<C: CryptoProvider>(
    c: C,
    old: Seq<RecordView>,
    new: Seq<RecordView>,
    session: Option<SessionKey>,
    id: Seq<char>,
    now: Timestamp,
    r: DomainResult<NoteResponse>,
) -> bool {
    match session {
        None => r matches Err(e) && e is Locked && new == old,
        Some(k) => if !has_id(old, id) {
            r matches Err(e) && e is NotFound && new == old
        } else {
            rewrite_outcome(c, old, new, k.0@, index_of_id(old, id), |n: NoteView| toggled(n, now), r)
        },
    }
}

/// Whether every stored note decrypts under the key.
pub open spec fn all_decode<C: CryptoProvider>(c: C, s: Seq<RecordView>, key: Seq<u8>) -> bool {
    forall|i: int| 0 <= i < s.len() ==> (#[trigger] decoded_note(c, s[i], key)) is Some
}

/// In a store whose ids are unique, `index_of_id` finds the note.
pub proof fn lemma_index_of_id(s: Seq<RecordView>, i: int)
    requires
        ids_unique(s),
        0 <= i < s.len(),
    ensures
        index_of_id(s, s[i].id) == i,
{
    let id = s[i].id;
    let j = index_of_id(s, id);
    assert(0 <= j < s.len() && s[j].id == id);
}

/// The calendar marker of a note: a note counts once it has a title or
/// content.
pub open spec fn marker_of(n: NoteView) -> MarkerView {
    MarkerView { date: date_text(n.entry_date), has_note: n.title.len() > 0 || n.content.len() > 0, is_favorite: n.is_favorite }
}

/// The notes of a list are `notes`, in order.
pub open spec fn decodes_to<C: CryptoProvider>(c: C, recs: Seq<RecordView>, key: Seq<u8>, notes: Seq<NoteView>) -> bool {
    &&& notes.len() == recs.len()
    &&& forall|i: int| 0 <= i < recs.len() ==> decoded_note(c, #[trigger] recs[i], key) == Some(notes[i])
}

/// The abstract values of a list of notes.
pub open spec fn note_views(v: Seq<Note>) -> Seq<NoteView> {
    v.map_values(|n: Note| n@)
}

/// Two lists with the same elements: one decrypts fully exactly when the
/// other does.
pub proof fn lemma_all_decode_same_multiset<C: CryptoProvider>(c: C, a: Seq<RecordView>, b: Seq<RecordView>, key: Seq<u8>)
    requires
        a.to_multiset() == b.to_multiset(),
    ensures
        all_decode(c, a, key) == all_decode(c, b, key),
{
    broadcast use vstd::seq_lib::group_to_multiset_ensures;
    if all_decode(c, a, key) {
        assert forall|i: int| 0 <= i < b.len() implies (#[trigger] decoded_note(c, b[i], key)) is Some by {
            assert(b.to_multiset().count(b[i]) > 0);
            assert(a.contains(b[i]));
            let j = choose|j: int| 0 <= j < a.len() && a[j] == b[i];
            assert(decoded_note(c, a[j], key) is Some);
        }
    }
    if all_decode(c, b, key) {
        assert forall|i: int| 0 <= i < a.len() implies (#[trigger] decoded_note(c, a[i], key)) is Some by {
            assert(a.to_multiset().count(a[i]) > 0);
            assert(b.contains(a[i]));
            let j = choose|j: int| 0 <= j < b.len() && b[j] == a[i];
            assert(decoded_note(c, b[j], key) is Some);
        }
    }
}

/// `new` holds the same notes as `old`, in the same places, now encrypted
/// under `new_key` instead of `old_key`.
pub open spec fn reencrypted<C: CryptoProvider>(c: C, old: Seq<RecordView>, new: Seq<RecordView>, old_key: Seq<u8>, new_key: Seq<u8>) -> bool {
    &&& new.len() == old.len()
    &&& forall|i: int| 0 <= i < old.len() ==> #[trigger] decoded_note(c, new[i], new_key) == decoded_note(c, old[i], old_key)
        && decoded_note(c, old[i], old_key) is Some
}

/// Whether every stored note that decrypts under `old_key` encrypts again
/// under `new_key`.
pub open spec fn all_reseal<C: CryptoProvider>(c: C, s: Seq<RecordView>, old_key: Seq<u8>, new_key: Seq<u8>) -> bool {
    forall|i: int| 0 <= i < s.len() ==> (#[trigger] decoded_note(c, s[i], old_key) matches Some(n) ==> note_seals(c, n, new_key))
}

/// A copy of a list of texts.
pub fn clone_texts(v: &Vec<String>) -> (r: Vec<String>)
    ensures
        r.deep_view() == v.deep_view(),
{
    let mut out: Vec<String> = Vec::new();
    let mut i: usize = 0;
    while i < v.len()
        invariant
            i <= v@.len(),
            out@.len() == i,
            forall|j: int| 0 <= j < i ==> (#[trigger] out@[j])@ == v@[j]@,
        decreases v.len() - i,
    {
        out.push(v[i].clone());
        i = i + 1;
    }
    proof {
        assert(out.deep_view() =~= v.deep_view());
    }
    out
}

/// Creates, reads and edits notes, encrypting them with the session key.
pub struct NoteService<C: CryptoProvider> {
    pub crypto: C,
}

impl<C: CryptoProvider> NoteService<C> {
    pub fn new(crypto: C) -> (r: Self)
        ensures
            r.crypto == crypto,
    {
        NoteService { crypto }
    }

    /// The session key, or `Locked` when there is none.
    pub fn require_session<'a>(&self, session: &'a Option<SessionKey>) -> (r: DomainResult<&'a [u8; 32]>)
        ensures
            match session {
                Some(k) => r matches Ok(key) && key@ == k.0@,
                None => r matches Err(e) && e is Locked,
            },
    {
        match session {
            Some(k) => Ok(&k.0),
            None => Err(DomainError::Locked),
        }
    }

    /// Refuses a title longer than 512 bytes or a content longer than
    /// 1 MiB.
    pub fn validate_note_input(title: &str, content: &str) -> (r: DomainResult<()>)
        ensures
            match input_error(title@, content@) {
                Some(msg) => r matches Err(DomainError::Validation(m)) && m@ == msg,
                None => r is Ok,
            },
    {
        if title.as_bytes().len() > MAX_TITLE_LEN {
            return Err(DomainError::Validation("Title is too long.".to_string()));
        }
        if content.as_bytes().len() > MAX_CONTENT_LEN {
            return Err(DomainError::Validation("Content is too long.".to_string()));
        }
        Ok(())
    }

    /// The note with title, content and tags (as JSON) encrypted under the
    /// key; it decrypts back to the note.
    pub fn encrypt_record(&self, note: &Note, key: &[u8; 32]) -> (r: DomainResult<EncryptedNoteRecord>)
        ensures
            match r {
                Ok(rec) => decoded_note(self.crypto, rec@, key@) == Some(note@) && note_seals(self.crypto, note@, key@),
                Err(e) => e is Crypto && seal_fails(self.crypto, note@, key@),
            },
    {
        let tags_json = match tags_to_json(&note.tags) {
            Ok(s) => s,
            Err(msg) => { return Err(DomainError::Crypto(msg)); },
        };
        let title_enc = self.crypto.encrypt(note.title.as_str(), key)?;
        let content_enc = self.crypto.encrypt(note.content.as_str(), key)?;
        let tags_enc = self.crypto.encrypt(tags_json.as_str(), key)?;
        Ok(EncryptedNoteRecord {
            id: note.id.clone(),
            entry_date: note.entry_date,
            title_enc,
            content_enc,
            tags_enc,
            is_favorite: note.is_favorite,
            is_done: note.is_done,
            mood: note.mood,
            created_at: note.created_at,
            updated_at: note.updated_at,
        })
    }

    /// The note that a stored record holds under the key.
    pub fn decrypt_record(&self, record: &EncryptedNoteRecord, key: &[u8; 32]) -> (r: DomainResult<Note>)
        ensures
            match decoded_note(self.crypto, record@, key@) {
                Some(n) => r matches Ok(note) && note@ == n,
                None => r matches Err(e) && e is Crypto,
            },
    {
        let title = self.crypto.decrypt(record.title_enc.as_slice(), key)?;
        let content = self.crypto.decrypt(record.content_enc.as_slice(), key)?;
        let tags_json = self.crypto.decrypt(record.tags_enc.as_slice(), key)?;
        let tags = match tags_from_json(tags_json.as_str()) {
            Ok(t) => t,
            Err(msg) => { return Err(DomainError::Crypto(msg)); },
        };
        Ok(Note {
            id: record.id.clone(),
            entry_date: record.entry_date,
            title,
            content,
            tags,
            is_favorite: record.is_favorite,
            is_done: record.is_done,
            mood: record.mood,
            created_at: record.created_at,
            updated_at: record.updated_at,
        })
    }

    /// The note as the user interface receives it.
    pub fn to_response(note: &Note) -> (r: NoteResponse)
        requires
            valid_date(note.entry_date),
        ensures
            r@ == response_of(note@),
    {
        NoteResponse {
            id: note.id.clone(),
            entry_date: format_date(note.entry_date),
            title: note.title.clone(),
            content: note.content.clone(),
            tags: clone_texts(&note.tags),
            is_favorite: note.is_favorite,
            created_at: format_rfc3339(note.created_at),
            updated_at: format_rfc3339(note.updated_at),
        }
    }

    /// Stores `note` (encrypted under `key`) in place of the stored note
    /// `existing`, which is at `i` and decrypts to a note that `note`
    /// changes only in ways the stored note keeps.
    fn rewrite(&self, db: &mut Database, i: Ghost<int>, note: &Note, key: &[u8; 32]) -> (r: DomainResult<NoteResponse>)
        requires
            old(db).wf(),
            0 <= i@ < old(db).notes@.len(),
            valid_date(note.entry_date),
            note@.id == old(db).notes@[i@].id,
            note@.is_done == old(db).notes@[i@].is_done,
            note@.mood == old(db).notes@[i@].mood,
            note@.created_at == old(db).notes@[i@].created_at,
        ensures
            final(db).wf(),
            final(db).meta == old(db).meta,
            match r {
                Ok(resp) => resp@ == response_of(note@) && rewritten(self.crypto, old(db).notes@, final(db).notes@, key@, i@, note@)
                    && note_seals(self.crypto, note@, key@),
                Err(e) => e is Crypto && seal_fails(self.crypto, note@, key@) && final(db).notes@ == old(db).notes@,
            },
    {
        let record = self.encrypt_record(note, key)?;
        let ghost before = db.notes@;
        let ghost rec = record@;
        match db.notes.update(record) {
            Ok(()) => {
                proof {
                    let k = choose|k: int| 0 <= k < before.len() && before[k].id == rec.id
                        && db.notes@ == before.update(k, #[trigger] updated_record(before[k], rec));
                    assert(k == i@);
                    assert(updated_record(before[k], rec) == rec);
                }
                Ok(Self::to_response(note))
            },
            Err(e) => {
                proof {
                    assert(before[i@].id == rec.id);
                    assert(has_id(before, rec.id));
                    assert(false);
                }
                Err(e)
            },
        }
    }

    /// The note stored for a day, if any.
    pub fn get_by_date(&self, db: &Database, session: &Option<SessionKey>, date: Date) -> (r: DomainResult<Option<NoteResponse>>)
        requires
            db.wf(),
        ensures
            match session {
                None => r matches Err(e) && e is Locked,
                Some(k) => match read_day(self.crypto, db.notes@, k.0@, date) {
                    None => r matches Err(e) && e is Crypto,
                    Some(None) => r matches Ok(None),
                    Some(Some(n)) => r matches Ok(Some(resp)) && resp@ == response_of(n),
                },
            },
    {
        let key = self.require_session(session)?;
        proof {
            lemma_first_index_on_facts(db.notes@, date);
        }
        match db.notes.get_by_date(date) {
            Some(record) => {
                let note = self.decrypt_record(&record, key)?;
                Ok(Some(Self::to_response(&note)))
            },
            None => Ok(None),
        }
    }

    /// The day's note, or a new empty one stored for the day under
    /// `new_id` with the time `now`.
    pub fn get_or_create_for_date_with(
        &self,
        db: &mut Database,
        session: &Option<SessionKey>,
        date: Date,
        now: Timestamp,
        new_id: String,
    ) -> (r: DomainResult<NoteResponse>)
        requires
            old(db).wf(),
            valid_date(date),
        ensures
            final(db).wf(),
            final(db).meta == old(db).meta,
            get_or_create_result(self.crypto, old(db).notes@, final(db).notes@, *session, date, now, new_id@, r),
    {
        if let Some(existing) = self.get_by_date(db, session, date)? {
            return Ok(existing);
        }
        let key = self.require_session(session)?;
        let note = Note {
            id: new_id,
            entry_date: date,
            title: String::new(),
            content: String::new(),
            tags: Vec::new(),
            is_favorite: false,
            is_done: false,
            mood: None,
            created_at: now,
            updated_at: now,
        };
        proof {
            assert(note@.tags =~= Seq::<Seq<char>>::empty());
            assert(note@ == empty_note(new_id@, date, now));
        }
        self.create(db, &note, key)
    }

    /// The day's note, or a new empty one stored for the day.
    pub fn get_or_create_for_date(&self, db: &mut Database, session: &Option<SessionKey>, date: Date) -> (r: DomainResult<NoteResponse>)
        requires
            old(db).wf(),
            valid_date(date),
        ensures
            final(db).wf(),
            final(db).meta == old(db).meta,
            exists|t: Timestamp, id: Seq<char>| get_or_create_result(self.crypto, old(db).notes@, final(db).notes@, *session, date, t, id, r),
    {
        let t = now();
        let id = new_uuid_text();
        let ghost idv = id@;
        let r = self.get_or_create_for_date_with(db, session, date, t, id);
        assert(get_or_create_result(self.crypto, old(db).notes@, db.notes@, *session, date, t, idv, r));
        r
    }

    /// Stores a new note, encrypted under `key`.
    fn create(&self, db: &mut Database, note: &Note, key: &[u8; 32]) -> (r: DomainResult<NoteResponse>)
        requires
            old(db).wf(),
            valid_date(note.entry_date),
        ensures
            final(db).wf(),
            final(db).meta == old(db).meta,
            match r {
                Ok(resp) => resp@ == response_of(note@) && appended(self.crypto, old(db).notes@, final(db).notes@, key@, note@),
                Err(e) => ((e is Crypto && seal_fails(self.crypto, note@, key@)) || (e is Storage && has_id(old(db).notes@, note@.id)))
                    && final(db).notes@ == old(db).notes@,
            },
    {
        let record = self.encrypt_record(note, key)?;
        let ghost before = db.notes@;
        db.notes.create(record)?;
        proof {
            assert(db.notes@.take(before.len() as int) =~= before);
        }
        Ok(Self::to_response(note))
    }

    /// Saves the editor's note: edits the note with the given id, else the
    /// day's note, else stores a new note under `new_id`; `now` is the time
    /// of the change.
    pub fn save_with(
        &self,
        db: &mut Database,
        session: &Option<SessionKey>,
        id: Option<String>,
        entry_date: Date,
        title: String,
        content: String,
        tags: Vec<String>,
        is_favorite: bool,
        now: Timestamp,
        new_id: String,
    ) -> (r: DomainResult<NoteResponse>)
        requires
            old(db).wf(),
            valid_date(entry_date),
        ensures
            final(db).wf(),
            final(db).meta == old(db).meta,
            save_result(self.crypto, old(db).notes@, final(db).notes@, *session, opt_text(id), entry_date,
                title@, content@, tags.deep_view(), is_favorite, now, new_id@, r),
    {
        Self::validate_note_input(title.as_str(), content.as_str())?;
        let key = self.require_session(session)?;
        let ghost tv = tags.deep_view();
        let ghost change = |n: NoteView| edited(n, entry_date, title@, content@, tv, is_favorite, now);
        if let Some(id_str) = id {
            let existing = match db.notes.get_by_id(id_str.as_str()) {
                Some(rec) => rec,
                None => { return Err(DomainError::NotFound); },
            };
            let ghost i = choose|i: int| 0 <= i < db.notes@.len() && #[trigger] db.notes@[i] == existing@ && existing@.id == id_str@;
            proof {
                lemma_index_of_id(db.notes@, i);
            }
            let mut note = self.decrypt_record(&existing, key)?;
            note.entry_date = entry_date;
            note.title = title;
            note.content = content;
            note.tags = tags;
            note.is_favorite = is_favorite;
            note.updated_at = now;
            return self.rewrite(db, Ghost(i), &note, key);
        }
        proof {
            lemma_first_index_on_facts(db.notes@, entry_date);
        }
        if let Some(existing) = db.notes.get_by_date(entry_date) {
            let ghost i = first_index_on(db.notes@, entry_date).unwrap();
            let mut note = self.decrypt_record(&existing, key)?;
            note.title = title;
            note.content = content;
            note.tags = tags;
            note.is_favorite = is_favorite;
            note.updated_at = now;
            return self.rewrite(db, Ghost(i), &note, key);
        }
        let note = Note {
            id: new_id,
            entry_date,
            title,
            content,
            tags,
            is_favorite,
            is_done: false,
            mood: None,
            created_at: now,
            updated_at: now,
        };
        self.create(db, &note, key)
    }

    /// Saves the editor's note at the current time; a new note gets a fresh
    /// random id.
    pub fn save(
        &self,
        db: &mut Database,
        session: &Option<SessionKey>,
        id: Option<String>,
        entry_date: Date,
        title: String,
        content: String,
        tags: Vec<String>,
        is_favorite: bool,
    ) -> (r: DomainResult<NoteResponse>)
        requires
            old(db).wf(),
            valid_date(entry_date),
        ensures
            final(db).wf(),
            final(db).meta == old(db).meta,
            exists|t: Timestamp, nid: Seq<char>| save_result(self.crypto, old(db).notes@, final(db).notes@, *session, opt_text(id), entry_date,
                title@, content@, tags.deep_view(), is_favorite, t, nid, r),
    {
        let t = now();
        let new_id = new_uuid_text();
        let ghost nid = new_id@;
        let ghost args = (opt_text(id), title@, content@, tags.deep_view());
        let r = self.save_with(db, session, id, entry_date, title, content, tags, is_favorite, t, new_id);
        assert(save_result(self.crypto, old(db).notes@, db.notes@, *session, args.0, entry_date, args.1, args.2, args.3, is_favorite, t, nid, r));
        r
    }

    /// Deletes the note with the given id.
    pub fn delete(&self, db: &mut Database, session: &Option<SessionKey>, id: &str) -> (r: DomainResult<()>)
        requires
            old(db).wf(),
        ensures
            final(db).wf(),
            final(db).meta == old(db).meta,
            match session {
                None => r matches Err(e) && e is Locked && final(db).notes@ == old(db).notes@,
                Some(_) => match r {
                    Ok(()) => has_id(old(db).notes@, id@) && final(db).notes@ == old(db).notes@.remove(index_of_id(old(db).notes@, id@)),
                    Err(e) => e is NotFound && !has_id(old(db).notes@, id@) && final(db).notes@ == old(db).notes@,
                },
            },
    {
        self.require_session(session)?;
        let ghost before = db.notes@;
        let r = db.notes.delete(id);
        proof {
            if r is Ok {
                let i = choose|i: int| 0 <= i < before.len() && before[i].id == id@ && db.notes@ == before.remove(i);
                lemma_index_of_id(before, i);
            }
        }
        r
    }

    /// Flips the favourite mark of the note with the given id at time `now`.
    pub fn toggle_favorite_with(&self, db: &mut Database, session: &Option<SessionKey>, id: &str, now: Timestamp) -> (r: DomainResult<NoteResponse>)
        requires
            old(db).wf(),
        ensures
            final(db).wf(),
            final(db).meta == old(db).meta,
            toggle_result(self.crypto, old(db).notes@, final(db).notes@, *session, id@, now, r),
    {
        let key = self.require_session(session)?;
        let existing = match db.notes.get_by_id(id) {
            Some(rec) => rec,
            None => { return Err(DomainError::NotFound); },
        };
        let ghost i = choose|i: int| 0 <= i < db.notes@.len() && #[trigger] db.notes@[i] == existing@ && existing@.id == id@;
        proof {
            lemma_index_of_id(db.notes@, i);
            assert(crate::store::dates_valid(db.notes@));
            assert(valid_date(db.notes@[i].entry_date));
        }
        let mut note = self.decrypt_record(&existing, key)?;
        note.is_favorite = !note.is_favorite;
        note.updated_at = now;
        self.rewrite(db, Ghost(i), &note, key)
    }

    /// Flips the favourite mark of the note with the given id.
    pub fn toggle_favorite(&self, db: &mut Database, session: &Option<SessionKey>, id: &str) -> (r: DomainResult<NoteResponse>)
        requires
            old(db).wf(),
        ensures
            final(db).wf(),
            final(db).meta == old(db).meta,
            exists|t: Timestamp| toggle_result(self.crypto, old(db).notes@, final(db).notes@, *session, id@, t, r),
    {
        let t = now();
        let r = self.toggle_favorite_with(db, session, id, t);
        assert(toggle_result(self.crypto, old(db).notes@, db.notes@, *session, id@, t, r));
        r
    }

    /// The notes that stored records hold, in order.
    pub fn decrypt_all(&self, session: &Option<SessionKey>, records: Vec<EncryptedNoteRecord>) -> (r: DomainResult<Vec<Note>>)
        ensures
            match session {
                None => r matches Err(e) && e is Locked,
                Some(k) => match r {
                    Ok(notes) => decodes_to(self.crypto, record_views(records@), k.0@, note_views(notes@)),
                    Err(e) => e is Crypto && !all_decode(self.crypto, record_views(records@), k.0@),
                },
            },
            session is Some && all_decode(self.crypto, record_views(records@), session.unwrap().0@) ==> r is Ok,
    {
        let key = self.require_session(session)?;
        let mut notes: Vec<Note> = Vec::new();
        let mut i: usize = 0;
        while i < records.len()
            invariant
                i <= records@.len(),
                session matches Some(k) && key@ == k.0@,
                decodes_to(self.crypto, record_views(records@).take(i as int), key@, note_views(notes@)),
            decreases records.len() - i,
        {
            let note = match self.decrypt_record(&records[i], key) {
                Ok(n) => n,
                Err(e) => {
                    proof {
                        assert(decoded_note(self.crypto, record_views(records@)[i as int], key@) is None);
                    }
                    return Err(e);
                },
            };
            let ghost before = notes@;
            notes.push(note);
            proof {
                assert(note_views(notes@) =~= note_views(before).push(note@));
                assert(record_views(records@).take(i + 1) =~= record_views(records@).take(i as int).push(record_views(records@)[i as int]));
                assert forall|j: int| 0 <= j < i + 1 implies decoded_note(self.crypto, #[trigger] record_views(records@).take(i + 1)[j], key@) == Some(note_views(notes@)[j]) by {
                    if j < i {
                        assert(record_views(records@).take(i + 1)[j] == record_views(records@).take(i as int)[j]);
                    }
                }
            }
            i = i + 1;
        }
        proof {
            assert(record_views(records@).take(i as int) =~= record_views(records@));
        }
        Ok(notes)
    }

    /// The calendar markers of a month's notes, latest day first.
    pub fn list_month_markers(&self, db: &Database, session: &Option<SessionKey>, year: i32, month: u32) -> (r: DomainResult<Vec<DayMarker>>)
        requires
            db.wf(),
        ensures
            match session {
                None => r matches Err(e) && e is Locked,
                Some(k) => if !month_ok(year, month) {
                    r matches Err(DomainError::Validation(m)) && m@ == "Invalid month"@
                } else {
                    let chosen = db.notes@.filter(|x: RecordView| selected(month_selection(year, month), x));
                    match r {
                        Ok(markers) => exists|listed: Seq<RecordView>, notes: Seq<NoteView>| {
                            &&& listed.to_multiset() == chosen.to_multiset()
                            &&& dates_desc(listed)
                            &&& #[trigger] decodes_to(self.crypto, listed, k.0@, notes)
                            &&& markers@.len() == notes.len()
                            &&& forall|i: int| 0 <= i < notes.len() ==> (#[trigger] markers@[i])@ == marker_of(notes[i])
                        },
                        Err(e) => e is Crypto && !all_decode(self.crypto, chosen, k.0@),
                    }
                },
            },
            session is Some && month_ok(year, month) && all_decode(self.crypto,
                db.notes@.filter(|x: RecordView| selected(month_selection(year, month), x)), session.unwrap().0@) ==> r is Ok,
    {
        let key = self.require_session(session)?;
        let records = db.notes.list_for_month(year, month)?;
        let ghost listed = record_views(records@);
        proof {
            lemma_all_decode_same_multiset(self.crypto, listed,
                db.notes@.filter(|x: RecordView| selected(month_selection(year, month), x)), key@);
            assert forall|i: int| 0 <= i < listed.len() implies valid_date(#[trigger] listed[i].entry_date) by {
                let chosen = db.notes@.filter(|x: RecordView| selected(month_selection(year, month), x));
                broadcast use vstd::seq_lib::group_to_multiset_ensures;
                assert(listed.to_multiset().count(listed[i]) > 0);
                assert(chosen.contains(listed[i]));
                db.notes@.lemma_filter_contains_rev(|x: RecordView| selected(month_selection(year, month), x), listed[i]);
            }
        }
        let notes = self.decrypt_all(session, records)?;
        let mut markers: Vec<DayMarker> = Vec::new();
        let mut i: usize = 0;
        while i < notes.len()
            invariant
                i <= notes@.len(),
                decodes_to(self.crypto, listed, key@, note_views(notes@)),
                forall|j: int| 0 <= j < listed.len() ==> valid_date(#[trigger] listed[j].entry_date),
                markers@.len() == i,
                forall|j: int| 0 <= j < i ==> (#[trigger] markers@[j])@ == marker_of(notes@[j]@),
            decreases notes.len() - i,
        {
            let note = &notes[i];
            proof {
                assert(decoded_note(self.crypto, listed[i as int], key@) == Some(note_views(notes@)[i as int]));
                assert(valid_date(listed[i as int].entry_date));
            }
            let marker = DayMarker {
                date: format_date(note.entry_date),
                has_note: !note.title.as_str().is_empty() || !note.content.as_str().is_empty(),
                is_favorite: note.is_favorite,
            };
            markers.push(marker);
            i = i + 1;
        }
        proof {
            assert(decodes_to(self.crypto, listed, key@, note_views(notes@)));
        }
        Ok(markers)
    }

    /// Encrypts every note under `new_key` instead of `old_key`. Either
    /// every note is rewritten or, on failure, none is.
    pub fn reencrypt_all(&self, db: &mut Database, old_key: &[u8; 32], new_key: &[u8; 32]) -> (r: DomainResult<()>)
        requires
            old(db).wf(),
        ensures
            final(db).wf(),
            final(db).meta == old(db).meta,
            match r {
                Ok(()) => reencrypted(self.crypto, old(db).notes@, final(db).notes@, old_key@, new_key@),
                Err(e) => e is Crypto && final(db).notes@ == old(db).notes@,
            },
            !all_decode(self.crypto, old(db).notes@, old_key@) ==> r is Err,
            all_decode(self.crypto, old(db).notes@, old_key@) && all_reseal(self.crypto, old(db).notes@, old_key@, new_key@) ==> r is Ok,
    {
        let ghost start = db.notes@;
        // First re-encrypt everything; the table is only touched once all succeeded.
        let mut fresh: Vec<EncryptedNoteRecord> = Vec::new();
        let mut i: usize = 0;
        while i < db.notes.len()
            invariant
                db.wf(),
                db.notes@ == start,
                i <= start.len(),
                fresh@.len() == i,
                forall|j: int| 0 <= j < i ==> {
                    &&& decoded_note(self.crypto, #[trigger] fresh@[j]@, new_key@) == decoded_note(self.crypto, start[j], old_key@)
                    &&& decoded_note(self.crypto, start[j], old_key@) is Some
                    &&& fresh@[j]@.id == start[j].id
                    &&& fresh@[j]@.is_done == start[j].is_done
                    &&& fresh@[j]@.mood == start[j].mood
                    &&& fresh@[j]@.created_at == start[j].created_at
                    &&& valid_date(fresh@[j]@.entry_date)
                },
            decreases start.len() - i,
        {
            let records = db.notes.records();
            proof {
                assert(record_views(records@)[i as int] == records@[i as int]@);
                assert(crate::store::dates_valid(start));
                assert(valid_date(start[i as int].entry_date));
            }
            let note = match self.decrypt_record(&records[i], old_key) {
                Ok(n) => n,
                Err(e) => {
                    proof {
                        assert(decoded_note(self.crypto, start[i as int], old_key@) is None);
                    }
                    return Err(e);
                },
            };
            let rec = match self.encrypt_record(&note, new_key) {
                Ok(rec) => rec,
                Err(e) => {
                    proof {
                        assert(decoded_note(self.crypto, start[i as int], old_key@) == Some(note@));
                        assert(!all_reseal(self.crypto, start, old_key@, new_key@));
                    }
                    return Err(e);
                },
            };
            fresh.push(rec);
            i = i + 1;
        }
        // Then store them all.
        let ghost all_fresh = fresh@;
        while fresh.len() > 0
            invariant
                db.wf(),
                db.meta == old(db).meta,
                fresh@.len() <= start.len(),
                fresh@ == all_fresh.take(fresh@.len() as int),
                all_fresh.len() == start.len(),
                db.notes@.len() == start.len(),
                forall|j: int| 0 <= j < all_fresh.len() ==> {
                    &&& decoded_note(self.crypto, #[trigger] all_fresh[j]@, new_key@) == decoded_note(self.crypto, start[j], old_key@)
                    &&& decoded_note(self.crypto, start[j], old_key@) is Some
                    &&& all_fresh[j]@.id == start[j].id
                    &&& all_fresh[j]@.is_done == start[j].is_done
                    &&& all_fresh[j]@.mood == start[j].mood
                    &&& all_fresh[j]@.created_at == start[j].created_at
                    &&& valid_date(all_fresh[j]@.entry_date)
                },
                forall|j: int| 0 <= j < fresh@.len() ==> #[trigger] db.notes@[j] == start[j],
                forall|j: int| fresh@.len() <= j < start.len() ==> #[trigger] db.notes@[j] == all_fresh[j]@,
            decreases fresh.len(),
        {
            let rec = fresh.pop().unwrap();
            let k = fresh.len();
            proof {
                assert(fresh@ =~= all_fresh.take(k as int));
                assert(rec == all_fresh[k as int]);
            }
            let ghost before = db.notes@;
            let ghost rv = rec@;
            match db.notes.update(rec) {
                Ok(()) => {
                    proof {
                        let m = choose|m: int| 0 <= m < before.len() && before[m].id == rv.id
                            && db.notes@ == before.update(m, #[trigger] updated_record(before[m], rv));
                        assert(before[k as int] == start[k as int]);
                        assert(before[k as int].id == rv.id);
                        assert(m == k);
                        assert(updated_record(before[k as int], rv) == rv);
                    }
                },
                Err(e) => {
                    proof {
                        assert(before[k as int].id == rv.id);
                        assert(false);
                    }
                    return Err(e);
                },
            }
        }
        proof {
            assert forall|j: int| 0 <= j < start.len() implies #[trigger] decoded_note(self.crypto, db.notes@[j], new_key@) == decoded_note(self.crypto, start[j], old_key@)
                && decoded_note(self.crypto, start[j], old_key@) is Some by {
                assert(db.notes@[j] == all_fresh[j]@);
            }
            assert forall|j: int| 0 <= j < start.len() implies (#[trigger] decoded_note(self.crypto, start[j], old_key@)) is Some by {
                assert(decoded_note(self.crypto, all_fresh[j]@, new_key@) == decoded_note(self.crypto, start[j], old_key@));
            }
        }
        Ok(())
    }
}

/// Days found by `first_index_on` depend only on the days of the notes.
proof fn lemma_first_index_same_days(a: Seq<RecordView>, b: Seq<RecordView>, d: Date)
    requires
        a.len() == b.len(),
        forall|j: int| 0 <= j < a.len() ==> (#[trigger] a[j]).entry_date == b[j].entry_date,
    ensures
        first_index_on(a, d) == first_index_on(b, d),
    decreases a.len(),
{
    if a.len() > 0 {
        assert forall|j: int| 0 <= j < a.drop_first().len() implies (#[trigger] a.drop_first()[j]).entry_date == b.drop_first()[j].entry_date by {
            assert(a.drop_first()[j] == a[j + 1]);
            assert(b.drop_first()[j] == b[j + 1]);
        }
        lemma_first_index_same_days(a.drop_first(), b.drop_first(), d);
        assert(a[0].entry_date == b[0].entry_date);
    }
}

/// Read after write: once a note is saved for a day without naming an id,
/// reading that day gives the saved note, and the answer the editor got.
pub proof fn lemma_save_reads_back<C: CryptoProvider>(
    c: C,
    old: Seq<RecordView>,
    new: Seq<RecordView>,
    k: SessionKey,
    date: Date,
    title: Seq<char>,
    content: Seq<char>,
    tags: Seq<Seq<char>>,
    fav: bool,
    now: Timestamp,
    new_id: Seq<char>,
    resp: NoteResponse,
)
    requires
        save_result(c, old, new, Some(k), None, date, title, content, tags, fav, now, new_id, Ok(resp)),
    ensures
        read_day(c, new, k.0@, date) matches Some(Some(n)) && {
            &&& n.entry_date == date
            &&& n.title == title
            &&& n.content == content
            &&& n.tags == tags
            &&& n.is_favorite == fav
            &&& n.updated_at == now
            &&& resp@ == response_of(n)
        },
{
    lemma_first_index_on_facts(old, date);
    match first_index_on(old, date) {
        Some(i) => {
            let n0 = decoded_note(c, old[i], k.0@).unwrap();
            let n1 = edited(n0, date, title, content, tags, fav, now);
            assert(rewritten(c, old, new, k.0@, i, n1));
            assert(new[i].entry_date == date);
            assert forall|j: int| 0 <= j < i implies (#[trigger] new[j]).entry_date != date by {
                assert(new[j] == old[j]);
            }
            crate::store::lemma_first_index_on(new, date, i);
        },
        None => {
            let n = fresh_note(new_id, date, title, content, tags, fav, now);
            assert(appended(c, old, new, k.0@, n));
            let m = old.len() as int;
            assert(new.last() == new[m]);
            assert forall|j: int| 0 <= j < m implies (#[trigger] new[j]).entry_date != date by {
                assert(new[j] == new.take(m)[j]);
                assert(old[j].entry_date != date);
            }
            crate::store::lemma_first_index_on(new, date, m);
        },
    }
}

/// Opening a day leaves a note for that day that reads back as what was
/// returned.
pub proof fn lemma_get_or_create_reads_back<C: CryptoProvider>(
    c: C,
    old: Seq<RecordView>,
    new: Seq<RecordView>,
    k: SessionKey,
    date: Date,
    now: Timestamp,
    new_id: Seq<char>,
    resp: NoteResponse,
)
    requires
        get_or_create_result(c, old, new, Some(k), date, now, new_id, Ok(resp)),
    ensures
        read_day(c, new, k.0@, date) matches Some(Some(n)) && resp@ == response_of(n),
{
    lemma_first_index_on_facts(old, date);
    if read_day(c, old, k.0@, date) == Some(None::<NoteView>) {
        let n = empty_note(new_id, date, now);
        let m = old.len() as int;
        assert(new.last() == new[m]);
        assert(first_index_on(old, date) is None);
        assert forall|j: int| 0 <= j < m implies (#[trigger] new[j]).entry_date != date by {
            assert(new[j] == new.take(m)[j]);
            assert(old[j].entry_date != date);
        }
        crate::store::lemma_first_index_on(new, date, m);
    }
}

/// Re-encryption changes no note: every day reads the same under the new
/// key as it did under the old one.
pub proof fn lemma_reencrypt_preserves_reads<C: CryptoProvider>(
    c: C,
    old: Seq<RecordView>,
    new: Seq<RecordView>,
    old_key: Seq<u8>,
    new_key: Seq<u8>,
    d: Date,
)
    requires
        reencrypted(c, old, new, old_key, new_key),
    ensures
        read_day(c, new, new_key, d) == read_day(c, old, old_key, d),
{
    assert forall|j: int| 0 <= j < old.len() implies (#[trigger] new[j]).entry_date == old[j].entry_date by {
        assert(decoded_note(c, new[j], new_key) == decoded_note(c, old[j], old_key));
    }
    lemma_first_index_same_days(new, old, d);
    lemma_first_index_on_facts(old, d);
}

/// Flipping a note's favourite mark twice gives back the mark it had: once
/// a flip succeeded, a second flip of the same note succeeds too, and the
/// note then has its first mark, title, content and tags again.
pub proof fn lemma_toggle_twice<C: CryptoProvider>(
    c: C,
    s0: Seq<RecordView>,
    s1: Seq<RecordView>,
    s2: Seq<RecordView>,
    k: SessionKey,
    id: Seq<char>,
    t1: Timestamp,
    t2: Timestamp,
    r1: NoteResponse,
    r2: DomainResult<NoteResponse>,
)
    requires
        ids_unique(s1),
        toggle_result(c, s0, s1, Some(k), id, t1, Ok(r1)),
        toggle_result(c, s1, s2, Some(k), id, t2, r2),
    ensures
        r2 is Ok,
        has_id(s2, id),
        decoded_note(c, s2[index_of_id(s2, id)], k.0@) matches Some(n2) && decoded_note(c, s0[index_of_id(s0, id)], k.0@) matches Some(n0)
            && n2.is_favorite == n0.is_favorite && n2.title == n0.title && n2.content == n0.content && n2.tags == n0.tags,
{
    let i = index_of_id(s0, id);
    let n0 = decoded_note(c, s0[i], k.0@).unwrap();
    assert(rewritten(c, s0, s1, k.0@, i, toggled(n0, t1)));
    assert(note_seals(c, toggled(n0, t1), k.0@));
    assert(s1[i].id == id);
    lemma_index_of_id(s1, i);
    let n1 = toggled(n0, t1);
    assert(decoded_note(c, s1[i], k.0@) == Some(n1));
    assert(note_seals(c, toggled(n1, t2), k.0@));
    assert(r2 is Ok);
    assert(rewritten(c, s1, s2, k.0@, i, toggled(n1, t2)));
    assert(s2[i].id == id);
    assert(has_id(s2, id));
    let j = index_of_id(s2, id);
    assert(s2[j].id == id);
    if j != i {
        assert(s2[j] == s1[j]);
        assert(false);
    }
}

/// With AES-256-GCM a new day's empty note always encrypts, so opening a
/// day with no note fails only when the fresh id is taken.
pub proof fn lemma_empty_note_seals(id: Seq<char>, date: Date, now: Timestamp, key: Seq<u8>)
    ensures
        !seal_fails(AesGcmCryptoProvider {}, empty_note(id, date, now), key),
{
    let e = Seq::<char>::empty();
    assert(encode_utf8(e) =~= Seq::<u8>::empty()) by {
        reveal_with_fuel(encode_utf8, 2);
    }
    assert(json_size_bound(Seq::<Seq<char>>::empty()) == 2);
}

/// A month marker shows a note exactly when the note has a title or
/// content, and carries the note's day and favourite mark.
pub proof fn lemma_marker_shows_written_note(markers: Seq<DayMarker>, notes: Seq<NoteView>, i: int)
    requires
        markers.len() == notes.len(),
        forall|j: int| 0 <= j < notes.len() ==> (#[trigger] markers[j])@ == marker_of(notes[j]),
        0 <= i < notes.len(),
    ensures
        markers[i].has_note <==> (notes[i].title.len() > 0 || notes[i].content.len() > 0),
        markers[i].date@ == date_text(notes[i].entry_date),
        markers[i].is_favorite == notes[i].is_favorite,
{
    assert(markers[i]@ == marker_of(notes[i]));
}

/// Saving with an id rewrites that note and no other: it moves to the given
/// day and takes the given title, content, tags, favourite mark and time,
/// keeps its id, creation time, done mark and mood, and the answer shows
/// it on the given day.
pub proof fn lemma_save_by_id_rewrites_note<C: CryptoProvider>(
    c: C,
    old: Seq<RecordView>,
    new: Seq<RecordView>,
    k: SessionKey,
    id: Seq<char>,
    date: Date,
    title: Seq<char>,
    content: Seq<char>,
    tags: Seq<Seq<char>>,
    fav: bool,
    now: Timestamp,
    new_id: Seq<char>,
    resp: NoteResponse,
)
    requires
        ids_unique(old),
        save_result(c, old, new, Some(k), Some(id), date, title, content, tags, fav, now, new_id, Ok(resp)),
    ensures
        has_id(old, id),
        new.len() == old.len(),
        forall|j: int| 0 <= j < new.len() && old[j].id != id ==> new[j] == old[j],
        forall|j: int| 0 <= j < new.len() && #[trigger] new[j].id == id ==> {
            &&& old[j].id == id
            &&& decoded_note(c, new[j], k.0@) matches Some(n) && decoded_note(c, old[j], k.0@) matches Some(n0) && {
                &&& n.id == id
                &&& n.entry_date == date
                &&& n.title == title
                &&& n.content == content
                &&& n.tags == tags
                &&& n.is_favorite == fav
                &&& n.updated_at == now
                &&& n.created_at == n0.created_at
                &&& n.is_done == n0.is_done
                &&& n.mood == n0.mood
            }
        },
        resp@.id == id,
        resp@.entry_date == date_text(date),
        resp@.title == title,
        resp@.content == content,
        resp@.tags == tags,
        resp@.is_favorite == fav,
{
    let i = index_of_id(old, id);
    assert(old[i].id == id);
    let n0 = decoded_note(c, old[i], k.0@).unwrap();
    let n1 = edited(n0, date, title, content, tags, fav, now);
    assert(rewritten(c, old, new, k.0@, i, n1));
    assert(n0.id == old[i].id);
    assert(new[i].id == id);
    assert forall|j: int| 0 <= j < new.len() && #[trigger] new[j].id == id implies j == i by {
        if j != i {
            assert(new[j] == old[j]);
            assert(old[j].id != old[i].id);
        }
    }
}

/// Flipping the favourite mark flips it and changes nothing else of the
/// note but its last-change time; no other note changes.
pub proof fn lemma_toggle_flips_mark<C: CryptoProvider>(
    c: C,
    old: Seq<RecordView>,
    new: Seq<RecordView>,
    k: SessionKey,
    id: Seq<char>,
    now: Timestamp,
    resp: NoteResponse,
)
    requires
        ids_unique(old),
        toggle_result(c, old, new, Some(k), id, now, Ok(resp)),
    ensures
        has_id(old, id),
        new.len() == old.len(),
        forall|j: int| 0 <= j < new.len() && old[j].id != id ==> new[j] == old[j],
        forall|j: int| 0 <= j < new.len() && #[trigger] old[j].id == id ==> {
            decoded_note(c, new[j], k.0@) matches Some(n) && decoded_note(c, old[j], k.0@) matches Some(n0) && {
                &&& n.is_favorite == !n0.is_favorite
                &&& n.updated_at == now
                &&& n == NoteView { is_favorite: !n0.is_favorite, updated_at: now, ..n0 }
            }
        },
        resp@.id == id,
{
    let i = index_of_id(old, id);
    assert(old[i].id == id);
    assert forall|j: int| 0 <= j < new.len() && #[trigger] old[j].id == id implies j == i by {
        if j != i {
            assert(old[j].id != old[i].id);
        }
    }
}

/// Opening a day that has no note stores one new note for it: empty, not a
/// favourite, not done, no mood, created and changed at the same time,
/// under the fresh id; the notes already stored stay as they are.
pub proof fn lemma_open_empty_day_stores_blank_note<C: CryptoProvider>(
    c: C,
    old: Seq<RecordView>,
    new: Seq<RecordView>,
    k: SessionKey,
    date: Date,
    now: Timestamp,
    new_id: Seq<char>,
    resp: NoteResponse,
)
    requires
        read_day(c, old, k.0@, date) == Some(None::<NoteView>),
        get_or_create_result(c, old, new, Some(k), date, now, new_id, Ok(resp)),
    ensures
        new.len() == old.len() + 1,
        forall|j: int| 0 <= j < old.len() ==> new[j] == old[j],
        decoded_note(c, new[old.len() as int], k.0@) matches Some(n) && {
            &&& n.id == new_id
            &&& n.entry_date == date
            &&& n.title.len() == 0
            &&& n.content.len() == 0
            &&& n.tags.len() == 0
            &&& !n.is_favorite
            &&& !n.is_done
            &&& n.mood is None
            &&& n.created_at == now
            &&& n.updated_at == now
        },
        resp@.id == new_id,
        resp@.entry_date == date_text(date),
        resp@.title.len() == 0,
        resp@.content.len() == 0,
{
    assert forall|j: int| 0 <= j < old.len() implies new[j] == old[j] by {
        assert(new[j] == new.take(old.len() as int)[j]);
    }
    assert(new.last() == new[old.len() as int]);
}

/// What saving refuses before it looks at the journal: a title longer than
/// 512 bytes of UTF-8, then content longer than 1 MiB; anything shorter
/// passes.
pub proof fn lemma_input_limits(title: Seq<char>, content: Seq<char>)
    ensures
        encode_utf8(title).len() > 512 ==> input_error(title, content) == Some("Title is too long."@),
        encode_utf8(title).len() <= 512 && encode_utf8(content).len() > 1_048_576
            ==> input_error(title, content) == Some("Content is too long."@),
        encode_utf8(title).len() <= 512 && encode_utf8(content).len() <= 1_048_576 ==> input_error(title, content) is None,
{
}

} // verus!
