use vstd::prelude::*;
use crate::auth_service::SessionKey;
use crate::calendar::{Timestamp, format_rfc3339, now, rfc3339_text, valid_date};
use crate::crypto::{AesGcmCryptoProvider, CryptoProvider};
use crate::dto::ResponseView;
use crate::entities::{Note, NoteView, RecordView};
use crate::errors::{DomainError, DomainResult};
use crate::note_service::{
    NoteService, all_decode, decoded_note, decodes_to, lemma_all_decode_same_multiset, note_views, response_of,
};
use crate::store::{Database, dates_desc, record_views};

verus! {

broadcast use vstd::seq_lib::group_to_multiset_ensures;

/// The format version of exports.
pub const EXPORT_VERSION: u32 = 1;

/// A note as it is exported: what the user interface receives of it, with
/// the day's done mark and mood.
#[derive(Debug)]
pub struct ExportedNote {
    pub id: String,
    pub entry_date: String,
    pub title: String,
    pub content: String,
    pub tags: Vec<String>,
    pub is_favorite: bool,
    pub is_done: bool,
    pub mood: Option<u8>,
    pub created_at: String,
    pub updated_at: String,
}

/// The abstract value of an exported note.
pub struct ExportedView {
    pub response: ResponseView,
    pub is_done: bool,
    pub mood: Option<u8>,
}

impl View for ExportedNote {
    type V = ExportedView;

    open spec fn view(&self) -> ExportedView {
        ExportedView {
            response: ResponseView {
                id: self.id@,
                entry_date: self.entry_date@,
                title: self.title@,
                content: self.content@,
                tags: self.tags.deep_view(),
                is_favorite: self.is_favorite,
                created_at: self.created_at@,
                updated_at: self.updated_at@,
            },
            is_done: self.is_done,
            mood: self.mood,
        }
    }
}

/// How a note is exported.
pub open spec fn exported_of(n: NoteView) -> ExportedView {
    ExportedView { response: response_of(n), is_done: n.is_done, mood: n.mood }
}

/// The note as it is exported.
pub fn to_exported(note: &Note) -> (r: ExportedNote)
    requires
        valid_date(note.entry_date),
    ensures
        r@ == exported_of(note@),
{
    let resp = NoteService::<AesGcmCryptoProvider>::to_response(note);
    ExportedNote {
        id: resp.id,
        entry_date: resp.entry_date,
        title: resp.title,
        content: resp.content,
        tags: resp.tags,
        is_favorite: resp.is_favorite,
        is_done: note.is_done,
        mood: note.mood,
        created_at: resp.created_at,
        updated_at: resp.updated_at,
    }
}

/// Every note of the journal in clear text, for the user to keep.
#[derive(Debug)]
pub struct ExportPayload {
    pub version: u32,
    pub exported_at: String,
    pub notes: Vec<ExportedNote>,
}

/// The abstract values of a list of exported notes.
pub open spec fn exported_views(v: Seq<ExportedNote>) -> Seq<ExportedView> {
    v.map_values(|e: ExportedNote| e@)
}

/// An export of the notes `notes`, which decrypt from the stored notes
/// listed latest day first, made at `now`.
pub open spec fn export_of<C: CryptoProvider>(c: C, p: ExportPayload, stored: Seq<RecordView>, key: Seq<u8>, now: Timestamp) -> bool {
    &&& p.version == EXPORT_VERSION
    &&& p.exported_at@ == rfc3339_text(now)
    &&& exists|listed: Seq<RecordView>, notes: Seq<NoteView>| {
        &&& listed.to_multiset() == stored.to_multiset()
        &&& dates_desc(listed)
        &&& #[trigger] decodes_to(c, listed, key, notes)
        &&& exported_views(p.notes@) == notes.map_values(|n: NoteView| exported_of(n))
    }
}

/// Exports the journal in clear text.
pub struct ExportService<C: CryptoProvider> {
    pub note_service: NoteService<C>,
}

impl<C: CryptoProvider> ExportService<C> {
    pub fn new(crypto: C) -> (r: Self)
        ensures
            r.note_service.crypto == crypto,
    {
        ExportService { note_service: NoteService::new(crypto) }
    }

    /// Every note, decrypted, latest day first, stamped with `now`. A locked
    /// journal is refused; a note that does not decrypt fails the export.
    pub fn export_payload_with(&self, db: &Database, session: &Option<SessionKey>, now: Timestamp) -> (r: DomainResult<ExportPayload>)
        requires
            db.wf(),
        ensures
            match session {
                None => r matches Err(e) && e is Locked,
                Some(k) => {
                    &&& r is Ok <== all_decode(self.note_service.crypto, db.notes@, k.0@)
                    &&& match r {
                        Ok(p) => export_of(self.note_service.crypto, p, db.notes@, k.0@, now),
                        Err(e) => e is Crypto && !all_decode(self.note_service.crypto, db.notes@, k.0@),
                    }
                },
            },
    {
        let records = db.notes.list_all();
        let ghost listed = record_views(records@);
        proof {
            if session is Some {
                lemma_all_decode_same_multiset(self.note_service.crypto, listed, db.notes@, session.unwrap().0@);
            }
            assert forall|i: int| 0 <= i < listed.len() implies valid_date(#[trigger] listed[i].entry_date) by {
                assert(listed.to_multiset().count(listed[i]) > 0);
                assert(db.notes@.contains(listed[i]));
            }
        }
        let notes = self.note_service.decrypt_all(session, records)?;
        let ghost key = session.unwrap().0@;
        let ghost nv = note_views(notes@);
        let mut exported: Vec<ExportedNote> = Vec::new();
        let mut i: usize = 0;
        while i < notes.len()
            invariant
                i <= notes@.len(),
                nv == note_views(notes@),
                decodes_to(self.note_service.crypto, listed, key, nv),
                forall|j: int| 0 <= j < listed.len() ==> valid_date(#[trigger] listed[j].entry_date),
                exported@.len() == i,
                forall|j: int| 0 <= j < i ==> (#[trigger] exported@[j])@ == exported_of(nv[j]),
            decreases notes.len() - i,
        {
            proof {
                assert(decoded_note(self.note_service.crypto, listed[i as int], key) == Some(nv[i as int]));
                assert(nv[i as int] == notes@[i as int]@);
                assert(valid_date(listed[i as int].entry_date));
            }
            exported.push(to_exported(&notes[i]));
            i = i + 1;
        }
        let p = ExportPayload { version: EXPORT_VERSION, exported_at: format_rfc3339(now), notes: exported };
        proof {
            assert(exported_views(p.notes@) =~= nv.map_values(|n: NoteView| exported_of(n)));
            assert(decodes_to(self.note_service.crypto, listed, key, nv));
        }
        Ok(p)
    }

    /// Every note, decrypted, latest day first, stamped with the current
    /// time.
    pub fn export_payload(&self, db: &Database, session: &Option<SessionKey>) -> (r: DomainResult<ExportPayload>)
        requires
            db.wf(),
        ensures
            match session {
                None => r matches Err(e) && e is Locked,
                Some(k) => {
                    &&& r is Ok <== all_decode(self.note_service.crypto, db.notes@, k.0@)
                    &&& match r {
                        Ok(p) => exists|t: Timestamp| export_of(self.note_service.crypto, p, db.notes@, k.0@, t),
                        Err(e) => e is Crypto && !all_decode(self.note_service.crypto, db.notes@, k.0@),
                    }
                },
            },
    {
        let t = now();
        self.export_payload_with(db, session, t)
    }
}

} // verus!
