use vstd::prelude::*;
use crate::auth_service::SessionKey;
use crate::calendar::{Date, Timestamp, today, valid_date};
use crate::crypto::CryptoProvider;
use crate::dto::NoteResponse;
use crate::errors::{DomainError, DomainResult, user_message};
use crate::note_service::{NoteService, get_or_create_result};
use crate::store::Database;
use crate::text::{trim_text, trimmed};

verus! {

/// The message that a command reports for an error.
pub fn map_err(e: DomainError) -> (r: String)
    ensures
        r@ == user_message(e),
{
    e.to_user_message()
}

/// A search text that is blank (empty or white space only) is no search
/// text.
pub fn nonblank_query(query: Option<String>) -> (r: Option<String>)
    ensures
        match query {
            Some(q) => if trimmed(q@).len() == 0 { r is None } else { r matches Some(s) && s@ == q@ },
            None => r is None,
        },
{
    match query {
        Some(q) => {
            let t = trim_text(q.as_str());
            if t.as_str().is_empty() {
                None
            } else {
                Some(q)
            }
        },
        None => None,
    }
}

/// Today's note (the day of the local calendar), stored empty if the day
/// has none; an error comes back as the message the user sees.
pub fn notes_get_today<C: CryptoProvider>(notes: &NoteService<C>, db: &mut Database, session: &Option<SessionKey>) -> (r: Result<NoteResponse, String>)
    requires
        old(db).wf(),
    ensures
        final(db).wf(),
        final(db).meta == old(db).meta,
        exists|d: Date, t: Timestamp, id: Seq<char>, inner: DomainResult<NoteResponse>| {
            &&& valid_date(d)
            &&& #[trigger] get_or_create_result(notes.crypto, old(db).notes@, final(db).notes@, *session, d, t, id, inner)
            &&& match inner {
                Ok(x) => r == Ok::<NoteResponse, String>(x),
                Err(e) => r matches Err(m) && m@ == user_message(e),
            }
        },
{
    let d = today();
    let inner = notes.get_or_create_for_date(db, session, d);
    let ghost gi = inner;
    proof {
        let (t, id) = choose|t: Timestamp, id: Seq<char>| get_or_create_result(notes.crypto, old(db).notes@, db.notes@, *session, d, t, id, gi);
        assert(get_or_create_result(notes.crypto, old(db).notes@, db.notes@, *session, d, t, id, gi));
    }
    match inner {
        Ok(x) => Ok(x),
        Err(e) => Err(map_err(e)),
    }
}

} // verus!
