use vstd::prelude::*;
use crate::auth_service::SessionKey;
use crate::crypto::CryptoProvider;
use crate::entities::{NoteView, RecordView};
use crate::errors::DomainResult;
use crate::note_service::{NoteService, all_decode, decodes_to, lemma_all_decode_same_multiset, note_views};
use crate::store::{Database, record_views};
use crate::text::{lemma_text_lt_asymmetric, lemma_text_lt_total, lemma_text_lt_transitive, text_less, text_lt, trim_text, trimmed};

verus! {

broadcast use vstd::seq_lib::group_to_multiset_ensures;

/// Whether `t` is a tag that some note carries, once trimmed and non-empty.
pub open spec fn tag_in_notes(notes: Seq<NoteView>, t: Seq<char>) -> bool {
    t.len() > 0 && exists|k: int, j: int| 0 <= k < notes.len() && 0 <= j < notes[k].tags.len() && #[trigger] trimmed(notes[k].tags[j]) == t
}

/// Whether one of the texts is `u`.
pub open spec fn has_text(s: Seq<String>, u: Seq<char>) -> bool {
    exists|i: int| 0 <= i < s.len() && #[trigger] s[i]@ == u
}

/// Whether a trimmed tag among the first `k` notes, and the first `j` tags
/// of note `k`, is `u`.
pub open spec fn seen_tag(notes: Seq<NoteView>, k: int, j: int, u: Seq<char>) -> bool {
    ||| exists|a: int, b: int| 0 <= a < k && 0 <= b < notes[a].tags.len() && #[trigger] trimmed(notes[a].tags[b]) == u
    ||| exists|b: int| 0 <= b < j && #[trigger] trimmed(notes[k].tags[b]) == u
}

/// Texts in strictly increasing order (so each occurs once).
pub open spec fn strictly_ascending(s: Seq<String>) -> bool {
    forall|i: int, j: int| 0 <= i < j < s.len() ==> text_lt((#[trigger] s[i])@, (#[trigger] s[j])@)
}

/// `out` lists exactly the tags of `notes`, in increasing order.
pub open spec fn tag_list_of(notes: Seq<NoteView>, out: Seq<String>) -> bool {
    &&& strictly_ascending(out)
    &&& forall|i: int| 0 <= i < out.len() ==> tag_in_notes(notes, (#[trigger] out[i])@)
    &&& forall|t: Seq<char>| #[trigger] tag_in_notes(notes, t) ==> exists|i: int| 0 <= i < out.len() && out[i]@ == t
}

proof fn lemma_insert_ascending(s: Seq<String>, p: int, x: String)
    requires
        strictly_ascending(s),
        0 <= p <= s.len(),
        forall|q: int| 0 <= q < p ==> text_lt((#[trigger] s[q])@, x@),
        p < s.len() ==> text_lt(x@, s[p]@),
    ensures
        strictly_ascending(s.insert(p, x)),
{
    let t = s.insert(p, x);
    assert forall|i: int, j: int| 0 <= i < j < t.len() implies text_lt((#[trigger] t[i])@, (#[trigger] t[j])@) by {
        if i < p && j < p {
            assert(t[i] == s[i] && t[j] == s[j]);
        } else if i < p && j == p {
            assert(t[i] == s[i]);
        } else if i < p {
            assert(t[i] == s[i] && t[j] == s[j - 1]);
        } else if i == p {
            assert(t[j] == s[j - 1]);
            if j - 1 > p {
                lemma_text_lt_transitive(x@, s[p]@, s[j - 1]@);
            }
        } else {
            assert(t[i] == s[i - 1] && t[j] == s[j - 1]);
        }
    }
}

/// Adds a text to a strictly increasing list unless it is there already.
fn insert_unique(out: &mut Vec<String>, t: String)
    requires
        strictly_ascending(old(out)@),
    ensures
        strictly_ascending(final(out)@),
        forall|u: Seq<char>| #![trigger has_text(final(out)@, u)] #![trigger has_text(old(out)@, u)]
            has_text(final(out)@, u) <==> (u == t@ || has_text(old(out)@, u)),
{
    let mut p: usize = 0;
    while p < out.len() && text_less(out[p].as_str(), t.as_str())
        invariant
            p <= out@.len(),
            forall|q: int| 0 <= q < p ==> text_lt((#[trigger] out@[q])@, t@),
        decreases out.len() - p,
    {
        p = p + 1;
    }
    if p < out.len() && out[p] == t {
        return;
    }
    proof {
        if p < out@.len() {
            lemma_text_lt_total(out@[p as int]@, t@);
        }
        lemma_insert_ascending(out@, p as int, t);
    }
    let ghost before = out@;
    out.insert(p, t);
    proof {
        assert forall|u: Seq<char>| #![trigger has_text(out@, u)] #![trigger has_text(before, u)]
            has_text(out@, u) <==> (u == t@ || has_text(before, u)) by {
            if u == t@ {
                assert(out@[p as int]@ == u);
            } else if has_text(before, u) {
                let i = choose|i: int| 0 <= i < before.len() && #[trigger] before[i]@ == u;
                if i < p {
                    assert(out@[i] == before[i]);
                } else {
                    assert(out@[i + 1] == before[i]);
                }
            }
            if has_text(out@, u) {
                let i = choose|i: int| 0 <= i < out@.len() && #[trigger] out@[i]@ == u;
                if i < p {
                    assert(out@[i] == before[i]);
                } else if i > p {
                    assert(out@[i] == before[i - 1]);
                }
            }
        }
    }
}

/// Collects the tags used across all notes (meant for personal journals
/// of a few thousand notes).
pub struct TagService<C: CryptoProvider> {
    pub note_service: NoteService<C>,
}

impl<C: CryptoProvider> TagService<C> {
    pub fn new(crypto: C) -> (r: Self)
        ensures
            r.note_service.crypto == crypto,
    {
        TagService { note_service: NoteService::new(crypto) }
    }

    /// Every tag in use, trimmed, without empty ones or repeats, in
    /// increasing order.
    pub fn list_all_tags(&self, db: &Database, session: &Option<SessionKey>) -> (r: DomainResult<Vec<String>>)
        requires
            db.wf(),
        ensures
            match session {
                None => r matches Err(e) && e is Locked,
                Some(k) => {
                    &&& r is Ok <== all_decode(self.note_service.crypto, db.notes@, k.0@)
                    &&& match r {
                        Ok(tags) => exists|listed: Seq<RecordView>, notes: Seq<NoteView>| {
                            &&& listed.to_multiset() == db.notes@.to_multiset()
                            &&& #[trigger] decodes_to(self.note_service.crypto, listed, k.0@, notes)
                            &&& tag_list_of(notes, tags@)
                        },
                        Err(e) => e is Crypto && !all_decode(self.note_service.crypto, db.notes@, k.0@),
                    }
                },
            },
    {
        let records = db.notes.list_all();
        let ghost listed = record_views(records@);
        proof {
            lemma_all_decode_same_multiset(self.note_service.crypto, listed, db.notes@, session.unwrap().0@);
        }
        let notes = self.note_service.decrypt_all(session, records)?;
        let ghost nv = note_views(notes@);
        let mut out: Vec<String> = Vec::new();
        let mut k: usize = 0;
        while k < notes.len()
            invariant
                k <= notes@.len(),
                nv == note_views(notes@),
                strictly_ascending(out@),
                forall|u: Seq<char>| #[trigger] has_text(out@, u) <==> (u.len() > 0 && seen_tag(nv, k as int, 0, u)),
            decreases notes.len() - k,
        {
            let note = &notes[k];
            proof {
                assert(nv[k as int] == note@);
            }
            let mut j: usize = 0;
            while j < note.tags.len()
                invariant
                    k < notes@.len(),
                    j <= note.tags@.len(),
                    nv == note_views(notes@),
                    nv[k as int] == note@,
                    strictly_ascending(out@),
                    forall|u: Seq<char>| #[trigger] has_text(out@, u) <==> (u.len() > 0 && seen_tag(nv, k as int, j as int, u)),
                decreases note.tags.len() - j,
            {
                let t = trim_text(note.tags[j].as_str());
                let ghost tv = t@;
                let ghost before = out@;
                if !t.as_str().is_empty() {
                    insert_unique(&mut out, t);
                }
                proof {
                    assert(trimmed(nv[k as int].tags[j as int]) == tv);
                    assert forall|u: Seq<char>| #[trigger] has_text(out@, u) <==> (u.len() > 0 && seen_tag(nv, k as int, j + 1, u)) by {
                        if exists|b: int| 0 <= b < j + 1 && #[trigger] trimmed(nv[k as int].tags[b]) == u {
                            let b = choose|b: int| 0 <= b < j + 1 && #[trigger] trimmed(nv[k as int].tags[b]) == u;
                            if b < j {
                                assert(exists|b: int| 0 <= b < j && #[trigger] trimmed(nv[k as int].tags[b]) == u);
                            }
                        }
                        if exists|b: int| 0 <= b < j && #[trigger] trimmed(nv[k as int].tags[b]) == u {
                            let b = choose|b: int| 0 <= b < j && #[trigger] trimmed(nv[k as int].tags[b]) == u;
                            assert(0 <= b < j + 1);
                        }
                        if u == tv {
                            assert(trimmed(nv[k as int].tags[j as int]) == u);
                        }
                        if has_text(before, u) {
                            assert(has_text(out@, u));
                        }
                    }
                }
                j = j + 1;
            }
            proof {
                assert forall|u: Seq<char>| #[trigger] has_text(out@, u) <==> (u.len() > 0 && seen_tag(nv, k + 1, 0, u)) by {
                    if exists|a: int, b: int| 0 <= a < k + 1 && 0 <= b < nv[a].tags.len() && #[trigger] trimmed(nv[a].tags[b]) == u {
                        let (a, b) = choose|a: int, b: int| 0 <= a < k + 1 && 0 <= b < nv[a].tags.len() && #[trigger] trimmed(nv[a].tags[b]) == u;
                        if a == k {
                            assert(exists|b: int| 0 <= b < note@.tags.len() && #[trigger] trimmed(nv[k as int].tags[b]) == u);
                        }
                    }
                    if exists|b: int| 0 <= b < note@.tags.len() && #[trigger] trimmed(nv[k as int].tags[b]) == u {
                        let b = choose|b: int| 0 <= b < note@.tags.len() && #[trigger] trimmed(nv[k as int].tags[b]) == u;
                        assert(trimmed(nv[k as int].tags[b]) == u);
                    }
                }
            }
            k = k + 1;
        }
        proof {
            assert forall|i: int| 0 <= i < out@.len() implies tag_in_notes(nv, (#[trigger] out@[i])@) by {
                let u = out@[i]@;
                assert(has_text(out@, u));
            }
            assert forall|t: Seq<char>| #[trigger] tag_in_notes(nv, t) implies exists|i: int| 0 <= i < out@.len() && out@[i]@ == t by {
                let (a, b) = choose|a: int, b: int| 0 <= a < nv.len() && 0 <= b < nv[a].tags.len() && #[trigger] trimmed(nv[a].tags[b]) == t;
                assert(seen_tag(nv, k as int, 0, t));
                assert(has_text(out@, t));
            }
            assert(decodes_to(self.note_service.crypto, listed, session.unwrap().0@, nv));
        }
        Ok(out)
    }
}

} // verus!
