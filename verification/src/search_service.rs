use vstd::prelude::*;
use crate::auth_service::SessionKey;
use crate::calendar::{Date, date_text, format_date, today, valid_date};
use crate::crypto::CryptoProvider;
use crate::entities::{Note, NoteSummary, NoteView, SummaryView, summary_views};
use crate::errors::DomainResult;
use crate::multiset_facts::{lemma_filter_map_from, lemma_filter_map_has};
use crate::note_service::{NoteService, all_decode, clone_texts, decodes_to, lemma_all_decode_same_multiset, note_views};
use crate::sorting::{sort_keyed_desc, sorted_desc};
use crate::store::{Database, Selection, record_views, selected};
use crate::text::{contains_text, eq_ignore_ascii_case, eq_ignoring_ascii_case, first_chars, lowercased, take_chars, text_contains, to_lowercase};

verus! {

broadcast use vstd::seq_lib::group_to_multiset_ensures;

/// Characters of content shown in a summary.
pub const SNIPPET_CHARS: usize = 120;

/// The title a list shows: the note's own, else a word for what the day
/// holds.
pub open spec fn display_title(n: NoteView) -> Seq<char> {
    if n.title.len() > 0 {
        n.title
    } else if n.is_done {
        "Day completed"@
    } else if n.mood is Some {
        "Mood logged"@
    } else {
        "Untitled"@
    }
}

/// The summary of a note.
pub open spec fn summary_of(n: NoteView) -> SummaryView {
    SummaryView {
        id: n.id,
        entry_date: date_text(n.entry_date),
        title: display_title(n),
        snippet: first_chars(n.content, SNIPPET_CHARS as nat),
        is_favorite: n.is_favorite,
        is_done: n.is_done,
        mood: n.mood,
        tags: n.tags,
    }
}

/// Whether a note carries one of the filter tags (ASCII case ignored); an
/// empty filter takes every note.
pub open spec fn tags_match(note_tags: Seq<Seq<char>>, filter: Seq<Seq<char>>) -> bool {
    filter.len() == 0 || exists|i: int, j: int| 0 <= i < filter.len() && 0 <= j < note_tags.len()
        && eq_ignoring_ascii_case(#[trigger] note_tags[j], #[trigger] filter[i])
}

/// Whether the lower-cased query occurs in the lower-cased title, content
/// or one of the tags.
pub open spec fn query_matches(n: NoteView, q_lower: Seq<char>) -> bool {
    ||| text_contains(lowercased(n.title), q_lower)
    ||| text_contains(lowercased(n.content), q_lower)
    ||| exists|i: int| 0 <= i < n.tags.len() && text_contains(lowercased(#[trigger] n.tags[i]), q_lower)
}

/// Whether a note passes the search's text and tag filters.
pub open spec fn note_matches(n: NoteView, query: Option<Seq<char>>, filter: Seq<Seq<char>>) -> bool {
    tags_match(n.tags, filter) && match query {
        Some(q) => query_matches(n, lowercased(q)),
        None => true,
    }
}

/// Which stored notes a search looks at: future notes, else favourites,
/// else a range of days.
pub open spec fn search_selection(from: Option<Date>, to: Option<Date>, favorites_only: bool, future_only: bool, today: Date) -> Selection {
    if future_only {
        Selection::After(today)
    } else if favorites_only {
        Selection::Favorites
    } else {
        Selection::Range(from, to)
    }
}

pub open spec fn texts_view(s: Seq<String>) -> Seq<Seq<char>> {
    s.map_values(|t: String| t@)
}

/// The summaries of the matching notes.
pub open spec fn matching_summaries(notes: Seq<NoteView>, query: Option<Seq<char>>, filter: Seq<Seq<char>>) -> Seq<SummaryView> {
    notes.filter(|n: NoteView| note_matches(n, query, filter)).map_values(|n: NoteView| summary_of(n))
}

/// What a search gives once the journal is unlocked: the summaries of the
/// selected notes that match, latest day first.
pub open spec fn search_outcome<C: CryptoProvider>(
    c: C,
    store: Seq<crate::entities::RecordView>,
    key: Seq<u8>,
    sel: Selection,
    query: Option<Seq<char>>,
    filter: Seq<Seq<char>>,
    r: DomainResult<Vec<NoteSummary>>,
) -> bool {
    let chosen = store.filter(|x: crate::entities::RecordView| selected(sel, x));
    &&& r is Ok <== all_decode(c, chosen, key)
    &&& match r {
        Ok(results) => sorted_desc(results@) && exists|listed: Seq<crate::entities::RecordView>, notes: Seq<NoteView>| {
            &&& listed.to_multiset() == chosen.to_multiset()
            &&& #[trigger] decodes_to(c, listed, key, notes)
            &&& summary_views(results@).to_multiset() == matching_summaries(notes, query, filter).to_multiset()
        },
        Err(e) => e is Crypto && !all_decode(c, chosen, key),
    }
}

/// A search finds a note exactly when the note carries one of the filter
/// tags (ASCII case ignored; an empty filter takes every note) and, when
/// there is a query, the lower-cased query occurs in its lower-cased title,
/// content or one of its tags. This half: such a note is found.
pub proof fn lemma_search_finds_matching_note(
    results: Seq<SummaryView>,
    notes: Seq<NoteView>,
    query: Option<Seq<char>>,
    filter: Seq<Seq<char>>,
    k: int,
)
    requires
        results.to_multiset() == matching_summaries(notes, query, filter).to_multiset(),
        0 <= k < notes.len(),
        filter.len() == 0 || exists|i: int, j: int| 0 <= i < filter.len() && 0 <= j < notes[k].tags.len()
            && eq_ignoring_ascii_case(#[trigger] notes[k].tags[j], #[trigger] filter[i]),
        query matches Some(q) ==> {
            ||| text_contains(lowercased(notes[k].title), lowercased(q))
            ||| text_contains(lowercased(notes[k].content), lowercased(q))
            ||| exists|t: int| 0 <= t < notes[k].tags.len() && text_contains(lowercased(#[trigger] notes[k].tags[t]), lowercased(q))
        },
    ensures
        results.contains(summary_of(notes[k])),
{
    let pred = |n: NoteView| note_matches(n, query, filter);
    let f = |n: NoteView| summary_of(n);
    assert(pred(notes[k]));
    lemma_filter_map_has(notes, pred, f, k);
    assert(matching_summaries(notes, query, filter) == notes.filter(pred).map_values(f));
    assert(matching_summaries(notes, query, filter).to_multiset().count(summary_of(notes[k])) > 0);
}

/// The other half: every note a search finds carries one of the filter
/// tags (or the filter is empty) and, when there is a query, has the
/// lower-cased query in its lower-cased title, content or one of its tags.
pub proof fn lemma_search_found_notes_match(
    results: Seq<SummaryView>,
    notes: Seq<NoteView>,
    query: Option<Seq<char>>,
    filter: Seq<Seq<char>>,
    r: int,
)
    requires
        results.to_multiset() == matching_summaries(notes, query, filter).to_multiset(),
        0 <= r < results.len(),
    ensures
        exists|k: int| 0 <= k < notes.len() && (#[trigger] summary_of(notes[k])) == results[r] && {
            &&& filter.len() == 0 || exists|i: int, j: int| 0 <= i < filter.len() && 0 <= j < notes[k].tags.len()
                && eq_ignoring_ascii_case(#[trigger] notes[k].tags[j], #[trigger] filter[i])
            &&& query matches Some(q) ==> {
                ||| text_contains(lowercased(notes[k].title), lowercased(q))
                ||| text_contains(lowercased(notes[k].content), lowercased(q))
                ||| exists|t: int| 0 <= t < notes[k].tags.len() && text_contains(lowercased(#[trigger] notes[k].tags[t]), lowercased(q))
            }
        },
{
    let pred = |n: NoteView| note_matches(n, query, filter);
    let f = |n: NoteView| summary_of(n);
    assert(results.to_multiset().count(results[r]) > 0);
    assert(matching_summaries(notes, query, filter) == notes.filter(pred).map_values(f));
    assert(matching_summaries(notes, query, filter).contains(results[r]));
    let k = lemma_filter_map_from(notes, pred, f, results[r]);
    assert(pred(notes[k]));
}

/// What a summary shows of a note: its id, day, tags, favourite and done
/// marks and mood; its title, or for an untitled note "Day completed",
/// "Mood logged" or "Untitled"; and the first 120 characters of its
/// content.
pub proof fn lemma_summary_shows_note(n: NoteView)
    ensures
        summary_of(n).id == n.id,
        summary_of(n).entry_date == date_text(n.entry_date),
        summary_of(n).tags == n.tags,
        summary_of(n).is_favorite == n.is_favorite,
        summary_of(n).is_done == n.is_done,
        summary_of(n).mood == n.mood,
        n.title.len() > 0 ==> summary_of(n).title == n.title,
        n.title.len() == 0 && n.is_done ==> summary_of(n).title == "Day completed"@,
        n.title.len() == 0 && !n.is_done && n.mood is Some ==> summary_of(n).title == "Mood logged"@,
        n.title.len() == 0 && !n.is_done && n.mood is None ==> summary_of(n).title == "Untitled"@,
        summary_of(n).snippet.len() == if n.content.len() <= 120 { n.content.len() } else { 120 },
        summary_of(n).snippet.is_prefix_of(n.content),
{
    let c = n.content;
    if c.len() > 120 {
        assert(c.take(120).is_prefix_of(c)) by {
            assert(c.take(120) =~= c.subrange(0, 120));
        }
    } else {
        assert(c =~= c.subrange(0, c.len() as int));
    }
}

/// The summary a list shows for a note.
pub fn to_summary(note: &Note) -> (r: NoteSummary)
    requires
        valid_date(note.entry_date),
    ensures
        r@ == summary_of(note@),
{
    let title = if !note.title.as_str().is_empty() {
        note.title.clone()
    } else if note.is_done {
        "Day completed".to_string()
    } else if note.mood.is_some() {
        "Mood logged".to_string()
    } else {
        "Untitled".to_string()
    };
    NoteSummary {
        id: note.id.clone(),
        entry_date: format_date(note.entry_date),
        title,
        snippet: take_chars(note.content.as_str(), SNIPPET_CHARS),
        is_favorite: note.is_favorite,
        is_done: note.is_done,
        mood: note.mood,
        tags: clone_texts(&note.tags),
    }
}

/// Whether the note carries one of the filter tags, ASCII case ignored.
pub fn matches_tags(note: &Note, filter_tags: &[String]) -> (r: bool)
    ensures
        r == tags_match(note@.tags, texts_view(filter_tags@)),
{
    if filter_tags.len() == 0 {
        return true;
    }
    let mut i: usize = 0;
    while i < filter_tags.len()
        invariant
            i <= filter_tags@.len(),
            forall|a: int, b: int| 0 <= a < i && 0 <= b < note@.tags.len() ==> !eq_ignoring_ascii_case(
                #[trigger] note@.tags[b], #[trigger] texts_view(filter_tags@)[a]),
        decreases filter_tags.len() - i,
    {
        let mut j: usize = 0;
        while j < note.tags.len()
            invariant
                i < filter_tags@.len(),
                j <= note.tags@.len(),
                forall|b: int| 0 <= b < j ==> !eq_ignoring_ascii_case(#[trigger] note@.tags[b], texts_view(filter_tags@)[i as int]),
            decreases note.tags.len() - j,
        {
            if eq_ignore_ascii_case(note.tags[j].as_str(), filter_tags[i].as_str()) {
                assert(eq_ignoring_ascii_case(note@.tags[j as int], texts_view(filter_tags@)[i as int]));
                return true;
            }
            j = j + 1;
        }
        i = i + 1;
    }
    false
}

/// Whether the lower-cased query occurs in the note's lower-cased title,
/// content or tags.
pub fn matches_query(note: &Note, q_lower: &str) -> (r: bool)
    ensures
        r == query_matches(note@, q_lower@),
{
    if contains_text(to_lowercase(note.title.as_str()).as_str(), q_lower) {
        return true;
    }
    if contains_text(to_lowercase(note.content.as_str()).as_str(), q_lower) {
        return true;
    }
    let mut i: usize = 0;
    while i < note.tags.len()
        invariant
            i <= note.tags@.len(),
            forall|k: int| 0 <= k < i ==> !text_contains(lowercased(#[trigger] note@.tags[k]), q_lower@),
        decreases note.tags.len() - i,
    {
        if contains_text(to_lowercase(note.tags[i].as_str()).as_str(), q_lower) {
            assert(text_contains(lowercased(note@.tags[i as int]), q_lower@));
            return true;
        }
        i = i + 1;
    }
    false
}

/// Searches the decrypted notes in memory (meant for personal journals of
/// a few thousand notes).
pub struct SearchService<C: CryptoProvider> {
    pub note_service: NoteService<C>,
}

impl<C: CryptoProvider> SearchService<C> {
    pub fn new(crypto: C) -> (r: Self)
        ensures
            r.note_service.crypto == crypto,
    {
        SearchService { note_service: NoteService::new(crypto) }
    }

    /// The summaries of the notes that pass the filters, latest day first;
    /// `today` is the day after which notes count as future ones.
    pub fn search_with(
        &self,
        db: &Database,
        session: &Option<SessionKey>,
        query: Option<&str>,
        date_from: Option<Date>,
        date_to: Option<Date>,
        tags: &[String],
        favorites_only: bool,
        future_only: bool,
        today: Date,
    ) -> (r: DomainResult<Vec<NoteSummary>>)
        requires
            db.wf(),
            valid_date(today),
            date_from matches Some(f) ==> valid_date(f),
            date_to matches Some(t) ==> valid_date(t),
        ensures
            match session {
                None => r matches Err(e) && e is Locked,
                Some(k) => search_outcome(self.note_service.crypto, db.notes@, k.0@,
                    search_selection(date_from, date_to, favorites_only, future_only, today),
                    match query { Some(q) => Some(q@), None => None }, texts_view(tags@), r),
            },
    {
        let ghost sel = search_selection(date_from, date_to, favorites_only, future_only, today);
        let records = if future_only {
            db.notes.list_future(today)
        } else if favorites_only {
            db.notes.list_favorites()
        } else {
            db.notes.list_by_date_range(date_from, date_to)
        };
        let ghost listed = record_views(records@);
        let ghost chosen = db.notes@.filter(|x: crate::entities::RecordView| selected(sel, x));
        proof {
            lemma_all_decode_same_multiset(self.note_service.crypto, listed, chosen, session.unwrap().0@);
            assert forall|i: int| 0 <= i < listed.len() implies valid_date(#[trigger] listed[i].entry_date) by {
                assert(listed.to_multiset().count(listed[i]) > 0);
                assert(chosen.contains(listed[i]));
                db.notes@.lemma_filter_contains_rev(|x: crate::entities::RecordView| selected(sel, x), listed[i]);
            }
        }
        let notes = self.note_service.decrypt_all(session, records)?;
        let ghost key = session.unwrap().0@;
        let ghost qv = match query { Some(q) => Some(q@), None => None::<Seq<char>> };
        let ghost fv = texts_view(tags@);
        let ghost pred = |n: NoteView| note_matches(n, qv, fv);
        let ghost to_sum = |n: NoteView| summary_of(n);
        let query_lower: Option<String> = match query {
            Some(q) => Some(to_lowercase(q)),
            None => None,
        };
        let mut results: Vec<NoteSummary> = Vec::new();
        let mut i: usize = 0;
        assert(note_views(notes@).take(0).filter(pred) =~= Seq::<NoteView>::empty());
        assert(summary_views(results@) =~= Seq::<SummaryView>::empty());
        while i < notes.len()
            invariant
                i <= notes@.len(),
                decodes_to(self.note_service.crypto, listed, key, note_views(notes@)),
                forall|j: int| 0 <= j < listed.len() ==> valid_date(#[trigger] listed[j].entry_date),
                pred == (|n: NoteView| note_matches(n, qv, fv)),
                to_sum == (|n: NoteView| summary_of(n)),
                qv == (match query { Some(q) => Some(q@), None => None::<Seq<char>> }),
                fv == texts_view(tags@),
                match query_lower { Some(ql) => qv matches Some(q) && ql@ == lowercased(q), None => qv is None },
                summary_views(results@) == note_views(notes@).take(i as int).filter(pred).map_values(to_sum),
            decreases notes.len() - i,
        {
            let note = &notes[i];
            proof {
                assert(decoded_note_is(self.note_service.crypto, listed, key, note_views(notes@), i as int));
                assert(note_views(notes@)[i as int] == note@);
                assert(note_views(notes@).take(i + 1) =~= note_views(notes@).take(i as int).push(note@));
                note_views(notes@).take(i as int).lemma_filter_push(note@, pred);
            }
            let tag_ok = matches_tags(note, tags);
            let keep = tag_ok && match &query_lower {
                Some(ql) => matches_query(note, ql.as_str()),
                None => true,
            };
            if keep {
                let ghost before = results@;
                let summary = to_summary(note);
                results.push(summary);
                proof {
                    assert(summary_views(results@) =~= summary_views(before).push(summary@));
                    let f = note_views(notes@).take(i as int).filter(pred);
                    assert(f.push(note@).map_values(to_sum) =~= f.map_values(to_sum).push(summary_of(note@)));
                }
            }
            i = i + 1;
        }
        proof {
            assert(note_views(notes@).take(i as int) =~= note_views(notes@));
        }
        let ghost unsorted = results@;
        let sorted = sort_keyed_desc(results);
        proof {
            crate::multiset_facts::lemma_map_same_multiset(sorted@, unsorted, |s: NoteSummary| s@);
            assert(summary_views(sorted@) =~= sorted@.map_values(|s: NoteSummary| s@));
            assert(summary_views(unsorted) =~= unsorted.map_values(|s: NoteSummary| s@));
            assert(decodes_to(self.note_service.crypto, listed, key, note_views(notes@)));
        }
        Ok(sorted)
    }

    /// The summaries of the notes that pass the filters, latest day first;
    /// future notes are those after today's local date.
    pub fn search(
        &self,
        db: &Database,
        session: &Option<SessionKey>,
        query: Option<&str>,
        date_from: Option<Date>,
        date_to: Option<Date>,
        tags: &[String],
        favorites_only: bool,
        future_only: bool,
    ) -> (r: DomainResult<Vec<NoteSummary>>)
        requires
            db.wf(),
            date_from matches Some(f) ==> valid_date(f),
            date_to matches Some(t) ==> valid_date(t),
        ensures
            match session {
                None => r matches Err(e) && e is Locked,
                Some(k) => exists|d: Date| search_outcome(self.note_service.crypto, db.notes@, k.0@,
                    #[trigger] search_selection(date_from, date_to, favorites_only, future_only, d),
                    match query { Some(q) => Some(q@), None => None }, texts_view(tags@), r),
            },
    {
        let d = today();
        let r = self.search_with(db, session, query, date_from, date_to, tags, favorites_only, future_only, d);
        proof {
            if session is Some {
                let _ = search_selection(date_from, date_to, favorites_only, future_only, d);
            }
        }
        r
    }
}

/// The `i`-th listed record decrypts to the `i`-th note.
pub open spec fn decoded_note_is<C: CryptoProvider>(c: C, listed: Seq<crate::entities::RecordView>, key: Seq<u8>, notes: Seq<NoteView>, i: int) -> bool {
    crate::note_service::decoded_note(c, listed[i], key) == Some(notes[i])
}

} // verus!
