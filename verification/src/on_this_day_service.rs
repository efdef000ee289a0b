use vstd::prelude::*;
use crate::auth_service::SessionKey;
use crate::calendar::{Date, date_text, format_date, valid_date};
use crate::crypto::CryptoProvider;
use crate::dto::{MemoryView, OnThisDayEntry};
use crate::entities::{Note, NoteView, RecordView};
use crate::errors::DomainResult;
use crate::multiset_facts::{lemma_filter_map_from, lemma_filter_map_has};
use crate::note_service::{NoteService, all_decode, decodes_to, lemma_all_decode_same_multiset, note_views};
use crate::search_service::{SNIPPET_CHARS, decoded_note_is};
use crate::sorting::{sort_keyed_desc, sorted_desc};
use crate::store::{Database, Selection, record_views, selected};
use crate::text::{first_chars, take_chars};

verus! {

broadcast use vstd::seq_lib::group_to_multiset_ensures;

/// Whether a note is a memory of `date`: written on the same month and day
/// (the listing takes care of that) in an earlier year, and not empty.
pub open spec fn is_memory(n: NoteView, date: Date) -> bool {
    n.entry_date.year < date.year && (n.title.len() > 0 || n.content.len() > 0)
}

/// The entry shown for a memory, counted from `reference_year`.
pub open spec fn memory_of(n: NoteView, reference_year: i32) -> MemoryView {
    MemoryView {
        entry_date: date_text(n.entry_date),
        title: if n.title.len() > 0 { n.title } else { "Untitled"@ },
        snippet: first_chars(n.content, SNIPPET_CHARS as nat),
        years_ago: (reference_year - n.entry_date.year) as i32,
        is_favorite: n.is_favorite,
    }
}

pub open spec fn memory_views(v: Seq<OnThisDayEntry>) -> Seq<MemoryView> {
    v.map_values(|e: OnThisDayEntry| e@)
}

/// The entries of the memories among the notes, in order.
pub open spec fn memories(notes: Seq<NoteView>, date: Date) -> Seq<MemoryView> {
    notes.filter(|n: NoteView| is_memory(n, date)).map_values(|n: NoteView| memory_of(n, date.year))
}

/// What a memory shows of a note: its day, its title or "Untitled", the
/// first 120 characters of its content, how many years ago it was written,
/// and its favourite mark.
pub proof fn lemma_memory_shows_note(n: NoteView, reference_year: i32)
    requires
        valid_date(n.entry_date),
        crate::calendar::MIN_YEAR <= reference_year <= crate::calendar::MAX_YEAR,
    ensures
        memory_of(n, reference_year).entry_date == date_text(n.entry_date),
        n.title.len() > 0 ==> memory_of(n, reference_year).title == n.title,
        n.title.len() == 0 ==> memory_of(n, reference_year).title == "Untitled"@,
        memory_of(n, reference_year).snippet.len() == if n.content.len() <= 120 { n.content.len() } else { 120 },
        memory_of(n, reference_year).snippet.is_prefix_of(n.content),
        memory_of(n, reference_year).years_ago == reference_year - n.entry_date.year,
        memory_of(n, reference_year).is_favorite == n.is_favorite,
{
    let c = n.content;
    if c.len() > 120 {
        assert(c.take(120) =~= c.subrange(0, 120));
    } else {
        assert(c =~= c.subrange(0, c.len() as int));
    }
}

/// Every note from an earlier year with a title or content is among the
/// memories of a day, counted from that day's year.
pub proof fn lemma_memories_include_written_notes(entries: Seq<MemoryView>, notes: Seq<NoteView>, date: Date, k: int)
    requires
        entries.to_multiset() == memories(notes, date).to_multiset(),
        0 <= k < notes.len(),
        valid_date(notes[k].entry_date),
        valid_date(date),
        notes[k].entry_date.year < date.year,
        notes[k].title.len() > 0 || notes[k].content.len() > 0,
    ensures
        entries.contains(memory_of(notes[k], date.year)),
        memory_of(notes[k], date.year).years_ago == date.year - notes[k].entry_date.year,
        memory_of(notes[k], date.year).years_ago >= 1,
{
    let pred = |n: NoteView| is_memory(n, date);
    let f = |n: NoteView| memory_of(n, date.year);
    assert(pred(notes[k]));
    lemma_filter_map_has(notes, pred, f, k);
    assert(memories(notes, date) == notes.filter(pred).map_values(f));
    assert(memories(notes, date).to_multiset().count(memory_of(notes[k], date.year)) > 0);
}

/// Every memory of a day is the entry of a note from an earlier year that
/// has a title or content.
pub proof fn lemma_memories_are_earlier_written_notes(entries: Seq<MemoryView>, notes: Seq<NoteView>, date: Date, j: int)
    requires
        entries.to_multiset() == memories(notes, date).to_multiset(),
        0 <= j < entries.len(),
    ensures
        exists|k: int| 0 <= k < notes.len() && (#[trigger] memory_of(notes[k], date.year)) == entries[j]
            && notes[k].entry_date.year < date.year
            && (notes[k].title.len() > 0 || notes[k].content.len() > 0),
{
    let pred = |n: NoteView| is_memory(n, date);
    let f = |n: NoteView| memory_of(n, date.year);
    assert(entries.to_multiset().count(entries[j]) > 0);
    assert(memories(notes, date) == notes.filter(pred).map_values(f));
    assert(memories(notes, date).contains(entries[j]));
    let k = lemma_filter_map_from(notes, pred, f, entries[j]);
    assert(pred(notes[k]));
}

/// The entry shown for a note written `reference_year - year` years ago.
pub fn to_on_this_day_entry(note: &Note, reference_year: i32) -> (r: OnThisDayEntry)
    requires
        valid_date(note.entry_date),
        crate::calendar::MIN_YEAR <= reference_year <= crate::calendar::MAX_YEAR,
    ensures
        r@ == memory_of(note@, reference_year),
{
    OnThisDayEntry {
        entry_date: format_date(note.entry_date),
        title: if note.title.as_str().is_empty() { "Untitled".to_string() } else { note.title.clone() },
        snippet: take_chars(note.content.as_str(), SNIPPET_CHARS),
        years_ago: reference_year - note.entry_date.year,
        is_favorite: note.is_favorite,
    }
}

/// Finds notes written on the same calendar day in earlier years.
pub struct OnThisDayService<C: CryptoProvider> {
    pub note_service: NoteService<C>,
}

impl<C: CryptoProvider> OnThisDayService<C> {
    pub fn new(crypto: C) -> (r: Self)
        ensures
            r.note_service.crypto == crypto,
    {
        OnThisDayService { note_service: NoteService::new(crypto) }
    }

    /// The non-empty notes written on the month and day of `date` in earlier
    /// years, latest first.
    pub fn get_memories(&self, db: &Database, session: &Option<SessionKey>, date: Date) -> (r: DomainResult<Vec<OnThisDayEntry>>)
        requires
            db.wf(),
            valid_date(date),
        ensures
            match session {
                None => r matches Err(e) && e is Locked,
                Some(k) => {
                    let chosen = db.notes@.filter(|x: RecordView| selected(Selection::MonthDay(date.month, date.day), x));
                    &&& r is Ok <== all_decode(self.note_service.crypto, chosen, k.0@)
                    &&& match r {
                        Ok(entries) => sorted_desc(entries@) && exists|listed: Seq<RecordView>, notes: Seq<NoteView>| {
                            &&& listed.to_multiset() == chosen.to_multiset()
                            &&& #[trigger] decodes_to(self.note_service.crypto, listed, k.0@, notes)
                            &&& memory_views(entries@).to_multiset() == memories(notes, date).to_multiset()
                        },
                        Err(e) => e is Crypto && !all_decode(self.note_service.crypto, chosen, k.0@),
                    }
                },
            },
    {
        let records = db.notes.list_by_month_day(date.month, date.day);
        let ghost listed = record_views(records@);
        let ghost sel = Selection::MonthDay(date.month, date.day);
        let ghost chosen = db.notes@.filter(|x: RecordView| selected(sel, x));
        proof {
            lemma_all_decode_same_multiset(self.note_service.crypto, listed, chosen, session.unwrap().0@);
            assert forall|i: int| 0 <= i < listed.len() implies valid_date(#[trigger] listed[i].entry_date) by {
                assert(listed.to_multiset().count(listed[i]) > 0);
                assert(chosen.contains(listed[i]));
                db.notes@.lemma_filter_contains_rev(|x: RecordView| selected(sel, x), listed[i]);
            }
        }
        let notes = self.note_service.decrypt_all(session, records)?;
        let ghost key = session.unwrap().0@;
        let ghost nv = note_views(notes@);
        let ghost pred = |n: NoteView| is_memory(n, date);
        let ghost to_entry = |n: NoteView| memory_of(n, date.year);
        let mut entries: Vec<OnThisDayEntry> = Vec::new();
        let mut i: usize = 0;
        assert(nv.take(0).filter(pred) =~= Seq::<NoteView>::empty());
        assert(memory_views(entries@) =~= Seq::<MemoryView>::empty());
        while i < notes.len()
            invariant
                i <= notes@.len(),
                nv == note_views(notes@),
                valid_date(date),
                decodes_to(self.note_service.crypto, listed, key, nv),
                forall|j: int| 0 <= j < listed.len() ==> valid_date(#[trigger] listed[j].entry_date),
                pred == (|n: NoteView| is_memory(n, date)),
                to_entry == (|n: NoteView| memory_of(n, date.year)),
                memory_views(entries@) == nv.take(i as int).filter(pred).map_values(to_entry),
            decreases notes.len() - i,
        {
            let note = &notes[i];
            proof {
                assert(decoded_note_is(self.note_service.crypto, listed, key, nv, i as int));
                assert(nv[i as int] == note@);
                assert(nv.take(i + 1) =~= nv.take(i as int).push(note@));
                nv.take(i as int).lemma_filter_push(note@, pred);
            }
            if note.entry_date.year < date.year && (!note.title.as_str().is_empty() || !note.content.as_str().is_empty()) {
                let ghost before = entries@;
                let entry = to_on_this_day_entry(note, date.year);
                entries.push(entry);
                proof {
                    assert(memory_views(entries@) =~= memory_views(before).push(entry@));
                    let f = nv.take(i as int).filter(pred);
                    assert(f.push(note@).map_values(to_entry) =~= f.map_values(to_entry).push(memory_of(note@, date.year)));
                }
            }
            i = i + 1;
        }
        proof {
            assert(nv.take(i as int) =~= nv);
        }
        let ghost unsorted = entries@;
        let sorted = sort_keyed_desc(entries);
        proof {
            crate::multiset_facts::lemma_map_same_multiset(sorted@, unsorted, |e: OnThisDayEntry| e@);
            assert(memory_views(sorted@) =~= sorted@.map_values(|e: OnThisDayEntry| e@));
            assert(memory_views(unsorted) =~= unsorted.map_values(|e: OnThisDayEntry| e@));
            assert(decodes_to(self.note_service.crypto, listed, key, nv));
        }
        Ok(sorted)
    }
}

} // verus!
