use vstd::prelude::*;
use crate::calendar::{Date, Timestamp, day_before, lemma_date_text_order, date_parse, date_text, format_date, month_first, month_last, month_ok, month_range, parse_rfc3339, parse_ymd, rfc3339_parse, valid_date};
use crate::decimal::{decimal_text, u64_to_text};
use crate::ids::{canonical_uuid, uuid_canonical};
use crate::entities::{EncryptedNoteRecord, RecordView};
use crate::errors::{DomainError, DomainResult};
use crate::multiset_facts::lemma_map_same_multiset;
use crate::sorting::{keys_desc, sort_desc_by_key, values_of};
use crate::text::{text_less, text_lt};

verus! {

broadcast use vstd::seq_lib::group_to_multiset_ensures;

/// The abstract values of a list of stored notes.
pub open spec fn record_views(v: Seq<EncryptedNoteRecord>) -> Seq<RecordView> {
    v.map_values(|r: EncryptedNoteRecord| r@)
}

/// No two stored notes share an id.
pub open spec fn ids_unique(s: Seq<RecordView>) -> bool {
    forall|i: int, j: int| 0 <= i < s.len() && 0 <= j < s.len() && i != j ==> #[trigger] s[i].id != #[trigger] s[j].id
}

/// Every stored note has a calendar day.
pub open spec fn dates_valid(s: Seq<RecordView>) -> bool {
    forall|i: int| 0 <= i < s.len() ==> valid_date(#[trigger] s[i].entry_date)
}

pub open spec fn has_id(s: Seq<RecordView>, id: Seq<char>) -> bool {
    exists|i: int| 0 <= i < s.len() && #[trigger] s[i].id == id
}

/// The position of the first stored note for a day.
pub open spec fn first_index_on(s: Seq<RecordView>, d: Date) -> Option<int>
    decreases s.len(),
{
    if s.len() == 0 {
        None
    } else if s[0].entry_date == d {
        Some(0)
    } else {
        match first_index_on(s.drop_first(), d) {
            Some(k) => Some(k + 1),
            None => None,
        }
    }
}

/// The first stored note at `i` is the first for its day exactly when no
/// earlier one has that day.
pub proof fn lemma_first_index_on(s: Seq<RecordView>, d: Date, i: int)
    requires
        0 <= i <= s.len(),
        forall|j: int| 0 <= j < i ==> (#[trigger] s[j]).entry_date != d,
    ensures
        i < s.len() && s[i].entry_date == d ==> first_index_on(s, d) == Some(i),
        i == s.len() ==> first_index_on(s, d) is None,
    decreases i,
{
    if i > 0 {
        let t = s.drop_first();
        assert forall|j: int| 0 <= j < i - 1 implies (#[trigger] t[j]).entry_date != d by {
            assert(t[j] == s[j + 1]);
        }
        lemma_first_index_on(t, d, i - 1);
        assert(s[0].entry_date != d);
    }
}

/// What `first_index_on` says of the notes it passes over and the one it finds.
pub proof fn lemma_first_index_on_facts(s: Seq<RecordView>, d: Date)
    ensures
        match first_index_on(s, d) {
            Some(i) => 0 <= i < s.len() && s[i].entry_date == d && forall|j: int| 0 <= j < i ==> (#[trigger] s[j]).entry_date != d,
            None => forall|j: int| 0 <= j < s.len() ==> (#[trigger] s[j]).entry_date != d,
        },
    decreases s.len(),
{
    if s.len() > 0 {
        let t = s.drop_first();
        lemma_first_index_on_facts(t, d);
        match first_index_on(t, d) {
            Some(k) => {
                if s[0].entry_date != d {
                    assert forall|j: int| 0 <= j < k + 1 implies (#[trigger] s[j]).entry_date != d by {
                        if j > 0 {
                            assert(s[j] == t[j - 1]);
                        }
                    }
                }
            },
            None => {
                if s[0].entry_date != d {
                    assert forall|j: int| 0 <= j < s.len() implies (#[trigger] s[j]).entry_date != d by {
                        if j > 0 {
                            assert(s[j] == t[j - 1]);
                        }
                    }
                }
            },
        }
    }
}

/// The result of taking in a note that another device changed: the stored
/// note keeps its id and creation time; the rest, the done mark and the
/// mood included, comes from the new record.
pub open spec fn synced_record(old: RecordView, new: RecordView) -> RecordView {
    RecordView { is_done: new.is_done, mood: new.mood, ..updated_record(old, new) }
}

/// The key by which stored notes are ordered: their day as `YYYY-MM-DD`.
pub open spec fn date_key(r: RecordView) -> Seq<char> {
    date_text(r.entry_date)
}

/// Latest day first.
pub open spec fn dates_desc(s: Seq<RecordView>) -> bool {
    forall|i: int, j: int| 0 <= i < j < s.len() ==> !text_lt(date_key(#[trigger] s[i]), date_key(#[trigger] s[j]))
}

/// Earliest day first.
pub open spec fn dates_asc(s: Seq<RecordView>) -> bool {
    forall|i: int, j: int| 0 <= i < j < s.len() ==> !text_lt(date_key(#[trigger] s[j]), date_key(#[trigger] s[i]))
}

/// The result of an update: the stored note keeps its id, creation time,
/// done mark and mood; the rest comes from the new record.
pub open spec fn updated_record(old: RecordView, new: RecordView) -> RecordView {
    RecordView {
        id: old.id,
        entry_date: new.entry_date,
        title_enc: new.title_enc,
        content_enc: new.content_enc,
        tags_enc: new.tags_enc,
        is_favorite: new.is_favorite,
        is_done: old.is_done,
        mood: old.mood,
        created_at: old.created_at,
        updated_at: new.updated_at,
    }
}

/// Which stored notes a listing selects.
pub enum Selection {
    All,
    /// Days from the first to the second bound, both included; a missing
    /// bound does not limit.
    Range(Option<Date>, Option<Date>),
    Favorites,
    /// Days strictly after the given one.
    After(Date),
    /// Days with the given month and day of month, in any year.
    MonthDay(u32, u32),
}

/// The days of a month.
pub open spec fn month_selection(year: i32, month: u32) -> Selection {
    Selection::Range(Some(month_first(year, month)), Some(month_last(year, month)))
}

pub open spec fn selection_valid(sel: Selection) -> bool {
    match sel {
        Selection::Range(from, to) => (from matches Some(f) ==> valid_date(f)) && (to matches Some(t) ==> valid_date(t)),
        Selection::After(d) => valid_date(d),
        _ => true,
    }
}

/// Whether a stored note is selected (days compared as `YYYY-MM-DD` texts).
pub open spec fn selected(sel: Selection, r: RecordView) -> bool {
    match sel {
        Selection::All => true,
        Selection::Range(from, to) => {
            &&& (from matches Some(f) ==> !text_lt(date_key(r), date_text(f)))
            &&& (to matches Some(t) ==> !text_lt(date_text(t), date_key(r)))
        },
        Selection::Favorites => r.is_favorite,
        Selection::After(d) => text_lt(date_text(d), date_key(r)),
        Selection::MonthDay(m, d) => r.entry_date.month == m && r.entry_date.day == d,
    }
}

/// Whether a day is written with four digits of year.
pub open spec fn four_digit_year(d: Date) -> bool {
    0 <= d.year <= 9999
}

/// Selecting by a range keeps exactly the notes whose day lies between the
/// bounds, both included; selecting the days after a day keeps exactly the
/// later ones (days with four-digit years).
pub proof fn lemma_selection_by_calendar(from: Option<Date>, to: Option<Date>, after: Date, r: RecordView)
    requires
        valid_date(r.entry_date),
        four_digit_year(r.entry_date),
        from matches Some(f) ==> valid_date(f) && four_digit_year(f),
        to matches Some(t) ==> valid_date(t) && four_digit_year(t),
        valid_date(after),
        four_digit_year(after),
    ensures
        selected(Selection::Range(from, to), r) <==> (
            (from matches Some(f) ==> !day_before(r.entry_date, f))
            && (to matches Some(t) ==> !day_before(t, r.entry_date))),
        selected(Selection::After(after), r) <==> day_before(after, r.entry_date),
{
    if let Some(f) = from {
        lemma_date_text_order(r.entry_date, f);
    }
    if let Some(t) = to {
        lemma_date_text_order(t, r.entry_date);
    }
    lemma_date_text_order(after, r.entry_date);
}

/// A month's selection keeps exactly the notes of that month (days with
/// four-digit years).
pub proof fn lemma_month_selection_keeps_month(year: i32, month: u32, r: RecordView)
    requires
        month_ok(year, month),
        0 <= year <= 9999,
        valid_date(r.entry_date),
        four_digit_year(r.entry_date),
    ensures
        selected(month_selection(year, month), r) <==> (r.entry_date.year == year && r.entry_date.month == month),
{
    let f = month_first(year, month);
    let l = month_last(year, month);
    assert(valid_date(f));
    assert(valid_date(l));
    lemma_selection_by_calendar(Some(f), Some(l), f, r);
}

/// Notes listed latest day first: no note's day comes before a later-listed
/// note's day (days with four-digit years).
pub proof fn lemma_dates_desc_by_calendar(s: Seq<RecordView>, i: int, j: int)
    requires
        dates_desc(s),
        0 <= i < j < s.len(),
        valid_date(s[i].entry_date),
        valid_date(s[j].entry_date),
        four_digit_year(s[i].entry_date),
        four_digit_year(s[j].entry_date),
    ensures
        !day_before(s[i].entry_date, s[j].entry_date),
{
    lemma_date_text_order(s[i].entry_date, s[j].entry_date);
}

/// The notes table: every stored note, in the order they were stored.
pub struct NoteStore {
    records: Vec<EncryptedNoteRecord>,
}

impl View for NoteStore {
    type V = Seq<RecordView>;

    closed spec fn view(&self) -> Seq<RecordView> {
        record_views(self.records@)
    }
}

proof fn lemma_views_push(v: Seq<EncryptedNoteRecord>, r: EncryptedNoteRecord)
    ensures
        record_views(v.push(r)) == record_views(v).push(r@),
{
    assert(record_views(v.push(r)) =~= record_views(v).push(r@));
}

proof fn lemma_filter_all<A>(s: Seq<A>, p: spec_fn(A) -> bool)
    requires
        forall|x: A| #[trigger] p(x),
    ensures
        s.filter(p) == s,
    decreases s.len(),
{
    reveal(Seq::filter);
    if s.len() > 0 {
        lemma_filter_all(s.drop_last(), p);
        assert(s.drop_last().push(s.last()) =~= s);
    }
}

/// Sorts records, latest day first.
fn sort_records_desc(v: Vec<EncryptedNoteRecord>) -> (r: Vec<EncryptedNoteRecord>)
    requires
        dates_valid(record_views(v@)),
    ensures
        record_views(r@).to_multiset() == record_views(v@).to_multiset(),
        dates_desc(record_views(r@)),
{
    let ghost orig = v@;
    let mut keyed: Vec<(String, EncryptedNoteRecord)> = Vec::new();
    let mut input = v;
    let mut rest: Vec<EncryptedNoteRecord> = Vec::new();
    // Take the records off the back, then put them back in their order.
    while input.len() > 0
        invariant
            input@.len() + rest@.len() == orig.len(),
            input@ == orig.take(input@.len() as int),
            forall|i: int| 0 <= i < rest@.len() ==> #[trigger] rest@[i] == orig[orig.len() - 1 - i],
        decreases input.len(),
    {
        let item = input.pop().unwrap();
        proof {
            assert(input@ =~= orig.take(input@.len() as int));
        }
        rest.push(item);
    }
    while rest.len() > 0
        invariant
            rest@.len() + keyed@.len() == orig.len(),
            dates_valid(record_views(orig)),
            forall|i: int| 0 <= i < rest@.len() ==> #[trigger] rest@[i] == orig[orig.len() - 1 - i],
            forall|i: int| 0 <= i < keyed@.len() ==> #[trigger] keyed@[i].1 == orig[i] && keyed@[i].0@ == date_key(orig[i]@),
        decreases rest.len(),
    {
        let item = rest.pop().unwrap();
        proof {
            assert(record_views(orig)[keyed@.len() as int] == item@);
            assert(valid_date(record_views(orig)[keyed@.len() as int].entry_date));
        }
        let key = format_date(item.entry_date);
        keyed.push((key, item));
    }
    let ghost keyed_in = keyed@;
    let sorted = sort_desc_by_key(keyed);
    let ghost sorted_pairs = sorted@;
    let out = values_of(sorted);
    proof {
        let f = |p: (String, EncryptedNoteRecord)| p.1;
        let g = |r: EncryptedNoteRecord| r@;
        assert(keyed_in.map_values(f) =~= orig);
        lemma_map_same_multiset(sorted_pairs, keyed_in, f);
        lemma_map_same_multiset(sorted_pairs.map_values(f), keyed_in.map_values(f), g);
        assert(record_views(out@) =~= sorted_pairs.map_values(f).map_values(g));
        assert(record_views(orig) =~= keyed_in.map_values(f).map_values(g));
        // every sorted pair carries its record's key
        assert forall|i: int| 0 <= i < sorted_pairs.len() implies #[trigger] sorted_pairs[i].0@ == date_key(sorted_pairs[i].1@) by {
            assert(sorted_pairs.to_multiset().count(sorted_pairs[i]) > 0);
            assert(keyed_in.contains(sorted_pairs[i]));
        }
        assert forall|i: int, j: int| 0 <= i < j < record_views(out@).len() implies !text_lt(date_key(#[trigger] record_views(out@)[i]), date_key(#[trigger] record_views(out@)[j])) by {
            assert(sorted_pairs[i].0@ == date_key(sorted_pairs[i].1@));
            assert(sorted_pairs[j].0@ == date_key(sorted_pairs[j].1@));
        }
    }
    out
}

impl NoteStore {
    /// The store's invariant: ids are unique and every day is valid.
    pub open spec fn wf(&self) -> bool {
        ids_unique(self@) && dates_valid(self@)
    }

    /// An empty notes table.
    pub fn new() -> (r: NoteStore)
        ensures
            r.wf(),
            r@ == Seq::<RecordView>::empty(),
    {
        let r = NoteStore { records: Vec::new() };
        proof {
            assert(r@ =~= Seq::<RecordView>::empty());
        }
        r
    }

    /// The stored notes, in the order they were stored.
    pub fn records(&self) -> (r: &Vec<EncryptedNoteRecord>)
        ensures
            record_views(r@) == self@,
    {
        &self.records
    }

    /// The number of stored notes.
    pub fn len(&self) -> (n: usize)
        ensures
            n == self@.len(),
    {
        self.records.len()
    }

    /// The position of the note with the given id.
    fn position_of(&self, id: &str) -> (r: Option<usize>)
        ensures
            match r {
                Some(i) => i < self@.len() && self@[i as int].id == id@,
                None => !has_id(self@, id@),
            },
    {
        let key = id.to_string();
        let mut i: usize = 0;
        while i < self.records.len()
            invariant
                i <= self.records@.len(),
                key@ == id@,
                forall|j: int| 0 <= j < i ==> #[trigger] self@[j].id != id@,
            decreases self.records.len() - i,
        {
            if self.records[i].id == key {
                return Some(i);
            }
            i = i + 1;
        }
        None
    }

    /// Stores a new note. Storing a second note under an id fails, as the
    /// table's primary key does.
    pub fn create(&mut self, record: EncryptedNoteRecord) -> (r: DomainResult<()>)
        requires
            old(self).wf(),
            valid_date(record.entry_date),
        ensures
            final(self).wf(),
            match r {
                Ok(()) => !has_id(old(self)@, record@.id) && final(self)@ == old(self)@.push(record@),
                Err(e) => has_id(old(self)@, record@.id) && final(self)@ == old(self)@
                    && e@ == crate::errors::ErrorView::Storage("UNIQUE constraint failed: notes.id"@),
            },
    {
        match self.position_of(record.id.as_str()) {
            Some(_) => Err(DomainError::Storage("UNIQUE constraint failed: notes.id".to_string())),
            None => {
                let ghost before = self.records@;
                self.records.push(record);
                proof {
                    lemma_views_push(before, record);
                }
                Ok(())
            },
        }
    }

    /// Replaces the stored note with the record's id.
    pub fn update(&mut self, record: EncryptedNoteRecord) -> (r: DomainResult<()>)
        requires
            old(self).wf(),
            valid_date(record.entry_date),
        ensures
            final(self).wf(),
            match r {
                Ok(()) => exists|i: int| 0 <= i < old(self)@.len() && old(self)@[i].id == record@.id
                    && final(self)@ == old(self)@.update(i, #[trigger] updated_record(old(self)@[i], record@)),
                Err(e) => !has_id(old(self)@, record@.id) && final(self)@ == old(self)@ && e is NotFound,
            },
    {
        match self.position_of(record.id.as_str()) {
            None => Err(DomainError::NotFound),
            Some(i) => {
                let ghost before = self@;
                let old_rec = self.records.remove(i);
                let new_rec = EncryptedNoteRecord {
                    id: old_rec.id,
                    entry_date: record.entry_date,
                    title_enc: record.title_enc,
                    content_enc: record.content_enc,
                    tags_enc: record.tags_enc,
                    is_favorite: record.is_favorite,
                    is_done: old_rec.is_done,
                    mood: old_rec.mood,
                    created_at: old_rec.created_at,
                    updated_at: record.updated_at,
                };
                self.records.insert(i, new_rec);
                proof {
                    assert(self@ =~= before.update(i as int, updated_record(before[i as int], record@)));
                }
                Ok(())
            },
        }
    }

    /// Replaces the stored note with the record's id by a note that another
    /// device changed: as `update`, but the done mark and the mood come
    /// from the record too.
    pub fn update_synced(&mut self, record: EncryptedNoteRecord) -> (r: DomainResult<()>)
        requires
            old(self).wf(),
            valid_date(record.entry_date),
        ensures
            final(self).wf(),
            match r {
                Ok(()) => exists|i: int| 0 <= i < old(self)@.len() && old(self)@[i].id == record@.id
                    && final(self)@ == old(self)@.update(i, #[trigger] synced_record(old(self)@[i], record@)),
                Err(e) => !has_id(old(self)@, record@.id) && final(self)@ == old(self)@ && e is NotFound,
            },
    {
        match self.position_of(record.id.as_str()) {
            None => Err(DomainError::NotFound),
            Some(i) => {
                let ghost before = self@;
                let old_rec = self.records.remove(i);
                let new_rec = EncryptedNoteRecord {
                    id: old_rec.id,
                    entry_date: record.entry_date,
                    title_enc: record.title_enc,
                    content_enc: record.content_enc,
                    tags_enc: record.tags_enc,
                    is_favorite: record.is_favorite,
                    is_done: record.is_done,
                    mood: record.mood,
                    created_at: old_rec.created_at,
                    updated_at: record.updated_at,
                };
                self.records.insert(i, new_rec);
                proof {
                    assert(self@ =~= before.update(i as int, synced_record(before[i as int], record@)));
                }
                Ok(())
            },
        }
    }

    /// Removes the stored note with the given id.
    pub fn delete(&mut self, id: &str) -> (r: DomainResult<()>)
        requires
            old(self).wf(),
        ensures
            final(self).wf(),
            match r {
                Ok(()) => exists|i: int| 0 <= i < old(self)@.len() && old(self)@[i].id == id@
                    && final(self)@ == old(self)@.remove(i),
                Err(e) => !has_id(old(self)@, id@) && final(self)@ == old(self)@ && e is NotFound,
            },
    {
        match self.position_of(id) {
            None => Err(DomainError::NotFound),
            Some(i) => {
                let ghost before = self.records@;
                let _ = self.records.remove(i);
                proof {
                    assert(self@ =~= record_views(before).remove(i as int));
                }
                Ok(())
            },
        }
    }

    /// The stored note with the given id.
    pub fn get_by_id(&self, id: &str) -> (r: Option<EncryptedNoteRecord>)
        requires
            self.wf(),
        ensures
            match r {
                Some(rec) => exists|i: int| 0 <= i < self@.len() && #[trigger] self@[i] == rec@ && rec@.id == id@,
                None => !has_id(self@, id@),
            },
    {
        match self.position_of(id) {
            None => None,
            Some(i) => Some(self.records[i].duplicate()),
        }
    }

    /// The first stored note for the given day.
    pub fn get_by_date(&self, date: Date) -> (r: Option<EncryptedNoteRecord>)
        requires
            self.wf(),
        ensures
            match first_index_on(self@, date) {
                Some(i) => r matches Some(rec) && rec@ == self@[i],
                None => r is None,
            },
    {
        let mut i: usize = 0;
        while i < self.records.len()
            invariant
                i <= self.records@.len(),
                forall|j: int| 0 <= j < i ==> (#[trigger] self@[j]).entry_date != date,
            decreases self.records.len() - i,
        {
            if self.records[i].entry_date == date {
                let rec = self.records[i].duplicate();
                assert(self@[i as int] == rec@);
                proof {
                    lemma_first_index_on(self@, date, i as int);
                }
                return Some(rec);
            }
            i = i + 1;
        }
        proof {
            lemma_first_index_on(self@, date, i as int);
        }
        None
    }

    /// Whether the selection takes the given stored note.
    fn takes(sel: &Selection, rec: &EncryptedNoteRecord) -> (r: bool)
        requires
            selection_valid(*sel),
            valid_date(rec.entry_date),
        ensures
            r == selected(*sel, rec@),
    {
        match sel {
            Selection::All => true,
            Selection::Range(from, to) => {
                let key = format_date(rec.entry_date);
                let after_from = match from {
                    Some(f) => !text_less(key.as_str(), format_date(*f).as_str()),
                    None => true,
                };
                let before_to = match to {
                    Some(t) => !text_less(format_date(*t).as_str(), key.as_str()),
                    None => true,
                };
                after_from && before_to
            },
            Selection::Favorites => rec.is_favorite,
            Selection::After(d) => text_less(format_date(*d).as_str(), format_date(rec.entry_date).as_str()),
            Selection::MonthDay(m, d) => rec.entry_date.month == *m && rec.entry_date.day == *d,
        }
    }

    /// The selected notes, in stored order.
    fn select(&self, sel: &Selection) -> (r: Vec<EncryptedNoteRecord>)
        requires
            self.wf(),
            selection_valid(*sel),
        ensures
            record_views(r@) == self@.filter(|x: RecordView| selected(*sel, x)),
    {
        let ghost pred = |x: RecordView| selected(*sel, x);
        let mut out: Vec<EncryptedNoteRecord> = Vec::new();
        let mut i: usize = 0;
        assert(self@.take(0).filter(pred) =~= Seq::<RecordView>::empty());
        assert(record_views(out@) =~= Seq::<RecordView>::empty());
        while i < self.records.len()
            invariant
                i <= self.records@.len(),
                self.wf(),
                selection_valid(*sel),
                pred == (|x: RecordView| selected(*sel, x)),
                record_views(out@) == self@.take(i as int).filter(pred),
            decreases self.records.len() - i,
        {
            let ghost before = out@;
            proof {
                assert(self@.take(i + 1) =~= self@.take(i as int).push(self@[i as int]));
                self@.take(i as int).lemma_filter_push(self@[i as int], pred);
            }
            if Self::takes(sel, &self.records[i]) {
                let rec = self.records[i].duplicate();
                out.push(rec);
                proof {
                    lemma_views_push(before, rec);
                }
            }
            i = i + 1;
        }
        assert(self@.take(self@.len() as int) =~= self@);
        out
    }

    /// The selected notes, latest day first.
    pub fn list(&self, sel: &Selection) -> (r: Vec<EncryptedNoteRecord>)
        requires
            self.wf(),
            selection_valid(*sel),
        ensures
            record_views(r@).to_multiset() == self@.filter(|x: RecordView| selected(*sel, x)).to_multiset(),
            dates_desc(record_views(r@)),
    {
        let picked = self.select(sel);
        proof {
            let pred = |x: RecordView| selected(*sel, x);
            assert forall|i: int| 0 <= i < record_views(picked@).len() implies valid_date(#[trigger] record_views(picked@)[i].entry_date) by {
                self@.lemma_filter_contains_rev(pred, record_views(picked@)[i]);
            }
        }
        sort_records_desc(picked)
    }

    /// All notes, latest day first.
    pub fn list_all(&self) -> (r: Vec<EncryptedNoteRecord>)
        requires
            self.wf(),
        ensures
            record_views(r@).to_multiset() == self@.to_multiset(),
            dates_desc(record_views(r@)),
    {
        let r = self.list(&Selection::All);
        proof {
            lemma_filter_all(self@, |x: RecordView| selected(Selection::All, x));
        }
        r
    }

    /// The notes of the days from `from` to `to` (each bound optional),
    /// latest day first.
    pub fn list_by_date_range(&self, from: Option<Date>, to: Option<Date>) -> (r: Vec<EncryptedNoteRecord>)
        requires
            self.wf(),
            from matches Some(f) ==> valid_date(f),
            to matches Some(t) ==> valid_date(t),
        ensures
            record_views(r@).to_multiset() == self@.filter(|x: RecordView| selected(Selection::Range(from, to), x)).to_multiset(),
            dates_desc(record_views(r@)),
    {
        self.list(&Selection::Range(from, to))
    }

    /// The favourite notes, latest day first.
    pub fn list_favorites(&self) -> (r: Vec<EncryptedNoteRecord>)
        requires
            self.wf(),
        ensures
            record_views(r@).to_multiset() == self@.filter(|x: RecordView| selected(Selection::Favorites, x)).to_multiset(),
            dates_desc(record_views(r@)),
    {
        self.list(&Selection::Favorites)
    }

    /// The notes of the days after `after`, earliest day first.
    pub fn list_future(&self, after: Date) -> (r: Vec<EncryptedNoteRecord>)
        requires
            self.wf(),
            valid_date(after),
        ensures
            record_views(r@).to_multiset() == self@.filter(|x: RecordView| selected(Selection::After(after), x)).to_multiset(),
            dates_asc(record_views(r@)),
    {
        let desc = self.list(&Selection::After(after));
        let ghost d = record_views(desc@);
        let asc = reverse_records(desc);
        proof {
            assert(record_views(asc@) =~= d.reverse());
            d.lemma_reverse_to_multiset();
            assert forall|i: int, j: int| 0 <= i < j < record_views(asc@).len() implies !text_lt(date_key(#[trigger] record_views(asc@)[j]), date_key(#[trigger] record_views(asc@)[i])) by {
                let n = d.len() as int;
                assert(record_views(asc@)[i] == d[n - 1 - i]);
                assert(record_views(asc@)[j] == d[n - 1 - j]);
            }
        }
        asc
    }

    /// The notes of a month, latest day first; an invalid month is refused.
    pub fn list_for_month(&self, year: i32, month: u32) -> (r: DomainResult<Vec<EncryptedNoteRecord>>)
        requires
            self.wf(),
        ensures
            month_ok(year, month) ==> (r matches Ok(v) && record_views(v@).to_multiset()
                == self@.filter(|x: RecordView| selected(month_selection(year, month), x)).to_multiset()
                && dates_desc(record_views(v@))),
            !month_ok(year, month) ==> (r matches Err(DomainError::Validation(m)) && m@ == "Invalid month"@),
    {
        match month_range(year, month) {
            Ok((first, last)) => Ok(self.list_by_date_range(Some(first), Some(last))),
            Err(msg) => Err(DomainError::Validation(msg)),
        }
    }

    /// The notes written on a given month and day, in any year, latest first.
    pub fn list_by_month_day(&self, month: u32, day: u32) -> (r: Vec<EncryptedNoteRecord>)
        requires
            self.wf(),
        ensures
            record_views(r@).to_multiset() == self@.filter(|x: RecordView| selected(Selection::MonthDay(month, day), x)).to_multiset(),
            dates_desc(record_views(r@)),
    {
        self.list(&Selection::MonthDay(month, day))
    }
}

/// The records in reverse order.
fn reverse_records(v: Vec<EncryptedNoteRecord>) -> (r: Vec<EncryptedNoteRecord>)
    ensures
        r@ == v@.reverse(),
{
    let ghost orig = v@;
    let mut input = v;
    let mut out: Vec<EncryptedNoteRecord> = Vec::new();
    while input.len() > 0
        invariant
            out@ + input@.reverse() == orig.reverse(),
        decreases input.len(),
    {
        let ghost before = input@;
        let item = input.pop().unwrap();
        proof {
            assert(before =~= input@.push(item));
            assert(before.reverse() =~= seq![item] + input@.reverse());
        }
        out.push(item);
        proof {
            assert(out@ + input@.reverse() =~= orig.reverse());
        }
    }
    proof {
        assert(out@ =~= out@ + input@.reverse());
    }
    out
}

/// The journal's local storage: the notes table and the metadata table.
pub struct Database {
    pub notes: NoteStore,
    pub meta: crate::meta::MetaStore,
}

impl Database {
    pub open spec fn wf(&self) -> bool {
        self.notes.wf() && self.meta.wf()
    }

    /// Empty storage.
    pub fn new() -> (r: Database)
        ensures
            r.wf(),
            r.notes@ == Seq::<RecordView>::empty(),
            r.meta@.values == Map::<Seq<char>, Seq<u8>>::empty(),
            r.meta@.tombstones == Seq::<crate::sync::TombstoneView>::empty(),
    {
        Database { notes: NoteStore::new(), meta: crate::meta::MetaStore::new() }
    }
}

/// The message for a stored instant that a `Timestamp` cannot hold.
pub open spec fn instant_range_message() -> Seq<char> {
    "Stored time is out of range."@
}

/// How a failed conversion of a text column is reported, as
/// `rusqlite::Error::FromSqlConversionFailure` writes it.
pub open spec fn text_conversion_message(column: nat, m: Seq<char>) -> Seq<char> {
    "Conversion error from type Text at index: "@ + decimal_text(column) + ", "@ + m
}

/// An integer in decimal, with a minus sign when negative.
pub open spec fn signed_text(v: int) -> Seq<char> {
    if v < 0 { "-"@ + decimal_text((-v) as nat) } else { decimal_text(v as nat) }
}

/// How an integer column that does not fit is reported, as
/// `rusqlite::Error::IntegralValueOutOfRange` writes it.
pub open spec fn out_of_range_message(column: nat, v: int) -> Seq<char> {
    "Integer "@ + signed_text(v) + " out of range at index "@ + decimal_text(column)
}

/// The columns of a row of the notes table.
pub const COL_ID: u64 = 0;
pub const COL_ENTRY_DATE: u64 = 1;
pub const COL_MOOD: u64 = 7;
pub const COL_CREATED_AT: u64 = 8;
pub const COL_UPDATED_AT: u64 = 9;

/// A stored instant in column `column` as the parser reads it, or why it
/// is refused.
pub open spec fn row_instant(column: nat, s: Seq<char>) -> Result<Timestamp, Seq<char>> {
    match rfc3339_parse(s) {
        Ok(Some(t)) => Ok(t),
        Ok(None) => Err(text_conversion_message(column, instant_range_message())),
        Err(m) => Err(text_conversion_message(column, m)),
    }
}

/// A stored mood as a byte, or why it is refused.
pub open spec fn row_mood(m: Option<i64>) -> Result<Option<u8>, Seq<char>> {
    match m {
        None => Ok(None),
        Some(v) => if 0 <= v <= 255 { Ok(Some(v as u8)) } else { Err(out_of_range_message(COL_MOOD as nat, v as int)) },
    }
}

/// What a row of the notes table gives, its columns checked in order: the
/// id must be a UUID (kept in canonical form), the day a `YYYY-MM-DD` date,
/// the mood a byte, and the times RFC 3339 instants; the first column that
/// fails gives the message.
pub open spec fn row_record(
    id: Seq<char>,
    entry_date: Seq<char>,
    title_enc: Seq<u8>,
    content_enc: Seq<u8>,
    tags_enc: Seq<u8>,
    is_favorite: i64,
    is_done: i64,
    mood: Option<i64>,
    created_at: Seq<char>,
    updated_at: Seq<char>,
) -> Result<RecordView, Seq<char>> {
    match uuid_canonical(id) {
        Err(m) => Err(text_conversion_message(COL_ID as nat, m)),
        Ok(cid) => match date_parse(entry_date) {
            Err(m) => Err(text_conversion_message(COL_ENTRY_DATE as nat, m)),
            Ok(d) => match row_mood(mood) {
                Err(m) => Err(m),
                Ok(md) => match row_instant(COL_CREATED_AT as nat, created_at) {
                    Err(m) => Err(m),
                    Ok(c) => match row_instant(COL_UPDATED_AT as nat, updated_at) {
                        Err(m) => Err(m),
                        Ok(u) => Ok(RecordView {
                            id: cid,
                            entry_date: d,
                            title_enc,
                            content_enc,
                            tags_enc,
                            is_favorite: is_favorite != 0,
                            is_done: is_done != 0,
                            mood: md,
                            created_at: c,
                            updated_at: u,
                        }),
                    },
                },
            },
        },
    }
}

/// The storage error for a text column that did not convert.
fn conversion_error(column: u64, m: String) -> (e: DomainError)
    ensures
        e@ == crate::errors::ErrorView::Storage(text_conversion_message(column as nat, m@)),
{
    let msg = "Conversion error from type Text at index: ".to_string().concat(u64_to_text(column).as_str());
    let msg = msg.concat(", ");
    DomainError::Storage(msg.concat(m.as_str()))
}

/// An integer in decimal, with a minus sign when negative.
fn signed_to_text(v: i64) -> (r: String)
    ensures
        r@ == signed_text(v as int),
{
    if v < 0 {
        let magnitude: u64 = (-(v as i128)) as u64;
        "-".to_string().concat(u64_to_text(magnitude).as_str())
    } else {
        u64_to_text(v as u64)
    }
}

/// A stored instant, or a storage error.
fn instant_from_row(column: u64, s: &str) -> (r: DomainResult<Timestamp>)
    ensures
        match row_instant(column as nat, s@) {
            Ok(t) => r == Ok::<Timestamp, DomainError>(t),
            Err(m) => r matches Err(e) && e@ == crate::errors::ErrorView::Storage(m),
        },
{
    match parse_rfc3339(s) {
        Ok(Some(t)) => Ok(t),
        Ok(None) => Err(conversion_error(column, "Stored time is out of range.".to_string())),
        Err(m) => Err(conversion_error(column, m)),
    }
}

/// The note that a row of the notes table holds; a column that cannot be
/// read gives a storage error with the reader's message.
pub fn record_from_row(
    id: String,
    entry_date: &str,
    title_enc: Vec<u8>,
    content_enc: Vec<u8>,
    tags_enc: Vec<u8>,
    is_favorite: i64,
    is_done: i64,
    mood: Option<i64>,
    created_at: &str,
    updated_at: &str,
) -> (r: DomainResult<EncryptedNoteRecord>)
    ensures
        match row_record(id@, entry_date@, title_enc@, content_enc@, tags_enc@, is_favorite, is_done, mood, created_at@, updated_at@) {
            Ok(v) => r matches Ok(rec) && rec@ == v && valid_date(rec.entry_date),
            Err(m) => r matches Err(e) && e@ == crate::errors::ErrorView::Storage(m),
        },
{
    let cid = match canonical_uuid(id.as_str()) {
        Ok(t) => t,
        Err(m) => { return Err(conversion_error(COL_ID, m)); },
    };
    let day = match parse_ymd(entry_date) {
        Ok(d) => d,
        Err(m) => { return Err(conversion_error(COL_ENTRY_DATE, m)); },
    };
    let md: Option<u8> = match mood {
        None => None,
        Some(v) => if 0 <= v && v <= 255 {
            Some(v as u8)
        } else {
            let msg = "Integer ".to_string().concat(signed_to_text(v).as_str());
            let msg = msg.concat(" out of range at index ");
            return Err(DomainError::Storage(msg.concat(u64_to_text(COL_MOOD).as_str())));
        },
    };
    let created = instant_from_row(COL_CREATED_AT, created_at)?;
    let updated = instant_from_row(COL_UPDATED_AT, updated_at)?;
    Ok(EncryptedNoteRecord {
        id: cid,
        entry_date: day,
        title_enc,
        content_enc,
        tags_enc,
        is_favorite: is_favorite != 0,
        is_done: is_done != 0,
        mood: md,
        created_at: created,
        updated_at: updated,
    })
}

} // verus!
