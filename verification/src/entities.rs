use vstd::prelude::*;
use crate::calendar::{Date, Timestamp};

verus! {

/// A day's journal entry, in clear text.
#[derive(Debug)]
pub struct Note {
    /// The note's UUID, written in its canonical hyphenated form.
    pub id: String,
    pub entry_date: Date,
    pub title: String,
    pub content: String,
    pub tags: Vec<String>,
    pub is_favorite: bool,
    /// Whether the day was checked off.
    pub is_done: bool,
    /// The mood logged for the day, if any.
    pub mood: Option<u8>,
    pub created_at: Timestamp,
    pub updated_at: Timestamp,
}

/// The abstract value of a note.
pub struct NoteView {
    pub id: Seq<char>,
    pub entry_date: Date,
    pub title: Seq<char>,
    pub content: Seq<char>,
    pub tags: Seq<Seq<char>>,
    pub is_favorite: bool,
    pub is_done: bool,
    pub mood: Option<u8>,
    pub created_at: Timestamp,
    pub updated_at: Timestamp,
}

impl View for Note {
    type V = NoteView;

    open spec fn view(&self) -> NoteView {
        NoteView {
            id: self.id@,
            entry_date: self.entry_date,
            title: self.title@,
            content: self.content@,
            tags: self.tags.deep_view(),
            is_favorite: self.is_favorite,
            is_done: self.is_done,
            mood: self.mood,
            created_at: self.created_at,
            updated_at: self.updated_at,
        }
    }
}

/// A note as it is stored: title, content and tags encrypted.
#[derive(Debug)]
pub struct EncryptedNoteRecord {
    pub id: String,
    pub entry_date: Date,
    pub title_enc: Vec<u8>,
    pub content_enc: Vec<u8>,
    pub tags_enc: Vec<u8>,
    pub is_favorite: bool,
    pub is_done: bool,
    pub mood: Option<u8>,
    pub created_at: Timestamp,
    pub updated_at: Timestamp,
}

/// The abstract value of a stored note.
pub struct RecordView {
    pub id: Seq<char>,
    pub entry_date: Date,
    pub title_enc: Seq<u8>,
    pub content_enc: Seq<u8>,
    pub tags_enc: Seq<u8>,
    pub is_favorite: bool,
    pub is_done: bool,
    pub mood: Option<u8>,
    pub created_at: Timestamp,
    pub updated_at: Timestamp,
}

impl View for EncryptedNoteRecord {
    type V = RecordView;

    open spec fn view(&self) -> RecordView {
        RecordView {
            id: self.id@,
            entry_date: self.entry_date,
            title_enc: self.title_enc@,
            content_enc: self.content_enc@,
            tags_enc: self.tags_enc@,
            is_favorite: self.is_favorite,
            is_done: self.is_done,
            mood: self.mood,
            created_at: self.created_at,
            updated_at: self.updated_at,
        }
    }
}

impl EncryptedNoteRecord {
    /// A copy of the record.
    pub fn duplicate(&self) -> (r: EncryptedNoteRecord)
        ensures
            r@ == self@,
    {
        EncryptedNoteRecord {
            id: self.id.clone(),
            entry_date: self.entry_date,
            title_enc: self.title_enc.clone(),
            content_enc: self.content_enc.clone(),
            tags_enc: self.tags_enc.clone(),
            is_favorite: self.is_favorite,
            is_done: self.is_done,
            mood: self.mood,
            created_at: self.created_at,
            updated_at: self.updated_at,
        }
    }
}

/// A list entry for a note: its title (or a stand-in) and the start of its
/// content.
#[derive(Debug)]
pub struct NoteSummary {
    pub id: String,
    pub entry_date: String,
    pub title: String,
    pub snippet: String,
    pub is_favorite: bool,
    pub is_done: bool,
    pub mood: Option<u8>,
    pub tags: Vec<String>,
}

pub struct SummaryView {
    pub id: Seq<char>,
    pub entry_date: Seq<char>,
    pub title: Seq<char>,
    pub snippet: Seq<char>,
    pub is_favorite: bool,
    pub is_done: bool,
    pub mood: Option<u8>,
    pub tags: Seq<Seq<char>>,
}

impl View for NoteSummary {
    type V = SummaryView;

    open spec fn view(&self) -> SummaryView {
        SummaryView {
            id: self.id@,
            entry_date: self.entry_date@,
            title: self.title@,
            snippet: self.snippet@,
            is_favorite: self.is_favorite,
            is_done: self.is_done,
            mood: self.mood,
            tags: self.tags.deep_view(),
        }
    }
}

/// Summaries are listed by their day, written `YYYY-MM-DD`.
impl crate::sorting::Keyed for NoteSummary {
    open spec fn key_of(&self) -> Seq<char> {
        self.entry_date@
    }

    fn key(&self) -> (r: String) {
        self.entry_date.clone()
    }
}

/// The abstract values of a list of summaries.
pub open spec fn summary_views(v: Seq<NoteSummary>) -> Seq<SummaryView> {
    v.map_values(|s: NoteSummary| s@)
}

/// What the calendar shows for one day.
#[derive(Debug)]
pub struct DayMarker {
    pub date: String,
    pub has_note: bool,
    pub is_favorite: bool,
}

pub struct MarkerView {
    pub date: Seq<char>,
    pub has_note: bool,
    pub is_favorite: bool,
}

impl View for DayMarker {
    type V = MarkerView;

    open spec fn view(&self) -> MarkerView {
        MarkerView { date: self.date@, has_note: self.has_note, is_favorite: self.is_favorite }
    }
}

} // verus!
