use vstd::prelude::*;
use crate::entities::NoteSummary;

verus! {

#[derive(Debug)]
pub struct SetupPasswordRequest {
    pub password: String,
}

#[derive(Debug)]
pub struct UnlockRequest {
    pub password: String,
}

/// A note as the editor sends it; `id` is set when an existing note is
/// edited, and the day is written `YYYY-MM-DD`.
#[derive(Debug)]
pub struct SaveNoteRequest {
    pub id: Option<String>,
    pub entry_date: String,
    pub title: String,
    pub content: String,
    pub tags: Vec<String>,
    pub is_favorite: bool,
}

/// Search filters as the user interface sends them.
#[derive(Debug)]
pub struct SearchNotesRequest {
    pub query: Option<String>,
    pub date_from: Option<String>,
    pub date_to: Option<String>,
    pub tags: Vec<String>,
    pub favorites_only: bool,
    pub future_only: bool,
}

#[derive(Debug)]
pub struct AuthStatusResponse {
    pub initialized: bool,
    pub unlocked: bool,
}

/// The notes of one month, for the timeline.
#[derive(Debug)]
pub struct TimelineGroup {
    /// The month, written `YYYY-MM`.
    pub month: String,
    pub entries: Vec<NoteSummary>,
}

/// Groups are listed by their month.
impl crate::sorting::Keyed for TimelineGroup {
    open spec fn key_of(&self) -> Seq<char> {
        self.month@
    }

    fn key(&self) -> (r: String) {
        self.month.clone()
    }
}

/// A note written on the same calendar day in an earlier year.
#[derive(Debug)]
pub struct OnThisDayEntry {
    pub entry_date: String,
    pub title: String,
    pub snippet: String,
    pub years_ago: i32,
    pub is_favorite: bool,
}

pub struct MemoryView {
    pub entry_date: Seq<char>,
    pub title: Seq<char>,
    pub snippet: Seq<char>,
    pub years_ago: i32,
    pub is_favorite: bool,
}

impl View for OnThisDayEntry {
    type V = MemoryView;

    open spec fn view(&self) -> MemoryView {
        MemoryView {
            entry_date: self.entry_date@,
            title: self.title@,
            snippet: self.snippet@,
            years_ago: self.years_ago,
            is_favorite: self.is_favorite,
        }
    }
}

/// Memories are listed by their day.
impl crate::sorting::Keyed for OnThisDayEntry {
    open spec fn key_of(&self) -> Seq<char> {
        self.entry_date@
    }

    fn key(&self) -> (r: String) {
        self.entry_date.clone()
    }
}

/// A note as the user interface receives it: the day as `YYYY-MM-DD`, the
/// times in RFC 3339.
#[derive(Debug)]
pub struct NoteResponse {
    pub id: String,
    pub entry_date: String,
    pub title: String,
    pub content: String,
    pub tags: Vec<String>,
    pub is_favorite: bool,
    pub created_at: String,
    pub updated_at: String,
}

pub struct ResponseView {
    pub id: Seq<char>,
    pub entry_date: Seq<char>,
    pub title: Seq<char>,
    pub content: Seq<char>,
    pub tags: Seq<Seq<char>>,
    pub is_favorite: bool,
    pub created_at: Seq<char>,
    pub updated_at: Seq<char>,
}

impl View for NoteResponse {
    type V = ResponseView;

    open spec fn view(&self) -> ResponseView {
        ResponseView {
            id: self.id@,
            entry_date: self.entry_date@,
            title: self.title@,
            content: self.content@,
            tags: self.tags.deep_view(),
            is_favorite: self.is_favorite,
            created_at: self.created_at@,
            updated_at: self.updated_at@,
        }
    }
}

} // verus!
