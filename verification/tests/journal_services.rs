use locked_calendar::auth_service::SessionKey;
use locked_calendar::calendar::Date;
use locked_calendar::commands::notes_get_today;
use locked_calendar::crypto::AesGcmCryptoProvider;
use locked_calendar::errors::DomainError;
use locked_calendar::note_service::NoteService;
use locked_calendar::on_this_day_service::OnThisDayService;
use locked_calendar::search_service::SearchService;
use locked_calendar::store::Database;
use locked_calendar::tag_service::TagService;
use locked_calendar::timeline_service::TimelineService;

fn day(year: i32, month: u32, day: u32) -> Date {
    Date { year, month, day }
}

fn key() -> Option<SessionKey> {
    Some(SessionKey([42u8; 32]))
}

fn notes() -> NoteService<AesGcmCryptoProvider> {
    NoteService::new(AesGcmCryptoProvider::new())
}

fn save(db: &mut Database, date: Date, title: &str, content: &str, tags: &[&str], fav: bool) -> String {
    notes()
        .save(
            db,
            &key(),
            None,
            date,
            title.to_string(),
            content.to_string(),
            tags.iter().map(|t| t.to_string()).collect(),
            fav,
        )
        .unwrap()
        .id
}

#[test]
fn saved_note_reads_back() {
    let mut db = Database::new();
    let id = save(&mut db, day(2024, 5, 30), "Walk", "By the river", &["outside"], true);
    let note = notes().get_by_date(&db, &key(), day(2024, 5, 30)).unwrap().unwrap();
    assert_eq!(note.id, id);
    assert_eq!(note.entry_date, "2024-05-30");
    assert_eq!(note.title, "Walk");
    assert_eq!(note.content, "By the river");
    assert_eq!(note.tags, vec!["outside"]);
    assert!(note.is_favorite);
    assert!(notes().get_by_date(&db, &key(), day(2024, 5, 31)).unwrap().is_none());
}

#[test]
fn saving_again_rewrites_the_note() {
    let mut db = Database::new();
    let id = save(&mut db, day(2024, 5, 30), "One", "a", &[], false);
    let again = notes()
        .save(&mut db, &key(), Some(id.clone()), day(2024, 5, 30), "Two".to_string(), "b".to_string(), vec![], false)
        .unwrap();
    assert_eq!(again.id, id);
    assert_eq!(db.notes.len(), 1);
    assert_eq!(notes().get_by_date(&db, &key(), day(2024, 5, 30)).unwrap().unwrap().title, "Two");
}

#[test]
fn saving_an_unknown_id_fails() {
    let mut db = Database::new();
    let r = notes().save(
        &mut db,
        &key(),
        Some("0f8fad5b-d9cb-469f-a165-70867728950e".to_string()),
        day(2024, 5, 30),
        "x".to_string(),
        "y".to_string(),
        vec![],
        false,
    );
    assert!(matches!(r, Err(DomainError::NotFound)));
}

#[test]
fn locked_journal_refuses_notes() {
    let mut db = Database::new();
    let r = notes().get_or_create_for_date(&mut db, &None, day(2024, 1, 1));
    assert!(matches!(r, Err(DomainError::Locked)));
    assert!(matches!(notes().delete(&mut db, &None, "x"), Err(DomainError::Locked)));
    assert_eq!(db.notes.len(), 0);
}

#[test]
fn wrong_key_cannot_read() {
    let mut db = Database::new();
    save(&mut db, day(2024, 5, 30), "Secret", "s", &[], false);
    let other = Some(SessionKey([1u8; 32]));
    assert!(matches!(notes().get_by_date(&db, &other, day(2024, 5, 30)), Err(DomainError::Crypto(_))));
}

#[test]
fn get_or_create_creates_once() {
    let mut db = Database::new();
    let first = notes().get_or_create_for_date(&mut db, &key(), day(2024, 2, 29)).unwrap();
    assert_eq!(first.title, "");
    assert_eq!(first.content, "");
    assert!(first.tags.is_empty());
    let second = notes().get_or_create_for_date(&mut db, &key(), day(2024, 2, 29)).unwrap();
    assert_eq!(first.id, second.id);
    assert_eq!(db.notes.len(), 1);
}

#[test]
fn toggling_favorite_twice_restores_it() {
    let mut db = Database::new();
    let id = save(&mut db, day(2024, 5, 30), "t", "c", &[], false);
    assert!(notes().toggle_favorite(&mut db, &key(), &id).unwrap().is_favorite);
    assert!(!notes().toggle_favorite(&mut db, &key(), &id).unwrap().is_favorite);
    assert!(matches!(notes().toggle_favorite(&mut db, &key(), "missing"), Err(DomainError::NotFound)));
}

#[test]
fn delete_removes_the_note() {
    let mut db = Database::new();
    let id = save(&mut db, day(2024, 5, 30), "t", "c", &[], false);
    notes().delete(&mut db, &key(), &id).unwrap();
    assert!(notes().get_by_date(&db, &key(), day(2024, 5, 30)).unwrap().is_none());
    assert!(matches!(notes().delete(&mut db, &key(), &id), Err(DomainError::NotFound)));
}

#[test]
fn long_title_is_refused() {
    let long = "x".repeat(513);
    match NoteService::<AesGcmCryptoProvider>::validate_note_input(&long, "") {
        Err(DomainError::Validation(m)) => assert_eq!(m, "Title is too long."),
        other => panic!("unexpected {:?}", other),
    }
    assert!(NoteService::<AesGcmCryptoProvider>::validate_note_input(&"x".repeat(512), "").is_ok());
    let mut db = Database::new();
    let r = notes().save(&mut db, &key(), None, day(2024, 1, 1), long, String::new(), vec![], false);
    assert!(matches!(r, Err(DomainError::Validation(_))));
    assert_eq!(db.notes.len(), 0);
}

#[test]
fn month_markers_list_the_month_latest_first() {
    let mut db = Database::new();
    save(&mut db, day(2024, 5, 2), "a", "", &[], true);
    save(&mut db, day(2024, 5, 20), "", "", &[], false);
    save(&mut db, day(2024, 6, 1), "c", "", &[], false);
    let markers = notes().list_month_markers(&db, &key(), 2024, 5).unwrap();
    assert_eq!(markers.len(), 2);
    assert_eq!(markers[0].date, "2024-05-20");
    assert!(!markers[0].has_note);
    assert_eq!(markers[1].date, "2024-05-02");
    assert!(markers[1].has_note && markers[1].is_favorite);
    match notes().list_month_markers(&db, &key(), 2024, 13) {
        Err(DomainError::Validation(m)) => assert_eq!(m, "Invalid month"),
        other => panic!("unexpected {:?}", other),
    }
}

#[test]
fn search_matches_text_and_tags_ignoring_case() {
    let mut db = Database::new();
    save(&mut db, day(2024, 1, 1), "Morning RUN", "cold", &["Sport"], false);
    save(&mut db, day(2024, 2, 1), "Reading", "a novel about running", &[], true);
    save(&mut db, day(2024, 3, 1), "Other", "nothing", &["sport"], false);
    let search = SearchService::new(AesGcmCryptoProvider::new());
    let found = search
        .search_with(&db, &key(), Some("run"), None, None, &[], false, false, day(2024, 6, 1))
        .unwrap();
    assert_eq!(found.len(), 2);
    assert_eq!(found[0].entry_date, "2024-02-01");
    assert_eq!(found[1].title, "Morning RUN");
    let tagged = search
        .search_with(&db, &key(), None, None, None, &["SPORT".to_string()], false, false, day(2024, 6, 1))
        .unwrap();
    assert_eq!(tagged.len(), 2);
    let favs = search.search_with(&db, &key(), None, None, None, &[], true, false, day(2024, 6, 1)).unwrap();
    assert_eq!(favs.len(), 1);
    assert_eq!(favs[0].title, "Reading");
    let ranged = search
        .search_with(&db, &key(), None, Some(day(2024, 1, 15)), Some(day(2024, 3, 1)), &[], false, false, day(2024, 6, 1))
        .unwrap();
    assert_eq!(ranged.len(), 2);
    let future = search.search_with(&db, &key(), None, None, None, &[], false, true, day(2024, 1, 15)).unwrap();
    assert_eq!(future.len(), 2);
    assert_eq!(future[0].entry_date, "2024-03-01");
}

#[test]
fn summaries_use_stand_in_titles_and_short_snippets() {
    let mut db = Database::new();
    let long = "y".repeat(300);
    save(&mut db, day(2024, 1, 1), "", &long, &[], false);
    let search = SearchService::new(AesGcmCryptoProvider::new());
    let found = search.search_with(&db, &key(), None, None, None, &[], false, false, day(2024, 6, 1)).unwrap();
    assert_eq!(found[0].title, "Untitled");
    assert_eq!(found[0].snippet.chars().count(), 120);
}

#[test]
fn timeline_groups_by_month_latest_first() {
    let mut db = Database::new();
    save(&mut db, day(2024, 1, 5), "a", "", &[], false);
    save(&mut db, day(2024, 3, 1), "b", "", &[], false);
    save(&mut db, day(2024, 3, 9), "c", "", &[], false);
    save(&mut db, day(2024, 4, 9), "", "", &[], false);
    let timeline = TimelineService::new(AesGcmCryptoProvider::new());
    let groups = timeline.list_grouped(&db, &key()).unwrap();
    assert_eq!(groups.len(), 2);
    assert_eq!(groups[0].month, "2024-03");
    assert_eq!(groups[0].entries.len(), 2);
    assert_eq!(groups[0].entries[0].entry_date, "2024-03-09");
    assert_eq!(groups[1].month, "2024-01");
    for g in &groups {
        for e in &g.entries {
            assert!(e.entry_date.starts_with(&format!("{}-", g.month)));
        }
    }
}

#[test]
fn tags_are_trimmed_unique_and_sorted() {
    let mut db = Database::new();
    save(&mut db, day(2024, 1, 1), "a", "", &[" travel ", "food"], false);
    save(&mut db, day(2024, 1, 2), "b", "", &["food", "", "art"], false);
    let tags = TagService::new(AesGcmCryptoProvider::new()).list_all_tags(&db, &key()).unwrap();
    assert_eq!(tags, vec!["art", "food", "travel"]);
}

#[test]
fn on_this_day_lists_other_years() {
    let mut db = Database::new();
    save(&mut db, day(2022, 5, 30), "", "two years", &[], false);
    save(&mut db, day(2023, 5, 30), "Last year", "x", &[], true);
    save(&mut db, day(2024, 5, 30), "Today", "x", &[], false);
    save(&mut db, day(2021, 5, 30), "", "", &[], false);
    let service = OnThisDayService::new(AesGcmCryptoProvider::new());
    let entries = service.get_memories(&db, &key(), day(2024, 5, 30)).unwrap();
    assert_eq!(entries.len(), 2);
    assert_eq!(entries[0].entry_date, "2023-05-30");
    assert_eq!(entries[0].years_ago, 1);
    assert!(entries[0].is_favorite);
    assert_eq!(entries[1].title, "Untitled");
    assert_eq!(entries[1].years_ago, 2);
}

#[test]
fn on_this_day_leaves_out_later_years() {
    let mut db = Database::new();
    save(&mut db, day(2025, 5, 30), "Next year", "x", &[], false);
    save(&mut db, day(2023, 5, 30), "Last year", "x", &[], false);
    let service = OnThisDayService::new(AesGcmCryptoProvider::new());
    let entries = service.get_memories(&db, &key(), day(2024, 5, 30)).unwrap();
    assert_eq!(entries.len(), 1);
    assert_eq!(entries[0].entry_date, "2023-05-30");
    assert_eq!(entries[0].years_ago, 1);
}

#[test]
fn search_lower_cases_beyond_ascii() {
    let mut db = Database::new();
    save(&mut db, day(2024, 1, 1), "ÉCLAIR", "", &[], false);
    let search = SearchService::new(AesGcmCryptoProvider::new());
    let found = search.search_with(&db, &key(), Some("éclair"), None, None, &[], false, false, day(2024, 6, 1)).unwrap();
    assert_eq!(found.len(), 1);
}

#[test]
fn today_opens_one_note_for_the_day() {
    let mut db = Database::new();
    let notes = NoteService::new(AesGcmCryptoProvider::new());
    let first = notes_get_today(&notes, &mut db, &key()).unwrap();
    let again = notes_get_today(&notes, &mut db, &key()).unwrap();
    assert_eq!(first.id, again.id);
    assert_eq!(first.title, "");
    assert_eq!(db.notes.len(), 1);
    assert_eq!(notes_get_today(&notes, &mut db, &None).unwrap_err(), "Please unlock the application first.");
}
