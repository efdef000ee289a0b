use locked_calendar::auth_service::SessionKey;
use locked_calendar::errors::DomainError;
use locked_calendar::session::SessionState;
use locked_calendar::store::Database;

const SEC: u64 = 1_000_000_000;

fn unlocked_at(now: u64, timeout: u64) -> SessionState {
    SessionState { session: Some(SessionKey([5u8; 32])), last_activity: now, lock_timeout_secs: timeout }
}

#[test]
fn new_session_is_locked_with_default_timeout() {
    let db = Database::new();
    let s = SessionState::new(&db, 7);
    assert!(!s.is_unlocked());
    assert_eq!(s.lock_timeout_secs, 600);
    assert_eq!(s.last_activity, 7);
}

#[test]
fn new_session_reads_stored_timeout() {
    let mut db = Database::new();
    db.meta.set_lock_timeout_secs(120);
    assert_eq!(SessionState::new(&db, 0).lock_timeout_secs, 120);
    db.meta.set(locked_calendar::meta::KEY_LOCK_TIMEOUT, b"soon");
    assert_eq!(SessionState::new(&db, 0).lock_timeout_secs, 600);
}

#[test]
fn idle_session_locks_at_its_timeout() {
    let mut s = unlocked_at(SEC, 60);
    assert!(s.check_idle_lock(SEC + 59 * SEC).is_ok());
    assert!(s.is_unlocked());
    let e = s.check_idle_lock(SEC + 60 * SEC).unwrap_err();
    assert!(matches!(e, DomainError::Locked));
    assert!(!s.is_unlocked());
}

#[test]
fn clock_going_back_counts_as_no_idle_time() {
    let mut s = unlocked_at(100 * SEC, 60);
    assert!(s.check_idle_lock(5).is_ok());
    assert!(s.is_unlocked());
}

#[test]
fn activity_restarts_the_idle_timer() {
    let mut s = unlocked_at(0, 60);
    assert!(s.touch_session(50 * SEC).is_ok());
    assert_eq!(s.last_activity, 50 * SEC);
    assert!(s.check_idle_lock(100 * SEC).is_ok());
    let key = s.unlocked_key(105 * SEC).unwrap();
    assert_eq!(key.0, [5u8; 32]);
    assert_eq!(s.last_activity, 105 * SEC);
}

#[test]
fn touch_session_reports_lock_to_user() {
    let mut s = unlocked_at(0, 60);
    assert_eq!(s.touch_session(61 * SEC).unwrap_err(), "Please unlock the application first.");
    assert!(s.touch_session(62 * SEC).is_ok());
}

#[test]
fn locked_session_gives_no_key() {
    let mut s = unlocked_at(0, 60);
    s.lock();
    assert!(matches!(s.unlocked_key(1), Err(DomainError::Locked)));
}

#[test]
fn short_timeout_is_refused() {
    let mut db = Database::new();
    let mut s = unlocked_at(0, 600);
    assert_eq!(s.set_lock_timeout(&mut db, 59).unwrap_err(), "Lock timeout must be at least 60 seconds.");
    assert_eq!(s.lock_timeout_secs, 600);
    s.set_lock_timeout(&mut db, 60).unwrap();
    assert_eq!(s.lock_timeout_secs, 60);
    assert_eq!(db.meta.get_lock_timeout_secs().unwrap(), 60);
    assert_eq!(SessionState::new(&db, 0).lock_timeout_secs, 60);
}

#[test]
fn status_reports_setup_and_lock() {
    let db = Database::new();
    let mut s = unlocked_at(0, 60);
    let st = s.auth_status(&db, SEC);
    assert!(!st.initialized);
    assert!(st.unlocked);
    let st = s.auth_status(&db, 61 * SEC);
    assert!(!st.unlocked);
}

#[test]
fn start_session_unlocks() {
    let mut s = SessionState::new(&Database::new(), 0);
    s.start_session(SessionKey([1u8; 32]), 9);
    assert!(s.is_unlocked());
    assert_eq!(s.last_activity, 9);
}
