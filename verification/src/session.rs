use vstd::prelude::*;
use vstd::utf8::{decode_utf8, valid_utf8};
use crate::auth_service::SessionKey;
use crate::decimal::{ParseIntError, decimal_text, parse_u64_spec};
use crate::dto::AuthStatusResponse;
use crate::errors::{DomainError, DomainResult, user_message};
use crate::meta::{DEFAULT_LOCK_TIMEOUT_SECS, KEY_LOCK_TIMEOUT, KEY_PASSWORD_HASH};
use crate::store::Database;

verus! {

/// The shortest idle time, in seconds, that the user may choose.
pub const MIN_LOCK_TIMEOUT_SECS: u64 = 60;

/// Nanoseconds in a second.
pub const NANOS_PER_SEC: u64 = 1_000_000_000;

/// The idle timeout stored in the metadata, or the default where none is
/// stored or it cannot be read.
pub open spec fn stored_lock_timeout(values: Map<Seq<char>, Seq<u8>>) -> u64 {
    if !values.contains_key(KEY_LOCK_TIMEOUT@) {
        DEFAULT_LOCK_TIMEOUT_SECS
    } else {
        let bytes = values[KEY_LOCK_TIMEOUT@];
        if valid_utf8(bytes) && parse_u64_spec(decode_utf8(bytes)) is Ok {
            parse_u64_spec(decode_utf8(bytes))->Ok_0 as u64
        } else {
            DEFAULT_LOCK_TIMEOUT_SECS
        }
    }
}

/// The time between two readings of a monotonic clock, in nanoseconds; a
/// reading earlier than the first counts as no time.
pub open spec fn idle_nanos(last: u64, now: u64) -> int {
    if now >= last { now - last } else { 0 }
}

/// Whether a session idle from `last` to `now` has reached its timeout.
pub open spec fn idle_expired(last: u64, now: u64, timeout_secs: u64) -> bool {
    idle_nanos(last, now) >= timeout_secs * NANOS_PER_SEC
}

/// The unlocked session and its idle timer. Clock readings are nanoseconds
/// of a monotonic clock.
pub struct SessionState {
    pub session: Option<SessionKey>,
    pub last_activity: u64,
    pub lock_timeout_secs: u64,
}

impl SessionState {
    /// A locked session whose timer starts at `now`, with the stored idle
    /// timeout (the default when it cannot be read).
    pub fn new(db: &Database, now: u64) -> (r: SessionState)
        requires
            db.wf(),
        ensures
            r.session is None,
            r.last_activity == now,
            r.lock_timeout_secs == stored_lock_timeout(db.meta@.values),
    {
        let secs = match db.meta.get_lock_timeout_secs() {
            Ok(n) => n,
            Err(_) => DEFAULT_LOCK_TIMEOUT_SECS,
        };
        proof {
            if db.meta@.values.contains_key(KEY_LOCK_TIMEOUT@) {
                let bytes = db.meta@.values[KEY_LOCK_TIMEOUT@];
                if valid_utf8(bytes) && parse_u64_spec(decode_utf8(bytes)) is Ok {
                    assert(parse_u64_spec(decode_utf8(bytes)) == Ok::<int, ParseIntError>(secs as int));
                }
            }
        }
        SessionState { session: None, last_activity: now, lock_timeout_secs: secs }
    }

    /// Notes user activity at `now`.
    pub fn touch_activity(&mut self, now: u64)
        ensures
            final(self).session == old(self).session,
            final(self).lock_timeout_secs == old(self).lock_timeout_secs,
            final(self).last_activity == now,
    {
        self.last_activity = now;
    }

    pub fn is_unlocked(&self) -> (r: bool)
        ensures
            r == self.session is Some,
    {
        self.session.is_some()
    }

    /// Forgets the session key.
    pub fn lock(&mut self)
        ensures
            final(self).session is None,
            final(self).last_activity == old(self).last_activity,
            final(self).lock_timeout_secs == old(self).lock_timeout_secs,
    {
        self.session = None;
    }

    /// Opens a session with the key, its timer starting at `now`.
    pub fn start_session(&mut self, key: SessionKey, now: u64)
        ensures
            final(self).session == Some(key),
            final(self).last_activity == now,
            final(self).lock_timeout_secs == old(self).lock_timeout_secs,
    {
        self.session = Some(key);
        self.last_activity = now;
    }

    /// Locks an unlocked session that has been idle for its whole timeout
    /// at `now`, and reports it as locked; otherwise changes nothing.
    pub fn check_idle_lock(&mut self, now: u64) -> (r: DomainResult<()>)
        ensures
            final(self).last_activity == old(self).last_activity,
            final(self).lock_timeout_secs == old(self).lock_timeout_secs,
            if old(self).session is Some && idle_expired(old(self).last_activity, now, old(self).lock_timeout_secs) {
                r matches Err(e) && e is Locked && final(self).session is None
            } else {
                r is Ok && final(self).session == old(self).session
            },
    {
        if self.session.is_none() {
            return Ok(());
        }
        let elapsed: u64 = if now >= self.last_activity { now - self.last_activity } else { 0 };
        let secs: u128 = self.lock_timeout_secs as u128;
        assert(secs * 1_000_000_000 <= 0xffff_ffff_ffff_ffff * 1_000_000_000) by (nonlinear_arith)
            requires
                secs <= 0xffff_ffff_ffff_ffff,
        ;
        let timeout: u128 = secs * (NANOS_PER_SEC as u128);
        if (elapsed as u128) >= timeout {
            self.lock();
            return Err(DomainError::Locked);
        }
        Ok(())
    }

    /// The session key for an operation at `now`: the idle check runs
    /// first, a locked session is refused, and the activity is noted.
    pub fn unlocked_key(&mut self, now: u64) -> (r: DomainResult<SessionKey>)
        ensures
            final(self).lock_timeout_secs == old(self).lock_timeout_secs,
            match old(self).session {
                None => r matches Err(e) && e is Locked && *final(self) == *old(self),
                Some(k) => if idle_expired(old(self).last_activity, now, old(self).lock_timeout_secs) {
                    r matches Err(e) && e is Locked && final(self).session is None
                        && final(self).last_activity == old(self).last_activity
                } else {
                    r == Ok::<SessionKey, DomainError>(k) && final(self).session == Some(k) && final(self).last_activity == now
                },
            },
    {
        match self.check_idle_lock(now) {
            Ok(()) => {},
            Err(e) => {
                return Err(e);
            },
        }
        let key = match self.session {
            Some(k) => k,
            None => {
                return Err(DomainError::Locked);
            },
        };
        self.touch_activity(now);
        Ok(key)
    }

    /// Whether the journal is set up and the session unlocked, after the
    /// idle check at `now`.
    pub fn auth_status(&mut self, db: &Database, now: u64) -> (r: AuthStatusResponse)
        requires
            db.wf(),
        ensures
            r.initialized == db.meta@.values.contains_key(KEY_PASSWORD_HASH@),
            r.unlocked == (old(self).session is Some && !idle_expired(old(self).last_activity, now, old(self).lock_timeout_secs)),
            final(self).session == (if r.unlocked { old(self).session } else { None }),
    {
        let _ = self.check_idle_lock(now);
        let initialized = db.meta.is_initialized();
        AuthStatusResponse { initialized, unlocked: self.is_unlocked() }
    }

    /// Keeps an unlocked session alive at `now`; a session idle for its
    /// whole timeout is locked and refused with the user message.
    pub fn touch_session(&mut self, now: u64) -> (r: Result<(), String>)
        ensures
            final(self).lock_timeout_secs == old(self).lock_timeout_secs,
            if old(self).session is Some && idle_expired(old(self).last_activity, now, old(self).lock_timeout_secs) {
                r matches Err(m) && m@ == user_message(DomainError::Locked) && final(self).session is None
            } else {
                r is Ok && final(self).session == old(self).session
                    && final(self).last_activity == (if old(self).session is Some { now } else { old(self).last_activity })
            },
    {
        match self.check_idle_lock(now) {
            Ok(()) => {},
            Err(e) => {
                return Err(e.to_user_message());
            },
        }
        if self.is_unlocked() {
            self.touch_activity(now);
        }
        Ok(())
    }

    /// Sets the idle timeout, stored and in force; less than a minute is
    /// refused.
    pub fn set_lock_timeout(&mut self, db: &mut Database, seconds: u64) -> (r: Result<(), String>)
        requires
            old(db).wf(),
        ensures
            final(db).wf(),
            final(db).notes == old(db).notes,
            final(self).session == old(self).session,
            final(self).last_activity == old(self).last_activity,
            if seconds < MIN_LOCK_TIMEOUT_SECS {
                r matches Err(m) && m@ == "Lock timeout must be at least 60 seconds."@
                    && final(db).meta == old(db).meta && final(self).lock_timeout_secs == old(self).lock_timeout_secs
            } else {
                r is Ok && final(self).lock_timeout_secs == seconds
                    && final(db).meta@.values == old(db).meta@.values.insert(KEY_LOCK_TIMEOUT@, vstd::utf8::encode_utf8(decimal_text(seconds as nat)))
                    && final(db).meta@.tombstones == old(db).meta@.tombstones
            },
    {
        if seconds < MIN_LOCK_TIMEOUT_SECS {
            return Err("Lock timeout must be at least 60 seconds.".to_string());
        }
        db.meta.set_lock_timeout_secs(seconds);
        self.lock_timeout_secs = seconds;
        Ok(())
    }
}

/// Activity keeps a session alive: a session last active at `last` is not
/// locked by an idle check at any later time before `last` plus its timeout.
pub proof fn lemma_activity_keeps_session(last: u64, now: u64, timeout_secs: u64)
    requires
        last <= now < last + timeout_secs * NANOS_PER_SEC,
    ensures
        !idle_expired(last, now, timeout_secs),
{
}

/// A stored timeout is read back: the timeout that `set_lock_timeout`
/// stores is the one a new session starts with.
pub proof fn lemma_set_timeout_survives_restart(values: Map<Seq<char>, Seq<u8>>, seconds: u64)
    ensures
        stored_lock_timeout(values.insert(KEY_LOCK_TIMEOUT@, vstd::utf8::encode_utf8(decimal_text(seconds as nat)))) == seconds,
{
    crate::meta::lemma_lock_timeout_roundtrip(seconds);
    crate::text::lemma_utf8_roundtrip(decimal_text(seconds as nat));
}

} // verus!
