use vstd::prelude::*;
use vstd::utf8::encode_utf8;
use crate::crypto::{AesGcmCryptoProvider, CryptoProvider};
use crate::errors::{DomainError, DomainResult};
use crate::meta::{KEY_PASSWORD_HASH, KEY_SALT};
use crate::entities::RecordView;
use crate::note_service::{NoteService, all_decode, all_reseal, reencrypted};
use crate::store::Database;

verus! {

/// The key that unlocks the journal for the current session.
#[derive(Clone, Copy)]
pub struct SessionKey(pub [u8; 32]);

/// Shortest master password, in UTF-8 bytes.
pub const MIN_PASSWORD_LEN: usize = 8;

/// What unlocking with a password gives.
pub enum UnlockOutcome {
    NotInitialized,
    CryptoFailure,
    WrongPassword,
    Key(Seq<u8>),
}

/// What unlocking gives for a metadata table: the password hash must be
/// there and accept the password, and the key is derived from the password
/// and the stored salt.
pub open spec fn unlock_outcome<C: CryptoProvider>(c: C, values: Map<Seq<char>, Seq<u8>>, password: Seq<char>) -> UnlockOutcome {
    if !values.contains_key(KEY_PASSWORD_HASH@) || !values.contains_key(KEY_SALT@) {
        UnlockOutcome::NotInitialized
    } else {
        match c.hash_accepts(password, values[KEY_PASSWORD_HASH@]) {
            None => UnlockOutcome::CryptoFailure,
            Some(false) => UnlockOutcome::WrongPassword,
            Some(true) => match c.derived_key(password, values[KEY_SALT@]) {
                None => UnlockOutcome::CryptoFailure,
                Some(k) => UnlockOutcome::Key(k),
            },
        }
    }
}

/// The result of unlocking, as `unlock_outcome` describes it.
pub open spec fn unlock_matches(o: UnlockOutcome, r: DomainResult<SessionKey>) -> bool {
    match o {
        UnlockOutcome::NotInitialized => r matches Err(e) && e is NotInitialized,
        UnlockOutcome::CryptoFailure => r matches Err(e) && e is Crypto,
        UnlockOutcome::WrongPassword => r matches Err(e) && e is InvalidPassword,
        UnlockOutcome::Key(k) => r matches Ok(s) && s.0@ == k,
    }
}

/// Whether changing to `password` with `salt` gets through the crypto steps:
/// the new password hashes, a key derives from it, and every stored note
/// decrypts under the old key and encrypts again under the new one.
pub open spec fn change_succeeds<C: CryptoProvider>(c: C, notes: Seq<RecordView>, old_key: Seq<u8>, password: Seq<char>, salt: Seq<u8>) -> bool {
    &&& c.hashes(password, salt)
    &&& c.derived_key(password, salt) matches Some(k) && all_reseal(c, notes, old_key, k)
    &&& all_decode(c, notes, old_key)
}

/// Whether setting up `password` with `salt` gets through the crypto steps:
/// the password hashes and a key derives from it.
pub open spec fn setup_succeeds<C: CryptoProvider>(c: C, password: Seq<char>, salt: Seq<u8>) -> bool {
    &&& c.hashes(password, salt)
    &&& c.derived_key(password, salt) is Some
}

/// The message for a password that is too short.
pub open spec fn short_password_message() -> Seq<char> {
    "Password must be at least 8 characters."@
}

/// The keys of the metadata table differ.
pub proof fn lemma_meta_keys_distinct()
    ensures
        KEY_SALT@ != KEY_PASSWORD_HASH@,
{
    reveal_strlit("salt");
    reveal_strlit("password_hash");
    assert(KEY_SALT@.len() != KEY_PASSWORD_HASH@.len());
}

/// Sets up, unlocks and changes the master password.
pub struct AuthService<C: CryptoProvider> {
    pub crypto: C,
}

impl AuthService<AesGcmCryptoProvider> {
    /// The service with Argon2id and AES-256-GCM.
    pub fn with_default_crypto() -> (r: Self)
        ensures
            r.crypto == (AesGcmCryptoProvider {}),
    {
        AuthService { crypto: AesGcmCryptoProvider::new() }
    }
}

impl<C: CryptoProvider> AuthService<C> {
    pub fn new(crypto: C) -> (r: Self)
        ensures
            r.crypto == crypto,
    {
        AuthService { crypto }
    }

    /// Whether a master password has been set up.
    pub fn is_initialized(&self, db: &Database) -> (r: DomainResult<bool>)
        requires
            db.wf(),
        ensures
            r == Ok::<bool, DomainError>(db.meta@.values.contains_key(KEY_PASSWORD_HASH@)),
    {
        Ok(db.meta.is_initialized())
    }

    /// Sets up the master password with the given key-derivation salt:
    /// stores the salt and a hash of the password and gives the derived key.
    pub fn setup_master_password_with(&self, db: &mut Database, password: &str, kdf_salt: Vec<u8>) -> (r: DomainResult<SessionKey>)
        requires
            old(db).wf(),
        ensures
            final(db).wf(),
            final(db).notes == old(db).notes,
            final(db).meta@.tombstones == old(db).meta@.tombstones,
            encode_utf8(password@).len() < MIN_PASSWORD_LEN ==> (r matches Err(DomainError::Validation(m))
                && m@ == short_password_message() && final(db).meta@ == old(db).meta@),
            encode_utf8(password@).len() >= MIN_PASSWORD_LEN && old(db).meta@.values.contains_key(KEY_PASSWORD_HASH@)
                ==> (r matches Err(e) && e is AlreadyInitialized && final(db).meta@ == old(db).meta@),
            encode_utf8(password@).len() >= MIN_PASSWORD_LEN && !old(db).meta@.values.contains_key(KEY_PASSWORD_HASH@)
                && self.crypto.derived_key(password@, kdf_salt@) is None ==> (r matches Err(e) && e is Crypto),
            encode_utf8(password@).len() >= MIN_PASSWORD_LEN && !old(db).meta@.values.contains_key(KEY_PASSWORD_HASH@)
                && setup_succeeds(self.crypto, password@, kdf_salt@) ==> r is Ok,
            r matches Err(e) && e is Crypto ==> !setup_succeeds(self.crypto, password@, kdf_salt@),
            match r {
                Ok(key) => exists|h: Seq<u8>| {
                    &&& #[trigger] self.crypto.hash_accepts(password@, h) == Some(true)
                    &&& final(db).meta@.values == old(db).meta@.values.insert(KEY_SALT@, kdf_salt@).insert(KEY_PASSWORD_HASH@, h)
                    &&& self.crypto.derived_key(password@, kdf_salt@) == Some(key.0@)
                },
                Err(e) => final(db).meta@ == old(db).meta@ && (e is Validation || e is AlreadyInitialized || e is Crypto),
            },
    {
        if password.as_bytes().len() < MIN_PASSWORD_LEN {
            return Err(DomainError::Validation("Password must be at least 8 characters.".to_string()));
        }
        if db.meta.is_initialized() {
            return Err(DomainError::AlreadyInitialized);
        }
        let password_hash = self.crypto.hash_password(password, kdf_salt.as_slice())?;
        let key = self.crypto.derive_key(password, kdf_salt.as_slice())?;
        db.meta.set(KEY_SALT, kdf_salt.as_slice());
        db.meta.set(KEY_PASSWORD_HASH, password_hash.as_slice());
        proof {
            assert(self.crypto.hash_accepts(password@, password_hash@) == Some(true));
        }
        Ok(SessionKey(key))
    }

    /// Sets up the master password with a fresh random salt.
    pub fn setup_master_password(&self, db: &mut Database, password: &str) -> (r: DomainResult<SessionKey>)
        requires
            old(db).wf(),
        ensures
            final(db).wf(),
            final(db).notes == old(db).notes,
            final(db).meta@.tombstones == old(db).meta@.tombstones,
            encode_utf8(password@).len() < MIN_PASSWORD_LEN ==> (r matches Err(DomainError::Validation(m))
                && m@ == short_password_message() && final(db).meta@ == old(db).meta@),
            encode_utf8(password@).len() >= MIN_PASSWORD_LEN && old(db).meta@.values.contains_key(KEY_PASSWORD_HASH@)
                ==> (r matches Err(e) && e is AlreadyInitialized && final(db).meta@ == old(db).meta@),
            match r {
                Ok(key) => exists|salt: Seq<u8>, h: Seq<u8>| #![trigger self.crypto.hash_accepts(password@, h), self.crypto.derived_key(password@, salt)] {
                    &&& salt.len() == crate::crypto::SALT_LEN
                    &&& self.crypto.hash_accepts(password@, h) == Some(true)
                    &&& final(db).meta@.values == old(db).meta@.values.insert(KEY_SALT@, salt).insert(KEY_PASSWORD_HASH@, h)
                    &&& self.crypto.derived_key(password@, salt) == Some(key.0@)
                },
                Err(e) => final(db).meta@ == old(db).meta@ && (e is Validation || e is AlreadyInitialized || e is Crypto),
            },
            r matches Err(e) && e is Crypto ==> exists|salt: Seq<u8>| salt.len() == crate::crypto::SALT_LEN
                && !#[trigger] setup_succeeds(self.crypto, password@, salt),
    {
        let salt = AesGcmCryptoProvider::generate_salt();
        let ghost sv = salt@;
        let r = self.setup_master_password_with(db, password, salt);
        proof {
            if r is Err && r->Err_0 is Crypto {
                assert(!setup_succeeds(self.crypto, password@, sv));
            }
            if r is Ok {
                let h = choose|h: Seq<u8>| #[trigger] self.crypto.hash_accepts(password@, h) == Some(true)
                    && db.meta@.values == old(db).meta@.values.insert(KEY_SALT@, sv).insert(KEY_PASSWORD_HASH@, h)
                    && self.crypto.derived_key(password@, sv) == Some(r->Ok_0.0@);
                assert(self.crypto.hash_accepts(password@, h) == Some(true));
                assert(self.crypto.derived_key(password@, sv) == Some(r->Ok_0.0@));
            }
        }
        r
    }

    /// Unlocks the journal: checks the password against the stored hash and
    /// derives the session key from it and the stored salt.
    pub fn unlock(&self, db: &Database, password: &str) -> (r: DomainResult<SessionKey>)
        requires
            db.wf(),
        ensures
            unlock_matches(unlock_outcome(self.crypto, db.meta@.values, password@), r),
    {
        if !db.meta.is_initialized() {
            return Err(DomainError::NotInitialized);
        }
        let kdf_salt = match db.meta.get(KEY_SALT) {
            Some(s) => s,
            None => { return Err(DomainError::NotInitialized); },
        };
        let password_hash = match db.meta.get(KEY_PASSWORD_HASH) {
            Some(h) => h,
            None => { return Err(DomainError::NotInitialized); },
        };
        if !self.crypto.verify_password(password, password_hash.as_slice(), kdf_salt.as_slice())? {
            return Err(DomainError::InvalidPassword);
        }
        let key = self.crypto.derive_key(password, kdf_salt.as_slice())?;
        Ok(SessionKey(key))
    }

    /// Changes the master password with the given new salt: checks the
    /// current password, re-encrypts every note under the new key, then
    /// stores the new salt and hash. On any failure nothing changes.
    pub fn change_password_with(
        &self,
        db: &mut Database,
        note_service: &NoteService<C>,
        old_password: &str,
        new_password: &str,
        new_kdf_salt: Vec<u8>,
    ) -> (r: DomainResult<SessionKey>)
        requires
            old(db).wf(),
            note_service.crypto == self.crypto,
        ensures
            final(db).wf(),
            final(db).meta@.tombstones == old(db).meta@.tombstones,
            encode_utf8(new_password@).len() < MIN_PASSWORD_LEN ==> (r matches Err(DomainError::Validation(m)) && m@ == short_password_message()),
            encode_utf8(new_password@).len() >= MIN_PASSWORD_LEN && old_password@ == new_password@ ==> (r matches Err(DomainError::Validation(m))
                && m@ == "New password must be different from the current password."@),
            encode_utf8(new_password@).len() >= MIN_PASSWORD_LEN && old_password@ != new_password@ ==> match unlock_outcome(self.crypto, old(db).meta@.values, old_password@) {
                UnlockOutcome::NotInitialized => r matches Err(e) && e is NotInitialized,
                UnlockOutcome::CryptoFailure => r matches Err(e) && e is Crypto,
                UnlockOutcome::WrongPassword => r matches Err(e) && e is InvalidPassword,
                UnlockOutcome::Key(old_key) => match r {
                    Ok(key) => exists|h: Seq<u8>| {
                        &&& #[trigger] self.crypto.hash_accepts(new_password@, h) == Some(true)
                        &&& self.crypto.derived_key(new_password@, new_kdf_salt@) == Some(key.0@)
                        &&& final(db).meta@.values == old(db).meta@.values.insert(KEY_SALT@, new_kdf_salt@).insert(KEY_PASSWORD_HASH@, h)
                        &&& reencrypted(self.crypto, old(db).notes@, final(db).notes@, old_key, key.0@)
                    },
                    Err(e) => e is Crypto && !change_succeeds(self.crypto, old(db).notes@, old_key, new_password@, new_kdf_salt@),
                },
            },
            r is Err ==> final(db).notes@ == old(db).notes@ && final(db).meta@ == old(db).meta@,
    {
        if new_password.as_bytes().len() < MIN_PASSWORD_LEN {
            return Err(DomainError::Validation("Password must be at least 8 characters.".to_string()));
        }
        let same = old_password.to_string() == new_password.to_string();
        if same {
            return Err(DomainError::Validation("New password must be different from the current password.".to_string()));
        }
        if !db.meta.is_initialized() {
            return Err(DomainError::NotInitialized);
        }
        let old_kdf_salt = match db.meta.get(KEY_SALT) {
            Some(s) => s,
            None => { return Err(DomainError::NotInitialized); },
        };
        let password_hash = match db.meta.get(KEY_PASSWORD_HASH) {
            Some(h) => h,
            None => { return Err(DomainError::NotInitialized); },
        };
        if !self.crypto.verify_password(old_password, password_hash.as_slice(), old_kdf_salt.as_slice())? {
            return Err(DomainError::InvalidPassword);
        }
        let old_key = self.crypto.derive_key(old_password, old_kdf_salt.as_slice())?;
        let new_password_hash = self.crypto.hash_password(new_password, new_kdf_salt.as_slice())?;
        let new_key = self.crypto.derive_key(new_password, new_kdf_salt.as_slice())?;
        note_service.reencrypt_all(db, &old_key, &new_key)?;
        db.meta.set(KEY_SALT, new_kdf_salt.as_slice());
        db.meta.set(KEY_PASSWORD_HASH, new_password_hash.as_slice());
        proof {
            assert(self.crypto.hash_accepts(new_password@, new_password_hash@) == Some(true));
        }
        Ok(SessionKey(new_key))
    }

    /// Changes the master password, with a fresh random salt.
    pub fn change_password(&self, db: &mut Database, note_service: &NoteService<C>, old_password: &str, new_password: &str) -> (r: DomainResult<SessionKey>)
        requires
            old(db).wf(),
            note_service.crypto == self.crypto,
        ensures
            final(db).wf(),
            final(db).meta@.tombstones == old(db).meta@.tombstones,
            encode_utf8(new_password@).len() < MIN_PASSWORD_LEN ==> (r matches Err(DomainError::Validation(m)) && m@ == short_password_message()),
            encode_utf8(new_password@).len() >= MIN_PASSWORD_LEN && old_password@ == new_password@ ==> (r matches Err(DomainError::Validation(m))
                && m@ == "New password must be different from the current password."@),
            encode_utf8(new_password@).len() >= MIN_PASSWORD_LEN && old_password@ != new_password@ ==> match unlock_outcome(self.crypto, old(db).meta@.values, old_password@) {
                UnlockOutcome::NotInitialized => r matches Err(e) && e is NotInitialized,
                UnlockOutcome::CryptoFailure => r matches Err(e) && e is Crypto,
                UnlockOutcome::WrongPassword => r matches Err(e) && e is InvalidPassword,
                UnlockOutcome::Key(old_key) => match r {
                    Ok(key) => exists|salt: Seq<u8>, h: Seq<u8>| #![trigger self.crypto.hash_accepts(new_password@, h), self.crypto.derived_key(new_password@, salt)] {
                        &&& salt.len() == crate::crypto::SALT_LEN
                        &&& self.crypto.hash_accepts(new_password@, h) == Some(true)
                        &&& self.crypto.derived_key(new_password@, salt) == Some(key.0@)
                        &&& final(db).meta@.values == old(db).meta@.values.insert(KEY_SALT@, salt).insert(KEY_PASSWORD_HASH@, h)
                        &&& reencrypted(self.crypto, old(db).notes@, final(db).notes@, old_key, key.0@)
                    },
                    Err(e) => e is Crypto && exists|salt: Seq<u8>| salt.len() == crate::crypto::SALT_LEN
                        && !#[trigger] change_succeeds(self.crypto, old(db).notes@, old_key, new_password@, salt),
                },
            },
            r is Err ==> final(db).notes@ == old(db).notes@ && final(db).meta@ == old(db).meta@,
    {
        let salt = AesGcmCryptoProvider::generate_salt();
        let ghost sv = salt@;
        let r = self.change_password_with(db, note_service, old_password, new_password, salt);
        proof {
            if r is Err && encode_utf8(new_password@).len() >= MIN_PASSWORD_LEN && old_password@ != new_password@ {
                if let UnlockOutcome::Key(old_key) = unlock_outcome(self.crypto, old(db).meta@.values, old_password@) {
                    assert(!change_succeeds(self.crypto, old(db).notes@, old_key, new_password@, sv));
                }
            }
            if r is Ok && encode_utf8(new_password@).len() >= MIN_PASSWORD_LEN && old_password@ != new_password@ {
                if let UnlockOutcome::Key(old_key) = unlock_outcome(self.crypto, old(db).meta@.values, old_password@) {
                    let h = choose|h: Seq<u8>| #[trigger] self.crypto.hash_accepts(new_password@, h) == Some(true)
                        && self.crypto.derived_key(new_password@, sv) == Some(r->Ok_0.0@)
                        && db.meta@.values == old(db).meta@.values.insert(KEY_SALT@, sv).insert(KEY_PASSWORD_HASH@, h)
                        && reencrypted(self.crypto, old(db).notes@, db.notes@, old_key, r->Ok_0.0@);
                    assert(self.crypto.hash_accepts(new_password@, h) == Some(true));
                    assert(self.crypto.derived_key(new_password@, sv) == Some(r->Ok_0.0@));
                }
            }
        }
        r
    }
}

/// Unlocking with the password that was just set up (or changed to) gives
/// the key that the setup (or change) handed out.
pub proof fn lemma_unlock_after_setup<C: CryptoProvider>(
    c: C,
    values: Map<Seq<char>, Seq<u8>>,
    password: Seq<char>,
    salt: Seq<u8>,
    h: Seq<u8>,
    key: Seq<u8>,
)
    requires
        c.hash_accepts(password, h) == Some(true),
        c.derived_key(password, salt) == Some(key),
    ensures
        unlock_outcome(c, values.insert(KEY_SALT@, salt).insert(KEY_PASSWORD_HASH@, h), password) == UnlockOutcome::Key(key),
{
    lemma_meta_keys_distinct();
    let v = values.insert(KEY_SALT@, salt).insert(KEY_PASSWORD_HASH@, h);
    assert(v[KEY_SALT@] == salt);
    assert(v[KEY_PASSWORD_HASH@] == h);
}

} // verus!
