use vstd::prelude::*;
use vstd::utf8::{decode_utf8, encode_utf8, valid_utf8};
use crate::errors::{DomainError, DomainResult, ErrorView};
use crate::text::{lemma_utf8_roundtrip, text_bytes, text_from_utf8};
use aes_gcm::aead::{Aead, KeyInit};
use argon2::password_hash::{PasswordHasher, PasswordVerifier};
use rand::RngCore;

verus! {

/// Length of the AES-GCM nonce that starts every encrypted field.
pub const NONCE_LEN: usize = 12;
/// Length of a derived key.
pub const KEY_LEN: usize = 32;
/// Length of a key-derivation salt.
pub const SALT_LEN: usize = 32;
/// Argon2id cost parameters: memory in KiB, passes, lanes.
pub const ARGON2_M_COST: u32 = 65536;
pub const ARGON2_T_COST: u32 = 3;
pub const ARGON2_P_COST: u32 = 1;

/// Whether the three numbers are Argon2 cost parameters that `argon2`
/// accepts.
pub open spec fn argon2_params_valid(m_cost: u32, t_cost: u32, p_cost: u32) -> bool {
    &&& 1 <= p_cost <= 0xFFFFFF
    &&& m_cost >= 8 * p_cost
    &&& t_cost >= 1
}

/// The 32 bytes that Argon2id (version 0x13) computes for a password and a
/// salt with the given costs.
pub uninterp spec fn argon2id_key(password: Seq<u8>, salt: Seq<u8>, m_cost: u32, t_cost: u32, p_cost: u32) -> Seq<u8>;

/// Whether a text is a PHC password-hash string that `PasswordHash::new` reads.
pub uninterp spec fn phc_parses(phc: Seq<char>) -> bool;

/// Whether `Argon2::default().verify_password` accepts a password against a
/// PHC string (hashing it with the parameters and salt that the string holds).
pub uninterp spec fn phc_verifies(password: Seq<u8>, phc: Seq<char>) -> bool;

/// The ciphertext and tag that AES-256-GCM (no associated data) computes.
pub uninterp spec fn aes_gcm_seal(key: Seq<u8>, nonce: Seq<u8>, plaintext: Seq<u8>) -> Seq<u8>;

/// What AES-256-GCM decryption gives: the plaintext, or `None` when the tag
/// does not authenticate.
pub uninterp spec fn aes_gcm_open(key: Seq<u8>, nonce: Seq<u8>, ciphertext: Seq<u8>) -> Option<Seq<u8>>;

/// The message of the error that Argon2 reports for inputs it refuses: the
/// password is checked first, then the salt.
pub open spec fn argon2_input_error(password: Seq<u8>, salt: Seq<u8>) -> Seq<char> {
    if password.len() > 0xFFFF_FFFF {
        "password is too long"@
    } else if salt.len() < 8 {
        "salt is too short"@
    } else {
        "salt is too long"@
    }
}

/// `Argon2::hash_password_into` with Argon2id, version 0x13 and the given
/// costs (`Params::new`). It fails exactly when the salt has fewer than 8 or
/// more than 2^32 - 1 bytes or the password more than 2^32 - 1 bytes; the
/// error is the crate's message.
#[verifier::external_body]
fn argon2id_derive(password: &[u8], salt: &[u8], m_cost: u32, t_cost: u32, p_cost: u32) -> (r: Result<[u8; 32], String>)
    requires
        argon2_params_valid(m_cost, t_cost, p_cost),
    ensures
        r is Ok <==> (8 <= salt@.len() <= 0xFFFF_FFFF && password@.len() <= 0xFFFF_FFFF),
        r matches Ok(k) ==> k@ == argon2id_key(password@, salt@, m_cost, t_cost, p_cost),
        r matches Err(m) ==> m@ == argon2_input_error(password@, salt@),
{
    let params = argon2::Params::new(m_cost, t_cost, p_cost, Some(32)).map_err(|e| e.to_string())?;
    let argon = argon2::Argon2::new(argon2::Algorithm::Argon2id, argon2::Version::V0x13, params);
    let mut key = [0u8; 32];
    argon.hash_password_into(password, salt, &mut key).map_err(|e| e.to_string())?;
    Ok(key)
}

/// `PasswordHasher::hash_password` of Argon2id (version 0x13, the given
/// costs) with a fresh random `SaltString`, written as a PHC string. The
/// string reads back and accepts the password. Which salt it holds is left
/// open.
#[verifier::external_body]
fn argon2id_phc(password: &[u8], m_cost: u32, t_cost: u32, p_cost: u32) -> (r: Result<String, String>)
    requires
        argon2_params_valid(m_cost, t_cost, p_cost),
    ensures
        r is Ok <==> password@.len() <= 0xFFFF_FFFF,
        r matches Ok(h) ==> phc_parses(h@) && phc_verifies(password@, h@),
{
    let params = argon2::Params::new(m_cost, t_cost, p_cost, Some(32)).map_err(|e| e.to_string())?;
    let argon = argon2::Argon2::new(argon2::Algorithm::Argon2id, argon2::Version::V0x13, params);
    let salt = argon2::password_hash::SaltString::generate(&mut rand::thread_rng());
    match argon.hash_password(password, &salt) {
        Ok(h) => Ok(h.to_string()),
        Err(e) => Err(e.to_string()),
    }
}

/// `PasswordHash::new` followed by `Argon2::default().verify_password`:
/// the parse error's message when the text is not a PHC string, else
/// whether it accepts the password.
#[verifier::external_body]
fn argon2_check(password: &[u8], phc: &str) -> (r: Result<bool, String>)
    ensures
        r is Ok <==> phc_parses(phc@),
        r matches Ok(b) ==> b == phc_verifies(password@, phc@),
{
    match argon2::password_hash::PasswordHash::new(phc) {
        Ok(parsed) => Ok(argon2::Argon2::default().verify_password(password, &parsed).is_ok()),
        Err(e) => Err(e.to_string()),
    }
}

/// `Aead::encrypt` of `Aes256Gcm` keyed with `key`: the ciphertext with the
/// 16-byte tag appended. It fails when the plaintext is longer than 2^36
/// bytes. Decrypting the result with the same key and nonce gives the
/// plaintext back.
#[verifier::external_body]
fn aes_gcm_encrypt(key: &[u8; 32], nonce: &[u8], plaintext: &[u8]) -> (r: Result<Vec<u8>, String>)
    requires
        nonce@.len() == 12,
    ensures
        r is Ok <==> plaintext@.len() <= 0x10_0000_0000,
        r matches Ok(c) ==> {
            &&& c@ == aes_gcm_seal(key@, nonce@, plaintext@)
            &&& c@.len() == plaintext@.len() + 16
            &&& aes_gcm_open(key@, nonce@, c@) == Some(plaintext@)
        },
{
    let cipher = aes_gcm::Aes256Gcm::new_from_slice(key).map_err(|e| e.to_string())?;
    cipher.encrypt(aes_gcm::Nonce::from_slice(nonce), plaintext).map_err(|e| e.to_string())
}

/// `Aead::decrypt` of `Aes256Gcm` keyed with `key`: the plaintext when the
/// tag authenticates the ciphertext.
#[verifier::external_body]
fn aes_gcm_decrypt(key: &[u8; 32], nonce: &[u8], ciphertext: &[u8]) -> (r: Result<Vec<u8>, String>)
    requires
        nonce@.len() == 12,
    ensures
        match r {
            Ok(p) => aes_gcm_open(key@, nonce@, ciphertext@) == Some(p@),
            Err(_) => aes_gcm_open(key@, nonce@, ciphertext@) is None,
        },
{
    let cipher = aes_gcm::Aes256Gcm::new_from_slice(key).map_err(|e| e.to_string())?;
    cipher.decrypt(aes_gcm::Nonce::from_slice(nonce), ciphertext).map_err(|e| e.to_string())
}

/// `RngCore::fill_bytes` of `rand::thread_rng()`: overwrites the bytes with
/// random ones. Nothing is said of the values.
#[verifier::external_body]
fn fill_random(buf: &mut Vec<u8>)
    ensures
        final(buf)@.len() == old(buf)@.len(),
{
    rand::thread_rng().fill_bytes(buf.as_mut_slice());
}

/// `n` random bytes.
pub fn random_bytes(n: usize) -> (r: Vec<u8>)
    ensures
        r@.len() == n,
{
    let mut v = vec![0u8; n];
    fill_random(&mut v);
    v
}

/// Key derivation, password hashing and field encryption, as the journal
/// uses them.
pub trait CryptoProvider {
    /// The key that `derive_key` gives for a password and a salt, `None`
    /// when it fails.
    spec fn derived_key(&self, password: Seq<char>, salt: Seq<u8>) -> Option<Seq<u8>>;

    /// Whether a stored password hash accepts a password; `None` when the
    /// bytes are not a hash that can be read.
    spec fn hash_accepts(&self, password: Seq<char>, hash: Seq<u8>) -> Option<bool>;

    /// The text that decrypting `blob` with `key` gives, `None` when it fails.
    spec fn opened(&self, blob: Seq<u8>, key: Seq<u8>) -> Option<Seq<char>>;

    /// Whether encrypting the text under the key succeeds.
    spec fn seals(&self, plaintext: Seq<char>, key: Seq<u8>) -> bool;

    /// Whether hashing the password with the salt succeeds.
    spec fn hashes(&self, password: Seq<char>, salt: Seq<u8>) -> bool;

    /// A 32-byte key derived from the password and the salt.
    fn derive_key(&self, password: &str, salt: &[u8]) -> (r: DomainResult<[u8; 32]>)
        ensures
            match r {
                Ok(k) => self.derived_key(password@, salt@) == Some(k@),
                Err(e) => self.derived_key(password@, salt@) is None && e is Crypto,
            };

    /// A hash of the password that accepts it.
    fn hash_password(&self, password: &str, salt: &[u8]) -> (r: DomainResult<Vec<u8>>)
        ensures
            match r {
                Ok(h) => self.hash_accepts(password@, h@) == Some(true),
                Err(e) => e is Crypto && !self.hashes(password@, salt@),
            };

    /// Whether the stored hash accepts the password.
    fn verify_password(&self, password: &str, hash: &[u8], salt: &[u8]) -> (r: DomainResult<bool>)
        ensures
            match r {
                Ok(b) => self.hash_accepts(password@, hash@) == Some(b),
                Err(e) => self.hash_accepts(password@, hash@) is None && e is Crypto,
            };

    /// The text encrypted under the key; decrypting the result gives it back.
    fn encrypt(&self, plaintext: &str, key: &[u8; 32]) -> (r: DomainResult<Vec<u8>>)
        ensures
            match r {
                Ok(blob) => self.opened(blob@, key@) == Some(plaintext@) && self.seals(plaintext@, key@),
                Err(e) => e is Crypto && !self.seals(plaintext@, key@),
            };

    /// The text that the blob holds under the key.
    fn decrypt(&self, blob: &[u8], key: &[u8; 32]) -> (r: DomainResult<String>)
        ensures
            match r {
                Ok(s) => self.opened(blob@, key@) == Some(s@),
                Err(e) => self.opened(blob@, key@) is None && e is Crypto,
            };
}

/// Argon2id key derivation and password hashing, AES-256-GCM field
/// encryption with a random nonce stored in front of each ciphertext.
#[derive(Clone, Copy)]
pub struct AesGcmCryptoProvider;

impl Default for AesGcmCryptoProvider {
    fn default() -> (r: Self)
        ensures
            r == (AesGcmCryptoProvider {}),
    {
        AesGcmCryptoProvider
    }
}

impl AesGcmCryptoProvider {
    pub fn new() -> (r: Self)
        ensures
            r == (AesGcmCryptoProvider {}),
    {
        AesGcmCryptoProvider
    }

    /// A fresh random key-derivation salt.
    pub fn generate_salt() -> (r: Vec<u8>)
        ensures
            r@.len() == SALT_LEN,
    {
        random_bytes(SALT_LEN)
    }
}

/// Providers carry no state: two of them derive the same keys (and fail with
/// the same message), accept the same hashes and open the same ciphertexts,
/// so services built on separate instances agree.
pub proof fn lemma_providers_agree(a: AesGcmCryptoProvider, b: AesGcmCryptoProvider, password: Seq<char>, salt: Seq<u8>, blob: Seq<u8>, hash: Seq<u8>, key: Seq<u8>)
    ensures
        a == b,
        a.derived_key(password, salt) == b.derived_key(password, salt),
        a.hash_accepts(password, hash) == b.hash_accepts(password, hash),
        a.opened(blob, key) == b.opened(blob, key),
{
}

/// What decrypting a stored field gives: its first 12 bytes are the nonce,
/// the rest the AES-GCM ciphertext, and the plaintext must be UTF-8.
pub open spec fn open_field(blob: Seq<u8>, key: Seq<u8>) -> Option<Seq<char>> {
    if blob.len() < NONCE_LEN {
        None
    } else {
        match aes_gcm_open(key, blob.take(NONCE_LEN as int), blob.skip(NONCE_LEN as int)) {
            Some(p) => if valid_utf8(p) { Some(decode_utf8(p)) } else { None },
            None => None,
        }
    }
}

impl CryptoProvider for AesGcmCryptoProvider {
    open spec fn derived_key(&self, password: Seq<char>, salt: Seq<u8>) -> Option<Seq<u8>> {
        let pw = encode_utf8(password);
        if 8 <= salt.len() <= 0xFFFF_FFFF && pw.len() <= 0xFFFF_FFFF {
            Some(argon2id_key(pw, salt, ARGON2_M_COST, ARGON2_T_COST, ARGON2_P_COST))
        } else {
            None
        }
    }

    open spec fn hash_accepts(&self, password: Seq<char>, hash: Seq<u8>) -> Option<bool> {
        if valid_utf8(hash) && phc_parses(decode_utf8(hash)) {
            Some(phc_verifies(encode_utf8(password), decode_utf8(hash)))
        } else {
            None
        }
    }

    open spec fn opened(&self, blob: Seq<u8>, key: Seq<u8>) -> Option<Seq<char>> {
        open_field(blob, key)
    }

    /// AES-GCM takes plaintexts of at most 2^36 bytes.
    open spec fn seals(&self, plaintext: Seq<char>, key: Seq<u8>) -> bool {
        encode_utf8(plaintext).len() <= 0x10_0000_0000
    }

    /// Argon2 takes passwords of at most 2^32 - 1 bytes; the salt of the hash
    /// is drawn afresh.
    open spec fn hashes(&self, password: Seq<char>, salt: Seq<u8>) -> bool {
        encode_utf8(password).len() <= 0xFFFF_FFFF
    }

    fn derive_key(&self, password: &str, salt: &[u8]) -> (r: DomainResult<[u8; 32]>)
        ensures
            r matches Err(e) ==> e@ == ErrorView::Crypto(argon2_input_error(encode_utf8(password@), salt@)),
    {
        let pw = text_bytes(password);
        match argon2id_derive(pw.as_slice(), salt, ARGON2_M_COST, ARGON2_T_COST, ARGON2_P_COST) {
            Ok(k) => Ok(k),
            Err(msg) => Err(DomainError::Crypto(msg)),
        }
    }

    fn hash_password(&self, password: &str, salt: &[u8]) -> (r: DomainResult<Vec<u8>>) {
        let pw = text_bytes(password);
        match argon2id_phc(pw.as_slice(), ARGON2_M_COST, ARGON2_T_COST, ARGON2_P_COST) {
            Ok(h) => {
                let bytes = text_bytes(h.as_str());
                proof {
                    lemma_utf8_roundtrip(h@);
                }
                Ok(bytes)
            },
            Err(msg) => Err(DomainError::Crypto(msg)),
        }
    }

    fn verify_password(&self, password: &str, hash: &[u8], salt: &[u8]) -> (r: DomainResult<bool>) {
        let text = match text_from_utf8(vstd::slice::slice_to_vec(hash)) {
            Ok(t) => t,
            Err(msg) => { return Err(DomainError::Crypto(msg)); },
        };
        let pw = text_bytes(password);
        match argon2_check(pw.as_slice(), text.as_str()) {
            Ok(b) => Ok(b),
            Err(msg) => Err(DomainError::Crypto(msg)),
        }
    }

    fn encrypt(&self, plaintext: &str, key: &[u8; 32]) -> (r: DomainResult<Vec<u8>>) {
        let nonce = random_bytes(NONCE_LEN);
        let pt = text_bytes(plaintext);
        let ct = match aes_gcm_encrypt(key, nonce.as_slice(), pt.as_slice()) {
            Ok(c) => c,
            Err(msg) => { return Err(DomainError::Crypto(msg)); },
        };
        let mut output = nonce.clone();
        output.extend_from_slice(ct.as_slice());
        proof {
            assert(output@.take(NONCE_LEN as int) =~= nonce@);
            assert(output@.skip(NONCE_LEN as int) =~= ct@);
            lemma_utf8_roundtrip(plaintext@);
        }
        Ok(output)
    }

    fn decrypt(&self, blob: &[u8], key: &[u8; 32]) -> (r: DomainResult<String>)
        ensures
            blob@.len() < NONCE_LEN ==> (r matches Err(e) && e@ == ErrorView::Crypto("Ciphertext too short"@)),
    {
        if blob.len() < NONCE_LEN {
            return Err(DomainError::Crypto("Ciphertext too short".to_string()));
        }
        let (nonce, ciphertext) = blob.split_at(NONCE_LEN);
        let plain = match aes_gcm_decrypt(key, nonce, ciphertext) {
            Ok(p) => p,
            Err(msg) => { return Err(DomainError::Crypto(msg)); },
        };
        match text_from_utf8(plain) {
            Ok(s) => Ok(s),
            Err(msg) => Err(DomainError::Crypto(msg)),
        }
    }
}

} // verus!
