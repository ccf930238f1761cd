//! Key derivation from a passphrase, and sealing and opening of single
//! password values with AES-256-GCM under a fresh random nonce.
use aes_gcm::aead::{Aead, KeyInit};
use aes_gcm::{Aes256Gcm, Nonce};
use rand::RngCore;
use sha2::{Digest, Sha256};
use vstd::prelude::*;
use vstd::utf8::{decode_utf8, encode_utf8, valid_utf8};

use crate::codec::{
    decode_payload, decoded, encode_payload, encrypted_shape, payload_chars, payload_text, NONCE_LEN,
};
use crate::text::{trim, trimmed};

verus! {

broadcast use vstd::utf8::group_utf8_lib;

/// Length in bytes of a key.
pub const KEY_LEN: usize = 32;

/// Length in bytes of the authentication tag that ends every ciphertext.
pub const TAG_LEN: usize = 16;

/// Longest plaintext, in bytes (2^36), that AES-GCM seals.
pub const MAX_PLAINTEXT: u64 = 68719476736;

/// The SHA-256 digest of `b`.
pub uninterp spec fn sha256_of(b: Seq<u8>) -> Seq<u8>;

/// What AES-256-GCM writes (ciphertext, then tag) for `plaintext` under
/// `key` and `nonce`, with no associated data.
pub uninterp spec fn aes_gcm_sealed(key: Seq<u8>, nonce: Seq<u8>, plaintext: Seq<u8>) -> Seq<u8>;

/// What AES-256-GCM opens from `ciphertext` under `key` and `nonce`, with no
/// associated data, or `None` when the tag does not verify.
pub uninterp spec fn aes_gcm_opened(key: Seq<u8>, nonce: Seq<u8>, ciphertext: Seq<u8>) -> Option<Seq<u8>>;

/// Relies on sha2's `Digest::digest` for `Sha256`: a 32-byte digest of `b`.
#[verifier::external_body]
fn sha256(b: &[u8]) -> (r: Vec<u8>)
    ensures
        r@ == sha256_of(b@),
        r@.len() == KEY_LEN,
{
    Sha256::digest(b).to_vec()
}

/// Relies on rand's `thread_rng` and `RngCore::fill_bytes`: twelve bytes from
/// a cryptographically secure generator.
#[verifier::external_body]
fn random_nonce() -> (r: Vec<u8>)
    ensures
        r@.len() == NONCE_LEN,
{
    let mut b = [0u8; 12];
    rand::thread_rng().fill_bytes(&mut b);
    b.to_vec()
}

/// Relies on aes-gcm's `Aead::encrypt` for `Aes256Gcm` (built by
/// `KeyInit::new` from the 32-byte key): it fails only on a plaintext longer
/// than its limit, appends a 16-byte tag, and its `Aead::decrypt` opens the
/// result under the same key and nonce.
#[verifier::external_body]
fn aes_gcm_encrypt(key: &[u8], nonce: &[u8], plaintext: &[u8]) -> (r: Option<Vec<u8>>)
    requires
        key@.len() == KEY_LEN,
        nonce@.len() == NONCE_LEN,
    ensures
        r is Some <==> plaintext@.len() <= MAX_PLAINTEXT,
        r matches Some(c) ==> {
            &&& c@ == aes_gcm_sealed(key@, nonce@, plaintext@)
            &&& c@.len() == plaintext@.len() + TAG_LEN
            &&& aes_gcm_opened(key@, nonce@, c@) == Some(plaintext@)
        },
{
    let cipher = Aes256Gcm::new(aes_gcm::Key::<Aes256Gcm>::from_slice(key));
    cipher.encrypt(Nonce::from_slice(nonce), plaintext).ok()
}

/// Relies on aes-gcm's `Aead::decrypt` for `Aes256Gcm` (built by
/// `KeyInit::new` from the 32-byte key).
#[verifier::external_body]
fn aes_gcm_decrypt(key: &[u8], nonce: &[u8], ciphertext: &[u8]) -> (r: Option<Vec<u8>>)
    requires
        key@.len() == KEY_LEN,
        nonce@.len() == NONCE_LEN,
    ensures
        match r {
            Some(p) => aes_gcm_opened(key@, nonce@, ciphertext@) == Some(p@),
            None => aes_gcm_opened(key@, nonce@, ciphertext@) is None,
        },
{
    let cipher = Aes256Gcm::new(aes_gcm::Key::<Aes256Gcm>::from_slice(key));
    cipher.decrypt(Nonce::from_slice(nonce), ciphertext).ok()
}

/// Relies on `String::from_utf8`: accepts exactly the valid UTF-8 byte
/// strings.
#[verifier::external_body]
fn utf8_string(b: Vec<u8>) -> (r: Option<String>)
    ensures
        r is Some <==> valid_utf8(b@),
        r matches Some(s) ==> s@ == decode_utf8(b@),
{
    String::from_utf8(b).ok()
}

/// Why no key could be derived.
#[derive(Clone, Copy, Debug, PartialEq, Eq, Structural)]
pub enum ConfigError {
    /// No passphrase was supplied.
    Missing,
    /// The passphrase is whitespace only.
    Empty,
}

/// Why a value could not be sealed.
#[derive(Clone, Copy, Debug, PartialEq, Eq, Structural)]
pub enum EncryptionError {
    /// The plaintext is beyond what the cipher seals.
    TooLong,
}

/// Why a stored payload could not be opened.
#[derive(Clone, Copy, Debug, PartialEq, Eq, Structural)]
pub enum DecryptionError {
    /// The payload is not `<base64 nonce>:<base64 ciphertext>`.
    Malformed,
    /// The tag does not verify: wrong key, or altered nonce or ciphertext.
    AuthFailed,
    /// The opened bytes are not UTF-8.
    NotUtf8,
}

/// The passphrase as characters, when there is one.
pub open spec fn passphrase_view(p: Option<&str>) -> Option<Seq<char>> {
    match p {
        Some(s) => Some(s@),
        None => None,
    }
}

/// The key derived from a passphrase: the SHA-256 digest of its UTF-8 bytes,
/// as given (untrimmed).
pub open spec fn derived_key(p: Option<Seq<char>>) -> Result<Seq<u8>, ConfigError> {
    match p {
        None => Err(ConfigError::Missing),
        Some(s) => if trimmed(s).len() == 0 {
            Err(ConfigError::Empty)
        } else {
            Ok(sha256_of(encode_utf8(s)))
        },
    }
}

/// Whether a plaintext can be sealed and its payload written.
pub open spec fn sealable(p: Seq<char>) -> bool {
    &&& encode_utf8(p).len() <= MAX_PLAINTEXT
    &&& encode_utf8(p).len() + TAG_LEN <= usize::MAX / 4
}

/// The payload that sealing `p` under `key` and `nonce` stores.
pub open spec fn sealed_payload(key: Seq<u8>, nonce: Seq<u8>, p: Seq<char>) -> Seq<char> {
    payload_text(nonce, aes_gcm_sealed(key, nonce, encode_utf8(p)))
}

/// What opening a stored payload under `key` yields.
pub open spec fn decryption(key: Seq<u8>, payload: Seq<char>) -> Result<Seq<char>, DecryptionError> {
    match decoded(payload) {
        Err(_) => Err(DecryptionError::Malformed),
        Ok((n, c)) => match aes_gcm_opened(key, n, c) {
            None => Err(DecryptionError::AuthFailed),
            Some(b) => if valid_utf8(b) {
                Ok(decode_utf8(b))
            } else {
                Err(DecryptionError::NotUtf8)
            },
        },
    }
}

/// A 256-bit symmetric key.
pub struct Key {
    bytes: Vec<u8>,
}

impl View for Key {
    type V = Seq<u8>;

    closed spec fn view(&self) -> Seq<u8> {
        self.bytes@
    }
}

impl Key {
    pub open spec fn wf(&self) -> bool {
        self@.len() == KEY_LEN
    }

    /// The key's bytes.
    pub fn as_bytes(&self) -> (r: &[u8])
        ensures
            r@ == self@,
    {
        self.bytes.as_slice()
    }
}

/// Derives the key for a passphrase; `None` stands for no passphrase at all.
pub fn derive_key(passphrase: Option<&str>) -> (r: Result<Key, ConfigError>)
    ensures
        match derived_key(passphrase_view(passphrase)) {
            Ok(k) => r matches Ok(x) && x@ == k && x.wf(),
            Err(e) => r matches Err(x) && x == e,
        },
{
    match passphrase {
        None => Err(ConfigError::Missing),
        Some(p) => {
            if trim(p).is_empty() {
                return Err(ConfigError::Empty);
            }
            Ok(Key { bytes: sha256(p.as_bytes()) })
        },
    }
}

/// Seals and opens password values under one key.
pub struct CipherEngine {
    key: Vec<u8>,
}

impl View for CipherEngine {
    type V = Seq<u8>;

    closed spec fn view(&self) -> Seq<u8> {
        self.key@
    }
}

/// Deriving twice from one passphrase gives one key, and what an engine on
/// that key sealed, an engine on the key derived again opens the same way.
pub proof fn lemma_key_determinism(p: Option<Seq<char>>, q: Option<Seq<char>>, payload: Seq<char>)
    requires
        p == q,
    ensures
        derived_key(p) == derived_key(q),
        derived_key(p) matches Ok(k1) ==> (derived_key(q) matches Ok(k2) && decryption(k1, payload)
            == decryption(k2, payload)),
{
}

/// Derives the key for a passphrase and builds the engine on it; no engine
/// exists when the passphrase is missing or empty.
pub fn initialize_cipher(passphrase: Option<&str>) -> (r: Result<CipherEngine, ConfigError>)
    ensures
        passphrase is None ==> (r matches Err(e) && e == ConfigError::Missing),
        match derived_key(passphrase_view(passphrase)) {
            Ok(k) => r matches Ok(x) && x@ == k && x.wf(),
            Err(e) => r matches Err(x) && x == e,
        },
{
    match derive_key(passphrase) {
        Ok(k) => Ok(CipherEngine::new(k)),
        Err(e) => Err(e),
    }
}

impl CipherEngine {
    pub open spec fn wf(&self) -> bool {
        self@.len() == KEY_LEN
    }

    /// An engine on `key`.
    pub fn new(key: Key) -> (r: CipherEngine)
        requires
            key.wf(),
        ensures
            r@ == key@,
            r.wf(),
    {
        CipherEngine { key: key.bytes }
    }

    /// Seals `plaintext` under the given nonce and writes the payload.
    pub fn seal_with_nonce(&self, nonce: &[u8], plaintext: &str) -> (r: Result<String, EncryptionError>)
        requires
            self.wf(),
            nonce@.len() == NONCE_LEN,
        ensures
            r is Ok <==> sealable(plaintext@),
            r is Err ==> r == Err::<String, EncryptionError>(EncryptionError::TooLong),
            r matches Ok(s) ==> {
                &&& s@ == sealed_payload(self@, nonce@, plaintext@)
                &&& payload_chars(s@)
                &&& encrypted_shape(s@)
                &&& decryption(self@, s@) == Ok::<_, DecryptionError>(plaintext@)
            },
    {
        let bytes = plaintext.as_bytes();
        if bytes.len() as u64 > MAX_PLAINTEXT {
            return Err(EncryptionError::TooLong);
        }
        let ciphertext = match aes_gcm_encrypt(self.key.as_slice(), nonce, bytes) {
            Some(c) => c,
            None => return Err(EncryptionError::TooLong),
        };
        if ciphertext.len() > usize::MAX / 4 {
            return Err(EncryptionError::TooLong);
        }
        let r = encode_payload(nonce, ciphertext.as_slice());
        assert(decoded(r@) == Ok::<_, crate::codec::FormatError>((nonce@, ciphertext@)));
        Ok(r)
    }

    /// Seals `plaintext` under a fresh random nonce and writes the payload.
    pub fn encrypt_password(&self, plaintext: &str) -> (r: Result<String, EncryptionError>)
        requires
            self.wf(),
        ensures
            r is Ok <==> sealable(plaintext@),
            r is Err ==> r == Err::<String, EncryptionError>(EncryptionError::TooLong),
            r matches Ok(s) ==> {
                &&& exists|n: Seq<u8>| n.len() == NONCE_LEN && s@ == sealed_payload(self@, n, plaintext@)
                &&& payload_chars(s@)
                &&& encrypted_shape(s@)
                &&& decryption(self@, s@) == Ok::<_, DecryptionError>(plaintext@)
            },
    {
        let nonce = random_nonce();
        self.seal_with_nonce(nonce.as_slice(), plaintext)
    }

    /// Opens a stored payload.
    pub fn decrypt_password(&self, value: &str) -> (r: Result<String, DecryptionError>)
        requires
            self.wf(),
        ensures
            match decryption(self@, value@) {
                Ok(p) => r matches Ok(s) && s@ == p,
                Err(e) => r matches Err(x) && x == e,
            },
    {
        let (nonce, ciphertext) = match decode_payload(value) {
            Ok(parts) => parts,
            Err(_) => return Err(DecryptionError::Malformed),
        };
        let plain = match aes_gcm_decrypt(self.key.as_slice(), nonce.as_slice(), ciphertext.as_slice()) {
            Some(b) => b,
            None => return Err(DecryptionError::AuthFailed),
        };
        match utf8_string(plain) {
            Some(s) => Ok(s),
            None => Err(DecryptionError::NotUtf8),
        }
    }
}

} // verus!
