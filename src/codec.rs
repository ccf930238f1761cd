//! The stored form of a password: `<base64 nonce>:<base64 ciphertext>`, and
//! the classification of a raw stored field as sealed or legacy plain text.
use base64::engine::general_purpose;
use base64::Engine;
use vstd::prelude::*;

use crate::text::{append_str, lemma_split_first_concat, push_char, split_first, split_once};

verus! {

/// Separator between the two base64 halves of a payload.
pub const PAYLOAD_SEPARATOR: char = ':';

/// Length in bytes of every nonce.
pub const NONCE_LEN: usize = 12;

/// What base64's standard engine (with padding) writes for `b`.
pub uninterp spec fn base64_text(b: Seq<u8>) -> Seq<char>;

/// What base64's standard engine reads from `s`, or `None` when it refuses it.
pub uninterp spec fn base64_bytes(s: Seq<char>) -> Option<Seq<u8>>;

/// The symbols of the standard base64 alphabet, padding included.
pub open spec fn is_base64_symbol(c: char) -> bool {
    ('A' <= c && c <= 'Z') || ('a' <= c && c <= 'z') || ('0' <= c && c <= '9') || c == '+'
        || c == '/' || c == '='
}

/// Relies on base64's `Engine::encode` with the `STANDARD` engine: the output
/// holds only alphabet symbols, four for each started group of three bytes,
/// and the same engine decodes it back to `b`.
#[verifier::external_body]
fn base64_encode(b: &[u8]) -> (r: String)
    requires
        b@.len() <= usize::MAX / 4,
    ensures
        r@ == base64_text(b@),
        r@.len() == 4 * ((b@.len() + 2) / 3),
        forall|i: int| 0 <= i < r@.len() ==> is_base64_symbol(#[trigger] r@[i]),
        base64_bytes(r@) == Some(b@),
{
    general_purpose::STANDARD.encode(b)
}

/// Relies on base64's `Engine::decode` with the `STANDARD` engine.
#[verifier::external_body]
fn base64_decode(s: &str) -> (r: Option<Vec<u8>>)
    ensures
        match r {
            Some(v) => base64_bytes(s@) == Some(v@),
            None => base64_bytes(s@) is None,
        },
{
    general_purpose::STANDARD.decode(s).ok()
}

/// Shape of a raw stored password field.
#[derive(Clone, Copy, Debug, PartialEq, Eq, Structural)]
pub enum FieldKind {
    /// A legacy value kept as written.
    Plain,
    /// Two non-empty halves around the separator.
    Encrypted,
}

/// A payload could not be read.
#[derive(Clone, Copy, Debug, PartialEq, Eq, Structural)]
pub enum FormatError {
    /// No separator, a half that is not base64, or a nonce of the wrong size.
    Invalid,
}

/// The field has the separator with something on both sides of its first
/// occurrence.
pub open spec fn encrypted_shape(s: Seq<char>) -> bool {
    match split_first(s, PAYLOAD_SEPARATOR) {
        Some((a, b)) => a.len() > 0 && b.len() > 0,
        None => false,
    }
}

pub open spec fn kind_of(s: Seq<char>) -> FieldKind {
    if encrypted_shape(s) {
        FieldKind::Encrypted
    } else {
        FieldKind::Plain
    }
}

/// Every character of `s` is a base64 symbol or the payload separator.
pub open spec fn payload_chars(s: Seq<char>) -> bool {
    forall|i: int| 0 <= i < s.len() ==> is_base64_symbol(#[trigger] s[i]) || s[i] == PAYLOAD_SEPARATOR
}

/// The stored text of a nonce and a ciphertext.
pub open spec fn payload_text(nonce: Seq<u8>, ciphertext: Seq<u8>) -> Seq<char> {
    base64_text(nonce) + seq![PAYLOAD_SEPARATOR] + base64_text(ciphertext)
}

/// What decoding a stored payload yields.
pub open spec fn decoded(s: Seq<char>) -> Result<(Seq<u8>, Seq<u8>), FormatError> {
    match split_first(s, PAYLOAD_SEPARATOR) {
        None => Err(FormatError::Invalid),
        Some((a, b)) => match (base64_bytes(a), base64_bytes(b)) {
            (Some(n), Some(c)) => if n.len() == NONCE_LEN {
                Ok((n, c))
            } else {
                Err(FormatError::Invalid)
            },
            _ => Err(FormatError::Invalid),
        },
    }
}

/// Whether `value` already has the shape of a sealed payload.
pub fn is_encrypted_format(value: &str) -> (r: bool)
    ensures
        r == encrypted_shape(value@),
{
    match split_once(value, PAYLOAD_SEPARATOR) {
        Some((n, c)) => !n.as_str().is_empty() && !c.as_str().is_empty(),
        None => false,
    }
}

/// Classifies a raw stored password field by its shape.
pub fn classify(raw: &str) -> (r: FieldKind)
    ensures
        r == kind_of(raw@),
{
    if is_encrypted_format(raw) {
        FieldKind::Encrypted
    } else {
        FieldKind::Plain
    }
}

/// Writes a nonce and a ciphertext as a payload.
pub fn encode_payload(nonce: &[u8], ciphertext: &[u8]) -> (r: String)
    requires
        nonce@.len() <= usize::MAX / 4,
        ciphertext@.len() <= usize::MAX / 4,
    ensures
        r@ == payload_text(nonce@, ciphertext@),
        payload_chars(r@),
        nonce@.len() > 0 && ciphertext@.len() > 0 ==> encrypted_shape(r@),
        nonce@.len() == NONCE_LEN ==> decoded(r@) == Ok::<_, FormatError>((nonce@, ciphertext@)),
{
    let mut r = base64_encode(nonce);
    let ghost a = r@;
    push_char(&mut r, PAYLOAD_SEPARATOR);
    let c = base64_encode(ciphertext);
    append_str(&mut r, c.as_str());
    proof {
        assert(!a.contains(PAYLOAD_SEPARATOR)) by {
            if a.contains(PAYLOAD_SEPARATOR) {
                let i = choose|i: int| 0 <= i < a.len() && a[i] == PAYLOAD_SEPARATOR;
                assert(is_base64_symbol(a[i]));
            }
        }
        lemma_split_first_concat(a, PAYLOAD_SEPARATOR, c@);
        assert(r@ == a + seq![PAYLOAD_SEPARATOR] + c@);
        assert(base64_bytes(a) == Some(nonce@));
        assert(base64_bytes(c@) == Some(ciphertext@));
        assert forall|i: int| 0 <= i < r@.len() implies is_base64_symbol(#[trigger] r@[i]) || r@[i]
            == PAYLOAD_SEPARATOR by {
            if i < a.len() {
                assert(r@[i] == a[i]);
            } else if i > a.len() {
                assert(r@[i] == c@[i - a.len() - 1]);
            }
        }
    }
    r
}

/// Reads a payload back into its nonce and ciphertext.
pub fn decode_payload(value: &str) -> (r: Result<(Vec<u8>, Vec<u8>), FormatError>)
    ensures
        match decoded(value@) {
            Ok((n, c)) => r matches Ok((x, y)) && x@ == n && y@ == c,
            Err(e) => r == Err::<(Vec<u8>, Vec<u8>), FormatError>(e),
        },
{
    let (n, c) = match split_once(value, PAYLOAD_SEPARATOR) {
        Some(p) => p,
        None => return Err(FormatError::Invalid),
    };
    let nonce = match base64_decode(n.as_str()) {
        Some(v) => v,
        None => return Err(FormatError::Invalid),
    };
    if nonce.len() != NONCE_LEN {
        return Err(FormatError::Invalid);
    }
    let ciphertext = match base64_decode(c.as_str()) {
        Some(v) => v,
        None => return Err(FormatError::Invalid),
    };
    Ok((nonce, ciphertext))
}

} // verus!
