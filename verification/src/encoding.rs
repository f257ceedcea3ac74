//! Base64 text (RFC 4648, standard alphabet, padded) through `rustc-serialize`,
//! and the 32-byte keys stored as such text.
use vstd::prelude::*;
use vstd::utf8::{encode_utf8, is_ascii_chars, is_ascii_chars_encode_utf8};

use rustc_serialize::base64::FromBase64Error;

use crate::primitives::{base_point, curve25519_base, random_32_bytes, x25519};
use crate::sealed_box::EncryptError;

verus! {

#[verifier::external_type_specification]
#[verifier::external_body]
pub struct ExFromBase64Error(FromBase64Error);

/// The character of the standard base64 alphabet for a 6-bit value.
pub open spec fn base64_digit(v: int) -> u8 {
    if v < 26 {
        (65 + v) as u8
    } else if v < 52 {
        (97 + v - 26) as u8
    } else if v < 62 {
        (48 + v - 52) as u8
    } else if v == 62 {
        43u8
    } else {
        47u8
    }
}

/// The standard padded base64 text of `d`, as ASCII bytes: every 3 bytes give
/// 4 characters; a final 1 or 2 bytes give 2 or 3 characters and `=` padding.
pub open spec fn base64_standard(d: Seq<u8>) -> Seq<u8>
    decreases d.len(),
{
    if d.len() == 0 {
        Seq::empty()
    } else if d.len() == 1 {
        seq![base64_digit(d[0] as int / 4), base64_digit((d[0] as int % 4) * 16), 61u8, 61u8]
    } else if d.len() == 2 {
        seq![
            base64_digit(d[0] as int / 4),
            base64_digit((d[0] as int % 4) * 16 + d[1] as int / 16),
            base64_digit((d[1] as int % 16) * 4),
            61u8,
        ]
    } else {
        seq![
            base64_digit(d[0] as int / 4),
            base64_digit((d[0] as int % 4) * 16 + d[1] as int / 16),
            base64_digit((d[1] as int % 16) * 4 + d[2] as int / 64),
            base64_digit(d[2] as int % 64),
        ] + base64_standard(d.subrange(3, d.len() as int))
    }
}

/// The base64 text of `d` as characters.
pub open spec fn base64_text(d: Seq<u8>) -> Seq<char> {
    base64_standard(d).map_values(|b: u8| b as char)
}

/// What `rustc-serialize`'s `from_base64` decodes from a byte string, or
/// nothing when it reports an error.
pub uninterp spec fn base64_decoded(input: Seq<u8>) -> Option<Seq<u8>>;

/// `<[u8] as ToBase64>::to_base64(data, STANDARD)`. Claimed, as the source
/// shows: the result is the standard padded base64 text of `data` (the
/// `STANDARD` configuration has no line breaks).
#[verifier::external_body]
fn base64_encode_standard(data: &[u8]) -> (r: String)
    ensures
        r@ == base64_text(data@),
{
    rustc_serialize::base64::ToBase64::to_base64(data, rustc_serialize::base64::STANDARD)
}

/// `<[u8] as FromBase64>::from_base64(input)`. Claimed: the result is
/// `base64_decoded(input)`, and, as the source shows, the standard padded text
/// of any `d` decodes to `d`.
#[verifier::external_body]
fn base64_decode(input: &[u8]) -> (r: Result<Vec<u8>, FromBase64Error>)
    ensures
        r is Ok <==> base64_decoded(input@) is Some,
        r is Ok ==> base64_decoded(input@) == Some(r->Ok_0@),
        forall|d: Seq<u8>| #[trigger] base64_standard(d) == input@ ==> r is Ok && r->Ok_0@ == d,
{
    rustc_serialize::base64::FromBase64::from_base64(input)
}

/// Every byte of a base64 text is an ASCII character.
pub proof fn lemma_base64_ascii(d: Seq<u8>)
    ensures
        forall|i: int| 0 <= i < base64_standard(d).len() ==> #[trigger] base64_standard(d)[i] < 128,
    decreases d.len(),
{
    assert forall|v: int| v >= 0 implies #[trigger] base64_digit(v) < 128 by {}
    if d.len() > 2 {
        let rest = d.subrange(3, d.len() as int);
        lemma_base64_ascii(rest);
        let head = seq![
            base64_digit(d[0] as int / 4),
            base64_digit((d[0] as int % 4) * 16 + d[1] as int / 16),
            base64_digit((d[1] as int % 16) * 4 + d[2] as int / 64),
            base64_digit(d[2] as int % 64),
        ];
        assert(base64_standard(d) == head + base64_standard(rest));
        assert forall|i: int| 0 <= i < base64_standard(d).len() implies #[trigger] base64_standard(
            d,
        )[i] < 128 by {
            if i >= 4 {
                assert(base64_standard(d)[i] == base64_standard(rest)[i - 4]);
            }
        }
    }
}

/// The UTF-8 bytes of a base64 text are its ASCII bytes.
pub proof fn lemma_base64_text_bytes(d: Seq<u8>)
    ensures
        is_ascii_chars(base64_text(d)),
        encode_utf8(base64_text(d)) == base64_standard(d),
{
    lemma_base64_ascii(d);
    let t = base64_text(d);
    let b = base64_standard(d);
    assert forall|i: int| 0 <= i < t.len() implies '\0' <= #[trigger] t[i] <= '\u{7f}' by {
        assert(b[i] < 128);
    }
    is_ascii_chars_encode_utf8(t);
    assert forall|i: int| 0 <= i < t.len() implies #[trigger] encode_utf8(t)[i] == b[i] by {
        assert(t[i] as u8 == encode_utf8(t)[i]);
        assert(b[i] < 128);
    }
    assert(encode_utf8(t) =~= b);
}

/// The standard text of `d` has four characters for every started group of
/// three bytes.
pub proof fn lemma_base64_len(d: Seq<u8>)
    ensures
        base64_standard(d).len() == 4 * ((d.len() + 2) / 3),
    decreases d.len(),
{
    if d.len() > 2 {
        lemma_base64_len(d.subrange(3, d.len() as int));
    }
}

/// The standard padded base64 text of `data`; its UTF-8 bytes are the ASCII
/// bytes of the encoding, four for every started group of three bytes.
pub fn encode_base64(data: &[u8]) -> (r: String)
    ensures
        r@ == base64_text(data@),
        encode_utf8(r@) == base64_standard(data@),
        r@.len() == 4 * ((data@.len() + 2) / 3),
{
    proof {
        lemma_base64_text_bytes(data@);
        lemma_base64_len(data@);
    }
    base64_encode_standard(data)
}

/// The bytes that base64 `text` decodes to, or `None` when it is no base64;
/// the standard padded text of any `d` decodes to `d`.
pub fn decode_base64(text: &[u8]) -> (r: Option<Vec<u8>>)
    ensures
        r matches Some(v) ==> base64_decoded(text@) == Some(v@),
        r is None ==> base64_decoded(text@) is None,
        forall|d: Seq<u8>| #[trigger] base64_standard(d) == text@ ==> r is Some && r->0@ == d,
{
    match base64_decode(text) {
        Ok(v) => Some(v),
        Err(_) => None,
    }
}

/// Why a key text was refused.
#[derive(Debug, Clone, Copy, PartialEq, Eq, Structural)]
pub enum KeyError {
    /// The text is no base64.
    NotBase64,
    /// The text decodes to other than 32 bytes.
    WrongSize,
}

/// The key a text holds.
pub open spec fn decoded_key(text: Seq<u8>) -> Result<Seq<u8>, KeyError> {
    match base64_decoded(text) {
        None => Err(KeyError::NotBase64),
        Some(d) => if d.len() == 32 {
            Ok(d)
        } else {
            Err(KeyError::WrongSize)
        },
    }
}

/// Reads a 32-byte key from its base64 text; the text of any 32-byte key
/// reads back as that key.
pub fn decode_key(text: &[u8]) -> (r: Result<[u8; 32], KeyError>)
    ensures
        match r {
            Ok(k) => decoded_key(text@) == Ok::<Seq<u8>, KeyError>(k@),
            Err(e) => decoded_key(text@) == Err::<Seq<u8>, KeyError>(e),
        },
        forall|k: Seq<u8>|
            k.len() == 32 && #[trigger] base64_standard(k) == text@ ==> r is Ok && r->Ok_0@ == k,
{
    match base64_decode(text) {
        Ok(d) => {
            if d.len() != 32 {
                return Err(KeyError::WrongSize);
            }
            let mut key: [u8; 32] = [0; 32];
            let mut i: usize = 0;
            while i < 32
                invariant
                    i <= 32,
                    d@.len() == 32,
                    forall|j: int| 0 <= j < i ==> key@[j] == d@[j],
                decreases 32 - i,
            {
                key[i] = d[i];
                i = i + 1;
            }
            assert(key@ =~= d@);
            Ok(key)
        },
        Err(_) => Err(KeyError::NotBase64),
    }
}

/// A Curve25519 key pair.
#[derive(Debug, Clone, Copy)]
pub struct KeyPair {
    pub public_key: [u8; 32],
    pub private_key: [u8; 32],
}

/// The key pair of a private key: its public key is the X25519 product of the
/// private key and the base point.
pub fn key_pair_from_private(private_key: [u8; 32]) -> (r: KeyPair)
    ensures
        r.private_key == private_key,
        r.public_key == x25519(private_key@, base_point()),
{
    KeyPair { public_key: curve25519_base(&private_key), private_key }
}

/// A key pair whose private key is drawn from the thread's random generator;
/// fails when the generator fails.
pub fn generate_key_pair() -> (r: Result<KeyPair, EncryptError>)
    ensures
        r matches Ok(kp) ==> kp.public_key == x25519(kp.private_key@, base_point()),
{
    match random_32_bytes() {
        Ok(private_key) => Ok(key_pair_from_private(private_key)),
        Err(_) => Err(EncryptError::RngInitializationFailed),
    }
}

} // verus!
