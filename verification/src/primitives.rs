//! The cryptographic primitives of the `rust-crypto` and `rand` crates, as the
//! library calls them.
use vstd::prelude::*;

verus! {

#[verifier::external_type_specification]
#[verifier::external_body]
pub struct ExRandError(rand::Error);

/// The X25519 function (`crypto::curve25519::curve25519`) applied to a
/// 32-byte scalar and the 32-byte u-coordinate of a point.
pub uninterp spec fn x25519(scalar: Seq<u8>, point: Seq<u8>) -> [u8; 32];

/// The (ciphertext, tag) pair that `rust-crypto`'s ChaCha20-Poly1305 produces
/// for a key, a nonce, additional data and a plaintext.
pub uninterp spec fn chacha20_poly1305_seal(
    key: Seq<u8>,
    nonce: Seq<u8>,
    aad: Seq<u8>,
    plaintext: Seq<u8>,
) -> (Seq<u8>, [u8; 16]);

/// What `rust-crypto`'s ChaCha20-Poly1305 decryption gives for a key, a
/// nonce, additional data, a ciphertext and a tag: the plaintext when the tag
/// authenticates the ciphertext, otherwise nothing.
pub uninterp spec fn chacha20_poly1305_open(
    key: Seq<u8>,
    nonce: Seq<u8>,
    aad: Seq<u8>,
    ciphertext: Seq<u8>,
    tag: Seq<u8>,
) -> Option<Seq<u8>>;

/// The u-coordinate 9 of the Curve25519 base point, as 32 little-endian bytes.
pub open spec fn base_point() -> Seq<u8> {
    seq![9u8] + Seq::new(31, |i: int| 0u8)
}

/// Whether the holder of `private_key` derives, from the ephemeral public
/// value of `ephemeral`, the same X25519 shared value as a sender who combined
/// `ephemeral` with `public_key`. This is the condition under which a sealed
/// box opens; the library assumes it nowhere.
pub open spec fn keys_agree(private_key: Seq<u8>, ephemeral: Seq<u8>, public_key: Seq<u8>) -> bool {
    x25519(private_key, x25519(ephemeral, base_point())@) == x25519(ephemeral, public_key)
}

/// The most bytes `rust-crypto`'s ChaCha20-Poly1305 with an 8-byte nonce can
/// process: the 32-bit block counter starts at 0 for the Poly1305 key and
/// panics ("counter is exhausted") when it wraps, which leaves
/// (2^32 - 2) blocks of 64 bytes for the data.
pub const CIPHER_MAX_LEN: u64 = 274877906816;

/// `crypto::curve25519::curve25519(n, p)`. Claimed: the result is
/// `x25519(n, p)`. The source clamps the scalar and does not panic. Nothing
/// is claimed of how results for different arguments relate (such as the
/// Diffie-Hellman agreement of X25519): the source neither states nor tests it.
#[verifier::external_body]
pub(crate) fn curve25519(n: &[u8; 32], p: &[u8; 32]) -> (r: [u8; 32])
    ensures
        r == x25519(n@, p@),
{
    crypto::curve25519::curve25519(&n[..], &p[..])
}

/// `crypto::curve25519::curve25519_base(x)`. Claimed, as its source shows:
/// it is `curve25519(x, base)` with the base point's u-coordinate 9.
#[verifier::external_body]
pub(crate) fn curve25519_base(x: &[u8; 32]) -> (r: [u8; 32])
    ensures
        r == x25519(x@, base_point()),
{
    crypto::curve25519::curve25519_base(&x[..])
}

/// `ChaCha20Poly1305::new(key, nonce, aad)` followed by `encrypt` of `input`.
/// Claimed: the ciphertext and the 16-byte tag are
/// `chacha20_poly1305_seal(key, nonce, aad, input)`, and the ciphertext is as
/// long as the input (the source asserts both buffers have one length).
/// Inputs beyond `CIPHER_MAX_LEN` bytes exhaust the block counter, on which
/// the source panics; they are left out.
#[verifier::external_body]
pub(crate) fn chacha20_poly1305_encrypt(
    key: &[u8; 32],
    nonce: &[u8; 8],
    aad: &[u8],
    input: &[u8],
) -> (r: (Vec<u8>, [u8; 16]))
    requires
        input@.len() <= CIPHER_MAX_LEN,
    ensures
        (r.0@, r.1) == chacha20_poly1305_seal(key@, nonce@, aad@, input@),
        r.0@.len() == input@.len(),
{
    let mut cipher = crypto::chacha20poly1305::ChaCha20Poly1305::new(&key[..], &nonce[..], aad);
    let mut output = vec![0u8; input.len()];
    let mut tag = [0u8; 16];
    crypto::aead::AeadEncryptor::encrypt(&mut cipher, input, &mut output[..], &mut tag[..]);
    (output, tag)
}

/// `ChaCha20Poly1305::new(key, nonce, aad)` followed by `decrypt` of `input`
/// against `tag`. Claimed: the flag says whether
/// `chacha20_poly1305_open(key, nonce, aad, input, tag)` holds a plaintext,
/// and when it does, the buffer is that plaintext. Also claimed, as the source
/// shows (decryption recomputes the tag the encryption computed over the
/// ciphertext, and applies the same key stream): a ciphertext and tag made by
/// sealing `m` under the same key, nonce and data decrypt to `m`; and the
/// buffer is as long as the input (the source allocates it so). Inputs beyond
/// `CIPHER_MAX_LEN` bytes are left out: once the tag verifies, the source
/// panics on them as encryption does.
#[verifier::external_body]
pub(crate) fn chacha20_poly1305_decrypt(
    key: &[u8; 32],
    nonce: &[u8; 8],
    aad: &[u8],
    input: &[u8],
    tag: &[u8],
) -> (r: (bool, Vec<u8>))
    requires
        input@.len() <= CIPHER_MAX_LEN,
    ensures
        r.1@.len() == input@.len(),
        r.0 == chacha20_poly1305_open(key@, nonce@, aad@, input@, tag@) is Some,
        r.0 ==> chacha20_poly1305_open(key@, nonce@, aad@, input@, tag@) == Some(r.1@),
        forall|m: Seq<u8>|
            #[trigger] chacha20_poly1305_seal(key@, nonce@, aad@, m).0 == input@
                && chacha20_poly1305_seal(key@, nonce@, aad@, m).1@ == tag@ ==> r.0 && r.1@ == m,
{
    let mut cipher = crypto::chacha20poly1305::ChaCha20Poly1305::new(&key[..], &nonce[..], aad);
    let mut output = vec![0u8; input.len()];
    let ok = crypto::aead::AeadDecryptor::decrypt(&mut cipher, input, &mut output[..], tag);
    (ok, output)
}

/// `rand::thread_rng().try_fill(..)` on a 32-byte buffer. Nothing is claimed
/// of the bytes: they come from the operating system's generator. Left
/// unsaid: `thread_rng()` panics, on any call, when the operating system's
/// generator cannot seed it, which no precondition can rule out.
#[verifier::external_body]
pub(crate) fn random_32_bytes() -> (r: Result<[u8; 32], rand::Error>) {
    let mut bytes = [0u8; 32];
    match rand::Rng::try_fill(&mut rand::thread_rng(), &mut bytes[..]) {
        Ok(()) => Ok(bytes),
        Err(e) => Err(e),
    }
}

} // verus!
