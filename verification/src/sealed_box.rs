//! The sealed box: a message encrypted to a Curve25519 public key under an
//! ephemeral key pair, laid out as the ephemeral public key (32 bytes), the
//! Poly1305 tag (16 bytes) and the ChaCha20 ciphertext.
use vstd::prelude::*;

use crate::primitives::{
    base_point, chacha20_poly1305_decrypt, chacha20_poly1305_encrypt, chacha20_poly1305_open,
    chacha20_poly1305_seal, curve25519, curve25519_base, keys_agree, random_32_bytes, x25519,
    CIPHER_MAX_LEN,
};

verus! {

/// Why encryption failed.
#[derive(Debug, Clone, Copy, PartialEq, Eq, Structural)]
pub enum EncryptError {
    RngInitializationFailed,
}

/// Why decryption failed.
#[derive(Debug, Clone, Copy, PartialEq, Eq, Structural)]
pub enum DecryptError {
    /// The message is shorter than its 48-byte header.
    Malformed,
    /// The tag does not authenticate the ciphertext under the derived key,
    /// or the ciphertext is longer than the cipher can decrypt.
    Invalid,
}

/// The all-zero 8-byte nonce the box uses.
pub open spec fn zero_nonce() -> Seq<u8> {
    Seq::new(8, |i: int| 0u8)
}

/// The box of `message` sealed to `public_key` with the ephemeral secret
/// `ephemeral`.
pub open spec fn sealed_box(public_key: Seq<u8>, message: Seq<u8>, ephemeral: Seq<u8>) -> Seq<u8> {
    let sealed = chacha20_poly1305_seal(
        x25519(ephemeral, public_key)@,
        zero_nonce(),
        Seq::empty(),
        message,
    );
    x25519(ephemeral, base_point())@ + sealed.1@ + sealed.0
}

/// What opening `message` with `private_key` gives: malformed below the
/// 48-byte header; otherwise invalid unless the tag authenticates the
/// ciphertext, and then the plaintext. A ciphertext longer than
/// `CIPHER_MAX_LEN` bytes, which the cipher cannot decrypt, is invalid even
/// when its tag authenticates it.
pub open spec fn opened_box(private_key: Seq<u8>, message: Seq<u8>) -> Result<Seq<u8>, DecryptError> {
    if message.len() < 48 {
        Err(DecryptError::Malformed)
    } else {
        match chacha20_poly1305_open(
            x25519(private_key, message.subrange(0, 32))@,
            zero_nonce(),
            Seq::empty(),
            message.subrange(48, message.len() as int),
            message.subrange(32, 48),
        ) {
            Some(plaintext) => if message.len() - 48 <= CIPHER_MAX_LEN {
                Ok(plaintext)
            } else {
                Err(DecryptError::Invalid)
            },
            None => Err(DecryptError::Invalid),
        }
    }
}

/// The eight zero bytes, written out.
pub open spec fn eight_zero_bytes() -> Seq<u8> {
    seq![0u8, 0u8, 0u8, 0u8, 0u8, 0u8, 0u8, 0u8]
}

/// The layout of a sealed box: bytes 0..32 are the ephemeral public key
/// (the X25519 product of the ephemeral secret and the base point), bytes
/// 32..48 the Poly1305 tag and bytes 48.. the ChaCha20 ciphertext, both made
/// under the key `x25519(ephemeral, public_key)`, the all-zero 8-byte nonce
/// and no additional data; the ciphertext is as long as the message when the
/// box is 48 bytes longer than it.
pub proof fn lemma_sealed_box_layout(public_key: Seq<u8>, message: Seq<u8>, ephemeral: Seq<u8>)
    ensures
        ({
            let b = sealed_box(public_key, message, ephemeral);
            let sealed = chacha20_poly1305_seal(
                x25519(ephemeral, public_key)@,
                eight_zero_bytes(),
                Seq::<u8>::empty(),
                message,
            );
            &&& b.len() >= 48
            &&& b.subrange(0, 32) == x25519(ephemeral, base_point())@
            &&& b.subrange(32, 48) == sealed.1@
            &&& b.subrange(48, b.len() as int) == sealed.0
        }),
{
    assert(zero_nonce() =~= eight_zero_bytes());
    let b = sealed_box(public_key, message, ephemeral);
    let sealed = chacha20_poly1305_seal(
        x25519(ephemeral, public_key)@,
        eight_zero_bytes(),
        Seq::<u8>::empty(),
        message,
    );
    let head = x25519(ephemeral, base_point())@;
    assert(b =~= head + sealed.1@ + sealed.0);
    assert(b.subrange(0, 32) =~= head);
    assert(b.subrange(32, 48) =~= sealed.1@);
    assert(b.subrange(48, b.len() as int) =~= sealed.0);
}

/// How a box is opened, by position: below 48 bytes it is malformed;
/// otherwise the tag at bytes 32..48 must authenticate the ciphertext at bytes
/// 48.. under the key `x25519(private_key, bytes 0..32)`, the all-zero 8-byte
/// nonce and no additional data, and the ciphertext must be within
/// `CIPHER_MAX_LEN` bytes; then the box opens to the decrypted plaintext, and
/// else it is invalid.
pub proof fn lemma_opened_box_layout(private_key: Seq<u8>, message: Seq<u8>)
    ensures
        message.len() < 48 ==> opened_box(private_key, message) == Err::<Seq<u8>, DecryptError>(
            DecryptError::Malformed,
        ),
        message.len() >= 48 ==> opened_box(private_key, message) == match chacha20_poly1305_open(
            x25519(private_key, message.subrange(0, 32))@,
            eight_zero_bytes(),
            Seq::<u8>::empty(),
            message.subrange(48, message.len() as int),
            message.subrange(32, 48),
        ) {
            Some(p) => if message.len() <= CIPHER_MAX_LEN + 48 {
                Ok(p)
            } else {
                Err(DecryptError::Invalid)
            },
            None => Err(DecryptError::Invalid),
        },
{
    assert(zero_nonce() =~= eight_zero_bytes());
}

/// A byte result taken by its view.
pub open spec fn bytes_result<E>(r: Result<Vec<u8>, E>) -> Result<Seq<u8>, E> {
    match r {
        Ok(v) => Ok(v@),
        Err(e) => Err(e),
    }
}

/// Appends the bytes of `src` to `out`.
pub(crate) fn push_all(out: &mut Vec<u8>, src: &[u8])
    requires
        old(out)@.len() + src@.len() <= usize::MAX,
    ensures
        final(out)@ == old(out)@ + src@,
{
    let n = src.len();
    let mut i: usize = 0;
    while i < n
        invariant
            n == src@.len(),
            i <= n,
            out@ == old(out)@ + src@.subrange(0, i as int),
        decreases n - i,
    {
        assert(src@.subrange(0, i + 1int) =~= src@.subrange(0, i as int).push(src@[i as int]));
        out.push(src[i]);
        i = i + 1;
    }
    assert(src@.subrange(0, n as int) =~= src@);
}

/// The 32 bytes of `src` from `start` on.
pub(crate) fn bytes_32_at(src: &[u8], start: usize) -> (r: [u8; 32])
    requires
        start + 32 <= src@.len(),
    ensures
        r@ == src@.subrange(start as int, start + 32int),
{
    let n = src.len();
    let mut r: [u8; 32] = [0; 32];
    let mut i: usize = 0;
    while i < 32
        invariant
            i <= 32,
            n == src@.len(),
            start + 32 <= n,
            forall|j: int| 0 <= j < i ==> r@[j] == src@[start + j],
        decreases 32 - i,
    {
        r[i] = src[start + i];
        i = i + 1;
    }
    assert(r@ =~= src@.subrange(start as int, start + 32int));
    r
}

/// Seals `message` to `public_key` with the given ephemeral secret: the box
/// holds the ephemeral public key, then the tag, then the ciphertext, under
/// the key agreed between the ephemeral secret and `public_key`.
pub fn encrypt_buf_with_ephemeral(
    public_key: &[u8; 32],
    message: &[u8],
    ephemeral_secret: &[u8; 32],
) -> (r: Vec<u8>)
    requires
        message@.len() + 48 <= usize::MAX,
        message@.len() <= CIPHER_MAX_LEN,
    ensures
        r@ == sealed_box(public_key@, message@, ephemeral_secret@),
        r@.len() == message@.len() + 48,
        r@.subrange(0, 32) == x25519(ephemeral_secret@, base_point())@,
        r@.subrange(32, 48) == chacha20_poly1305_seal(
            x25519(ephemeral_secret@, public_key@)@,
            eight_zero_bytes(),
            Seq::<u8>::empty(),
            message@,
        ).1@,
        r@.subrange(48, r@.len() as int) == chacha20_poly1305_seal(
            x25519(ephemeral_secret@, public_key@)@,
            eight_zero_bytes(),
            Seq::<u8>::empty(),
            message@,
        ).0,
{
    proof {
        lemma_sealed_box_layout(public_key@, message@, ephemeral_secret@);
    }
    let ephemeral_public_key = curve25519_base(ephemeral_secret);
    let symmetric_key = curve25519(ephemeral_secret, public_key);
    let nonce: [u8; 8] = [0; 8];
    let aad: [u8; 0] = [];
    assert(nonce@ =~= zero_nonce());
    assert(aad@ =~= Seq::<u8>::empty());
    let (ciphertext, tag) = chacha20_poly1305_encrypt(&symmetric_key, &nonce, &aad, message);
    let mut output: Vec<u8> = Vec::new();
    push_all(&mut output, &ephemeral_public_key);
    push_all(&mut output, &tag);
    push_all(&mut output, ciphertext.as_slice());
    output
}

/// Seals `message` to `public_key` under a fresh ephemeral secret drawn from
/// the thread's random generator; fails when the generator fails.
pub fn encrypt_buf(public_key: &[u8; 32], message: &[u8]) -> (r: Result<Vec<u8>, EncryptError>)
    requires
        message@.len() + 48 <= usize::MAX,
        message@.len() <= CIPHER_MAX_LEN,
    ensures
        r matches Ok(v) ==> exists|e: Seq<u8>|
            e.len() == 32 && v@ == sealed_box(public_key@, message@, e),
        r matches Ok(v) ==> v@.len() == message@.len() + 48,
{
    match random_32_bytes() {
        Ok(ephemeral_secret) => {
            let v = encrypt_buf_with_ephemeral(public_key, message, &ephemeral_secret);
            assert(ephemeral_secret@.len() == 32);
            Ok(v)
        },
        Err(_) => Err(EncryptError::RngInitializationFailed),
    }
}

/// Opens a box with `private_key`: a message shorter than the 48-byte header
/// is malformed; otherwise the key agreed with the ephemeral public key must
/// authenticate the ciphertext, which then decrypts to a plaintext of the
/// same length. A ciphertext beyond `CIPHER_MAX_LEN` bytes is answered as
/// invalid: the cipher's block counter cannot cover it. A box sealed to a public key opens to its message whenever
/// `private_key` derives the same shared value as the sender did.
pub fn decrypt_buf(private_key: &[u8; 32], message: &[u8]) -> (r: Result<Vec<u8>, DecryptError>)
    ensures
        bytes_result(r) == opened_box(private_key@, message@),
        r matches Ok(p) ==> p@.len() == message@.len() - 48,
        r is Ok ==> message@.len() >= 48 && chacha20_poly1305_open(
            x25519(private_key@, message@.subrange(0, 32))@,
            eight_zero_bytes(),
            Seq::<u8>::empty(),
            message@.subrange(48, message@.len() as int),
            message@.subrange(32, 48),
        ) == Some(r->Ok_0@),
        48 <= message@.len() <= CIPHER_MAX_LEN + 48 && chacha20_poly1305_open(
            x25519(private_key@, message@.subrange(0, 32))@,
            eight_zero_bytes(),
            Seq::<u8>::empty(),
            message@.subrange(48, message@.len() as int),
            message@.subrange(32, 48),
        ) is Some ==> r is Ok,
        forall|public_key: Seq<u8>, m: Seq<u8>, e: Seq<u8>|
            e.len() == 32 && keys_agree(private_key@, e, public_key) && message@.len()
                <= CIPHER_MAX_LEN + 48 && message@ == #[trigger] sealed_box(public_key, m, e)
                ==> r is Ok && r->Ok_0@ == m,
{
    proof {
        lemma_opened_box_layout(private_key@, message@);
    }
    if message.len() < 48 {
        return Err(DecryptError::Malformed);
    }
    if (message.len() - 48) as u64 > CIPHER_MAX_LEN {
        return Err(DecryptError::Invalid);
    }
    let ephemeral_public_key = bytes_32_at(message, 0);
    let tag = &message[32..48];
    let ciphertext = &message[48..message.len()];
    let symmetric_key = curve25519(private_key, &ephemeral_public_key);
    let nonce: [u8; 8] = [0; 8];
    let aad: [u8; 0] = [];
    assert(nonce@ =~= zero_nonce());
    assert(aad@ =~= Seq::<u8>::empty());
    let (ok, plaintext) = chacha20_poly1305_decrypt(&symmetric_key, &nonce, &aad, ciphertext, tag);
    proof {
        assert forall|public_key: Seq<u8>, m: Seq<u8>, e: Seq<u8>|
            e.len() == 32 && keys_agree(private_key@, e, public_key) && message@.len()
                <= CIPHER_MAX_LEN + 48 && message@ == #[trigger] sealed_box(
                public_key,
                m,
                e,
            ) implies ok && plaintext@ == m by {
            let key = x25519(e, public_key);
            let sealed = chacha20_poly1305_seal(key@, zero_nonce(), Seq::empty(), m);
            let ephemeral = x25519(e, base_point())@;
            assert(message@ == ephemeral + sealed.1@ + sealed.0);
            assert(message@.subrange(0, 32) =~= ephemeral);
            assert(ephemeral == ephemeral_public_key@);
            assert(symmetric_key == key);
            assert(ciphertext@ =~= sealed.0);
            assert(tag@ =~= sealed.1@);
        }
    }
    if !ok {
        return Err(DecryptError::Invalid);
    }
    Ok(plaintext)
}

} // verus!
