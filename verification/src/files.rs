//! Encrypting and decrypting files: the steps between the compressed input
//! and the container, and from the stored base64 text back to the plaintext.
use vstd::prelude::*;

use crate::container::{
    lemma_high_roundtrip, lemma_medium_roundtrip, marker_base, medium_sealable,
    open_container, parsed_container, seal_high, seal_medium, sealed_high, sealed_medium,
    Container, ContainerError, ContainerView,
};
use crate::encoding::{base64_decoded, decode_base64};
use crate::primitives::{keys_agree, random_32_bytes, CIPHER_MAX_LEN};
use crate::sealed_box::{
    decrypt_buf, encrypt_buf_with_ephemeral, opened_box, sealed_box, DecryptError,
    EncryptError,
};

verus! {

#[verifier::external_type_specification]
#[verifier::external_body]
pub struct ExIoError(std::io::Error);

/// What reading a `brotli::Decompressor` over `data`, with the 4096-byte
/// buffer stored files are read with, to its end gives; nothing when a read
/// reports an error.
pub uninterp spec fn brotli_decompressed(data: Seq<u8>) -> Option<Seq<u8>>;

/// `brotli::Decompressor::new(data, 4096)` read to its end. Claimed: the
/// outcome is `brotli_decompressed(data)`.
#[verifier::external_body]
fn brotli_decompress(data: &[u8]) -> (r: Result<Vec<u8>, std::io::Error>)
    ensures
        r is Ok <==> brotli_decompressed(data@) is Some,
        r is Ok ==> brotli_decompressed(data@) == Some(r->Ok_0@),
{
    let mut reader = brotli::Decompressor::new(data, 4096);
    let mut out: Vec<u8> = Vec::new();
    match std::io::Read::read_to_end(&mut reader, &mut out) {
        Ok(_) => Ok(out),
        Err(e) => Err(e),
    }
}

/// Decompresses a brotli stream; `None` when the stream is not valid.
pub fn decompress(data: &[u8]) -> (r: Option<Vec<u8>>)
    ensures
        r is Some <==> brotli_decompressed(data@) is Some,
        r is Some ==> brotli_decompressed(data@) == Some(r->0@),
{
    match brotli_decompress(data) {
        Ok(v) => Some(v),
        Err(_) => None,
    }
}

/// The sealed key of a medium-level file: the symmetric key followed by the
/// IV, sealed to the public key.
pub open spec fn sealed_key_material(
    public_key: Seq<u8>,
    key: Seq<u8>,
    iv: Seq<u8>,
    ephemeral: Seq<u8>,
) -> Seq<u8> {
    sealed_box(public_key, key + iv, ephemeral)
}

/// Whether a medium-level container can be written for `body` with a sealed
/// key material of `key` and `iv`.
pub open spec fn medium_level_sealable(body: Seq<u8>, key: Seq<u8>, iv: Seq<u8>) -> bool {
    &&& body.len() >= 2
    &&& marker_base(body) + (key.len() + iv.len() + 48) % 65536 <= u16::MAX
    &&& body.len() + key.len() + iv.len() + 52 <= usize::MAX
    &&& key.len() + iv.len() <= CIPHER_MAX_LEN
}

/// Writes the medium-level container of an encrypted body: the symmetric key
/// and IV are sealed to `public_key` under the given ephemeral secret, which
/// makes the sealed key 48 bytes longer than key and IV together. When that is
/// under 65536 bytes, the container reads back as the body and sealed key.
pub fn seal_medium_level_with_ephemeral(
    public_key: &[u8; 32],
    body: Vec<u8>,
    key: Vec<u8>,
    iv: Vec<u8>,
    ephemeral_secret: &[u8; 32],
) -> (r: Vec<u8>)
    requires
        medium_level_sealable(body@, key@, iv@),
    ensures
        r@ == sealed_medium(
            body@,
            sealed_key_material(public_key@, key@, iv@, ephemeral_secret@),
        ),
        sealed_key_material(public_key@, key@, iv@, ephemeral_secret@).len() == key@.len()
            + iv@.len() + 48,
        r@.len() == body@.len() + key@.len() + iv@.len() + 52,
        r@ == sealed_medium(body@, sealed_box(public_key@, key@ + iv@, ephemeral_secret@)),
        key@.len() + iv@.len() + 48 < 65536 ==> parsed_container(r@) == Ok::<
            ContainerView,
            ContainerError,
        >(
            ContainerView::Medium {
                body: body@,
                sealed_key: sealed_key_material(public_key@, key@, iv@, ephemeral_secret@),
            },
        ),
{
    let ghost b = body@;
    let mut material = key;
    let mut tail = iv;
    material.append(&mut tail);
    assert(material@ =~= key@ + iv@);
    let sealed_key = encrypt_buf_with_ephemeral(public_key, material.as_slice(), ephemeral_secret);
    proof {
        if key@.len() + iv@.len() + 48 < 65536 {
            lemma_medium_roundtrip(b, sealed_key@);
        }
    }
    seal_medium(body, sealed_key)
}

/// Writes the medium-level container of an encrypted body, sealing the key
/// and IV under a fresh ephemeral secret; fails when the random generator
/// fails.
pub fn seal_medium_level(public_key: &[u8; 32], body: Vec<u8>, key: Vec<u8>, iv: Vec<u8>) -> (r:
    Result<Vec<u8>, EncryptError>)
    requires
        medium_level_sealable(body@, key@, iv@),
    ensures
        r is Ok ==> exists|e: Seq<u8>|
            e.len() == 32 && r->Ok_0@ == sealed_medium(
                body@,
                #[trigger] sealed_key_material(public_key@, key@, iv@, e),
            ) && sealed_key_material(public_key@, key@, iv@, e).len() == key@.len() + iv@.len()
                + 48,
        r is Ok ==> r->Ok_0@.len() == body@.len() + key@.len() + iv@.len() + 52,
{
    match random_32_bytes() {
        Ok(ephemeral_secret) => {
            let v = seal_medium_level_with_ephemeral(public_key, body, key, iv, &ephemeral_secret);
            assert(ephemeral_secret@.len() == 32);
            Ok(v)
        },
        Err(_) => Err(EncryptError::RngInitializationFailed),
    }
}

/// Writes the high-level container of compressed data sealed to
/// `public_key` under the given ephemeral secret; it reads back as the sealed
/// box.
pub fn seal_high_level_with_ephemeral(
    public_key: &[u8; 32],
    compressed: &[u8],
    ephemeral_secret: &[u8; 32],
) -> (r: Vec<u8>)
    requires
        compressed@.len() + 50 <= usize::MAX,
        compressed@.len() <= CIPHER_MAX_LEN,
    ensures
        r@ == sealed_high(sealed_box(public_key@, compressed@, ephemeral_secret@)),
        r@.len() == compressed@.len() + 50,
        parsed_container(r@) == Ok::<ContainerView, ContainerError>(
            ContainerView::High { body: sealed_box(public_key@, compressed@, ephemeral_secret@) },
        ),
{
    let body = encrypt_buf_with_ephemeral(public_key, compressed, ephemeral_secret);
    proof {
        lemma_high_roundtrip(body@);
    }
    seal_high(body)
}

/// Writes the high-level container of compressed data sealed to
/// `public_key` under a fresh ephemeral secret; fails when the random
/// generator fails.
pub fn seal_high_level(public_key: &[u8; 32], compressed: &[u8]) -> (r: Result<
    Vec<u8>,
    EncryptError,
>)
    requires
        compressed@.len() + 50 <= usize::MAX,
        compressed@.len() <= CIPHER_MAX_LEN,
    ensures
        r is Ok ==> exists|e: Seq<u8>|
            e.len() == 32 && r->Ok_0@ == sealed_high(
                #[trigger] sealed_box(public_key@, compressed@, e),
            ),
        r is Ok ==> r->Ok_0@.len() == compressed@.len() + 50,
{
    match random_32_bytes() {
        Ok(ephemeral_secret) => {
            assert(ephemeral_secret@.len() == 32);
            Ok(seal_high_level_with_ephemeral(public_key, compressed, &ephemeral_secret))
        },
        Err(_) => Err(EncryptError::RngInitializationFailed),
    }
}

/// Why a stored file could not be decrypted.
#[derive(Debug, Clone, Copy, PartialEq, Eq, Structural)]
pub enum UnsealError {
    /// The stored text is no base64.
    NotBase64,
    /// A brotli stream is not valid.
    Decompress,
    /// The container could not be read.
    Container(ContainerError),
    /// The sealed key material of a medium-level file did not open.
    KeyDecrypt(DecryptError),
    /// The key material holds fewer than 128 bytes of IV.
    ShortKeyMaterial,
    /// The sealed data of a high-level file did not open.
    DataDecrypt(DecryptError),
}

/// What decrypting a stored file gives: for the medium level the body still
/// under its symmetric cipher with the key and IV that decrypt it, for the
/// high level the plaintext.
pub enum UnsealedView {
    Medium { body: Seq<u8>, key: Seq<u8>, iv: Seq<u8> },
    High { plaintext: Seq<u8> },
    Unrecognized { level: int },
}

/// What decrypting a stored file gives, as exec values.
#[derive(Debug)]
pub enum Unsealed {
    Medium { body: Vec<u8>, key: Vec<u8>, iv: Vec<u8> },
    High { plaintext: Vec<u8> },
    Unrecognized { level: u16 },
}

impl View for Unsealed {
    type V = UnsealedView;

    open spec fn view(&self) -> UnsealedView {
        match self {
            Unsealed::Medium { body, key, iv } => UnsealedView::Medium {
                body: body@,
                key: key@,
                iv: iv@,
            },
            Unsealed::High { plaintext } => UnsealedView::High { plaintext: plaintext@ },
            Unsealed::Unrecognized { level } => UnsealedView::Unrecognized { level: *level as int },
        }
    }
}

/// The key and IV of opened key material: the last 128 bytes are the IV.
pub open spec fn split_key_material(material: Seq<u8>) -> Result<(Seq<u8>, Seq<u8>), UnsealError> {
    if material.len() < 128 {
        Err(UnsealError::ShortKeyMaterial)
    } else {
        let cut = material.len() - 128;
        Ok((material.subrange(0, cut), material.subrange(cut, material.len() as int)))
    }
}

/// The sealed key of a medium-level file is the sealed box of the key
/// followed by the IV; reading opened key material of key followed by a
/// 128-byte IV gives back that key and IV.
pub proof fn lemma_key_material(public_key: Seq<u8>, key: Seq<u8>, iv: Seq<u8>, e: Seq<u8>)
    ensures
        sealed_key_material(public_key, key, iv, e) == sealed_box(public_key, key + iv, e),
        iv.len() == 128 ==> split_key_material(key + iv) == Ok::<
            (Seq<u8>, Seq<u8>),
            UnsealError,
        >((key, iv)),
{
    if iv.len() == 128 {
        let m = key + iv;
        assert(m.subrange(0, m.len() - 128) =~= key);
        assert(m.subrange(m.len() - 128, m.len() as int) =~= iv);
    }
}

/// Opened key material splits into a key and an IV that, in that order, make
/// up the material, the IV being its last 128 bytes; material shorter than
/// 128 bytes is refused.
pub proof fn lemma_split_key_material(material: Seq<u8>)
    ensures
        material.len() >= 128 ==> (split_key_material(material) matches Ok((k, v)) && k + v
            == material && v.len() == 128),
        material.len() < 128 ==> split_key_material(material) == Err::<
            (Seq<u8>, Seq<u8>),
            UnsealError,
        >(UnsealError::ShortKeyMaterial),
{
    if material.len() >= 128 {
        let cut = material.len() - 128;
        assert(material.subrange(0, cut) + material.subrange(cut, material.len() as int)
            =~= material);
    }
}

/// What decrypting a container with `private_key` gives.
pub open spec fn unsealed_container(private_key: Seq<u8>, data: Seq<u8>) -> Result<
    UnsealedView,
    UnsealError,
> {
    match parsed_container(data) {
        Err(e) => Err(UnsealError::Container(e)),
        Ok(ContainerView::Medium { body, sealed_key }) => match opened_box(private_key, sealed_key) {
            Err(e) => Err(UnsealError::KeyDecrypt(e)),
            Ok(material) => match split_key_material(material) {
                Err(e) => Err(e),
                Ok((key, iv)) => Ok(UnsealedView::Medium { body, key, iv }),
            },
        },
        Ok(ContainerView::High { body }) => match opened_box(private_key, body) {
            Err(e) => Err(UnsealError::DataDecrypt(e)),
            Ok(sealed_data) => match brotli_decompressed(sealed_data) {
                None => Err(UnsealError::Decompress),
                Some(plaintext) => Ok(UnsealedView::High { plaintext }),
            },
        },
        Ok(ContainerView::Unrecognized { level }) => Ok(UnsealedView::Unrecognized { level }),
    }
}

/// The container that the stored base64 text of a file holds: the text
/// decoded and decompressed.
pub open spec fn stored_container(text: Seq<u8>) -> Option<Seq<u8>> {
    match base64_decoded(text) {
        None => None,
        Some(compressed) => brotli_decompressed(compressed),
    }
}

/// What decrypting the stored base64 text of a file with `private_key` gives.
pub open spec fn unsealed(private_key: Seq<u8>, text: Seq<u8>) -> Result<UnsealedView, UnsealError> {
    match base64_decoded(text) {
        None => Err(UnsealError::NotBase64),
        Some(compressed) => match brotli_decompressed(compressed) {
            None => Err(UnsealError::Decompress),
            Some(data) => unsealed_container(private_key, data),
        },
    }
}

/// Whether `data` is a medium-level container written for `body`, `key` and
/// `iv` (with a 128-byte IV, as files are written) sealed to `public_key`
/// under the ephemeral secret `e`, with a sealed key short enough for the
/// container's two-byte length field.
pub open spec fn medium_written(
    data: Seq<u8>,
    public_key: Seq<u8>,
    body: Seq<u8>,
    key: Seq<u8>,
    iv: Seq<u8>,
    e: Seq<u8>,
) -> bool {
    let sealed_key = sealed_key_material(public_key, key, iv, e);
    &&& e.len() == 32
    &&& iv.len() == 128
    &&& medium_sealable(body, sealed_key)
    &&& sealed_key.len() < 65536
    &&& data == sealed_medium(body, sealed_key)
}

/// Whether `data` is a high-level container written for `compressed` sealed
/// to `public_key` under the ephemeral secret `e`, short enough for the
/// cipher to process.
pub open spec fn high_written(
    data: Seq<u8>,
    public_key: Seq<u8>,
    compressed: Seq<u8>,
    e: Seq<u8>,
) -> bool {
    &&& e.len() == 32
    &&& data.len() <= CIPHER_MAX_LEN + 50
    &&& data == sealed_high(sealed_box(public_key, compressed, e))
}

/// What decrypting the high-level container of `compressed` gives back: the
/// decompressed data, or the decompression error.
pub open spec fn high_outcome(compressed: Seq<u8>) -> Result<UnsealedView, UnsealError> {
    match brotli_decompressed(compressed) {
        None => Err(UnsealError::Decompress),
        Some(plaintext) => Ok(UnsealedView::High { plaintext }),
    }
}

/// A result of decrypting a file, taken by its view.
pub open spec fn unsealed_result(r: Result<Unsealed, UnsealError>) -> Result<
    UnsealedView,
    UnsealError,
> {
    match r {
        Ok(u) => Ok(u@),
        Err(e) => Err(e),
    }
}

/// Decrypts a container with `private_key`: reads it, and opens the sealed
/// key material (medium level) or the sealed compressed data (high level,
/// which is then decompressed). A container written for a public key opens
/// to what was sealed whenever `private_key` derives the same shared value as
/// the sender did: the body, key and IV at the medium level, the decompressed
/// data at the high level.
pub fn unseal_container(private_key: &[u8; 32], data: Vec<u8>) -> (r: Result<Unsealed, UnsealError>)
    ensures
        unsealed_result(r) == unsealed_container(private_key@, data@),
        r matches Ok(Unsealed::Medium { body, key, iv }) ==> iv@.len() == 128 && exists|
            sealed_key: Seq<u8>,
        |
            parsed_container(data@) == Ok::<ContainerView, ContainerError>(
                ContainerView::Medium { body: body@, sealed_key },
            ) && #[trigger] opened_box(private_key@, sealed_key) == Ok::<Seq<u8>, DecryptError>(
                key@ + iv@,
            ),
        forall|public_key: Seq<u8>, body: Seq<u8>, key: Seq<u8>, iv: Seq<u8>, e: Seq<u8>|
            #[trigger] medium_written(data@, public_key, body, key, iv, e) && keys_agree(
                private_key@,
                e,
                public_key,
            ) ==> unsealed_result(r) == Ok::<UnsealedView, UnsealError>(
                UnsealedView::Medium { body, key, iv },
            ),
        forall|public_key: Seq<u8>, compressed: Seq<u8>, e: Seq<u8>|
            #[trigger] high_written(data@, public_key, compressed, e) && keys_agree(
                private_key@,
                e,
                public_key,
            ) ==> unsealed_result(r) == high_outcome(compressed),
{
    let ghost d = data@;
    proof {
        assert forall|public_key: Seq<u8>, body: Seq<u8>, key: Seq<u8>, iv: Seq<u8>, e: Seq<u8>|
            #[trigger] medium_written(d, public_key, body, key, iv, e) implies parsed_container(d)
            == Ok::<ContainerView, ContainerError>(
            ContainerView::Medium { body, sealed_key: sealed_key_material(public_key, key, iv, e) },
        ) by {
            lemma_medium_roundtrip(body, sealed_key_material(public_key, key, iv, e));
        }
        assert forall|public_key: Seq<u8>, compressed: Seq<u8>, e: Seq<u8>|
            #[trigger] high_written(d, public_key, compressed, e) implies parsed_container(d)
            == Ok::<ContainerView, ContainerError>(
            ContainerView::High { body: sealed_box(public_key, compressed, e) },
        ) by {
            lemma_high_roundtrip(sealed_box(public_key, compressed, e));
        }
    }
    match open_container(data) {
        Err(e) => Err(UnsealError::Container(e)),
        Ok(Container::Medium { body, sealed_key }) => {
            match decrypt_buf(private_key, sealed_key.as_slice()) {
                Err(e) => Err(UnsealError::KeyDecrypt(e)),
                Ok(material) => {
                    let n = material.len();
                    if n < 128 {
                        return Err(UnsealError::ShortKeyMaterial);
                    }
                    let ghost m = material@;
                    let mut key = material;
                    let iv = key.split_off(n - 128);
                    proof {
                        assert forall|
                            public_key: Seq<u8>,
                            b: Seq<u8>,
                            k: Seq<u8>,
                            v: Seq<u8>,
                            e: Seq<u8>,
                        |
                            #[trigger] medium_written(d, public_key, b, k, v, e) && keys_agree(
                                private_key@,
                                e,
                                public_key,
                            ) implies key@ == k && iv@ == v by {
                            assert(m == k + v);
                            assert(key@ =~= k);
                            assert(iv@ =~= v);
                        }
                    }
                    assert(key@ + iv@ =~= m);
                    assert(opened_box(private_key@, sealed_key@) == Ok::<Seq<u8>, DecryptError>(
                        key@ + iv@,
                    ));
                    Ok(Unsealed::Medium { body, key, iv })
                },
            }
        },
        Ok(Container::High { body }) => {
            match decrypt_buf(private_key, body.as_slice()) {
                Err(e) => Err(UnsealError::DataDecrypt(e)),
                Ok(sealed_data) => match brotli_decompress(sealed_data.as_slice()) {
                    Err(_) => Err(UnsealError::Decompress),
                    Ok(plaintext) => Ok(Unsealed::High { plaintext }),
                },
            }
        },
        Ok(Container::Unrecognized { level }) => Ok(Unsealed::Unrecognized { level }),
    }
}

/// Decrypts the stored base64 text of a file with `private_key`: decodes and
/// decompresses it, then decrypts the container it holds. The text of a file
/// written for a public key decrypts to what was sealed whenever
/// `private_key` derives the same shared value as the sender did.
pub fn unseal(private_key: &[u8; 32], text: &[u8]) -> (r: Result<Unsealed, UnsealError>)
    ensures
        unsealed_result(r) == unsealed(private_key@, text@),
        forall|
            data: Seq<u8>,
            public_key: Seq<u8>,
            body: Seq<u8>,
            key: Seq<u8>,
            iv: Seq<u8>,
            e: Seq<u8>,
        |
            stored_container(text@) == Some(data) && #[trigger] medium_written(
                data,
                public_key,
                body,
                key,
                iv,
                e,
            ) && keys_agree(private_key@, e, public_key) ==> unsealed_result(r) == Ok::<
                UnsealedView,
                UnsealError,
            >(UnsealedView::Medium { body, key, iv }),
        forall|data: Seq<u8>, public_key: Seq<u8>, compressed: Seq<u8>, e: Seq<u8>|
            stored_container(text@) == Some(data) && #[trigger] high_written(
                data,
                public_key,
                compressed,
                e,
            ) && keys_agree(private_key@, e, public_key) ==> unsealed_result(r) == high_outcome(
                compressed,
            ),
{
    let compressed = match decode_base64(text) {
        Some(c) => c,
        None => return Err(UnsealError::NotBase64),
    };
    let data = match brotli_decompress(compressed.as_slice()) {
        Ok(d) => d,
        Err(_) => return Err(UnsealError::Decompress),
    };
    unseal_container(private_key, data)
}

} // verus!
