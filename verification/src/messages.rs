//! Messages exchanged as text: a base64 key text and a message in, the base64
//! text of the sealed box out; and back.
use vstd::prelude::*;

use crate::encoding::{
    base64_decoded, base64_standard, base64_text, decode_base64, decode_key, decoded_key,
    encode_base64, KeyError,
};
use crate::primitives::{keys_agree, random_32_bytes, CIPHER_MAX_LEN};
use crate::sealed_box::{
    bytes_result, decrypt_buf, encrypt_buf_with_ephemeral, opened_box, sealed_box, DecryptError,
    EncryptError,
};

verus! {

/// Why a message could not be encrypted or decrypted.
#[derive(Debug, Clone, Copy, PartialEq, Eq, Structural)]
pub enum MessageError {
    /// The key text is no base64.
    KeyNotBase64,
    /// The key text decodes to other than 32 bytes.
    KeyWrongSize,
    /// The message text is no base64.
    MessageNotBase64,
    Encrypt(EncryptError),
    Decrypt(DecryptError),
}

/// The message error for a key error.
pub open spec fn key_error(e: KeyError) -> MessageError {
    match e {
        KeyError::NotBase64 => MessageError::KeyNotBase64,
        KeyError::WrongSize => MessageError::KeyWrongSize,
    }
}

fn map_key_error(e: KeyError) -> (r: MessageError)
    ensures
        r == key_error(e),
{
    match e {
        KeyError::NotBase64 => MessageError::KeyNotBase64,
        KeyError::WrongSize => MessageError::KeyWrongSize,
    }
}

/// Encrypts `message` to the public key held in `public_key_text` with the
/// given ephemeral secret, and returns the base64 text of the sealed box, a
/// box 48 bytes longer than the message.
pub fn encrypt_message_with_ephemeral(
    public_key_text: &[u8],
    message: &[u8],
    ephemeral_secret: &[u8; 32],
) -> (r: Result<String, MessageError>)
    requires
        message@.len() + 48 <= usize::MAX,
        message@.len() <= CIPHER_MAX_LEN,
    ensures
        match decoded_key(public_key_text@) {
            Err(e) => r == Err::<String, MessageError>(key_error(e)),
            Ok(public_key) => r is Ok && r->Ok_0@ == base64_text(
                sealed_box(public_key, message@, ephemeral_secret@),
            ) && sealed_box(public_key, message@, ephemeral_secret@).len() == message@.len() + 48,
        },
        r is Ok ==> r->Ok_0@.len() == 4 * ((message@.len() + 50) / 3),
{
    let public_key = match decode_key(public_key_text) {
        Ok(k) => k,
        Err(e) => return Err(map_key_error(e)),
    };
    let sealed = encrypt_buf_with_ephemeral(&public_key, message, ephemeral_secret);
    Ok(encode_base64(sealed.as_slice()))
}

/// Encrypts `message` to the public key held in `public_key_text` under a
/// fresh ephemeral secret, and returns the base64 text of the sealed box, a
/// box 48 bytes longer than the message.
pub fn encrypt_message(public_key_text: &[u8], message: &[u8]) -> (r: Result<
    String,
    MessageError,
>)
    requires
        message@.len() + 48 <= usize::MAX,
        message@.len() <= CIPHER_MAX_LEN,
    ensures
        decoded_key(public_key_text@) matches Err(e) ==> r == Err::<String, MessageError>(
            key_error(e),
        ),
        r is Ok ==> exists|e: Seq<u8>|
            e.len() == 32 && r->Ok_0@ == base64_text(
                #[trigger] sealed_box(decoded_key(public_key_text@)->Ok_0, message@, e),
            ) && sealed_box(decoded_key(public_key_text@)->Ok_0, message@, e).len()
                == message@.len() + 48,
        r is Ok ==> r->Ok_0@.len() == 4 * ((message@.len() + 50) / 3),
        r is Err ==> decoded_key(public_key_text@) is Err || r == Err::<String, MessageError>(
            MessageError::Encrypt(EncryptError::RngInitializationFailed),
        ),
{
    match decode_key(public_key_text) {
        Err(e) => Err(map_key_error(e)),
        Ok(_) => match random_32_bytes() {
            Ok(ephemeral_secret) => {
                assert(ephemeral_secret@.len() == 32);
                encrypt_message_with_ephemeral(public_key_text, message, &ephemeral_secret)
            },
            Err(_) => Err(MessageError::Encrypt(EncryptError::RngInitializationFailed)),
        },
    }
}

/// What decrypting the base64 text of a sealed box with the private key held
/// in `private_key_text` gives.
pub open spec fn decrypted_message(private_key_text: Seq<u8>, message_text: Seq<u8>) -> Result<
    Seq<u8>,
    MessageError,
> {
    match decoded_key(private_key_text) {
        Err(e) => Err(key_error(e)),
        Ok(private_key) => match base64_decoded(message_text) {
            None => Err(MessageError::MessageNotBase64),
            Some(sealed) => match opened_box(private_key, sealed) {
                Err(e) => Err(MessageError::Decrypt(e)),
                Ok(m) => Ok(m),
            },
        },
    }
}

/// Decrypts the base64 text of a sealed box with the private key held in
/// `private_key_text`; the message is 48 bytes shorter than the box. The
/// text of a box sealed to a public key decrypts to its message whenever the
/// private key derives the same shared value as the sender did.
pub fn decrypt_message(private_key_text: &[u8], message_text: &[u8]) -> (r: Result<
    Vec<u8>,
    MessageError,
>)
    ensures
        bytes_result(r) == decrypted_message(private_key_text@, message_text@),
        r matches Ok(p) ==> base64_decoded(message_text@) matches Some(s) && p@.len() == s.len()
            - 48,
        forall|k: Seq<u8>, public_key: Seq<u8>, m: Seq<u8>, e: Seq<u8>|
            #![trigger base64_standard(k), base64_standard(sealed_box(public_key, m, e))]
            k.len() == 32 && e.len() == 32 && keys_agree(k, e, public_key) && sealed_box(
                public_key,
                m,
                e,
            ).len() <= CIPHER_MAX_LEN + 48 && private_key_text@ == base64_standard(k)
                && message_text@ == base64_standard(sealed_box(public_key, m, e)) ==> r is Ok
                && r->Ok_0@ == m,
{
    let private_key = match decode_key(private_key_text) {
        Ok(k) => k,
        Err(e) => return Err(map_key_error(e)),
    };
    let sealed = match decode_base64(message_text) {
        Some(s) => s,
        None => return Err(MessageError::MessageNotBase64),
    };
    match decrypt_buf(&private_key, sealed.as_slice()) {
        Ok(m) => Ok(m),
        Err(e) => Err(MessageError::Decrypt(e)),
    }
}

} // verus!
