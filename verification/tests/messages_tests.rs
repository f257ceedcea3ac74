use cscrypto::encoding::{encode_base64, key_pair_from_private};
use cscrypto::messages::{
    decrypt_message, encrypt_message, encrypt_message_with_ephemeral, MessageError,
};
use cscrypto::sealed_box::DecryptError;

#[test]
fn message_text_round_trip() {
    let kp = key_pair_from_private([8u8; 32]);
    let public_text = encode_base64(&kp.public_key);
    let private_text = encode_base64(&kp.private_key);
    let sealed = encrypt_message(public_text.as_bytes(), b"hello world").unwrap();
    assert_eq!(decrypt_message(private_text.as_bytes(), sealed.as_bytes()), Ok(b"hello world".to_vec()));
    let sealed = encrypt_message_with_ephemeral(public_text.as_bytes(), b"", &[2u8; 32]).unwrap();
    assert_eq!(sealed.len(), 64);
    assert_eq!(decrypt_message(private_text.as_bytes(), sealed.as_bytes()), Ok(Vec::new()));
}

#[test]
fn message_errors() {
    let short = encode_base64(&[1u8; 16]);
    assert_eq!(encrypt_message(b"%%%", b"m").err(), Some(MessageError::KeyNotBase64));
    assert_eq!(encrypt_message(short.as_bytes(), b"m").err(), Some(MessageError::KeyWrongSize));
    let private_text = encode_base64(&[8u8; 32]);
    assert_eq!(decrypt_message(private_text.as_bytes(), b"%%%"), Err(MessageError::MessageNotBase64));
    let tiny = encode_base64(&[0u8; 10]);
    assert_eq!(
        decrypt_message(private_text.as_bytes(), tiny.as_bytes()),
        Err(MessageError::Decrypt(DecryptError::Malformed))
    );
}

#[test]
fn message_text_length() {
    let kp = key_pair_from_private([8u8; 32]);
    let public_text = encode_base64(&kp.public_key);
    // 11 + 48 = 59 bytes: 20 groups of three, 80 characters.
    let sealed = encrypt_message(public_text.as_bytes(), b"hello world").unwrap();
    assert_eq!(sealed.len(), 80);
    let sealed = encrypt_message_with_ephemeral(public_text.as_bytes(), b"abc", &[2u8; 32]).unwrap();
    assert_eq!(sealed.len(), 68);
}
