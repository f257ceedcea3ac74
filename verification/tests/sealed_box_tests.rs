use cscrypto::encoding::key_pair_from_private;
use cscrypto::sealed_box::{
    decrypt_buf, encrypt_buf, encrypt_buf_with_ephemeral, DecryptError,
};

fn private_key() -> [u8; 32] {
    let mut k = [0u8; 32];
    for (i, b) in k.iter_mut().enumerate() {
        *b = (i as u8).wrapping_mul(7).wrapping_add(3);
    }
    k
}

#[test]
fn it_works() {}

#[test]
fn sealed_box_opens_to_its_message() {
    let kp = key_pair_from_private(private_key());
    let message = b"attack at dawn";
    let sealed = encrypt_buf(&kp.public_key, message).ok().unwrap();
    assert_eq!(sealed.len(), message.len() + 48);
    let opened = decrypt_buf(&kp.private_key, &sealed);
    assert_eq!(opened, Ok(message.to_vec()));
}

#[test]
fn sealed_box_with_ephemeral_is_deterministic() {
    let kp = key_pair_from_private(private_key());
    let eph = [5u8; 32];
    let a = encrypt_buf_with_ephemeral(&kp.public_key, b"xyz", &eph);
    let b = encrypt_buf_with_ephemeral(&kp.public_key, b"xyz", &eph);
    assert_eq!(a, b);
    let eph_pub = key_pair_from_private(eph).public_key;
    assert_eq!(&a[0..32], &eph_pub[..]);
    assert_ne!(&a[48..], &b"xyz"[..]);
    assert_eq!(decrypt_buf(&kp.private_key, &a), Ok(b"xyz".to_vec()));
}

#[test]
fn empty_message_seals_to_header_only() {
    let kp = key_pair_from_private(private_key());
    let sealed = encrypt_buf_with_ephemeral(&kp.public_key, b"", &[9u8; 32]);
    assert_eq!(sealed.len(), 48);
    assert_eq!(decrypt_buf(&kp.private_key, &sealed), Ok(Vec::new()));
}

#[test]
fn short_box_is_malformed() {
    let kp = key_pair_from_private(private_key());
    assert_eq!(decrypt_buf(&kp.private_key, &[0u8; 47]), Err(DecryptError::Malformed));
    assert_eq!(decrypt_buf(&kp.private_key, &[]), Err(DecryptError::Malformed));
}

#[test]
fn tampered_box_is_invalid() {
    let kp = key_pair_from_private(private_key());
    let mut sealed = encrypt_buf_with_ephemeral(&kp.public_key, b"hello", &[1u8; 32]);
    let last = sealed.len() - 1;
    sealed[last] ^= 1;
    assert_eq!(decrypt_buf(&kp.private_key, &sealed), Err(DecryptError::Invalid));
}

#[test]
fn wrong_private_key_is_invalid() {
    let kp = key_pair_from_private(private_key());
    let sealed = encrypt_buf_with_ephemeral(&kp.public_key, b"hello", &[1u8; 32]);
    assert_eq!(decrypt_buf(&[42u8; 32], &sealed), Err(DecryptError::Invalid));
}

#[test]
fn opened_message_is_48_bytes_shorter() {
    let kp = key_pair_from_private(private_key());
    let sealed = encrypt_buf_with_ephemeral(&kp.public_key, &[7u8; 100], &[3u8; 32]);
    assert_eq!(sealed.len(), 148);
    let opened = decrypt_buf(&kp.private_key, &sealed).unwrap();
    assert_eq!(opened.len(), sealed.len() - 48);
}
