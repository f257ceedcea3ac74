use cscrypto::encoding::{
    decode_base64, decode_key, encode_base64, generate_key_pair, key_pair_from_private, KeyError,
};

fn hex32(s: &str) -> [u8; 32] {
    let mut out = [0u8; 32];
    for i in 0..32 {
        out[i] = u8::from_str_radix(&s[2 * i..2 * i + 2], 16).unwrap();
    }
    out
}

#[test]
fn base64_known_values() {
    assert_eq!(encode_base64(&[52, 32]), "NCA=");
    assert_eq!(encode_base64(b"Hello, World"), "SGVsbG8sIFdvcmxk");
    assert_eq!(encode_base64(b"a"), "YQ==");
    assert_eq!(encode_base64(b""), "");
    assert_eq!(encode_base64(&[0xFB, 0xFF]), "+/8=");
}

#[test]
fn base64_decodes_what_it_encodes() {
    let data: Vec<u8> = (0u8..=255).collect();
    let text = encode_base64(&data);
    assert_eq!(decode_base64(text.as_bytes()), Some(data));
    assert_eq!(decode_base64(b"not base64!"), None);
}

#[test]
fn key_text_round_trip() {
    let key = [17u8; 32];
    let text = encode_base64(&key);
    assert_eq!(decode_key(text.as_bytes()), Ok(key));
}

#[test]
fn key_text_errors() {
    assert_eq!(decode_key(b"*&^"), Err(KeyError::NotBase64));
    let short = encode_base64(&[1u8; 31]);
    assert_eq!(decode_key(short.as_bytes()), Err(KeyError::WrongSize));
    let long = encode_base64(&[1u8; 33]);
    assert_eq!(decode_key(long.as_bytes()), Err(KeyError::WrongSize));
}

#[test]
fn public_key_matches_rfc7748_vector() {
    let alice = hex32("77076d0a7318a57d3c16c17251b26645df4c2f87ebc0992ab177fba51db92c2a");
    let expected = hex32("8520f0098930a754748b7ddcb43ef75a0dbf3a0d26381af4eba4a98eaa9b4e6a");
    let kp = key_pair_from_private(alice);
    assert_eq!(kp.private_key, alice);
    assert_eq!(kp.public_key, expected);
}

#[test]
fn generated_key_pair_is_consistent() {
    let kp = generate_key_pair().ok().unwrap();
    assert_eq!(key_pair_from_private(kp.private_key).public_key, kp.public_key);
}
