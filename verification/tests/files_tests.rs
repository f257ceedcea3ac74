use cscrypto::encoding::{encode_base64, key_pair_from_private};
use cscrypto::container::{seal_medium, ContainerError};
use cscrypto::files::{
    decompress, seal_high_level, seal_high_level_with_ephemeral, seal_medium_level,
    seal_medium_level_with_ephemeral, unseal, unseal_container, UnsealError, Unsealed,
};
use cscrypto::sealed_box::{encrypt_buf_with_ephemeral, DecryptError};

fn compress(data: &[u8]) -> Vec<u8> {
    let mut out = Vec::new();
    let params = brotli::enc::BrotliEncoderParams::default();
    brotli::BrotliCompress(&mut &data[..], &mut out, &params).unwrap();
    out
}

#[test]
fn decompress_inverts_compress() {
    let data = b"some text some text some text".to_vec();
    assert_eq!(decompress(&compress(&data)), Some(data));
    assert_eq!(decompress(&[0xFF, 0xFF, 0xFF]), None);
}

#[test]
fn medium_level_file_round_trip() {
    let kp = key_pair_from_private([3u8; 32]);
    let body = vec![10u8, 20, 30, 40, 50];
    let key = vec![0x11u8; 128];
    let iv = vec![0x22u8; 128];
    let container =
        seal_medium_level_with_ephemeral(&kp.public_key, body.clone(), key.clone(), iv.clone(), &[4u8; 32]);
    let text = encode_base64(&compress(&container));
    match unseal(&kp.private_key, text.as_bytes()) {
        Ok(Unsealed::Medium { body: b, key: k, iv: v }) => {
            assert_eq!(b, body);
            assert_eq!(k, key);
            assert_eq!(v, iv);
        },
        other => panic!("unexpected {:?}", other),
    }
}

#[test]
fn medium_level_layout() {
    // A 128-byte key and IV seal to 304 bytes; the markers follow, little-endian.
    let kp = key_pair_from_private([3u8; 32]);
    let body = vec![6u8, 9, 1, 2];
    let container =
        seal_medium_level_with_ephemeral(&kp.public_key, body.clone(), vec![1u8; 128], vec![2u8; 128], &[4u8; 32]);
    assert_eq!(container.len(), 4 + 304 + 4);
    assert_eq!(&container[..4], &body[..]);
    // gcd(6, 9) = 3: 3 + 304 = 307 and 3 + 1.
    assert_eq!(&container[308..], &[51, 1, 4, 0]);
    let fresh = seal_medium_level(&kp.public_key, body, vec![1u8; 128], vec![2u8; 128]).unwrap();
    assert_eq!(fresh.len(), 312);
}

#[test]
fn high_level_file_round_trip() {
    let kp = key_pair_from_private([3u8; 32]);
    let payload = b"payload of a high-level file".to_vec();
    let compressed = compress(&payload);
    let container = seal_high_level_with_ephemeral(&kp.public_key, &compressed, &[4u8; 32]);
    assert_eq!(container.len(), compressed.len() + 50);
    let text = encode_base64(&compress(&container));
    match unseal(&kp.private_key, text.as_bytes()) {
        Ok(Unsealed::High { plaintext }) => assert_eq!(plaintext, payload),
        other => panic!("unexpected {:?}", other),
    }
    let fresh = seal_high_level(&kp.public_key, &compressed).unwrap();
    match unseal_container(&kp.private_key, fresh) {
        Ok(Unsealed::High { plaintext }) => assert_eq!(plaintext, payload),
        other => panic!("unexpected {:?}", other),
    }
}

#[test]
fn high_level_with_marker_base_255() {
    // This ephemeral secret has the public key 00 ff ..., whose gcd is 255;
    // the marker 257 takes both bytes and the file still opens.
    let mut eph = [0u8; 32];
    eph[0] = 0xf0;
    eph[1] = 0x8e;
    assert_eq!(&key_pair_from_private(eph).public_key[0..2], &[0x00, 0xff]);
    let kp = key_pair_from_private([3u8; 32]);
    let compressed = compress(b"data");
    let container = seal_high_level_with_ephemeral(&kp.public_key, &compressed, &eph);
    let n = container.len();
    assert_eq!(&container[n - 2..], &[1, 1]);
    match unseal_container(&kp.private_key, container) {
        Ok(Unsealed::High { plaintext }) => assert_eq!(plaintext, b"data".to_vec()),
        other => panic!("unexpected {:?}", other),
    }
}

#[test]
fn unseal_errors() {
    let kp = key_pair_from_private([3u8; 32]);
    assert_eq!(unseal(&kp.private_key, b"!!").err(), Some(UnsealError::NotBase64));
    let text = encode_base64(&[1, 2, 3]);
    assert_eq!(unseal(&kp.private_key, text.as_bytes()).err(), Some(UnsealError::Decompress));
}

#[test]
fn high_level_layout_with_two_byte_marker_opens() {
    // A container whose last two bytes hold the level 2 big-endian above the
    // base reads as the high level; its sealed data is decompressed.
    let kp = key_pair_from_private([3u8; 32]);
    let payload = b"the plaintext of the file".to_vec();
    let mut data = encrypt_buf_with_ephemeral(&kp.public_key, &compress(&payload), &[6u8; 32]);
    let g = gcd(data[0], data[1]) as u16 + 2;
    data.push((g % 256) as u8);
    data.push((g / 256) as u8);
    let text = encode_base64(&compress(&data));
    match unseal(&kp.private_key, text.as_bytes()) {
        Ok(Unsealed::High { plaintext }) => assert_eq!(plaintext, payload),
        other => panic!("unexpected {:?}", other),
    }
    // The same layout around data that is no box does not open.
    let mut junk = vec![0u8; 60];
    junk.push(2);
    junk.push(0);
    let text = encode_base64(&compress(&junk));
    assert_eq!(
        unseal(&kp.private_key, text.as_bytes()).err(),
        Some(UnsealError::DataDecrypt(DecryptError::Invalid))
    );
}

fn gcd(a: u8, b: u8) -> u8 {
    if b == 0 { a } else { gcd(b, a % b) }
}

#[test]
fn unseal_container_and_key_errors() {
    let kp = key_pair_from_private([3u8; 32]);
    let text = encode_base64(&compress(&[1, 2]));
    assert_eq!(
        unseal(&kp.private_key, text.as_bytes()).err(),
        Some(UnsealError::Container(ContainerError::TooShort))
    );
    let text = encode_base64(&compress(&[6, 9, 0, 0]));
    assert_eq!(
        unseal(&kp.private_key, text.as_bytes()).err(),
        Some(UnsealError::Container(ContainerError::Corrupt))
    );
    let text = encode_base64(&compress(&seal_medium(vec![1, 2, 3], vec![0u8; 10])));
    assert_eq!(
        unseal(&kp.private_key, text.as_bytes()).err(),
        Some(UnsealError::KeyDecrypt(DecryptError::Malformed))
    );
    let text = encode_base64(&compress(&seal_medium(vec![1, 2, 3], vec![0u8; 60])));
    assert_eq!(
        unseal(&kp.private_key, text.as_bytes()).err(),
        Some(UnsealError::KeyDecrypt(DecryptError::Invalid))
    );
    let short = seal_medium_level_with_ephemeral(&kp.public_key, vec![1, 2, 3], vec![9u8; 10], vec![8u8; 10], &[4u8; 32]);
    let text = encode_base64(&compress(&short));
    assert_eq!(unseal(&kp.private_key, text.as_bytes()).err(), Some(UnsealError::ShortKeyMaterial));
}
