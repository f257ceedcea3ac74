use cscrypto::owned_iv::OwnedIv;

#[test]
fn zero_iv_counts_up_in_first_window() {
    let mut g = OwnedIv::new(&[0u8; 16]);
    assert!(!g.next_iv_overflows());
    let first = *g.next_iv();
    let mut expected = [0u8; 16];
    expected[0] = 1;
    assert_eq!(first, expected);
    let second = *g.next_iv();
    expected[0] = 2;
    assert_eq!(second, expected);
}

#[test]
fn window_starts_at_byte_sum_mod_nine() {
    let mut iv = [0u8; 16];
    iv[0] = 1; // byte sum 1: window at position 1
    let mut g = OwnedIv::new(&iv);
    let out = *g.next_iv();
    let mut expected = [0u8; 16];
    expected[0] = 1;
    expected[1] = 1;
    assert_eq!(out, expected);
}

#[test]
fn counter_carries_across_bytes() {
    let mut iv = [0u8; 16];
    iv[0] = 0xFF;
    iv[8] = 6; // byte sum 261 = 9 * 29: window at position 0
    let mut g = OwnedIv::new(&iv);
    let out = *g.next_iv();
    let mut expected = [0u8; 16];
    expected[1] = 1;
    expected[8] = 6;
    assert_eq!(out, expected);
}

#[test]
fn exhausted_window_turns_big_endian() {
    // Window at position 0 holds u64::MAX - 1 little-endian; the byte sum is
    // 2043 = 9 * 227.
    let mut iv = [0u8; 16];
    iv[0] = 0xFE;
    for b in iv.iter_mut().take(8).skip(1) {
        *b = 0xFF;
    }
    iv[8] = 4;
    let mut g = OwnedIv::new(&iv);
    let out = *g.next_iv();
    let mut expected = [0u8; 16];
    expected[0] = 0xFF;
    expected[8] = 4;
    assert_eq!(out, expected);
    let out = *g.next_iv();
    expected[7] = 1;
    assert_eq!(out, expected);
}

#[test]
fn all_ones_iv_overflows_at_once() {
    let g = OwnedIv::new(&[0xFF; 16]);
    assert!(g.next_iv_overflows());
}
