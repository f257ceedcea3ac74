use cscrypto::container::{open_container, seal_high, seal_medium, Container, ContainerError};

#[test]
fn medium_container_layout_and_round_trip() {
    let sealed = seal_medium(vec![6, 9, 1, 2], vec![7, 7, 7]);
    // gcd(6, 9) = 3: markers 3 + 3 and 3 + 1, little-endian.
    assert_eq!(sealed, vec![6, 9, 1, 2, 7, 7, 7, 6, 0, 4, 0]);
    match open_container(sealed) {
        Ok(Container::Medium { body, sealed_key }) => {
            assert_eq!(body, vec![6, 9, 1, 2]);
            assert_eq!(sealed_key, vec![7, 7, 7]);
        },
        other => panic!("unexpected {:?}", other),
    }
}

#[test]
fn medium_container_with_empty_key() {
    let sealed = seal_medium(vec![0, 5], vec![]);
    // gcd(0, 5) = 5.
    assert_eq!(sealed, vec![0, 5, 5, 0, 6, 0]);
    match open_container(sealed) {
        Ok(Container::Medium { body, sealed_key }) => {
            assert_eq!(body, vec![0, 5]);
            assert!(sealed_key.is_empty());
        },
        other => panic!("unexpected {:?}", other),
    }
}

#[test]
fn high_container_layout_and_round_trip() {
    let sealed = seal_high(vec![6, 9, 1]);
    // gcd(6, 9) = 3: marker 3 + 2, little-endian.
    assert_eq!(sealed, vec![6, 9, 1, 5, 0]);
    match open_container(sealed) {
        Ok(Container::High { body }) => assert_eq!(body, vec![6, 9, 1]),
        other => panic!("unexpected {:?}", other),
    }
    // gcd(0, 255) = 255: the marker 257 needs both bytes.
    let sealed = seal_high(vec![0, 255]);
    assert_eq!(sealed, vec![0, 255, 1, 1]);
    match open_container(sealed) {
        Ok(Container::High { body }) => assert_eq!(body, vec![0, 255]),
        other => panic!("unexpected {:?}", other),
    }
}

#[test]
fn short_and_corrupt_containers() {
    assert_eq!(open_container(vec![1, 2, 3]).err(), Some(ContainerError::TooShort));
    // gcd(6, 9) = 3 above a raw level of 0.
    assert_eq!(open_container(vec![6, 9, 0, 0]).err(), Some(ContainerError::Corrupt));
    // Level 1 with too few bytes left for the key length.
    assert_eq!(open_container(vec![0, 1, 2, 0]).err(), Some(ContainerError::Corrupt));
    // Level 1 whose key length exceeds the data.
    assert_eq!(open_container(vec![0, 1, 9, 0, 2, 0]).err(), Some(ContainerError::Corrupt));
}

#[test]
fn level_zero_is_unrecognized() {
    match open_container(vec![0, 0, 0, 0]) {
        Ok(Container::Unrecognized { level }) => assert_eq!(level, 0),
        other => panic!("unexpected {:?}", other),
    }
}
