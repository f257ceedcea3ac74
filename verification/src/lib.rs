//! Public-key file and message encryption: a Curve25519 + ChaCha20-Poly1305
//! sealed box, the container format of the encrypted files, key encoding,
//! and the byte utilities that go with them.

pub mod container;
pub mod encoding;
pub mod files;
pub mod messages;
pub mod owned_iv;
pub mod primitives;
pub mod sealed_box;
pub mod util;
