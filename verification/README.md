# cscrypto

Public-key encryption of messages and files, verified with Verus.

- `src/sealed_box.rs`: a message sealed to a Curve25519 public key under an
  ephemeral key pair (ephemeral public key, Poly1305 tag, ChaCha20
  ciphertext), and its opening.
- `src/messages.rs`: the same for base64 texts of keys and boxes.
- `src/encoding.rs`: base64 text and 32-byte keys stored as such text; key
  pairs.
- `src/container.rs`: the layout of an encrypted file, with its level marker.
- `src/files.rs`: from compressed data to a container, and from a stored file
  back to its contents.
- `src/owned_iv.rs`: a generator of 16-byte IVs counting through a moving
  8-byte window.
- `src/util.rs`: constant-length comparison and overwriting of byte slices.
- `src/primitives.rs`: the X25519, ChaCha20-Poly1305 and random-number calls.
- `app/`: the command-line program, the C, JNI and WebAssembly entry points,
  multi-threaded brotli compression and the AES stream cipher of the medium
  level.
