# pqguard

Post-quantum file encryption: ML-KEM-768 (FIPS 203) key encapsulation,
HKDF-SHA256 key derivation and AES-256-GCM, written in Verus.

## Layout

- `src/bytes.rs` — little-endian fields and byte helpers.
- `src/envelope.rs` — the `PQGR` envelope formats (version 1: one recipient;
  version 2: one block per recipient, parsed strictly), with proofs that parsing
  undoes serialisation, that parsing accepts only what serialisation produces, and
  that neither version's parser accepts the other's bytes; `verify_envelope` checks
  bytes of either version.
- `src/crypto.rs` — the primitives (calls into `ml-kem`, `hkdf`/`sha2`, `aes-gcm`,
  `rand` behind trusted wrappers) and the sealing and opening of envelopes.
- `src/encrypt.rs`, `src/decrypt.rs` — from plaintext and public keys to envelope
  bytes, and back with a private key; the proof that any recipient's private key
  decrypts what was encrypted to it (given ML-KEM correctness for that key pair).
- `src/keyfile.rs` — the key file text format (label line, hexadecimal key).
- `app/` — the command line and all file I/O.
