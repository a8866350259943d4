//! Post-quantum file encryption: ML-KEM-768 key encapsulation, HKDF-SHA256
//! key derivation and AES-256-GCM, packed into the `PQGR` envelope formats.
pub mod bytes;
pub mod error;
pub mod crypto;
pub mod envelope;
pub mod encrypt;
pub mod decrypt;
pub mod keyfile;
