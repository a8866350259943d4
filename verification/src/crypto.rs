//! ML-KEM-768 encapsulation, HKDF-SHA256 key derivation and AES-256-GCM,
//! and the sealing and opening of envelopes built from them.
use aes_gcm::aead::Aead;
use aes_gcm::{Aes256Gcm, Key, KeyInit, Nonce};
use hkdf::Hkdf;
use ml_kem::kem::Decapsulate;
use ml_kem::{EncapsulateDeterministic, EncodedSizeUser, KemCore, MlKem768};
use rand::RngCore;
use sha2::Sha256;
use vstd::prelude::*;
use crate::envelope::{fields_fit, EnvelopeFields};
pub use crate::envelope::{MultiEnvelope, SealedEnvelope};
use crate::error::PqError;

verus! {

/// Name of the key encapsulation mechanism.
pub const KEM_ALG: &'static str = "ML-KEM-768";

/// Name of the symmetric cipher.
pub const SYMMETRIC_ALG: &'static str = "AES-256-GCM";

/// Length of an ML-KEM-768 encapsulation (public) key.
pub const ENCAPSULATION_KEY_LEN: usize = 1184;

/// Length of an ML-KEM-768 decapsulation (secret) key.
pub const DECAPSULATION_KEY_LEN: usize = 2400;

/// Length of an ML-KEM-768 ciphertext.
pub const KEM_CIPHERTEXT_LEN: usize = 1088;

/// Length of an ML-KEM shared secret.
pub const SHARED_SECRET_LEN: usize = 32;

/// Length of an AES-256 key.
pub const KEY_LEN: usize = 32;

/// Length of an AES-GCM nonce.
pub const NONCE_LEN: usize = 12;

/// Length of the HKDF salt drawn for each envelope.
pub const SALT_LEN: usize = 32;

/// Length of the AES-GCM authentication tag.
pub const TAG_LEN: usize = 16;

/// Longest plaintext that AES-GCM seals under one nonce (2^36 bytes).
pub const MAX_PLAINTEXT_LEN: u64 = 68719476736;

/// Length of the ML-KEM seeds `d` and `z` and of the encapsulated message `m`.
pub const SEED_LEN: usize = 32;

/// Where the encoded encapsulation key starts inside an encoded ML-KEM-768
/// decapsulation key (after the 1152-byte decryption key).
pub const EK_OFFSET_IN_DK: usize = 1152;

/// Longest output that HKDF-SHA256 expands to (255 blocks of 32 bytes).
pub const HKDF_SHA256_MAX_LEN: usize = 8160;

// ---------------------------------------------------------------------------
// Names for what the outside functions compute.

/// The encoded decapsulation key that ML-KEM-768 key generation derives from the
/// seeds `d` and `z`.
pub uninterp spec fn ml_kem_768_keygen(d: Seq<u8>, z: Seq<u8>) -> Seq<u8>;

/// The (ciphertext, shared secret) pair that ML-KEM-768 encapsulation derives from an
/// encoded encapsulation key and the message `m`.
pub uninterp spec fn ml_kem_768_encapsulate(ek: Seq<u8>, m: Seq<u8>) -> (Seq<u8>, Seq<u8>);

/// The shared secret that ML-KEM-768 decapsulation derives from an encoded
/// decapsulation key and a ciphertext.
pub uninterp spec fn ml_kem_768_decapsulate(dk: Seq<u8>, ct: Seq<u8>) -> Seq<u8>;

/// The output keying material of HKDF-SHA256 for a salt, input keying material,
/// info string and length.
pub uninterp spec fn hkdf_sha256(salt: Seq<u8>, ikm: Seq<u8>, info: Seq<u8>, len: nat) -> Seq<u8>;

/// The AES-256-GCM ciphertext (with its tag appended) of a plaintext under a key and
/// nonce, with empty associated data.
pub uninterp spec fn aes_256_gcm_seal(key: Seq<u8>, nonce: Seq<u8>, plaintext: Seq<u8>) -> Seq<u8>;

/// The plaintext that AES-256-GCM authenticates and decrypts from a ciphertext under
/// a key and nonce, with empty associated data; `None` where the tag does not verify.
pub uninterp spec fn aes_256_gcm_open(key: Seq<u8>, nonce: Seq<u8>, ciphertext: Seq<u8>) -> Option<
    Seq<u8>,
>;

// ---------------------------------------------------------------------------
// Trusted calls into the outside crates.

/// Fills `len` bytes from `rand::thread_rng()` with `RngCore::fill_bytes`. Only the
/// length is claimed: the bytes are random.
#[verifier::external_body]
fn random_bytes(len: usize) -> (r: Vec<u8>)
    ensures
        r@.len() == len,
{
    let mut buf = vec![0u8; len];
    rand::thread_rng().fill_bytes(&mut buf);
    buf
}

/// `KemCore::generate_deterministic` for ML-KEM-768 from the seeds `d` and `z`, both
/// keys encoded with `EncodedSizeUser::as_bytes`; gives (encapsulation key,
/// decapsulation key). Claims the named decapsulation key and that the encapsulation
/// key is the copy that `as_bytes` places in it, after the 1152-byte decryption key.
#[verifier::external_body]
fn ml_kem_768_generate_from_seeds(d: &[u8], z: &[u8]) -> (r: (Vec<u8>, Vec<u8>))
    requires
        d@.len() == SEED_LEN,
        z@.len() == SEED_LEN,
    ensures
        r.1@ == ml_kem_768_keygen(d@, z@),
        r.1@.len() == DECAPSULATION_KEY_LEN,
        r.0@ == r.1@.subrange(EK_OFFSET_IN_DK as int, EK_OFFSET_IN_DK + ENCAPSULATION_KEY_LEN),
{
    let (d, z) = match (d.try_into(), z.try_into()) {
        (Ok(d), Ok(z)) => (d, z),
        _ => return (Vec::new(), Vec::new()),
    };
    let (dk, ek) = MlKem768::generate_deterministic(d, z);
    (ek.as_bytes().to_vec(), dk.as_bytes().to_vec())
}

/// Decodes an encapsulation key with `EncodedSizeUser::from_bytes` and calls
/// `EncapsulateDeterministic::encapsulate_deterministic` with the message `m`; gives
/// (ciphertext, shared secret). Claims the named pair and its lengths; the crate's
/// encapsulation never returns its error.
#[verifier::external_body]
fn ml_kem_768_encapsulate_with(ek: &[u8], m: &[u8]) -> (r: (Vec<u8>, Vec<u8>))
    requires
        ek@.len() == ENCAPSULATION_KEY_LEN,
        m@.len() == SEED_LEN,
    ensures
        (r.0@, r.1@) == ml_kem_768_encapsulate(ek@, m@),
        r.0@.len() == KEM_CIPHERTEXT_LEN,
        r.1@.len() == SHARED_SECRET_LEN,
{
    let (enc, m) = match (ek.try_into(), m.try_into()) {
        (Ok(e), Ok(m)) => (e, m),
        _ => return (Vec::new(), Vec::new()),
    };
    let key = <MlKem768 as KemCore>::EncapsulationKey::from_bytes(enc);
    match key.encapsulate_deterministic(m) {
        Ok((ct, ss)) => (ct.to_vec(), ss.to_vec()),
        Err(()) => (Vec::new(), Vec::new()),
    }
}

/// Decodes a decapsulation key with `EncodedSizeUser::from_bytes` and calls
/// `Decapsulate::decapsulate` on a ciphertext. Claims that the result is the named
/// shared secret, 32 bytes long. Decapsulation is deterministic and never returns its
/// error (a ciphertext made for another key yields an unrelated secret); which secret
/// comes out is left to the name.
#[verifier::external_body]
fn ml_kem_768_decapsulate_bytes(dk: &[u8], ct: &[u8]) -> (ss: Vec<u8>)
    requires
        dk@.len() == DECAPSULATION_KEY_LEN,
        ct@.len() == KEM_CIPHERTEXT_LEN,
    ensures
        ss@ == ml_kem_768_decapsulate(dk@, ct@),
        ss@.len() == SHARED_SECRET_LEN,
{
    let (dk_enc, ct_enc) = match (dk.try_into(), ct.try_into()) {
        (Ok(d), Ok(c)) => (d, c),
        _ => return Vec::new(),
    };
    let key = <MlKem768 as KemCore>::DecapsulationKey::from_bytes(dk_enc);
    match key.decapsulate(ct_enc) {
        Ok(ss) => ss.to_vec(),
        Err(()) => Vec::new(),
    }
}

/// `Hkdf::<Sha256>::new(Some(salt), ikm)` followed by `expand(info, ..)` into `len`
/// bytes. Claims the named output of length `len`; `expand` fails only above
/// 255 * 32 bytes, which `requires` leaves out.
#[verifier::external_body]
fn hkdf_sha256_expand(salt: &[u8], ikm: &[u8], info: &[u8], len: usize) -> (okm: Vec<u8>)
    requires
        len <= HKDF_SHA256_MAX_LEN,
    ensures
        okm@ == hkdf_sha256(salt@, ikm@, info@, len as nat),
        okm@.len() == len,
{
    let mut okm = vec![0u8; len];
    match Hkdf::<Sha256>::new(Some(salt), ikm).expand(info, &mut okm) {
        Ok(()) => okm,
        Err(_) => Vec::new(),
    }
}

/// `Aes256Gcm::encrypt` with no associated data. Claims the named ciphertext, which
/// is the plaintext's length plus the 16-byte tag and which `Aes256Gcm::decrypt`
/// under the same key and nonce turns back into the plaintext; the crate refuses only
/// plaintexts above 2^36 bytes, which `requires` leaves out.
#[verifier::external_body]
fn aes_256_gcm_encrypt(key: &[u8], nonce: &[u8], plaintext: &[u8]) -> (ct: Vec<u8>)
    requires
        key@.len() == KEY_LEN,
        nonce@.len() == NONCE_LEN,
        plaintext@.len() <= MAX_PLAINTEXT_LEN,
    ensures
        ct@ == aes_256_gcm_seal(key@, nonce@, plaintext@),
        ct@.len() == plaintext@.len() + TAG_LEN,
        aes_256_gcm_open(key@, nonce@, ct@) == Some(plaintext@),
{
    let cipher = Aes256Gcm::new(Key::<Aes256Gcm>::from_slice(key));
    match cipher.encrypt(Nonce::from_slice(nonce), plaintext) {
        Ok(ct) => ct,
        Err(_) => Vec::new(),
    }
}

/// `Aes256Gcm::decrypt` with no associated data. Claims the named result, and that a
/// ciphertext which `Aes256Gcm::encrypt` made from a plaintext under the same key and
/// nonce decrypts to that plaintext.
#[verifier::external_body]
fn aes_256_gcm_decrypt(key: &[u8], nonce: &[u8], ciphertext: &[u8]) -> (pt: Option<Vec<u8>>)
    requires
        key@.len() == KEY_LEN,
        nonce@.len() == NONCE_LEN,
    ensures
        bytes_option_view(pt) == aes_256_gcm_open(key@, nonce@, ciphertext@),
        forall|p: Seq<u8>|
            p.len() <= MAX_PLAINTEXT_LEN && ciphertext@ == #[trigger] aes_256_gcm_seal(key@, nonce@, p)
                ==> bytes_option_view(pt) == Some(p),
{
    let cipher = Aes256Gcm::new(Key::<Aes256Gcm>::from_slice(key));
    cipher.decrypt(Nonce::from_slice(nonce), ciphertext).ok()
}

// ---------------------------------------------------------------------------
// Specifications.

/// The view of an optional byte vector.
pub open spec fn bytes_option_view(o: Option<Vec<u8>>) -> Option<Seq<u8>> {
    match o {
        Some(v) => Some(v@),
        None => None,
    }
}

/// The view of a byte vector or an error.
pub open spec fn bytes_result_view(r: Result<Vec<u8>, PqError>) -> Result<Seq<u8>, PqError> {
    match r {
        Ok(v) => Ok(v@),
        Err(x) => Err(x),
    }
}

/// The HKDF info string that binds derived keys to this format: `pqguard-v1`.
pub open spec fn kdf_info() -> Seq<u8> {
    seq![0x70u8, 0x71u8, 0x67u8, 0x75u8, 0x61u8, 0x72u8, 0x64u8, 0x2du8, 0x76u8, 0x31u8]
}

fn kdf_info_bytes() -> (r: Vec<u8>)
    ensures
        r@ == kdf_info(),
{
    let r = vec![0x70u8, 0x71u8, 0x67u8, 0x75u8, 0x61u8, 0x72u8, 0x64u8, 0x2du8, 0x76u8, 0x31u8];
    assert(r@ =~= kdf_info());
    r
}

/// The symmetric key derived from a shared secret and a salt.
pub open spec fn spec_derive_key(secret: Seq<u8>, salt: Seq<u8>) -> Seq<u8> {
    hkdf_sha256(salt, secret, kdf_info(), KEY_LEN as nat)
}

/// What decapsulation gives for a decapsulation key and a ciphertext.
pub open spec fn spec_kem_decapsulate(dk: Seq<u8>, ct: Seq<u8>) -> Result<Seq<u8>, PqError> {
    if dk.len() != DECAPSULATION_KEY_LEN {
        Err(PqError::InvalidKeyLength)
    } else if ct.len() != KEM_CIPHERTEXT_LEN {
        Err(PqError::InvalidCiphertextLength)
    } else {
        Ok(ml_kem_768_decapsulate(dk, ct))
    }
}

/// What symmetric encryption gives.
pub open spec fn spec_symmetric_encrypt(key: Seq<u8>, nonce: Seq<u8>, plaintext: Seq<u8>) -> Result<
    Seq<u8>,
    PqError,
> {
    if key.len() != KEY_LEN {
        Err(PqError::InvalidKeyLength)
    } else if nonce.len() != NONCE_LEN {
        Err(PqError::InvalidNonceLength)
    } else if plaintext.len() > MAX_PLAINTEXT_LEN {
        Err(PqError::PlaintextTooLong)
    } else {
        Ok(aes_256_gcm_seal(key, nonce, plaintext))
    }
}

/// What symmetric decryption gives.
pub open spec fn spec_symmetric_decrypt(key: Seq<u8>, nonce: Seq<u8>, ciphertext: Seq<u8>) -> Result<
    Seq<u8>,
    PqError,
> {
    if key.len() != KEY_LEN {
        Err(PqError::InvalidKeyLength)
    } else if nonce.len() != NONCE_LEN {
        Err(PqError::InvalidNonceLength)
    } else {
        match aes_256_gcm_open(key, nonce, ciphertext) {
            Some(p) => Ok(p),
            None => Err(PqError::DecryptionFailed),
        }
    }
}

/// `dk` and `ek` are the decapsulation key that ML-KEM-768 key generation derives from
/// some pair of seeds, and the encapsulation key held inside it.
pub open spec fn generated_key_pair(ek: Seq<u8>, dk: Seq<u8>) -> bool {
    exists|d: Seq<u8>, z: Seq<u8>|
        d.len() == SEED_LEN && z.len() == SEED_LEN && dk == #[trigger] ml_kem_768_keygen(d, z)
            && ek == dk.subrange(EK_OFFSET_IN_DK as int, EK_OFFSET_IN_DK + ENCAPSULATION_KEY_LEN)
}

/// `ct` and `ss` are what encapsulating to `ek` gives for some 32-byte message.
pub open spec fn encapsulates(ek: Seq<u8>, ct: Seq<u8>, ss: Seq<u8>) -> bool {
    exists|m: Seq<u8>| m.len() == SEED_LEN && #[trigger] ml_kem_768_encapsulate(ek, m) == (ct, ss)
}

// ---------------------------------------------------------------------------
// Primitives.

/// A fresh random HKDF salt.
pub fn generate_salt() -> (r: Vec<u8>)
    ensures
        r@.len() == SALT_LEN,
{
    random_bytes(SALT_LEN)
}

/// A fresh random AES-GCM nonce.
pub fn generate_nonce() -> (r: Vec<u8>)
    ensures
        r@.len() == NONCE_LEN,
{
    random_bytes(NONCE_LEN)
}

/// A fresh ML-KEM-768 key pair: (encapsulation key, decapsulation key).
pub fn generate_kem_keypair() -> (r: Result<(Vec<u8>, Vec<u8>), PqError>)
    ensures
        r matches Ok((ek, dk)) && ek@.len() == ENCAPSULATION_KEY_LEN && dk@.len()
            == DECAPSULATION_KEY_LEN && generated_key_pair(ek@, dk@),
{
    let d = random_bytes(SEED_LEN);
    let z = random_bytes(SEED_LEN);
    let (ek, dk) = ml_kem_768_generate_from_seeds(d.as_slice(), z.as_slice());
    assert(generated_key_pair(ek@, dk@)) by {
        assert(ml_kem_768_keygen(d@, z@) == dk@);
    }
    Ok((ek, dk))
}

/// Encapsulates a fresh shared secret to an encapsulation key: (shared secret, ciphertext).
pub fn kem_encapsulate(ek: &[u8]) -> (r: Result<(Vec<u8>, Vec<u8>), PqError>)
    ensures
        r is Ok <==> ek@.len() == ENCAPSULATION_KEY_LEN,
        r matches Err(x) ==> x == PqError::InvalidKeyLength,
        r matches Ok((ss, ct)) ==> ss@.len() == SHARED_SECRET_LEN && ct@.len()
            == KEM_CIPHERTEXT_LEN && encapsulates(ek@, ct@, ss@),
{
    if ek.len() != ENCAPSULATION_KEY_LEN {
        return Err(PqError::InvalidKeyLength);
    }
    let m = random_bytes(SEED_LEN);
    let (ct, ss) = ml_kem_768_encapsulate_with(ek, m.as_slice());
    assert(encapsulates(ek@, ct@, ss@)) by {
        assert(ml_kem_768_encapsulate(ek@, m@) == (ct@, ss@));
    }
    Ok((ss, ct))
}

/// Recovers the shared secret of a ciphertext with a decapsulation key.
pub fn kem_decapsulate(dk: &[u8], ct: &[u8]) -> (r: Result<Vec<u8>, PqError>)
    ensures
        bytes_result_view(r) == spec_kem_decapsulate(dk@, ct@),
        r matches Ok(ss) ==> ss@.len() == SHARED_SECRET_LEN,
{
    if dk.len() != DECAPSULATION_KEY_LEN {
        return Err(PqError::InvalidKeyLength);
    }
    if ct.len() != KEM_CIPHERTEXT_LEN {
        return Err(PqError::InvalidCiphertextLength);
    }
    Ok(ml_kem_768_decapsulate_bytes(dk, ct))
}

/// Derives the 32-byte symmetric key from a shared secret and a salt (HKDF-SHA256).
/// The same inputs always give the same key.
pub fn derive_key(shared_secret: &[u8], salt: &[u8]) -> (r: Result<Vec<u8>, PqError>)
    ensures
        r matches Ok(k) && k@ == spec_derive_key(shared_secret@, salt@) && k@.len() == KEY_LEN,
{
    let info = kdf_info_bytes();
    Ok(hkdf_sha256_expand(salt, shared_secret, info.as_slice(), KEY_LEN))
}

/// AES-256-GCM encryption of `plaintext` under `key` and `nonce`.
pub fn symmetric_encrypt(key: &[u8], nonce: &[u8], plaintext: &[u8]) -> (r: Result<Vec<u8>, PqError>)
    ensures
        bytes_result_view(r) == spec_symmetric_encrypt(key@, nonce@, plaintext@),
        r matches Ok(ct) ==> ct@.len() == plaintext@.len() + TAG_LEN && spec_symmetric_decrypt(
            key@,
            nonce@,
            ct@,
        ) == Ok::<Seq<u8>, PqError>(plaintext@),
{
    if key.len() != KEY_LEN {
        return Err(PqError::InvalidKeyLength);
    }
    if nonce.len() != NONCE_LEN {
        return Err(PqError::InvalidNonceLength);
    }
    if plaintext.len() as u64 > MAX_PLAINTEXT_LEN {
        return Err(PqError::PlaintextTooLong);
    }
    Ok(aes_256_gcm_encrypt(key, nonce, plaintext))
}

/// AES-256-GCM authenticated decryption. Decrypting what `symmetric_encrypt` made under
/// the same key and nonce gives back the plaintext.
pub fn symmetric_decrypt(key: &[u8], nonce: &[u8], ciphertext: &[u8]) -> (r: Result<Vec<u8>, PqError>)
    ensures
        bytes_result_view(r) == spec_symmetric_decrypt(key@, nonce@, ciphertext@),
        forall|p: Seq<u8>|
            #[trigger] spec_symmetric_encrypt(key@, nonce@, p) == Ok::<Seq<u8>, PqError>(ciphertext@)
                ==> bytes_result_view(r) == Ok::<Seq<u8>, PqError>(p),
{
    if key.len() != KEY_LEN {
        return Err(PqError::InvalidKeyLength);
    }
    if nonce.len() != NONCE_LEN {
        return Err(PqError::InvalidNonceLength);
    }
    match aes_256_gcm_decrypt(key, nonce, ciphertext) {
        Some(p) => Ok(p),
        None => Err(PqError::DecryptionFailed),
    }
}

// ---------------------------------------------------------------------------
// Sealing and opening envelopes.

/// `e` seals `plaintext` under the shared secret `ss`: its data is the AES-256-GCM
/// encryption of `plaintext` under the key derived from `ss` and its salt, with its
/// nonce, and decrypts back to `plaintext`.
pub open spec fn sealed_for(e: EnvelopeFields, ss: Seq<u8>, plaintext: Seq<u8>) -> bool {
    &&& e.kem_ciphertext.len() == KEM_CIPHERTEXT_LEN
    &&& e.nonce.len() == NONCE_LEN
    &&& e.salt.len() == SALT_LEN
    &&& plaintext.len() <= MAX_PLAINTEXT_LEN
    &&& e.data.len() == plaintext.len() + TAG_LEN
    &&& spec_derive_key(ss, e.salt).len() == KEY_LEN
    &&& e.data == aes_256_gcm_seal(spec_derive_key(ss, e.salt), e.nonce, plaintext)
    &&& aes_256_gcm_open(spec_derive_key(ss, e.salt), e.nonce, e.data) == Some(plaintext)
}

/// `e` seals `plaintext` to the encapsulation key `ek`: its KEM ciphertext is what
/// encapsulating to `ek` gives for some 32-byte message, and its data is sealed under
/// the shared secret of that same encapsulation.
pub open spec fn sealed_to(e: EnvelopeFields, ek: Seq<u8>, plaintext: Seq<u8>) -> bool {
    exists|m: Seq<u8>|
        m.len() == SEED_LEN && e.kem_ciphertext == (#[trigger] ml_kem_768_encapsulate(ek, m)).0
            && sealed_for(e, ml_kem_768_encapsulate(ek, m).1, plaintext)
}

/// `dk` recovers the shared secret of every encapsulation to `ek`: the correctness of
/// ML-KEM for this key pair, which holds except with negligible probability.
pub open spec fn decapsulates_all(ek: Seq<u8>, dk: Seq<u8>) -> bool {
    &&& dk.len() == DECAPSULATION_KEY_LEN
    &&& forall|m: Seq<u8>|
        m.len() == SEED_LEN ==> ml_kem_768_decapsulate(dk, (#[trigger] ml_kem_768_encapsulate(ek, m)).0)
            == ml_kem_768_encapsulate(ek, m).1
}

/// What opening one envelope with a decapsulation key gives.
pub open spec fn spec_open_single(dk: Seq<u8>, e: EnvelopeFields) -> Result<Seq<u8>, PqError> {
    match spec_kem_decapsulate(dk, e.kem_ciphertext) {
        Err(x) => Err(x),
        Ok(ss) => spec_symmetric_decrypt(spec_derive_key(ss, e.salt), e.nonce, e.data),
    }
}

/// What opening a multi-recipient envelope gives: the plaintext of the first block
/// that opens with the key.
pub open spec fn spec_open_multi(dk: Seq<u8>, bs: Seq<EnvelopeFields>) -> Result<Seq<u8>, PqError>
    decreases bs.len(),
{
    if bs.len() == 0 {
        Err(PqError::NoMatchingRecipient)
    } else {
        match spec_open_single(dk, bs[0]) {
            Ok(p) => Ok(p),
            Err(_) => spec_open_multi(dk, bs.drop_first()),
        }
    }
}

/// The error that sealing to `eks` gives when it fails.
pub open spec fn spec_seal_error(eks: Seq<Seq<u8>>, plaintext_len: nat) -> PqError {
    if eks.len() == 0 {
        PqError::NoRecipients
    } else if eks[0].len() != ENCAPSULATION_KEY_LEN {
        PqError::InvalidKeyLength
    } else if plaintext_len > MAX_PLAINTEXT_LEN {
        PqError::PlaintextTooLong
    } else {
        PqError::InvalidKeyLength
    }
}

/// The views of a slice of keys.
pub open spec fn keys_view(keys: Seq<Vec<u8>>) -> Seq<Seq<u8>> {
    keys.map_values(|k: Vec<u8>| k@)
}

/// Seals `plaintext` to one recipient: a fresh salt and nonce, a fresh shared secret
/// encapsulated to `ek`, and AES-256-GCM under the key derived from it.
pub fn encrypt_bytes(ek: &[u8], plaintext: &[u8]) -> (r: Result<SealedEnvelope, PqError>)
    ensures
        r is Ok <==> (ek@.len() == ENCAPSULATION_KEY_LEN && plaintext@.len() <= MAX_PLAINTEXT_LEN),
        r matches Err(x) ==> x == (if ek@.len() != ENCAPSULATION_KEY_LEN {
            PqError::InvalidKeyLength
        } else {
            PqError::PlaintextTooLong
        }),
        r matches Ok(e) ==> sealed_to(e@, ek@, plaintext@),
{
    let salt = generate_salt();
    let nonce = generate_nonce();
    let (shared_secret, kem_ciphertext) = kem_encapsulate(ek)?;
    let key = derive_key(shared_secret.as_slice(), salt.as_slice())?;
    let encrypted_data = symmetric_encrypt(key.as_slice(), nonce.as_slice(), plaintext)?;
    let e = SealedEnvelope { kem_ciphertext, symmetric_nonce: nonce, salt, encrypted_data };
    proof {
        let m = choose|m: Seq<u8>|
            m.len() == SEED_LEN && #[trigger] ml_kem_768_encapsulate(ek@, m) == (
                e.kem_ciphertext@,
                shared_secret@,
            );
        assert(sealed_for(e@, ml_kem_768_encapsulate(ek@, m).1, plaintext@));
    }
    Ok(e)
}

/// Opens a single-recipient envelope with a decapsulation key. Where decapsulation
/// recovers the secret that the envelope was sealed under, the plaintext comes back.
pub fn decrypt_bytes(dk: &[u8], envelope: &SealedEnvelope) -> (r: Result<Vec<u8>, PqError>)
    ensures
        bytes_result_view(r) == spec_open_single(dk@, envelope@),
        forall|p: Seq<u8>|
            dk@.len() == DECAPSULATION_KEY_LEN && #[trigger] sealed_for(
                envelope@,
                ml_kem_768_decapsulate(dk@, envelope@.kem_ciphertext),
                p,
            ) ==> bytes_result_view(r) == Ok::<Seq<u8>, PqError>(p),
{
    let shared_secret = kem_decapsulate(dk, envelope.kem_ciphertext.as_slice())?;
    let key = derive_key(shared_secret.as_slice(), envelope.salt.as_slice())?;
    let r = symmetric_decrypt(key.as_slice(), envelope.symmetric_nonce.as_slice(), envelope.encrypted_data.as_slice());
    assert forall|p: Seq<u8>|
        dk@.len() == DECAPSULATION_KEY_LEN && #[trigger] sealed_for(
            envelope@,
            ml_kem_768_decapsulate(dk@, envelope@.kem_ciphertext),
            p,
        ) implies bytes_result_view(r) == Ok::<Seq<u8>, PqError>(p) by {
        assert(spec_symmetric_encrypt(key@, envelope.symmetric_nonce@, p) == Ok::<Seq<u8>, PqError>(
            envelope.encrypted_data@,
        ));
    }
    r
}

impl MultiEnvelope {
    /// Seals `plaintext` to every recipient, each block with its own salt, nonce and
    /// shared secret.
    pub fn seal(recipient_pks: &[Vec<u8>], plaintext: &[u8]) -> (r: Result<MultiEnvelope, PqError>)
        ensures
            r is Ok <==> (recipient_pks@.len() > 0 && plaintext@.len() <= MAX_PLAINTEXT_LEN
                && forall|i: int|
                0 <= i < recipient_pks@.len() ==> (#[trigger] recipient_pks@[i])@.len()
                    == ENCAPSULATION_KEY_LEN),
            r matches Err(x) ==> x == spec_seal_error(keys_view(recipient_pks@), plaintext@.len()),
            r matches Ok(m) ==> m@.len() == recipient_pks@.len() && forall|i: int|
                0 <= i < m@.len() ==> sealed_to(#[trigger] m@[i], recipient_pks@[i]@, plaintext@),
    {
        if recipient_pks.len() == 0 {
            return Err(PqError::NoRecipients);
        }
        let mut recipients: Vec<SealedEnvelope> = Vec::new();
        let mut i: usize = 0;
        while i < recipient_pks.len()
            invariant
                i <= recipient_pks@.len(),
                recipient_pks@.len() > 0,
                recipients@.len() == i,
                i > 0 ==> plaintext@.len() <= MAX_PLAINTEXT_LEN,
                forall|j: int| 0 <= j < i ==> (#[trigger] recipient_pks@[j])@.len() == ENCAPSULATION_KEY_LEN,
                forall|j: int|
                    0 <= j < i ==> sealed_to((#[trigger] recipients@[j])@, recipient_pks@[j]@, plaintext@),
            decreases recipient_pks@.len() - i,
        {
            match encrypt_bytes(recipient_pks[i].as_slice(), plaintext) {
                Ok(e) => {
                    recipients.push(e);
                },
                Err(x) => {
                    proof {
                        let ks = keys_view(recipient_pks@);
                        assert(ks[0] == recipient_pks@[0]@);
                        assert(ks[i as int] == recipient_pks@[i as int]@);
                    }
                    return Err(x);
                },
            }
            i = i + 1;
        }
        let m = MultiEnvelope { recipients };
        assert forall|j: int| 0 <= j < m@.len() implies sealed_to(
            #[trigger] m@[j],
            recipient_pks@[j]@,
            plaintext@,
        ) by {
            assert(m@[j] == m.recipients@[j]@);
        }
        Ok(m)
    }

    /// Opens the envelope with a decapsulation key: the plaintext of the first block
    /// that opens. Where decapsulation recovers the secret that a block was sealed
    /// under, and no block before it opens, that block's plaintext comes back.
    pub fn open(&self, dk: &[u8]) -> (r: Result<Vec<u8>, PqError>)
        ensures
            bytes_result_view(r) == spec_open_multi(dk@, self@),
            forall|i: int, p: Seq<u8>|
                0 <= i < self@.len() && dk@.len() == DECAPSULATION_KEY_LEN && (forall|j: int|
                    0 <= j < i ==> (#[trigger] spec_open_single(dk@, self@[j])) is Err)
                    && #[trigger] sealed_for(
                    self@[i],
                    ml_kem_768_decapsulate(dk@, self@[i].kem_ciphertext),
                    p,
                ) ==> bytes_result_view(r) == Ok::<Seq<u8>, PqError>(p),
    {
        let ghost bs = self@;
        let mut i: usize = 0;
        assert(bs.skip(0) =~= bs);
        while i < self.recipients.len()
            invariant
                bs == self@,
                i <= bs.len(),
                spec_open_multi(dk@, bs) == spec_open_multi(dk@, bs.skip(i as int)),
                forall|j: int| 0 <= j < i ==> (#[trigger] spec_open_single(dk@, bs[j])) is Err,
                forall|j: int, p: Seq<u8>|
                    0 <= j < i && dk@.len() == DECAPSULATION_KEY_LEN ==> !#[trigger] sealed_for(
                        bs[j],
                        ml_kem_768_decapsulate(dk@, bs[j].kem_ciphertext),
                        p,
                    ),
            decreases bs.len() - i,
        {
            let r = decrypt_bytes(dk, &self.recipients[i]);
            assert(bs[i as int] == self.recipients@[i as int]@);
            assert(bs.skip(i as int)[0] == bs[i as int]);
            assert(bs.skip(i as int).drop_first() =~= bs.skip(i + 1));
            if r.is_ok() {
                return r;
            }
            i = i + 1;
        }
        proof {
            lemma_open_multi_empty(dk@, bs);
        }
        Err(PqError::NoMatchingRecipient)
    }
}

proof fn lemma_open_multi_empty(dk: Seq<u8>, bs: Seq<EnvelopeFields>)
    ensures
        spec_open_multi(dk, bs.skip(bs.len() as int)) == Err::<Seq<u8>, PqError>(
            PqError::NoMatchingRecipient,
        ),
{
    assert(bs.skip(bs.len() as int).len() == 0);
}

/// An envelope sealed under the secret that the key decapsulates opens to its plaintext.
pub proof fn lemma_open_sealed(dk: Seq<u8>, e: EnvelopeFields, ss: Seq<u8>, plaintext: Seq<u8>)
    requires
        sealed_for(e, ss, plaintext),
        dk.len() == DECAPSULATION_KEY_LEN,
        ml_kem_768_decapsulate(dk, e.kem_ciphertext) == ss,
    ensures
        spec_open_single(dk, e) == Ok::<Seq<u8>, PqError>(plaintext),
{
}

/// An envelope sealed to `ek` opens to its plaintext with a `dk` that decapsulates
/// every encapsulation to `ek`.
pub proof fn lemma_open_sealed_to(ek: Seq<u8>, dk: Seq<u8>, e: EnvelopeFields, plaintext: Seq<u8>)
    requires
        sealed_to(e, ek, plaintext),
        decapsulates_all(ek, dk),
    ensures
        spec_open_single(dk, e) == Ok::<Seq<u8>, PqError>(plaintext),
{
    let m = choose|m: Seq<u8>|
        m.len() == SEED_LEN && e.kem_ciphertext == (#[trigger] ml_kem_768_encapsulate(ek, m)).0
            && sealed_for(e, ml_kem_768_encapsulate(ek, m).1, plaintext);
    lemma_open_sealed(dk, e, ml_kem_768_encapsulate(ek, m).1, plaintext);
}

/// A multi-recipient envelope opens to the plaintext of block `i` where block `i` opens
/// to it and no earlier block opens.
pub proof fn lemma_open_multi_at(dk: Seq<u8>, bs: Seq<EnvelopeFields>, i: int, plaintext: Seq<u8>)
    requires
        0 <= i < bs.len(),
        forall|j: int| 0 <= j < i ==> (#[trigger] spec_open_single(dk, bs[j])) is Err,
        spec_open_single(dk, bs[i]) == Ok::<Seq<u8>, PqError>(plaintext),
    ensures
        spec_open_multi(dk, bs) == Ok::<Seq<u8>, PqError>(plaintext),
    decreases i,
{
    if i > 0 {
        let rest = bs.drop_first();
        assert(spec_open_single(dk, bs[0]) is Err);
        assert forall|j: int| 0 <= j < i - 1 implies (#[trigger] spec_open_single(dk, rest[j])) is Err by {
            assert(rest[j] == bs[j + 1]);
        }
        assert(rest[i - 1] == bs[i]);
        lemma_open_multi_at(dk, rest, i - 1, plaintext);
    }
}

/// A block sealed to a key has the lengths that the envelope formats carry.
pub proof fn lemma_sealed_to_fits(e: EnvelopeFields, ek: Seq<u8>, plaintext: Seq<u8>)
    requires
        sealed_to(e, ek, plaintext),
    ensures
        fields_fit(e),
        e.kem_ciphertext.len() == KEM_CIPHERTEXT_LEN,
{
    let m = choose|m: Seq<u8>|
        m.len() == SEED_LEN && e.kem_ciphertext == (#[trigger] ml_kem_768_encapsulate(ek, m)).0
            && sealed_for(e, ml_kem_768_encapsulate(ek, m).1, plaintext);
}

/// The key that opening `e` with `dk` decrypts under: HKDF-SHA256 of the secret that
/// `dk` decapsulates from the block's KEM ciphertext, with the block's salt.
pub open spec fn opening_key(dk: Seq<u8>, e: EnvelopeFields) -> Seq<u8> {
    hkdf_sha256(e.salt, ml_kem_768_decapsulate(dk, e.kem_ciphertext), kdf_info(), KEY_LEN as nat)
}

/// With `dk`, authenticated AES-256-GCM decryption of block `e` succeeds and gives `p`.
pub open spec fn block_opens_to(dk: Seq<u8>, e: EnvelopeFields, p: Seq<u8>) -> bool {
    &&& dk.len() == DECAPSULATION_KEY_LEN
    &&& e.kem_ciphertext.len() == KEM_CIPHERTEXT_LEN
    &&& opening_key(dk, e).len() == KEY_LEN
    &&& e.nonce.len() == NONCE_LEN
    &&& aes_256_gcm_open(opening_key(dk, e), e.nonce, e.data) == Some(p)
}

/// Opening one block gives `p` exactly when authenticated decryption of its data, under
/// the key derived from the secret that `dk` decapsulates, succeeds with `p`; in
/// particular a key under which the tag does not verify gives an error.
pub proof fn lemma_open_single_authenticated(dk: Seq<u8>, e: EnvelopeFields, p: Seq<u8>)
    ensures
        (spec_open_single(dk, e) == Ok::<Seq<u8>, PqError>(p)) == block_opens_to(dk, e, p),
        spec_open_single(dk, e) is Ok ==> block_opens_to(dk, e, spec_open_single(dk, e)->Ok_0),
{
}

/// Opening a multi-recipient envelope succeeds only with the plaintext of a block that
/// authenticates under the key, gives the first such block's plaintext, and fails with
/// `NoMatchingRecipient` where no block authenticates.
pub proof fn lemma_open_multi_authenticated(dk: Seq<u8>, bs: Seq<EnvelopeFields>)
    ensures
        spec_open_multi(dk, bs) is Ok ==> exists|i: int|
            0 <= i < bs.len() && #[trigger] block_opens_to(dk, bs[i], spec_open_multi(dk, bs)->Ok_0),
        (forall|i: int, p: Seq<u8>| 0 <= i < bs.len() ==> !#[trigger] block_opens_to(dk, bs[i], p))
            ==> spec_open_multi(dk, bs) == Err::<Seq<u8>, PqError>(PqError::NoMatchingRecipient),
        forall|i: int, p: Seq<u8>|
            0 <= i < bs.len() && #[trigger] block_opens_to(dk, bs[i], p) && (forall|j: int, q: Seq<u8>|
                0 <= j < i ==> !#[trigger] block_opens_to(dk, bs[j], q)) ==> spec_open_multi(dk, bs)
                == Ok::<Seq<u8>, PqError>(p),
    decreases bs.len(),
{
    if bs.len() > 0 {
        let rest = bs.drop_first();
        lemma_open_multi_authenticated(dk, rest);
        lemma_open_single_authenticated(dk, bs[0], Seq::empty());
        if spec_open_multi(dk, bs) is Ok {
            let r = spec_open_multi(dk, bs)->Ok_0;
            if spec_open_single(dk, bs[0]) is Ok {
                assert(block_opens_to(dk, bs[0], r));
            } else {
                let k = choose|k: int| 0 <= k < rest.len() && #[trigger] block_opens_to(dk, rest[k], r);
                assert(rest[k] == bs[k + 1]);
                assert(block_opens_to(dk, bs[k + 1], r));
            }
        }
        if forall|i: int, p: Seq<u8>| 0 <= i < bs.len() ==> !#[trigger] block_opens_to(dk, bs[i], p) {
            assert(spec_open_single(dk, bs[0]) is Err) by {
                if spec_open_single(dk, bs[0]) is Ok {
                    assert(block_opens_to(dk, bs[0], spec_open_single(dk, bs[0])->Ok_0));
                }
            }
            assert forall|i: int, p: Seq<u8>| 0 <= i < rest.len() implies !#[trigger] block_opens_to(
                dk,
                rest[i],
                p,
            ) by {
                assert(rest[i] == bs[i + 1]);
            }
        }
        assert forall|i: int, p: Seq<u8>|
            0 <= i < bs.len() && #[trigger] block_opens_to(dk, bs[i], p) && (forall|j: int, q: Seq<u8>|
                0 <= j < i ==> !#[trigger] block_opens_to(dk, bs[j], q)) implies spec_open_multi(dk, bs)
            == Ok::<Seq<u8>, PqError>(p) by {
            if i == 0 {
                lemma_open_single_authenticated(dk, bs[0], p);
            } else {
                assert(!block_opens_to(dk, bs[0], spec_open_single(dk, bs[0])->Ok_0));
                assert(spec_open_single(dk, bs[0]) is Err);
                assert(rest[i - 1] == bs[i]);
                assert forall|j: int, q: Seq<u8>| 0 <= j < i - 1 implies !#[trigger] block_opens_to(
                    dk,
                    rest[j],
                    q,
                ) by {
                    assert(rest[j] == bs[j + 1]);
                }
            }
        }
    }
}

} // verus!
