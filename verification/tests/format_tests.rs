use pqguard::crypto::{
    decrypt_bytes, derive_key, encrypt_bytes, generate_kem_keypair, kem_decapsulate,
    kem_encapsulate, symmetric_decrypt, symmetric_encrypt, MultiEnvelope, SealedEnvelope,
    DECAPSULATION_KEY_LEN, ENCAPSULATION_KEY_LEN, KEM_CIPHERTEXT_LEN, TAG_LEN,
};
use pqguard::decrypt::decrypt_envelope;
use pqguard::encrypt::{check_encrypt_request, seal_for_recipients};
use pqguard::envelope::{verify_envelope, ParsedEnvelope};
use pqguard::error::PqError;
use pqguard::keyfile::{decode_key_file, encode_key_file, key_file_kind, KeyKind};

fn sample_envelope() -> SealedEnvelope {
    SealedEnvelope {
        kem_ciphertext: vec![0xAA, 0xBB],
        symmetric_nonce: vec![1; 12],
        salt: vec![2; 32],
        encrypted_data: vec![9, 8, 7],
    }
}

fn hex(s: &str) -> Vec<u8> {
    (0..s.len() / 2)
        .map(|i| u8::from_str_radix(&s[2 * i..2 * i + 2], 16).unwrap())
        .collect()
}

// ── Envelope layout ──────────────────────────────────────────

#[test]
fn single_envelope_exact_bytes() {
    let bytes = sample_envelope().to_bytes();
    let mut expected = b"PQGR".to_vec();
    expected.push(1);
    expected.extend_from_slice(&[2, 0, 0, 0]);
    expected.extend_from_slice(&[0xAA, 0xBB]);
    expected.extend_from_slice(&[1; 12]);
    expected.extend_from_slice(&[2; 32]);
    expected.extend_from_slice(&[9, 8, 7]);
    assert_eq!(bytes, expected);
}

#[test]
fn single_envelope_parse_roundtrip_without_crypto() {
    let e = sample_envelope();
    let parsed = SealedEnvelope::from_bytes(&e.to_bytes()).unwrap();
    assert_eq!(parsed.kem_ciphertext, e.kem_ciphertext);
    assert_eq!(parsed.symmetric_nonce, e.symmetric_nonce);
    assert_eq!(parsed.salt, e.salt);
    assert_eq!(parsed.encrypted_data, e.encrypted_data);
}

#[test]
fn single_envelope_errors() {
    assert_eq!(SealedEnvelope::from_bytes(&[0u8; 8]).unwrap_err(), PqError::TooShort);
    assert_eq!(SealedEnvelope::from_bytes(&[0u8; 10]).unwrap_err(), PqError::BadMagic);
    let mut b = sample_envelope().to_bytes();
    b[4] = 7;
    assert_eq!(SealedEnvelope::from_bytes(&b).unwrap_err(), PqError::UnsupportedVersion(7));
    let b = sample_envelope().to_bytes();
    // cutting into the salt leaves the envelope truncated
    assert_eq!(SealedEnvelope::from_bytes(&b[..9 + 2 + 12 + 31]).unwrap_err(), PqError::Truncated);
    // encrypted data runs to the end: an envelope with empty data still parses
    let parsed = SealedEnvelope::from_bytes(&b[..9 + 2 + 12 + 32]).unwrap();
    assert!(parsed.encrypted_data.is_empty());
}

#[test]
fn multi_envelope_exact_bytes() {
    let m = MultiEnvelope { recipients: vec![sample_envelope()] };
    let bytes = m.to_bytes();
    let mut expected = b"PQGR".to_vec();
    expected.push(2);
    expected.extend_from_slice(&[1, 0, 0, 0]);
    expected.extend_from_slice(&[2, 0, 0, 0]);
    expected.extend_from_slice(&[0xAA, 0xBB]);
    expected.extend_from_slice(&[1; 12]);
    expected.extend_from_slice(&[2; 32]);
    expected.extend_from_slice(&[3, 0, 0, 0, 0, 0, 0, 0]);
    expected.extend_from_slice(&[9, 8, 7]);
    assert_eq!(bytes, expected);
}

#[test]
fn multi_envelope_errors() {
    let m = MultiEnvelope { recipients: vec![sample_envelope(), sample_envelope()] };
    let b = m.to_bytes();
    let parsed = MultiEnvelope::from_bytes(&b).unwrap();
    assert_eq!(parsed.recipients.len(), 2);
    assert_eq!(MultiEnvelope::from_bytes(&b[..b.len() - 1]).unwrap_err(), PqError::Truncated);
    let mut extended = b.clone();
    extended.push(0);
    assert_eq!(MultiEnvelope::from_bytes(&extended).unwrap_err(), PqError::TrailingBytes);
    let mut zero = b.clone();
    zero[5] = 0;
    assert_eq!(MultiEnvelope::from_bytes(&zero).unwrap_err(), PqError::NoRecipients);
    let v1 = sample_envelope().to_bytes();
    assert_eq!(MultiEnvelope::from_bytes(&v1).unwrap_err(), PqError::UnsupportedVersion(1));
    assert_eq!(SealedEnvelope::from_bytes(&b).unwrap_err(), PqError::UnsupportedVersion(2));
}

// ── Symmetric cipher ─────────────────────────────────────────

#[test]
fn aes_256_gcm_known_answers() {
    let key = [0u8; 32];
    let nonce = [0u8; 12];
    let ct = symmetric_encrypt(&key, &nonce, b"").unwrap();
    assert_eq!(ct, hex("530f8afbc74536b9a963b4f1c4cb738b"));
    let ct = symmetric_encrypt(&key, &nonce, &[0u8; 16]).unwrap();
    assert_eq!(ct, hex("cea7403d4d606b6e074ec5d3baf39d18d0d1c8a799996bf0265b98b5d48ab919"));
    assert_eq!(symmetric_decrypt(&key, &nonce, &ct).unwrap(), vec![0u8; 16]);
}

#[test]
fn symmetric_length_errors() {
    assert_eq!(symmetric_encrypt(&[0u8; 31], &[0u8; 12], b"x").unwrap_err(), PqError::InvalidKeyLength);
    assert_eq!(symmetric_encrypt(&[0u8; 32], &[0u8; 11], b"x").unwrap_err(), PqError::InvalidNonceLength);
    assert_eq!(symmetric_decrypt(&[0u8; 33], &[0u8; 12], b"x").unwrap_err(), PqError::InvalidKeyLength);
    assert_eq!(symmetric_decrypt(&[0u8; 32], &[0u8; 13], b"x").unwrap_err(), PqError::InvalidNonceLength);
    assert_eq!(symmetric_decrypt(&[0u8; 32], &[0u8; 12], b"short").unwrap_err(), PqError::DecryptionFailed);
}

#[test]
fn symmetric_ciphertext_carries_tag() {
    let key = derive_key(b"k", b"s").unwrap();
    let ct = symmetric_encrypt(&key, &[7u8; 12], b"hello").unwrap();
    assert_eq!(ct.len(), 5 + TAG_LEN);
    assert_ne!(&ct[..5], b"hello");
}

#[test]
fn derive_key_differs_from_its_inputs() {
    let key = derive_key(&[5u8; 32], &[6u8; 32]).unwrap();
    assert_eq!(key.len(), 32);
    assert_ne!(key, vec![5u8; 32]);
    assert_ne!(key, vec![6u8; 32]);
}

// ── KEM ──────────────────────────────────────────────────────

#[test]
fn kem_lengths_and_errors() {
    let (ek, dk) = generate_kem_keypair().unwrap();
    assert_eq!(ek.len(), ENCAPSULATION_KEY_LEN);
    assert_eq!(dk.len(), DECAPSULATION_KEY_LEN);
    let (ss, ct) = kem_encapsulate(&ek).unwrap();
    assert_eq!(ct.len(), KEM_CIPHERTEXT_LEN);
    assert_ne!(ss, ct[..32].to_vec());
    assert_eq!(kem_encapsulate(&dk).unwrap_err(), PqError::InvalidKeyLength);
    assert_eq!(kem_decapsulate(&ek, &ct).unwrap_err(), PqError::InvalidKeyLength);
    assert_eq!(kem_decapsulate(&dk, &ct[..100]).unwrap_err(), PqError::InvalidCiphertextLength);
}

#[test]
fn encrypt_bytes_errors() {
    assert_eq!(encrypt_bytes(&[0u8; 10], b"x").unwrap_err(), PqError::InvalidKeyLength);
    let (_ek, dk) = generate_kem_keypair().unwrap();
    let mut e = sample_envelope();
    e.kem_ciphertext = vec![0u8; KEM_CIPHERTEXT_LEN];
    assert_eq!(decrypt_bytes(&dk, &e).unwrap_err(), PqError::DecryptionFailed);
    assert_eq!(decrypt_bytes(&dk[..10], &e).unwrap_err(), PqError::InvalidKeyLength);
}

#[test]
fn multi_open_reports_no_match() {
    let (ek, _) = generate_kem_keypair().unwrap();
    let (_, dk) = generate_kem_keypair().unwrap();
    let m = MultiEnvelope::seal(&[ek.clone(), ek], b"data").unwrap();
    assert_eq!(m.open(&dk).unwrap_err(), PqError::NoMatchingRecipient);
}

#[test]
fn multi_seal_errors() {
    let (ek, _) = generate_kem_keypair().unwrap();
    assert_eq!(MultiEnvelope::seal(&[], b"x").unwrap_err(), PqError::NoRecipients);
    assert_eq!(MultiEnvelope::seal(&[ek.clone(), vec![1u8; 3]], b"x").unwrap_err(), PqError::InvalidKeyLength);
    assert_eq!(MultiEnvelope::seal(&[vec![1u8; 3], ek], b"x").unwrap_err(), PqError::InvalidKeyLength);
}

// ── Whole files ──────────────────────────────────────────────

#[test]
fn check_encrypt_request_order() {
    assert_eq!(check_encrypt_request(0, 0), Err(PqError::EmptyInput));
    assert_eq!(check_encrypt_request(5, 0), Err(PqError::NoRecipients));
    assert_eq!(check_encrypt_request(5, 2), Ok(()));
}

#[test]
fn seal_and_decrypt_envelope_single() {
    let (ek, dk) = generate_kem_keypair().unwrap();
    let bytes = seal_for_recipients(&[ek], b"one recipient").unwrap();
    assert_eq!(&bytes[0..4], b"PQGR");
    assert_eq!(bytes[4], 1);
    assert_eq!(decrypt_envelope(&dk, &bytes).unwrap(), b"one recipient");
}

#[test]
fn seal_and_decrypt_envelope_multi() {
    let (ek1, dk1) = generate_kem_keypair().unwrap();
    let (ek2, dk2) = generate_kem_keypair().unwrap();
    let (_, dk3) = generate_kem_keypair().unwrap();
    let bytes = seal_for_recipients(&[ek1, ek2], b"two recipients").unwrap();
    assert_eq!(bytes[4], 2);
    assert_eq!(decrypt_envelope(&dk1, &bytes).unwrap(), b"two recipients");
    assert_eq!(decrypt_envelope(&dk2, &bytes).unwrap(), b"two recipients");
    assert_eq!(decrypt_envelope(&dk3, &bytes).unwrap_err(), PqError::NoMatchingRecipient);
}

#[test]
fn seal_for_recipients_errors() {
    let (ek, _) = generate_kem_keypair().unwrap();
    assert_eq!(seal_for_recipients(&[ek.clone()], b"").unwrap_err(), PqError::EmptyInput);
    assert_eq!(seal_for_recipients(&[], b"x").unwrap_err(), PqError::NoRecipients);
    assert_eq!(seal_for_recipients(&[vec![0u8; 5]], b"x").unwrap_err(), PqError::InvalidKeyLength);
}

#[test]
fn decrypt_envelope_garbage() {
    let (_, dk) = generate_kem_keypair().unwrap();
    assert_eq!(
        decrypt_envelope(&dk, b"this is not a pqguard file").unwrap_err(),
        PqError::BadMagic
    );
}

// ── Key files ────────────────────────────────────────────────

#[test]
fn key_file_roundtrip_and_kind() {
    let (ek, dk) = generate_kem_keypair().unwrap();
    let pub_file = encode_key_file(KeyKind::Public, &ek);
    let sec_file = encode_key_file(KeyKind::Secret, &dk);
    assert!(pub_file.starts_with(b"PQGUARD-PUBLIC-KEY\n"));
    assert!(sec_file.starts_with(b"PQGUARD-SECRET-KEY\n"));
    assert_eq!(decode_key_file(KeyKind::Public, &pub_file).unwrap(), ek);
    assert_eq!(decode_key_file(KeyKind::Secret, &sec_file).unwrap(), dk);
    assert_eq!(key_file_kind(&pub_file), Some(KeyKind::Public));
    assert_eq!(key_file_kind(&sec_file), Some(KeyKind::Secret));
    assert_eq!(key_file_kind(b"hello"), None);
}

#[test]
fn key_file_exact_text() {
    let text = encode_key_file(KeyKind::Public, &[0x00, 0xAB, 0x7F]);
    assert_eq!(text, b"PQGUARD-PUBLIC-KEY\n00ab7f\n".to_vec());
}

#[test]
fn key_file_errors() {
    let (ek, _) = generate_kem_keypair().unwrap();
    let pub_file = encode_key_file(KeyKind::Public, &ek);
    assert_eq!(decode_key_file(KeyKind::Secret, &pub_file).unwrap_err(), PqError::WrongKeyType);
    assert_eq!(decode_key_file(KeyKind::Public, b"garbage").unwrap_err(), PqError::NotAKeyFile);
    assert_eq!(
        decode_key_file(KeyKind::Public, b"PQGUARD-PUBLIC-KEY\n0g\n").unwrap_err(),
        PqError::InvalidKeyEncoding
    );
    assert_eq!(
        decode_key_file(KeyKind::Public, b"PQGUARD-PUBLIC-KEY\nabc\n").unwrap_err(),
        PqError::InvalidKeyEncoding
    );
    assert_eq!(
        decode_key_file(KeyKind::Public, b"PQGUARD-PUBLIC-KEY\nABcd\n").unwrap_err(),
        PqError::InvalidKeyLength
    );
    // upper-case digits and a missing final newline are accepted
    let upper = format!("PQGUARD-PUBLIC-KEY\n{}", ek.iter().map(|b| format!("{:02X}", b)).collect::<String>());
    assert_eq!(decode_key_file(KeyKind::Public, upper.as_bytes()).unwrap(), ek);
}

#[test]
fn error_messages() {
    assert_eq!(PqError::EmptyInput.message(), "Input file is empty");
    assert_eq!(PqError::NoRecipients.message(), "At least one recipient is required");
}

// ── Verification of either version ───────────────────────────

#[test]
fn verify_envelope_accepts_both_versions() {
    let (ek1, _) = generate_kem_keypair().unwrap();
    let (ek2, _) = generate_kem_keypair().unwrap();
    let single = seal_for_recipients(&[ek1.clone()], b"one").unwrap();
    let multi = seal_for_recipients(&[ek1, ek2], b"two").unwrap();
    assert!(matches!(verify_envelope(&single).unwrap(), ParsedEnvelope::Single(_)));
    match verify_envelope(&multi).unwrap() {
        ParsedEnvelope::Multi(m) => assert_eq!(m.recipients.len(), 2),
        ParsedEnvelope::Single(_) => panic!("a two-recipient file parsed as single"),
    }
    assert_eq!(verify_envelope(&multi[..multi.len() - 1]).unwrap_err(), PqError::Truncated);
    assert_eq!(verify_envelope(b"this is not a pqguard file").unwrap_err(), PqError::BadMagic);
}

#[test]
fn public_key_is_held_in_private_key() {
    let (ek, dk) = generate_kem_keypair().unwrap();
    assert_eq!(&dk[1152..2336], &ek[..]);
}
