//! Turning a plaintext and the recipients' public keys into envelope bytes.
use vstd::prelude::*;
use crate::crypto::{
    encrypt_bytes, keys_view, lemma_sealed_to_fits, sealed_to, spec_seal_error, ENCAPSULATION_KEY_LEN,
    MAX_PLAINTEXT_LEN,
};
use crate::envelope::{
    blocks_fit, fields_fit, lemma_multi_roundtrip, lemma_single_roundtrip, parse_multi, parse_single,
    MultiEnvelope,
};
use crate::error::PqError;

verus! {

/// What `check_encrypt_request` decides.
pub open spec fn spec_check_encrypt_request(plaintext_len: nat, recipient_count: nat) -> Result<
    (),
    PqError,
> {
    if plaintext_len == 0 {
        Err(PqError::EmptyInput)
    } else if recipient_count == 0 {
        Err(PqError::NoRecipients)
    } else {
        Ok(())
    }
}

/// The checks that come before any key file is read: there is something to encrypt
/// and someone to encrypt it to.
pub fn check_encrypt_request(plaintext_len: usize, recipient_count: usize) -> (r: Result<(), PqError>)
    ensures
        r == spec_check_encrypt_request(plaintext_len as nat, recipient_count as nat),
        r is Ok <==> (plaintext_len > 0 && recipient_count > 0),
{
    if plaintext_len == 0 {
        return Err(PqError::EmptyInput);
    }
    if recipient_count == 0 {
        return Err(PqError::NoRecipients);
    }
    Ok(())
}

/// An encryption request is refused only for an empty input or an empty recipient
/// list: every nonempty input with at least one recipient passes, whatever the count.
pub proof fn lemma_check_encrypt_request(plaintext_len: nat, recipient_count: nat)
    ensures
        (spec_check_encrypt_request(plaintext_len, recipient_count) is Ok) == (plaintext_len > 0
            && recipient_count > 0),
        plaintext_len == 0 ==> spec_check_encrypt_request(plaintext_len, recipient_count) == Err::<
            (),
            PqError,
        >(PqError::EmptyInput),
        plaintext_len > 0 && recipient_count == 0 ==> spec_check_encrypt_request(
            plaintext_len,
            recipient_count,
        ) == Err::<(), PqError>(PqError::NoRecipients),
{
}

/// The error that `seal_for_recipients` gives when it fails.
pub open spec fn spec_seal_for_recipients_error(keys: Seq<Seq<u8>>, plaintext_len: nat) -> PqError {
    if plaintext_len == 0 {
        PqError::EmptyInput
    } else if keys.len() > u32::MAX {
        PqError::TooManyRecipients
    } else {
        spec_seal_error(keys, plaintext_len)
    }
}

/// Every key has the length of an ML-KEM-768 encapsulation key.
pub open spec fn keys_fit(keys: Seq<Vec<u8>>) -> bool {
    forall|i: int| 0 <= i < keys.len() ==> (#[trigger] keys[i])@.len() == ENCAPSULATION_KEY_LEN
}

/// `b` encrypts `plaintext` to `keys`: for one key, the single-recipient bytes of an
/// envelope sealed to it; for several, the multi-recipient bytes with block `i` sealed
/// to key `i`.
pub open spec fn encrypts_to(b: Seq<u8>, keys: Seq<Seq<u8>>, plaintext: Seq<u8>) -> bool {
    if keys.len() == 1 {
        parse_single(b) matches Ok(e) && sealed_to(e, keys[0], plaintext)
    } else {
        &&& keys.len() > 1
        &&& parse_multi(b) matches Ok(bs) && bs.len() == keys.len() && forall|i: int|
            0 <= i < bs.len() ==> sealed_to(#[trigger] bs[i], keys[i], plaintext)
    }
}

/// Seals `plaintext` for the recipients and gives the envelope bytes: the
/// single-recipient format for one recipient, the multi-recipient format for several,
/// each block sealed to its recipient's key.
pub fn seal_for_recipients(recipient_pks: &[Vec<u8>], plaintext: &[u8]) -> (r: Result<Vec<u8>, PqError>)
    ensures
        r is Ok <==> (plaintext@.len() > 0 && 0 < recipient_pks@.len() <= u32::MAX
            && plaintext@.len() <= MAX_PLAINTEXT_LEN && keys_fit(recipient_pks@)),
        r matches Err(x) ==> x == spec_seal_for_recipients_error(
            keys_view(recipient_pks@),
            plaintext@.len(),
        ),
        r matches Ok(b) ==> encrypts_to(b@, keys_view(recipient_pks@), plaintext@),
{
    check_encrypt_request(plaintext.len(), recipient_pks.len())?;
    if recipient_pks.len() > u32::MAX as usize {
        return Err(PqError::TooManyRecipients);
    }
    let ghost keys = keys_view(recipient_pks@);
    if recipient_pks.len() == 1 {
        assert(keys[0] == recipient_pks@[0]@);
        let e = match encrypt_bytes(recipient_pks[0].as_slice(), plaintext) {
            Ok(e) => e,
            Err(x) => {
                return Err(x);
            },
        };
        proof {
            lemma_sealed_to_fits(e@, keys[0], plaintext@);
            lemma_single_roundtrip(e@);
        }
        assert(keys_fit(recipient_pks@));
        Ok(e.to_bytes())
    } else {
        let m = MultiEnvelope::seal(recipient_pks, plaintext)?;
        assert forall|i: int| 0 <= i < m@.len() implies sealed_to(
            #[trigger] m@[i],
            keys[i],
            plaintext@,
        ) by {
            assert(keys[i] == recipient_pks@[i]@);
        }
        assert(blocks_fit(m@)) by {
            assert forall|i: int| 0 <= i < m@.len() implies fields_fit(#[trigger] m@[i]) by {
                lemma_sealed_to_fits(m@[i], keys[i], plaintext@);
            }
        }
        assert forall|i: int| 0 <= i < m.recipients@.len() implies (#[trigger] m.recipients@[i]).kem_ciphertext@.len()
            <= u32::MAX by {
            assert(m@[i] == m.recipients@[i]@);
            lemma_sealed_to_fits(m@[i], keys[i], plaintext@);
        }
        proof {
            lemma_multi_roundtrip(m@);
        }
        Ok(m.to_bytes())
    }
}

} // verus!
