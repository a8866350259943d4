//! Opening envelope bytes of either version with a decapsulation key.
use vstd::prelude::*;
use crate::crypto::{
    block_opens_to, bytes_result_view, decapsulates_all, decrypt_bytes, lemma_open_multi_at,
    lemma_open_multi_authenticated, lemma_open_sealed_to, lemma_open_single_authenticated,
    spec_open_multi, spec_open_single,
};
use crate::encrypt::encrypts_to;
use crate::envelope::{
    is_multi, lemma_single_parse_serialize, lemma_single_version_byte, parse_multi, parse_single,
    MultiEnvelope, SealedEnvelope, MULTI_VERSION,
};
use crate::error::PqError;

verus! {

/// What `decrypt_envelope` gives.
pub open spec fn spec_decrypt_envelope(dk: Seq<u8>, b: Seq<u8>) -> Result<Seq<u8>, PqError> {
    if is_multi(b) {
        match parse_multi(b) {
            Ok(bs) => spec_open_multi(dk, bs),
            Err(x) => Err(x),
        }
    } else {
        match parse_single(b) {
            Ok(e) => spec_open_single(dk, e),
            Err(x) => Err(x),
        }
    }
}

/// Decrypts envelope bytes with a decapsulation key; the version byte chooses the
/// format.
pub fn decrypt_envelope(dk: &[u8], b: &[u8]) -> (r: Result<Vec<u8>, PqError>)
    ensures
        bytes_result_view(r) == spec_decrypt_envelope(dk@, b@),
{
    if b.len() > 4 && b[4] == MULTI_VERSION {
        match MultiEnvelope::from_bytes(b) {
            Ok(m) => m.open(dk),
            Err(x) => Err(x),
        }
    } else {
        match SealedEnvelope::from_bytes(b) {
            Ok(e) => decrypt_bytes(dk, &e),
            Err(x) => Err(x),
        }
    }
}

/// Any recipient's private key decrypts what was encrypted to the recipients: where
/// `b` encrypts `plaintext` to `keys`, and `dk` decapsulates every encapsulation to
/// `keys[i]`, decrypting `b` with `dk` gives `plaintext` back, provided that no block
/// before recipient `i`'s opens with `dk`.
pub proof fn lemma_recipient_decrypts(
    b: Seq<u8>,
    keys: Seq<Seq<u8>>,
    plaintext: Seq<u8>,
    i: int,
    dk: Seq<u8>,
)
    requires
        encrypts_to(b, keys, plaintext),
        0 <= i < keys.len(),
        decapsulates_all(keys[i], dk),
        keys.len() > 1 ==> forall|j: int|
            0 <= j < i ==> (#[trigger] spec_open_single(dk, parse_multi(b)->Ok_0[j])) is Err,
    ensures
        spec_decrypt_envelope(dk, b) == Ok::<Seq<u8>, PqError>(plaintext),
{
    if keys.len() == 1 {
        let e = parse_single(b)->Ok_0;
        lemma_single_parse_serialize(b);
        lemma_single_version_byte(e);
        lemma_open_sealed_to(keys[0], dk, e, plaintext);
    } else {
        let bs = parse_multi(b)->Ok_0;
        lemma_open_sealed_to(keys[i], dk, bs[i], plaintext);
        lemma_open_multi_at(dk, bs, i, plaintext);
    }
}

/// Decryption succeeds only by authentication. For single-recipient bytes, the result
/// is `Ok(p)` exactly when the bytes parse and the envelope's data authenticates and
/// decrypts to `p` under the key derived from the secret that `dk` decapsulates; a key
/// under which it does not authenticate gives an error. For multi-recipient bytes, an
/// `Ok(p)` comes from a block that authenticates to `p`, and where no block
/// authenticates the result is `NoMatchingRecipient`.
pub proof fn lemma_decrypt_authenticated(dk: Seq<u8>, b: Seq<u8>, p: Seq<u8>)
    ensures
        !is_multi(b) ==> ((spec_decrypt_envelope(dk, b) == Ok::<Seq<u8>, PqError>(p)) == (parse_single(
            b,
        ) is Ok && block_opens_to(dk, parse_single(b)->Ok_0, p))),
        !is_multi(b) && parse_single(b) is Ok && (forall|q: Seq<u8>|
            !#[trigger] block_opens_to(dk, parse_single(b)->Ok_0, q)) ==> spec_decrypt_envelope(dk, b) is Err,
        is_multi(b) && spec_decrypt_envelope(dk, b) == Ok::<Seq<u8>, PqError>(p) ==> parse_multi(b) is Ok
            && exists|i: int|
            0 <= i < parse_multi(b)->Ok_0.len() && #[trigger] block_opens_to(
                dk,
                parse_multi(b)->Ok_0[i],
                p,
            ),
        is_multi(b) && parse_multi(b) is Ok && (forall|i: int, q: Seq<u8>|
            0 <= i < parse_multi(b)->Ok_0.len() ==> !#[trigger] block_opens_to(
                dk,
                parse_multi(b)->Ok_0[i],
                q,
            )) ==> spec_decrypt_envelope(dk, b) == Err::<Seq<u8>, PqError>(PqError::NoMatchingRecipient),
{
    if is_multi(b) {
        if parse_multi(b) is Ok {
            lemma_open_multi_authenticated(dk, parse_multi(b)->Ok_0);
        }
    } else if parse_single(b) is Ok {
        let e = parse_single(b)->Ok_0;
        lemma_open_single_authenticated(dk, e, p);
        if spec_open_single(dk, e) is Ok {
            lemma_open_single_authenticated(dk, e, spec_open_single(dk, e)->Ok_0);
        }
    }
}

} // verus!
