//! The key file format: a label line naming the kind of key, then the key in
//! lower-case hexadecimal, then a newline.
//!
//! ```text
//! PQGUARD-PUBLIC-KEY
//! 3a09...
//! ```
use vstd::prelude::*;
use crate::bytes::starts_with;
use crate::crypto::{DECAPSULATION_KEY_LEN, ENCAPSULATION_KEY_LEN};
use crate::error::PqError;

verus! {

/// The two kinds of key file.
#[derive(Debug, Clone, Copy, PartialEq, Eq, Structural)]
pub enum KeyKind {
    /// An ML-KEM-768 encapsulation key, to encrypt to.
    Public,
    /// An ML-KEM-768 decapsulation key, to decrypt with.
    Secret,
}

/// The other kind.
pub open spec fn other_kind(kind: KeyKind) -> KeyKind {
    match kind {
        KeyKind::Public => KeyKind::Secret,
        KeyKind::Secret => KeyKind::Public,
    }
}

/// `PQGUARD-PUBLIC-KEY` or `PQGUARD-SECRET-KEY`.
pub open spec fn key_label(kind: KeyKind) -> Seq<u8> {
    let middle = match kind {
        KeyKind::Public => seq![0x50u8, 0x55u8, 0x42u8, 0x4cu8, 0x49u8, 0x43u8],
        KeyKind::Secret => seq![0x53u8, 0x45u8, 0x43u8, 0x52u8, 0x45u8, 0x54u8],
    };
    seq![0x50u8, 0x51u8, 0x47u8, 0x55u8, 0x41u8, 0x52u8, 0x44u8, 0x2du8] + middle + seq![
        0x2du8,
        0x4bu8,
        0x45u8,
        0x59u8,
    ]
}

/// The first line of a key file, newline included.
pub open spec fn label_line(kind: KeyKind) -> Seq<u8> {
    key_label(kind).push(0x0au8)
}

/// The length of the key that a key file of this kind holds.
pub open spec fn key_len(kind: KeyKind) -> nat {
    match kind {
        KeyKind::Public => ENCAPSULATION_KEY_LEN as nat,
        KeyKind::Secret => DECAPSULATION_KEY_LEN as nat,
    }
}

/// The lower-case hexadecimal digit of `v` (below 16).
pub open spec fn hex_digit(v: int) -> u8 {
    if v < 10 {
        (0x30 + v) as u8
    } else {
        (0x61 + v - 10) as u8
    }
}

/// The value of a hexadecimal digit, either case.
pub open spec fn hex_value(c: u8) -> Option<u8> {
    if 0x30 <= c <= 0x39 {
        Some((c - 0x30) as u8)
    } else if 0x61 <= c <= 0x66 {
        Some((c - 0x61 + 10) as u8)
    } else if 0x41 <= c <= 0x46 {
        Some((c - 0x41 + 10) as u8)
    } else {
        None
    }
}

/// Two lower-case hexadecimal digits per byte, high digit first.
pub open spec fn hex_encode(s: Seq<u8>) -> Seq<u8> {
    Seq::new(
        2 * s.len(),
        |i: int|
            if i % 2 == 0 {
                hex_digit(s[i / 2] as int / 16)
            } else {
                hex_digit(s[i / 2] as int % 16)
            },
    )
}

/// The bytes spelled by pairs of hexadecimal digits, if `t` is an even run of them.
pub open spec fn hex_decode(t: Seq<u8>) -> Option<Seq<u8>> {
    if t.len() % 2 == 1 || exists|i: int| 0 <= i < t.len() && #[trigger] hex_value(t[i]) is None {
        None
    } else {
        Some(
            Seq::new(
                t.len() / 2,
                |i: int| (hex_value(t[2 * i])->0 * 16 + hex_value(t[2 * i + 1])->0) as u8,
            ),
        )
    }
}

/// The key file of a key.
pub open spec fn spec_encode_key_file(kind: KeyKind, key: Seq<u8>) -> Seq<u8> {
    label_line(kind) + hex_encode(key) + seq![0x0au8]
}

/// `b` begins with `prefix`.
pub open spec fn has_prefix(b: Seq<u8>, prefix: Seq<u8>) -> bool {
    prefix.len() <= b.len() && b.subrange(0, prefix.len() as int) == prefix
}

/// The hexadecimal body of a key file: what follows the label line, without one
/// final newline.
pub open spec fn key_file_body(kind: KeyKind, b: Seq<u8>) -> Seq<u8> {
    let rest = b.skip(label_line(kind).len() as int);
    if rest.len() > 0 && rest.last() == 0x0au8 {
        rest.drop_last()
    } else {
        rest
    }
}

/// What reading a key file of the given kind yields.
pub open spec fn parse_key_file(kind: KeyKind, b: Seq<u8>) -> Result<Seq<u8>, PqError> {
    if !has_prefix(b, label_line(kind)) {
        if has_prefix(b, label_line(other_kind(kind))) {
            Err(PqError::WrongKeyType)
        } else {
            Err(PqError::NotAKeyFile)
        }
    } else {
        match hex_decode(key_file_body(kind, b)) {
            None => Err(PqError::InvalidKeyEncoding),
            Some(key) => if key.len() != key_len(kind) {
                Err(PqError::InvalidKeyLength)
            } else {
                Ok(key)
            },
        }
    }
}

/// The kind of key file that `b` is, by its label line.
pub open spec fn spec_key_file_kind(b: Seq<u8>) -> Option<KeyKind> {
    if has_prefix(b, label_line(KeyKind::Public)) {
        Some(KeyKind::Public)
    } else if has_prefix(b, label_line(KeyKind::Secret)) {
        Some(KeyKind::Secret)
    } else {
        None
    }
}

fn label_line_bytes(kind: KeyKind) -> (r: Vec<u8>)
    ensures
        r@ == label_line(kind),
{
    let mut r = vec![0x50u8, 0x51u8, 0x47u8, 0x55u8, 0x41u8, 0x52u8, 0x44u8, 0x2du8];
    match kind {
        KeyKind::Public => {
            r.push(0x50u8);
            r.push(0x55u8);
            r.push(0x42u8);
            r.push(0x4cu8);
            r.push(0x49u8);
            r.push(0x43u8);
        },
        KeyKind::Secret => {
            r.push(0x53u8);
            r.push(0x45u8);
            r.push(0x43u8);
            r.push(0x52u8);
            r.push(0x45u8);
            r.push(0x54u8);
        },
    }
    r.push(0x2du8);
    r.push(0x4bu8);
    r.push(0x45u8);
    r.push(0x59u8);
    r.push(0x0au8);
    assert(r@ =~= label_line(kind));
    r
}

fn hex_digit_of(v: u8) -> (r: u8)
    requires
        v < 16,
    ensures
        r == hex_digit(v as int),
{
    if v < 10 {
        0x30u8 + v
    } else {
        0x61u8 + v - 10
    }
}

fn hex_value_of(c: u8) -> (r: Option<u8>)
    ensures
        r == hex_value(c),
{
    if 0x30u8 <= c && c <= 0x39u8 {
        Some(c - 0x30u8)
    } else if 0x61u8 <= c && c <= 0x66u8 {
        Some(c - 0x61u8 + 10)
    } else if 0x41u8 <= c && c <= 0x46u8 {
        Some(c - 0x41u8 + 10)
    } else {
        None
    }
}

/// The key file text of `key`.
pub fn encode_key_file(kind: KeyKind, key: &[u8]) -> (r: Vec<u8>)
    ensures
        r@ == spec_encode_key_file(kind, key@),
{
    let mut out = label_line_bytes(kind);
    let ghost head = out@;
    let mut i: usize = 0;
    while i < key.len()
        invariant
            i <= key@.len(),
            out@ == head + hex_encode(key@.subrange(0, i as int)),
        decreases key@.len() - i,
    {
        let byte = key[i];
        out.push(hex_digit_of(byte / 16));
        out.push(hex_digit_of(byte % 16));
        i = i + 1;
        assert(out@ =~= head + hex_encode(key@.subrange(0, i as int)));
    }
    out.push(0x0au8);
    assert(key@.subrange(0, key@.len() as int) =~= key@);
    assert(out@ =~= spec_encode_key_file(kind, key@));
    out
}

/// Decodes an even run of hexadecimal digits.
fn decode_hex(t: &[u8]) -> (r: Option<Vec<u8>>)
    ensures
        match r {
            Some(v) => hex_decode(t@) == Some(v@),
            None => hex_decode(t@) is None,
        },
{
    if t.len() % 2 == 1 {
        return None;
    }
    let n = t.len() / 2;
    let mut out: Vec<u8> = Vec::new();
    let mut j: usize = 0;
    while j < n
        invariant
            n == t@.len() / 2,
            t@.len() % 2 == 0,
            j <= n,
            forall|i: int| 0 <= i < 2 * j ==> #[trigger] hex_value(t@[i]) is Some,
            out@ =~= Seq::new(
                j as nat,
                |i: int| (hex_value(t@[2 * i])->0 * 16 + hex_value(t@[2 * i + 1])->0) as u8,
            ),
        decreases n - j,
    {
        let hi = hex_value_of(t[2 * j]);
        let lo = hex_value_of(t[2 * j + 1]);
        match (hi, lo) {
            (Some(h), Some(l)) => {
                out.push(h * 16 + l);
            },
            _ => {
                assert(hex_value(t@[2 * j as int]) is None || hex_value(t@[2 * j + 1]) is None);
                return None;
            },
        }
        j = j + 1;
    }
    Some(out)
}

/// Reads a key file of the given kind: the label line must name that kind, the body
/// must be hexadecimal, and the key must have that kind's length.
pub fn decode_key_file(kind: KeyKind, b: &[u8]) -> (r: Result<Vec<u8>, PqError>)
    ensures
        match r {
            Ok(k) => parse_key_file(kind, b@) == Ok::<Seq<u8>, PqError>(k@),
            Err(x) => parse_key_file(kind, b@) == Err::<Seq<u8>, PqError>(x),
        },
{
    let head = label_line_bytes(kind);
    if !starts_with(b, head.as_slice()) {
        let other = match kind {
            KeyKind::Public => KeyKind::Secret,
            KeyKind::Secret => KeyKind::Public,
        };
        let other_head = label_line_bytes(other);
        if starts_with(b, other_head.as_slice()) {
            return Err(PqError::WrongKeyType);
        }
        return Err(PqError::NotAKeyFile);
    }
    let start = head.len();
    let mut end = b.len();
    if end > start && b[end - 1] == 0x0au8 {
        end = end - 1;
    }
    let body = &b[start..end];
    proof {
        let rest = b@.skip(start as int);
        if rest.len() > 0 && rest.last() == 0x0au8 {
            assert(body@ =~= rest.drop_last());
        } else {
            assert(body@ =~= rest);
        }
    }
    match decode_hex(body) {
        None => Err(PqError::InvalidKeyEncoding),
        Some(key) => {
            let expected = match kind {
                KeyKind::Public => ENCAPSULATION_KEY_LEN,
                KeyKind::Secret => DECAPSULATION_KEY_LEN,
            };
            if key.len() != expected {
                Err(PqError::InvalidKeyLength)
            } else {
                Ok(key)
            }
        },
    }
}

/// The kind of key file that `b` is, by its label line.
pub fn key_file_kind(b: &[u8]) -> (r: Option<KeyKind>)
    ensures
        r == spec_key_file_kind(b@),
{
    let public = label_line_bytes(KeyKind::Public);
    if starts_with(b, public.as_slice()) {
        return Some(KeyKind::Public);
    }
    let secret = label_line_bytes(KeyKind::Secret);
    if starts_with(b, secret.as_slice()) {
        return Some(KeyKind::Secret);
    }
    None
}

proof fn lemma_hex_digit_value(v: int)
    requires
        0 <= v < 16,
    ensures
        hex_value(hex_digit(v)) == Some(v as u8),
{
}

/// Hexadecimal decoding undoes hexadecimal encoding.
pub proof fn lemma_hex_roundtrip(s: Seq<u8>)
    ensures
        hex_decode(hex_encode(s)) == Some(s),
{
    let t = hex_encode(s);
    assert forall|i: int| 0 <= i < t.len() implies #[trigger] hex_value(t[i]) == Some(
        (if i % 2 == 0 {
            s[i / 2] as int / 16
        } else {
            s[i / 2] as int % 16
        }) as u8,
    ) by {
        if i % 2 == 0 {
            lemma_hex_digit_value(s[i / 2] as int / 16);
        } else {
            lemma_hex_digit_value(s[i / 2] as int % 16);
        }
    }
    assert(t.len() % 2 == 0);
    assert(!(exists|i: int| 0 <= i < t.len() && #[trigger] hex_value(t[i]) is None));
    let d = Seq::new(t.len() / 2, |i: int| (hex_value(t[2 * i])->0 * 16 + hex_value(t[2 * i + 1])->0) as u8);
    assert forall|i: int| 0 <= i < s.len() implies d[i] == s[i] by {
        assert(hex_value(t[2 * i]) == Some((s[i] as int / 16) as u8));
        assert(hex_value(t[2 * i + 1]) == Some((s[i] as int % 16) as u8));
    }
    assert(d =~= s);
}

proof fn lemma_key_file_layout(kind: KeyKind, key: Seq<u8>)
    ensures
        has_prefix(spec_encode_key_file(kind, key), label_line(kind)),
        key_file_body(kind, spec_encode_key_file(kind, key)) == hex_encode(key),
{
    let b = spec_encode_key_file(kind, key);
    let h = label_line(kind);
    assert(b.subrange(0, h.len() as int) =~= h);
    let rest = b.skip(h.len() as int);
    assert(rest =~= hex_encode(key) + seq![0x0au8]);
    assert(rest.drop_last() =~= hex_encode(key));
}

/// Reading a key file gives back the key it was written from, and names its kind.
pub proof fn lemma_key_file_roundtrip(kind: KeyKind, key: Seq<u8>)
    requires
        key.len() == key_len(kind),
    ensures
        parse_key_file(kind, spec_encode_key_file(kind, key)) == Ok::<Seq<u8>, PqError>(key),
        spec_key_file_kind(spec_encode_key_file(kind, key)) == Some(kind),
{
    lemma_key_file_layout(kind, key);
    lemma_hex_roundtrip(key);
    lemma_labels_differ(kind, spec_encode_key_file(kind, key));
}

/// A key file read as the other kind of key is refused as the wrong type.
pub proof fn lemma_key_file_wrong_kind(kind: KeyKind, key: Seq<u8>)
    ensures
        parse_key_file(other_kind(kind), spec_encode_key_file(kind, key)) == Err::<Seq<u8>, PqError>(
            PqError::WrongKeyType,
        ),
{
    lemma_key_file_layout(kind, key);
    lemma_labels_differ(kind, spec_encode_key_file(kind, key));
}

proof fn lemma_labels_differ(kind: KeyKind, b: Seq<u8>)
    requires
        has_prefix(b, label_line(kind)),
    ensures
        !has_prefix(b, label_line(other_kind(kind))),
{
    assert(label_line(kind)[8] != label_line(other_kind(kind))[8]);
    if has_prefix(b, label_line(other_kind(kind))) {
        assert(b[8] == label_line(kind)[8]);
        assert(b[8] == label_line(other_kind(kind))[8]);
    }
}

/// The sixteen lower-case hexadecimal digits `0123456789abcdef`.
pub open spec fn lower_hex_digits() -> Seq<u8> {
    seq![
        0x30u8, 0x31u8, 0x32u8, 0x33u8, 0x34u8, 0x35u8, 0x36u8, 0x37u8, 0x38u8, 0x39u8,
        0x61u8, 0x62u8, 0x63u8, 0x64u8, 0x65u8, 0x66u8,
    ]
}

/// The sixteen upper-case hexadecimal digits `0123456789ABCDEF`.
pub open spec fn upper_hex_digits() -> Seq<u8> {
    seq![
        0x30u8, 0x31u8, 0x32u8, 0x33u8, 0x34u8, 0x35u8, 0x36u8, 0x37u8, 0x38u8, 0x39u8,
        0x41u8, 0x42u8, 0x43u8, 0x44u8, 0x45u8, 0x46u8,
    ]
}

/// The digits are the standard ones: `v` is written as the `v`-th of `0123456789abcdef`,
/// and that digit, in either case, reads back as `v`.
pub proof fn lemma_hex_digits_standard(v: int)
    requires
        0 <= v < 16,
    ensures
        hex_digit(v) == lower_hex_digits()[v],
        hex_value(lower_hex_digits()[v]) == Some(v as u8),
        hex_value(upper_hex_digits()[v]) == Some(v as u8),
{
}

/// A key file writes each byte of the key as two standard lower-case hexadecimal
/// digits, high digit first, after the label line.
pub proof fn lemma_key_file_digits(kind: KeyKind, key: Seq<u8>)
    ensures
        forall|i: int|
            #![trigger key[i]]
            0 <= i < key.len() ==> spec_encode_key_file(kind, key)[label_line(kind).len() + 2 * i]
                == lower_hex_digits()[key[i] as int / 16] && spec_encode_key_file(kind, key)[label_line(
                kind,
            ).len() + 2 * i + 1] == lower_hex_digits()[key[i] as int % 16],
{
    assert forall|i: int|
        #![trigger key[i]]
        0 <= i < key.len() implies spec_encode_key_file(kind, key)[label_line(kind).len() + 2 * i]
            == lower_hex_digits()[key[i] as int / 16] && spec_encode_key_file(kind, key)[label_line(
            kind,
        ).len() + 2 * i + 1] == lower_hex_digits()[key[i] as int % 16] by {
        let h = hex_encode(key);
        let l = label_line(kind).len() as int;
        lemma_hex_digits_standard(key[i] as int / 16);
        lemma_hex_digits_standard(key[i] as int % 16);
        assert((2 * i) / 2 == i);
        assert((2 * i + 1) / 2 == i);
        assert(spec_encode_key_file(kind, key)[l + 2 * i] == h[2 * i]);
        assert(spec_encode_key_file(kind, key)[l + 2 * i + 1] == h[2 * i + 1]);
    }
}

} // verus!
