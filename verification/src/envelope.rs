//! The `PQGR` envelope formats.
//!
//! Version 1 carries one recipient:
//! `"PQGR" | 0x01 | kem_len: u32 LE | kem_ciphertext | nonce (12) | salt (32) | encrypted_data`,
//! where the encrypted data runs to the end of the bytes.
//!
//! Version 2 carries one independent block per recipient and is parsed strictly:
//! `"PQGR" | 0x02 | count: u32 LE | block * count`, with each block
//! `kem_len: u32 LE | kem_ciphertext | nonce (12) | salt (32) | data_len: u64 LE | encrypted_data`,
//! and no byte after the last block.
use vstd::prelude::*;
use crate::bytes::{
    copy_range, lemma_le_u32_bytes_roundtrip, lemma_le_u64_bytes_roundtrip, lemma_u32_le_roundtrip,
    lemma_u64_le_roundtrip, le_u32, le_u64, push_all, push_u32_le, push_u64_le, read_u32_le,
    read_u64_le, u32_le_bytes, u64_le_bytes,
};
use crate::crypto::{NONCE_LEN, SALT_LEN};
use crate::error::PqError;

verus! {

/// Version byte of the single-recipient format.
pub const SINGLE_VERSION: u8 = 1;

/// Version byte of the multi-recipient format.
pub const MULTI_VERSION: u8 = 2;

/// Length of magic, version byte and the first length field.
pub const HEADER_LEN: usize = 9;

/// The mathematical content of one sealed block.
pub struct EnvelopeFields {
    pub kem_ciphertext: Seq<u8>,
    pub nonce: Seq<u8>,
    pub salt: Seq<u8>,
    pub data: Seq<u8>,
}

/// A single-recipient envelope; also the block of a multi-recipient one.
#[derive(Debug)]
pub struct SealedEnvelope {
    pub kem_ciphertext: Vec<u8>,
    pub symmetric_nonce: Vec<u8>,
    pub salt: Vec<u8>,
    pub encrypted_data: Vec<u8>,
}

impl View for SealedEnvelope {
    type V = EnvelopeFields;

    open spec fn view(&self) -> EnvelopeFields {
        EnvelopeFields {
            kem_ciphertext: self.kem_ciphertext@,
            nonce: self.symmetric_nonce@,
            salt: self.salt@,
            data: self.encrypted_data@,
        }
    }
}

/// The four magic bytes `PQGR`.
pub open spec fn magic() -> Seq<u8> {
    seq![0x50u8, 0x51u8, 0x47u8, 0x52u8]
}

/// Magic followed by a version byte.
pub open spec fn header(version: u8) -> Seq<u8> {
    magic().push(version)
}

/// The fields have the lengths that the formats can carry and parse back.
pub open spec fn fields_fit(e: EnvelopeFields) -> bool {
    &&& e.nonce.len() == NONCE_LEN
    &&& e.salt.len() == SALT_LEN
    &&& e.kem_ciphertext.len() <= u32::MAX
    &&& e.data.len() <= u64::MAX
}

/// The version-1 bytes of an envelope.
pub open spec fn serialize_single(e: EnvelopeFields) -> Seq<u8> {
    header(SINGLE_VERSION) + u32_le_bytes(e.kem_ciphertext.len() as u32) + e.kem_ciphertext + e.nonce
        + e.salt + e.data
}

/// What a version-1 parse of `b` yields.
pub open spec fn parse_single(b: Seq<u8>) -> Result<EnvelopeFields, PqError> {
    if b.len() < HEADER_LEN {
        Err(PqError::TooShort)
    } else if b.subrange(0, 4) != magic() {
        Err(PqError::BadMagic)
    } else if b[4] != SINGLE_VERSION {
        Err(PqError::UnsupportedVersion(b[4]))
    } else {
        let k = le_u32(b.subrange(5, 9)) as int;
        if b.len() < HEADER_LEN + k + NONCE_LEN + SALT_LEN {
            Err(PqError::Truncated)
        } else {
            Ok(
                EnvelopeFields {
                    kem_ciphertext: b.subrange(9, 9 + k),
                    nonce: b.subrange(9 + k, 21 + k),
                    salt: b.subrange(21 + k, 53 + k),
                    data: b.subrange(53 + k, b.len() as int),
                },
            )
        }
    }
}

/// The view of a result that carries an envelope.
pub open spec fn envelope_result_view(r: Result<SealedEnvelope, PqError>) -> Result<
    EnvelopeFields,
    PqError,
> {
    match r {
        Ok(e) => Ok(e@),
        Err(x) => Err(x),
    }
}

/// Whether `b` begins with the magic bytes.
fn has_magic(b: &[u8]) -> (r: bool)
    requires
        b@.len() >= 4,
    ensures
        r == (b@.subrange(0, 4) == magic()),
{
    let r = b[0] == 0x50u8 && b[1] == 0x51u8 && b[2] == 0x47u8 && b[3] == 0x52u8;
    if r {
        assert(b@.subrange(0, 4) =~= magic());
    } else {
        assert(b@.subrange(0, 4)[0] != magic()[0] || b@.subrange(0, 4)[1] != magic()[1]
            || b@.subrange(0, 4)[2] != magic()[2] || b@.subrange(0, 4)[3] != magic()[3]);
    }
    r
}

/// Appends magic and a version byte.
fn push_header(out: &mut Vec<u8>, version: u8)
    ensures
        final(out)@ == old(out)@ + header(version),
{
    out.push(0x50u8);
    out.push(0x51u8);
    out.push(0x47u8);
    out.push(0x52u8);
    out.push(version);
    assert(out@ =~= old(out)@ + header(version));
}

impl SealedEnvelope {
    /// The version-1 bytes of this envelope.
    pub fn to_bytes(&self) -> (r: Vec<u8>)
        requires
            self.kem_ciphertext@.len() <= u32::MAX,
        ensures
            r@ == serialize_single(self@),
    {
        let mut out: Vec<u8> = Vec::new();
        push_header(&mut out, SINGLE_VERSION);
        push_u32_le(&mut out, self.kem_ciphertext.len() as u32);
        push_all(&mut out, self.kem_ciphertext.as_slice());
        push_all(&mut out, self.symmetric_nonce.as_slice());
        push_all(&mut out, self.salt.as_slice());
        push_all(&mut out, self.encrypted_data.as_slice());
        assert(out@ =~= serialize_single(self@));
        out
    }

    /// Parses version-1 bytes.
    pub fn from_bytes(b: &[u8]) -> (r: Result<SealedEnvelope, PqError>)
        ensures
            envelope_result_view(r) == parse_single(b@),
    {
        let len = b.len();
        if len < HEADER_LEN {
            return Err(PqError::TooShort);
        }
        if !has_magic(b) {
            return Err(PqError::BadMagic);
        }
        if b[4] != SINGLE_VERSION {
            return Err(PqError::UnsupportedVersion(b[4]));
        }
        let k = read_u32_le(b, 5) as usize;
        if len - HEADER_LEN < k || len - HEADER_LEN - k < NONCE_LEN + SALT_LEN {
            return Err(PqError::Truncated);
        }
        let kem_end = HEADER_LEN + k;
        let nonce_end = kem_end + NONCE_LEN;
        let salt_end = nonce_end + SALT_LEN;
        let e = SealedEnvelope {
            kem_ciphertext: copy_range(b, HEADER_LEN, kem_end),
            symmetric_nonce: copy_range(b, kem_end, nonce_end),
            salt: copy_range(b, nonce_end, salt_end),
            encrypted_data: copy_range(b, salt_end, len),
        };
        Ok(e)
    }
}

/// Reading back the bytes of an envelope gives the envelope.
pub proof fn lemma_single_roundtrip(e: EnvelopeFields)
    requires
        fields_fit(e),
    ensures
        parse_single(serialize_single(e)) == Ok::<EnvelopeFields, PqError>(e),
{
    let b = serialize_single(e);
    let k = e.kem_ciphertext.len() as int;
    lemma_u32_le_roundtrip(k as u32);
    assert(b.subrange(0, 4) =~= magic());
    assert(b.subrange(5, 9) =~= u32_le_bytes(k as u32));
    assert(b.subrange(9, 9 + k) =~= e.kem_ciphertext);
    assert(b.subrange(9 + k, 21 + k) =~= e.nonce);
    assert(b.subrange(21 + k, 53 + k) =~= e.salt);
    assert(b.subrange(53 + k, b.len() as int) =~= e.data);
}

/// A parsed envelope, written out again, gives the bytes it was read from.
pub proof fn lemma_single_parse_serialize(b: Seq<u8>)
    requires
        parse_single(b) is Ok,
    ensures
        serialize_single(parse_single(b)->Ok_0) == b,
{
    let e = parse_single(b)->Ok_0;
    let k = le_u32(b.subrange(5, 9)) as int;
    lemma_le_u32_bytes_roundtrip(b.subrange(5, 9));
    assert(e.kem_ciphertext.len() == k);
    assert(header(SINGLE_VERSION) =~= b.subrange(0, 5));
    assert(serialize_single(e) =~= b);
}

/// A multi-recipient envelope: one independently sealed block per recipient.
#[derive(Debug)]
pub struct MultiEnvelope {
    pub recipients: Vec<SealedEnvelope>,
}

/// The views of a sequence of blocks.
pub open spec fn blocks_view(v: Seq<SealedEnvelope>) -> Seq<EnvelopeFields> {
    v.map_values(|e: SealedEnvelope| e@)
}

impl View for MultiEnvelope {
    type V = Seq<EnvelopeFields>;

    open spec fn view(&self) -> Seq<EnvelopeFields> {
        blocks_view(self.recipients@)
    }
}

/// The bytes of one block of the version-2 format.
pub open spec fn serialize_block(e: EnvelopeFields) -> Seq<u8> {
    u32_le_bytes(e.kem_ciphertext.len() as u32) + e.kem_ciphertext + e.nonce + e.salt + u64_le_bytes(
        e.data.len() as u64,
    ) + e.data
}

/// The bytes of a run of blocks, in order.
pub open spec fn serialize_blocks(bs: Seq<EnvelopeFields>) -> Seq<u8>
    decreases bs.len(),
{
    if bs.len() == 0 {
        Seq::empty()
    } else {
        serialize_blocks(bs.drop_last()) + serialize_block(bs.last())
    }
}

/// The version-2 bytes of an envelope with the blocks `bs`.
pub open spec fn serialize_multi(bs: Seq<EnvelopeFields>) -> Seq<u8> {
    header(MULTI_VERSION) + u32_le_bytes(bs.len() as u32) + serialize_blocks(bs)
}

/// Every block fits the format.
pub open spec fn blocks_fit(bs: Seq<EnvelopeFields>) -> bool {
    forall|i: int| 0 <= i < bs.len() ==> fields_fit(#[trigger] bs[i])
}

/// The block at the start of `s` and the number of bytes it takes, if `s` holds a whole one.
pub open spec fn parse_block(s: Seq<u8>) -> Option<(EnvelopeFields, int)> {
    if s.len() < 4 {
        None
    } else {
        let k = le_u32(s.subrange(0, 4)) as int;
        if s.len() < 56 + k {
            None
        } else {
            let d = le_u64(s.subrange(48 + k, 56 + k)) as int;
            if s.len() < 56 + k + d {
                None
            } else {
                Some(
                    (
                        EnvelopeFields {
                            kem_ciphertext: s.subrange(4, 4 + k),
                            nonce: s.subrange(4 + k, 16 + k),
                            salt: s.subrange(16 + k, 48 + k),
                            data: s.subrange(56 + k, 56 + k + d),
                        },
                        56 + k + d,
                    ),
                )
            }
        }
    }
}

/// Parses exactly `n` blocks that take up all of `s`.
pub open spec fn parse_blocks(s: Seq<u8>, n: nat) -> Result<Seq<EnvelopeFields>, PqError>
    decreases n,
{
    if n == 0 {
        if s.len() == 0 {
            Ok(Seq::empty())
        } else {
            Err(PqError::TrailingBytes)
        }
    } else {
        match parse_block(s) {
            None => Err(PqError::Truncated),
            Some((e, c)) => prepend_blocks(seq![e], parse_blocks(s.skip(c), (n - 1) as nat)),
        }
    }
}

/// `r` with `prefix` put in front of its blocks.
pub open spec fn prepend_blocks(
    prefix: Seq<EnvelopeFields>,
    r: Result<Seq<EnvelopeFields>, PqError>,
) -> Result<Seq<EnvelopeFields>, PqError> {
    match r {
        Ok(rest) => Ok(prefix + rest),
        Err(x) => Err(x),
    }
}

/// What a version-2 parse of `b` yields.
pub open spec fn parse_multi(b: Seq<u8>) -> Result<Seq<EnvelopeFields>, PqError> {
    if b.len() < HEADER_LEN {
        Err(PqError::TooShort)
    } else if b.subrange(0, 4) != magic() {
        Err(PqError::BadMagic)
    } else if b[4] != MULTI_VERSION {
        Err(PqError::UnsupportedVersion(b[4]))
    } else if le_u32(b.subrange(5, 9)) == 0 {
        Err(PqError::NoRecipients)
    } else {
        parse_blocks(b.skip(9), le_u32(b.subrange(5, 9)))
    }
}

/// The view of a result that carries a multi-recipient envelope.
pub open spec fn multi_result_view(r: Result<MultiEnvelope, PqError>) -> Result<
    Seq<EnvelopeFields>,
    PqError,
> {
    match r {
        Ok(m) => Ok(m@),
        Err(x) => Err(x),
    }
}

/// Parses the block that starts at `off`; gives it and the offset just past it.
fn parse_block_at(b: &[u8], off: usize) -> (r: Option<(SealedEnvelope, usize)>)
    requires
        off <= b@.len(),
    ensures
        match (r, parse_block(b@.skip(off as int))) {
            (None, None) => true,
            (Some((e, end)), Some((f, c))) => e@ == f && end == off + c && end <= b@.len(),
            _ => false,
        },
{
    let len = b.len();
    let ghost s = b@.skip(off as int);
    if len - off < 4 {
        return None;
    }
    let k = read_u32_le(b, off) as usize;
    assert(s.subrange(0, 4) =~= b@.subrange(off as int, off + 4));
    if len - off - 4 < k || len - off - 4 - k < 52 {
        return None;
    }
    let kem_start = off + 4;
    let kem_end = kem_start + k;
    let nonce_end = kem_end + NONCE_LEN;
    let salt_end = nonce_end + SALT_LEN;
    let d = read_u64_le(b, salt_end);
    assert(s.subrange(48 + k, 56 + k) =~= b@.subrange(salt_end as int, salt_end + 8));
    let data_start = salt_end + 8;
    if ((len - data_start) as u64) < d {
        return None;
    }
    let data_end = data_start + d as usize;
    let e = SealedEnvelope {
        kem_ciphertext: copy_range(b, kem_start, kem_end),
        symmetric_nonce: copy_range(b, kem_end, nonce_end),
        salt: copy_range(b, nonce_end, salt_end),
        encrypted_data: copy_range(b, data_start, data_end),
    };
    assert(e@.kem_ciphertext =~= s.subrange(4, 4 + k));
    assert(e@.nonce =~= s.subrange(4 + k, 16 + k));
    assert(e@.salt =~= s.subrange(16 + k, 48 + k));
    assert(e@.data =~= s.subrange(56 + k, 56 + k + d));
    Some((e, data_end))
}

/// Appends the bytes of one block.
fn push_block(out: &mut Vec<u8>, e: &SealedEnvelope)
    requires
        e.kem_ciphertext@.len() <= u32::MAX,
    ensures
        final(out)@ == old(out)@ + serialize_block(e@),
{
    push_u32_le(out, e.kem_ciphertext.len() as u32);
    push_all(out, e.kem_ciphertext.as_slice());
    push_all(out, e.symmetric_nonce.as_slice());
    push_all(out, e.salt.as_slice());
    push_u64_le(out, e.encrypted_data.len() as u64);
    push_all(out, e.encrypted_data.as_slice());
    assert(out@ =~= old(out)@ + serialize_block(e@));
}

impl MultiEnvelope {
    /// The version-2 bytes of this envelope.
    pub fn to_bytes(&self) -> (r: Vec<u8>)
        requires
            self.recipients@.len() <= u32::MAX,
            forall|i: int|
                0 <= i < self.recipients@.len() ==> (#[trigger] self.recipients@[i]).kem_ciphertext@.len()
                    <= u32::MAX,
        ensures
            r@ == serialize_multi(self@),
    {
        let mut out: Vec<u8> = Vec::new();
        push_header(&mut out, MULTI_VERSION);
        push_u32_le(&mut out, self.recipients.len() as u32);
        let ghost pre = out@;
        let mut i: usize = 0;
        while i < self.recipients.len()
            invariant
                i <= self.recipients@.len(),
                forall|j: int|
                    0 <= j < self.recipients@.len() ==> (#[trigger] self.recipients@[j]).kem_ciphertext@.len()
                        <= u32::MAX,
                out@ == pre + serialize_blocks(self@.take(i as int)),
            decreases self.recipients@.len() - i,
        {
            push_block(&mut out, &self.recipients[i]);
            proof {
                assert(self@.take(i + 1).drop_last() =~= self@.take(i as int));
                assert(self@.take(i + 1).last() == self.recipients@[i as int]@);
            }
            i = i + 1;
            assert(out@ =~= pre + serialize_blocks(self@.take(i as int)));
        }
        assert(self@.take(i as int) =~= self@);
        assert(out@ =~= serialize_multi(self@));
        out
    }

    /// Parses version-2 bytes: exactly the announced number of blocks, nothing after them.
    pub fn from_bytes(b: &[u8]) -> (r: Result<MultiEnvelope, PqError>)
        ensures
            multi_result_view(r) == parse_multi(b@),
    {
        let len = b.len();
        if len < HEADER_LEN {
            return Err(PqError::TooShort);
        }
        if !has_magic(b) {
            return Err(PqError::BadMagic);
        }
        if b[4] != MULTI_VERSION {
            return Err(PqError::UnsupportedVersion(b[4]));
        }
        let count = read_u32_le(b, 5);
        if count == 0 {
            return Err(PqError::NoRecipients);
        }
        let ghost total = parse_blocks(b@.skip(9), count as nat);
        assert(total == parse_multi(b@));
        let mut recipients: Vec<SealedEnvelope> = Vec::new();
        let mut off: usize = HEADER_LEN;
        let mut i: u32 = 0;
        assert(b@.skip(9) =~= b@.skip(off as int));
        assert(blocks_view(recipients@) =~= Seq::<EnvelopeFields>::empty());
        while i < count
            invariant
                i <= count,
                HEADER_LEN <= off <= b@.len(),
                total == parse_multi(b@),
                total == prepend_blocks(
                    blocks_view(recipients@),
                    parse_blocks(b@.skip(off as int), (count - i) as nat),
                ),
            decreases count - i,
        {
            match parse_block_at(b, off) {
                None => {
                    assert(parse_blocks(b@.skip(off as int), (count - i) as nat) == Err::<
                        Seq<EnvelopeFields>,
                        PqError,
                    >(PqError::Truncated));
                    return Err(PqError::Truncated);
                },
                Some((e, end)) => {
                    let ghost c = end - off;
                    let ghost prev = blocks_view(recipients@);
                    assert(b@.skip(off as int).skip(c) =~= b@.skip(end as int));
                    recipients.push(e);
                    assert(blocks_view(recipients@) =~= prev + seq![e@]);
                    proof {
                        lemma_prepend_assoc(
                            prev,
                            seq![e@],
                            parse_blocks(b@.skip(end as int), (count - i - 1) as nat),
                        );
                    }
                    off = end;
                    i = i + 1;
                },
            }
        }
        if off != len {
            return Err(PqError::TrailingBytes);
        }
        assert(b@.skip(off as int).len() == 0);
        assert(blocks_view(recipients@) + Seq::<EnvelopeFields>::empty() =~= blocks_view(recipients@));
        Ok(MultiEnvelope { recipients })
    }
}

proof fn lemma_prepend_assoc(
    a: Seq<EnvelopeFields>,
    b: Seq<EnvelopeFields>,
    r: Result<Seq<EnvelopeFields>, PqError>,
)
    ensures
        prepend_blocks(a, prepend_blocks(b, r)) == prepend_blocks(a + b, r),
{
    if let Ok(rest) = r {
        assert(a + (b + rest) =~= (a + b) + rest);
    }
}

proof fn lemma_parse_block_of(e: EnvelopeFields, rest: Seq<u8>)
    requires
        fields_fit(e),
    ensures
        parse_block(serialize_block(e) + rest) == Some((e, serialize_block(e).len() as int)),
{
    let s = serialize_block(e) + rest;
    let k = e.kem_ciphertext.len() as int;
    let d = e.data.len() as int;
    lemma_u32_le_roundtrip(k as u32);
    lemma_u64_le_roundtrip(d as u64);
    assert(s.subrange(0, 4) =~= u32_le_bytes(k as u32));
    assert(s.subrange(48 + k, 56 + k) =~= u64_le_bytes(d as u64));
    assert(s.subrange(4, 4 + k) =~= e.kem_ciphertext);
    assert(s.subrange(4 + k, 16 + k) =~= e.nonce);
    assert(s.subrange(16 + k, 48 + k) =~= e.salt);
    assert(s.subrange(56 + k, 56 + k + d) =~= e.data);
}

proof fn lemma_parse_block_bytes(s: Seq<u8>)
    requires
        parse_block(s) is Some,
    ensures
        fields_fit(parse_block(s)->Some_0.0),
        0 <= parse_block(s)->Some_0.1 <= s.len(),
        serialize_block(parse_block(s)->Some_0.0) == s.subrange(0, parse_block(s)->Some_0.1),
{
    let (e, c) = parse_block(s)->Some_0;
    let k = le_u32(s.subrange(0, 4)) as int;
    let d = le_u64(s.subrange(48 + k, 56 + k)) as int;
    lemma_le_u32_bytes_roundtrip(s.subrange(0, 4));
    lemma_le_u64_bytes_roundtrip(s.subrange(48 + k, 56 + k));
    assert(serialize_block(e) =~= s.subrange(0, c));
}

proof fn lemma_serialize_blocks_front(bs: Seq<EnvelopeFields>)
    requires
        bs.len() > 0,
    ensures
        serialize_blocks(bs) == serialize_block(bs[0]) + serialize_blocks(bs.drop_first()),
    decreases bs.len(),
{
    if bs.len() == 1 {
        assert(bs.drop_last() =~= Seq::<EnvelopeFields>::empty());
        assert(bs.drop_first() =~= Seq::<EnvelopeFields>::empty());
        assert(serialize_blocks(bs) =~= serialize_block(bs[0]) + serialize_blocks(bs.drop_first()));
    } else {
        lemma_serialize_blocks_front(bs.drop_last());
        assert(bs.drop_last().drop_first() =~= bs.drop_first().drop_last());
        assert(bs.drop_first().last() == bs.last());
        assert(bs.drop_last()[0] == bs[0]);
        assert(serialize_blocks(bs) =~= serialize_block(bs[0]) + serialize_blocks(bs.drop_first()));
    }
}

proof fn lemma_blocks_roundtrip(bs: Seq<EnvelopeFields>)
    requires
        blocks_fit(bs),
    ensures
        parse_blocks(serialize_blocks(bs), bs.len()) == Ok::<Seq<EnvelopeFields>, PqError>(bs),
    decreases bs.len(),
{
    if bs.len() > 0 {
        let tail = bs.drop_first();
        assert(blocks_fit(tail)) by {
            assert forall|i: int| 0 <= i < tail.len() implies fields_fit(#[trigger] tail[i]) by {
                assert(tail[i] == bs[i + 1]);
            }
        }
        assert(fields_fit(bs[0]));
        lemma_blocks_roundtrip(tail);
        lemma_serialize_blocks_front(bs);
        let first = serialize_block(bs[0]);
        let rest = serialize_blocks(tail);
        lemma_parse_block_of(bs[0], rest);
        assert((first + rest).skip(first.len() as int) =~= rest);
        assert(seq![bs[0]] + tail =~= bs);
        assert(parse_blocks(first + rest, bs.len()) == prepend_blocks(
            seq![bs[0]],
            parse_blocks(rest, tail.len()),
        ));
    } else {
        assert(bs =~= Seq::<EnvelopeFields>::empty());
    }
}

proof fn lemma_blocks_parse_serialize(s: Seq<u8>, n: nat)
    requires
        parse_blocks(s, n) is Ok,
    ensures
        parse_blocks(s, n)->Ok_0.len() == n,
        serialize_blocks(parse_blocks(s, n)->Ok_0) == s,
    decreases n,
{
    if n == 0 {
        assert(s =~= Seq::<u8>::empty());
    } else {
        let (e, c) = parse_block(s)->Some_0;
        lemma_parse_block_bytes(s);
        lemma_blocks_parse_serialize(s.skip(c), (n - 1) as nat);
        let tail = parse_blocks(s.skip(c), (n - 1) as nat)->Ok_0;
        let bs = seq![e] + tail;
        assert(bs.drop_first() =~= tail);
        lemma_serialize_blocks_front(bs);
        assert(s.subrange(0, c) + s.skip(c) =~= s);
    }
}

proof fn lemma_multi_layout(bs: Seq<EnvelopeFields>)
    ensures
        serialize_multi(bs).len() >= HEADER_LEN,
        serialize_multi(bs).subrange(0, 4) == magic(),
        serialize_multi(bs)[4] == MULTI_VERSION,
        serialize_multi(bs).subrange(5, 9) == u32_le_bytes(bs.len() as u32),
        serialize_multi(bs).skip(9) == serialize_blocks(bs),
{
    let h = header(MULTI_VERSION) + u32_le_bytes(bs.len() as u32);
    let b = h + serialize_blocks(bs);
    assert(b == serialize_multi(bs));
    assert(b.subrange(0, 4) =~= magic());
    assert(b.subrange(5, 9) =~= u32_le_bytes(bs.len() as u32));
    assert(b.skip(9) =~= serialize_blocks(bs));
}

/// Reading back the version-2 bytes of an envelope gives its blocks.
pub proof fn lemma_multi_roundtrip(bs: Seq<EnvelopeFields>)
    requires
        blocks_fit(bs),
        1 <= bs.len() <= u32::MAX,
    ensures
        parse_multi(serialize_multi(bs)) == Ok::<Seq<EnvelopeFields>, PqError>(bs),
{
    let b = serialize_multi(bs);
    lemma_multi_layout(bs);
    lemma_u32_le_roundtrip(bs.len() as u32);
    lemma_blocks_roundtrip(bs);
    assert(le_u32(b.subrange(5, 9)) == bs.len());
}

/// Parsing accepts only bytes that writing the parsed blocks gives back: nothing is
/// dropped, nothing trails.
pub proof fn lemma_multi_parse_serialize(b: Seq<u8>)
    requires
        parse_multi(b) is Ok,
    ensures
        serialize_multi(parse_multi(b)->Ok_0) == b,
        blocks_fit(parse_multi(b)->Ok_0),
{
    let n = le_u32(b.subrange(5, 9));
    lemma_le_u32_bytes_roundtrip(b.subrange(5, 9));
    lemma_blocks_parse_serialize(b.skip(9), n);
    lemma_blocks_fit_parsed(b.skip(9), n);
    assert(header(MULTI_VERSION) =~= b.subrange(0, 5));
    assert(serialize_multi(parse_multi(b)->Ok_0) =~= b);
}

proof fn lemma_blocks_fit_parsed(s: Seq<u8>, n: nat)
    requires
        parse_blocks(s, n) is Ok,
    ensures
        blocks_fit(parse_blocks(s, n)->Ok_0),
    decreases n,
{
    if n > 0 {
        let (e, c) = parse_block(s)->Some_0;
        lemma_parse_block_bytes(s);
        lemma_blocks_fit_parsed(s.skip(c), (n - 1) as nat);
        let tail = parse_blocks(s.skip(c), (n - 1) as nat)->Ok_0;
        let bs = seq![e] + tail;
        assert forall|i: int| 0 <= i < bs.len() implies fields_fit(#[trigger] bs[i]) by {
            if i > 0 {
                assert(bs[i] == tail[i - 1]);
            }
        }
    }
}

/// The two versions cannot be mistaken for each other: each parser refuses the other's bytes.
pub proof fn lemma_versions_distinct(e: EnvelopeFields, bs: Seq<EnvelopeFields>)
    ensures
        parse_single(serialize_multi(bs)) == Err::<EnvelopeFields, PqError>(
            PqError::UnsupportedVersion(MULTI_VERSION),
        ),
        parse_multi(serialize_single(e)) == Err::<Seq<EnvelopeFields>, PqError>(
            PqError::UnsupportedVersion(SINGLE_VERSION),
        ),
{
    let m = serialize_multi(bs);
    let s = serialize_single(e);
    assert(m.subrange(0, 4) =~= magic());
    assert(s.subrange(0, 4) =~= magic());
    assert(m[4] == MULTI_VERSION);
    assert(s[4] == SINGLE_VERSION);
}

/// The version byte of single-recipient bytes.
pub proof fn lemma_single_version_byte(e: EnvelopeFields)
    ensures
        serialize_single(e).len() > 4,
        serialize_single(e)[4] == SINGLE_VERSION,
{
    assert(serialize_single(e)[4] == header(SINGLE_VERSION)[4]);
}

/// The bytes announce the multi-recipient format.
pub open spec fn is_multi(b: Seq<u8>) -> bool {
    b.len() > 4 && b[4] == MULTI_VERSION
}

/// An envelope of either version.
#[derive(Debug)]
pub enum ParsedEnvelope {
    Single(SealedEnvelope),
    Multi(MultiEnvelope),
}

/// Checks that bytes are a well-formed envelope of either version: the version byte
/// chooses the parser, as decryption does.
pub fn verify_envelope(b: &[u8]) -> (r: Result<ParsedEnvelope, PqError>)
    ensures
        match r {
            Ok(ParsedEnvelope::Single(e)) => !is_multi(b@) && parse_single(b@) == Ok::<
                EnvelopeFields,
                PqError,
            >(e@),
            Ok(ParsedEnvelope::Multi(m)) => is_multi(b@) && parse_multi(b@) == Ok::<
                Seq<EnvelopeFields>,
                PqError,
            >(m@),
            Err(x) => if is_multi(b@) {
                parse_multi(b@) == Err::<Seq<EnvelopeFields>, PqError>(x)
            } else {
                parse_single(b@) == Err::<EnvelopeFields, PqError>(x)
            },
        },
{
    if b.len() > 4 && b[4] == MULTI_VERSION {
        match MultiEnvelope::from_bytes(b) {
            Ok(m) => Ok(ParsedEnvelope::Multi(m)),
            Err(x) => Err(x),
        }
    } else {
        match SealedEnvelope::from_bytes(b) {
            Ok(e) => Ok(ParsedEnvelope::Single(e)),
            Err(x) => Err(x),
        }
    }
}

/// The version-1 bytes hold the KEM ciphertext's length as a little-endian u32 at
/// offsets 5..9, low byte first.
pub proof fn lemma_single_kem_len_field(e: EnvelopeFields)
    requires
        e.kem_ciphertext.len() <= u32::MAX,
    ensures
        ({
            let b = serialize_single(e);
            let n = e.kem_ciphertext.len();
            &&& b[5] == n % 0x100
            &&& b[6] == (n / 0x100) % 0x100
            &&& b[7] == (n / 0x1_0000) % 0x100
            &&& b[8] == n / 0x100_0000
        }),
{
    let n = e.kem_ciphertext.len() as u32;
    lemma_u32_le_roundtrip(n);
    let b = serialize_single(e);
    assert(b.subrange(5, 9) =~= u32_le_bytes(n));
    assert(b[5] == b.subrange(5, 9)[0]);
    assert(b[6] == b.subrange(5, 9)[1]);
    assert(b[7] == b.subrange(5, 9)[2]);
    assert(b[8] == b.subrange(5, 9)[3]);
    assert(n / 0x100_0000 < 0x100) by (bit_vector);
}

/// Parsing version-1 bytes takes the KEM ciphertext's length from offsets 5..9, read as
/// a little-endian u32.
pub proof fn lemma_parse_single_kem_len(b: Seq<u8>)
    requires
        parse_single(b) is Ok,
    ensures
        parse_single(b)->Ok_0.kem_ciphertext.len() == b[5] + b[6] * 0x100 + b[7] * 0x1_0000 + b[8]
            * 0x100_0000,
{
    let s = b.subrange(5, 9);
    assert(s[0] == b[5] && s[1] == b[6] && s[2] == b[7] && s[3] == b[8]);
}

/// The version-2 bytes hold the number of blocks as a little-endian u32 at offsets 5..9,
/// and parsing them gives that many blocks.
pub proof fn lemma_multi_count_field(bs: Seq<EnvelopeFields>, b: Seq<u8>)
    requires
        bs.len() <= u32::MAX,
    ensures
        ({
            let m = serialize_multi(bs);
            let n = bs.len();
            &&& m[5] == n % 0x100
            &&& m[6] == (n / 0x100) % 0x100
            &&& m[7] == (n / 0x1_0000) % 0x100
            &&& m[8] == n / 0x100_0000
        }),
        parse_multi(b) is Ok ==> parse_multi(b)->Ok_0.len() == b[5] + b[6] * 0x100 + b[7] * 0x1_0000
            + b[8] * 0x100_0000,
{
    let n = bs.len() as u32;
    lemma_u32_le_roundtrip(n);
    lemma_multi_layout(bs);
    let m = serialize_multi(bs);
    assert(m[5] == m.subrange(5, 9)[0]);
    assert(m[6] == m.subrange(5, 9)[1]);
    assert(m[7] == m.subrange(5, 9)[2]);
    assert(m[8] == m.subrange(5, 9)[3]);
    assert(n / 0x100_0000 < 0x100) by (bit_vector);
    if parse_multi(b) is Ok {
        let s = b.subrange(5, 9);
        assert(s[0] == b[5] && s[1] == b[6] && s[2] == b[7] && s[3] == b[8]);
        lemma_blocks_parse_serialize(b.skip(9), le_u32(s));
    }
}

} // verus!
