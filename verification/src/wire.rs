//! The byte-level building blocks of the wire format: little-endian integers and
//! compact length prefixes, as the SCALE codec writes and reads them.

use vstd::prelude::*;

verus! {

/// The two bytes of `x`, least significant first.
pub open spec fn le_bytes_u16(x: u16) -> Seq<u8> {
    seq![(x % 256) as u8, (x / 256) as u8]
}

/// The four bytes of `x`, least significant first.
pub open spec fn le_bytes_u32(x: u32) -> Seq<u8> {
    seq![
        (x % 256) as u8,
        ((x / 0x100) % 256) as u8,
        ((x / 0x1_0000) % 256) as u8,
        (x / 0x100_0000) as u8,
    ]
}

/// The eight bytes of `x`, least significant first: the low half, then the high half.
pub open spec fn le_bytes_u64(x: u64) -> Seq<u8> {
    le_bytes_u32((x % 0x1_0000_0000) as u32) + le_bytes_u32((x / 0x1_0000_0000) as u32)
}

/// The compact form of a length: one, two, four or five bytes, the width told by the two
/// low bits of the first byte.
pub open spec fn compact_bytes(n: u32) -> Seq<u8> {
    if n < 0x40 {
        seq![(4 * n) as u8]
    } else if n < 0x4000 {
        le_bytes_u16((4 * n + 1) as u16)
    } else if n < 0x4000_0000 {
        le_bytes_u32((4 * n + 2) as u32)
    } else {
        seq![3u8] + le_bytes_u32(n)
    }
}

/// Two concatenations that agree, with heads of one length, agree part by part.
pub proof fn lemma_concat_parts(a: Seq<u8>, ra: Seq<u8>, b: Seq<u8>, rb: Seq<u8>)
    requires
        a + ra == b + rb,
        a.len() == b.len(),
    ensures
        a == b,
        ra == rb,
{
    let n = a.len() as int;
    assert(a =~= (a + ra).subrange(0, n));
    assert(b =~= (b + rb).subrange(0, n));
    assert(ra =~= (a + ra).subrange(n, (a + ra).len() as int));
    assert(rb =~= (b + rb).subrange(n, (b + rb).len() as int));
}

/// A sequence that starts with `head` is `head` followed by what comes after it.
pub proof fn lemma_prefix_split(head: Seq<u8>, whole: Seq<u8>)
    requires
        head.is_prefix_of(whole),
    ensures
        whole == head + whole.skip(head.len() as int),
{
    assert(whole =~= head + whole.skip(head.len() as int));
}

/// A sequence that starts with a concatenation starts with its head.
pub proof fn lemma_prefix_of_concat(head: Seq<u8>, more: Seq<u8>, whole: Seq<u8>)
    requires
        (head + more).is_prefix_of(whole),
    ensures
        head.is_prefix_of(whole),
{
    assert(head =~= (head + more).subrange(0, head.len() as int));
    assert(head =~= whole.subrange(0, head.len() as int));
}

/// The head of a concatenation is a prefix of it.
pub proof fn lemma_head_is_prefix(head: Seq<u8>, rest: Seq<u8>)
    ensures
        head.is_prefix_of(head + rest),
{
    assert(head =~= (head + rest).subrange(0, head.len() as int));
}

/// Distinct 16-bit values have distinct bytes.
pub proof fn lemma_le_bytes_u16_injective(a: u16, b: u16)
    requires
        le_bytes_u16(a) == le_bytes_u16(b),
    ensures
        a == b,
{
    assert(le_bytes_u16(a)[0] == le_bytes_u16(b)[0]);
    assert(le_bytes_u16(a)[1] == le_bytes_u16(b)[1]);
}

/// Distinct 32-bit values have distinct bytes.
pub proof fn lemma_le_bytes_u32_injective(a: u32, b: u32)
    requires
        le_bytes_u32(a) == le_bytes_u32(b),
    ensures
        a == b,
{
    assert(le_bytes_u32(a)[0] == le_bytes_u32(b)[0]);
    assert(le_bytes_u32(a)[1] == le_bytes_u32(b)[1]);
    assert(le_bytes_u32(a)[2] == le_bytes_u32(b)[2]);
    assert(le_bytes_u32(a)[3] == le_bytes_u32(b)[3]);
}

/// Distinct 64-bit values have distinct bytes.
pub proof fn lemma_le_bytes_u64_injective(a: u64, b: u64)
    requires
        le_bytes_u64(a) == le_bytes_u64(b),
    ensures
        a == b,
{
    let (a_low, a_high) = ((a % 0x1_0000_0000) as u32, (a / 0x1_0000_0000) as u32);
    let (b_low, b_high) = ((b % 0x1_0000_0000) as u32, (b / 0x1_0000_0000) as u32);
    lemma_concat_parts(
        le_bytes_u32(a_low),
        le_bytes_u32(a_high),
        le_bytes_u32(b_low),
        le_bytes_u32(b_high),
    );
    lemma_le_bytes_u32_injective(a_low, b_low);
    lemma_le_bytes_u32_injective(a_high, b_high);
}

/// How many bytes the compact form of `n` takes.
pub open spec fn compact_len(n: u32) -> nat {
    if n < 0x40 {
        1
    } else if n < 0x4000 {
        2
    } else if n < 0x4000_0000 {
        4
    } else {
        5
    }
}

/// The first byte of a compact length tells its width.
pub proof fn lemma_compact_shape(n: u32)
    ensures
        compact_bytes(n).len() == compact_len(n),
        n < 0x40 <==> compact_bytes(n)[0] % 4 == 0,
        0x40 <= n < 0x4000 <==> compact_bytes(n)[0] % 4 == 1,
        0x4000 <= n < 0x4000_0000 <==> compact_bytes(n)[0] % 4 == 2,
        0x4000_0000 <= n <==> compact_bytes(n)[0] % 4 == 3,
{
}

/// No compact length is the start of another: equal streams begin with equal lengths.
pub proof fn lemma_compact_unambiguous(a: u32, ra: Seq<u8>, b: u32, rb: Seq<u8>)
    requires
        compact_bytes(a) + ra == compact_bytes(b) + rb,
    ensures
        a == b,
        ra == rb,
{
    lemma_compact_shape(a);
    lemma_compact_shape(b);
    assert((compact_bytes(a) + ra)[0] == compact_bytes(a)[0]);
    assert((compact_bytes(b) + rb)[0] == compact_bytes(b)[0]);
    assert(compact_len(a) == compact_len(b));
    lemma_concat_parts(compact_bytes(a), ra, compact_bytes(b), rb);
    if a < 0x40 {
        assert(compact_bytes(a)[0] == compact_bytes(b)[0]);
    } else if a < 0x4000 {
        lemma_le_bytes_u16_injective((4 * a + 1) as u16, (4 * b + 1) as u16);
    } else if a < 0x4000_0000 {
        lemma_le_bytes_u32_injective((4 * a + 2) as u32, (4 * b + 2) as u32);
    } else {
        assert(le_bytes_u32(a) =~= compact_bytes(a).skip(1));
        assert(le_bytes_u32(b) =~= compact_bytes(b).skip(1));
        lemma_le_bytes_u32_injective(a, b);
    }
}

/// Appends the four bytes of `value` to `out`.
///
/// Calls `Encode::encode_to` of parity-scale-codec on a `u32`, which writes the value's
/// little-endian bytes to the end of the vector and leaves what was there in place.
#[verifier::external_body]
pub(crate) fn encode_u32_to(value: u32, out: &mut Vec<u8>)
    ensures
        final(out)@ == old(out)@ + le_bytes_u32(value),
{
    parity_scale_codec::Encode::encode_to(&value, out);
}

/// Appends the eight bytes of `value` to `out`.
///
/// Calls `Encode::encode_to` of parity-scale-codec on a `u64`, which writes the value's
/// little-endian bytes to the end of the vector and leaves what was there in place.
#[verifier::external_body]
pub(crate) fn encode_u64_to(value: u64, out: &mut Vec<u8>)
    ensures
        final(out)@ == old(out)@ + le_bytes_u64(value),
{
    parity_scale_codec::Encode::encode_to(&value, out);
}

/// Appends the compact form of `n` to `out`.
///
/// Calls `Encode::encode_to` of parity-scale-codec on a `Compact<u32>`, which picks the
/// shortest of the four widths that holds the value and writes it to the end of the vector.
#[verifier::external_body]
pub(crate) fn encode_compact_to(n: u32, out: &mut Vec<u8>)
    ensures
        final(out)@ == old(out)@ + compact_bytes(n),
{
    parity_scale_codec::Encode::encode_to(&parity_scale_codec::Compact(n), out);
}

/// Reads a `u32` from the start of `input` and hands back what follows it.
///
/// Calls `Decode::decode` of parity-scale-codec for `u32` on a byte slice, which takes four
/// bytes as a little-endian value and fails only when fewer than four are left.
#[verifier::external_body]
pub(crate) fn decode_u32(input: &[u8]) -> (r: Option<(u32, &[u8])>)
    ensures
        match r {
            Some((value, rest)) => input@ == le_bytes_u32(value) + rest@,
            None => input@.len() < 4,
        },
{
    let mut rest = input;
    match <u32 as parity_scale_codec::Decode>::decode(&mut rest) {
        Ok(value) => Some((value, rest)),
        Err(_) => None,
    }
}

/// Reads a `u64` from the start of `input` and hands back what follows it.
///
/// Calls `Decode::decode` of parity-scale-codec for `u64` on a byte slice, which takes eight
/// bytes as a little-endian value and fails only when fewer than eight are left.
#[verifier::external_body]
pub(crate) fn decode_u64(input: &[u8]) -> (r: Option<(u64, &[u8])>)
    ensures
        match r {
            Some((value, rest)) => input@ == le_bytes_u64(value) + rest@,
            None => input@.len() < 8,
        },
{
    let mut rest = input;
    match <u64 as parity_scale_codec::Decode>::decode(&mut rest) {
        Ok(value) => Some((value, rest)),
        Err(_) => None,
    }
}

/// Reads a compact length from the start of `input` and hands back what follows it.
///
/// Calls `Decode::decode` of parity-scale-codec for `Compact<u32>` on a byte slice. It
/// accepts a length only in its shortest form, so it succeeds exactly when the input
/// starts with the compact form of some `u32`, and then stops right behind it.
#[verifier::external_body]
pub(crate) fn decode_compact(input: &[u8]) -> (r: Option<(u32, &[u8])>)
    ensures
        match r {
            Some((n, rest)) => input@ == compact_bytes(n) + rest@,
            None => forall|n: u32| !(#[trigger] compact_bytes(n)).is_prefix_of(input@),
        },
{
    let mut rest = input;
    match <parity_scale_codec::Compact<u32> as parity_scale_codec::Decode>::decode(&mut rest) {
        Ok(length) => Some((length.0, rest)),
        Err(_) => None,
    }
}

/// A block number with a fixed place in the wire format.
pub trait BlockNumber: Sized + Copy {
    /// The bytes that stand for this number on the wire.
    spec fn wire(self) -> Seq<u8>;

    /// No number's bytes are the start of another's: equal streams begin with equal numbers.
    proof fn lemma_wire_unambiguous(a: Self, ra: Seq<u8>, b: Self, rb: Seq<u8>)
        requires
            a.wire() + ra == b.wire() + rb,
        ensures
            a == b,
            ra == rb,
    ;

    /// Appends the number's bytes to `out`.
    fn encode_to(&self, out: &mut Vec<u8>)
        ensures
            final(out)@ == old(out)@ + self.wire(),
    ;

    /// Reads a number from the start of `input` and hands back what follows it; `None`
    /// exactly when the input starts with no number's bytes.
    fn decode(input: &[u8]) -> (r: Option<(Self, &[u8])>)
        ensures
            match r {
                Some((number, rest)) => input@ == number.wire() + rest@,
                None => forall|number: Self| !(#[trigger] number.wire()).is_prefix_of(input@),
            },
    ;
}

impl BlockNumber for u32 {
    open spec fn wire(self) -> Seq<u8> {
        le_bytes_u32(self)
    }

    proof fn lemma_wire_unambiguous(a: u32, ra: Seq<u8>, b: u32, rb: Seq<u8>) {
        lemma_concat_parts(le_bytes_u32(a), ra, le_bytes_u32(b), rb);
        lemma_le_bytes_u32_injective(a, b);
    }

    fn encode_to(&self, out: &mut Vec<u8>) {
        encode_u32_to(*self, out)
    }

    fn decode(input: &[u8]) -> (r: Option<(u32, &[u8])>) {
        decode_u32(input)
    }
}

impl BlockNumber for u64 {
    open spec fn wire(self) -> Seq<u8> {
        le_bytes_u64(self)
    }

    proof fn lemma_wire_unambiguous(a: u64, ra: Seq<u8>, b: u64, rb: Seq<u8>) {
        lemma_concat_parts(le_bytes_u64(a), ra, le_bytes_u64(b), rb);
        lemma_le_bytes_u64_injective(a, b);
    }

    fn encode_to(&self, out: &mut Vec<u8>) {
        encode_u64_to(*self, out)
    }

    fn decode(input: &[u8]) -> (r: Option<(u64, &[u8])>) {
        decode_u64(input)
    }
}

} // verus!
