//! Byte-level encodings shared by the formats: big-endian integers,
//! decimal, octal and hexadecimal text.
use vstd::prelude::*;

verus! {

/// The two bytes of `v`, most significant first.
pub open spec fn u16_be(v: u16) -> Seq<u8> {
    seq![(v / 0x100) as u8, (v % 0x100) as u8]
}

/// The four bytes of `v`, most significant first.
pub open spec fn u32_be(v: u32) -> Seq<u8> {
    seq![
        (v / 0x100_0000) as u8,
        ((v / 0x1_0000) % 0x100) as u8,
        ((v / 0x100) % 0x100) as u8,
        (v % 0x100) as u8,
    ]
}

/// The number that the first two bytes of `s` spell, most significant first.
pub open spec fn be_u16(s: Seq<u8>) -> u16
    recommends
        s.len() >= 2,
{
    (s[0] * 0x100 + s[1]) as u16
}

/// The number that the first four bytes of `s` spell, most significant first.
pub open spec fn be_u32(s: Seq<u8>) -> u32
    recommends
        s.len() >= 4,
{
    (s[0] * 0x100_0000 + s[1] * 0x1_0000 + s[2] * 0x100 + s[3]) as u32
}

/// Reading back the bytes of a 16-bit number gives the number.
pub proof fn lemma_be_u16_roundtrip(v: u16)
    ensures
        be_u16(u16_be(v)) == v,
{
}

/// Reading back the bytes of a 32-bit number gives the number.
pub proof fn lemma_be_u32_roundtrip(v: u32)
    ensures
        be_u32(u32_be(v)) == v,
{
}

/// The big-endian bytes of `v`.
pub fn u16_to_be_bytes(v: u16) -> (res: [u8; 2])
    ensures
        res@ == u16_be(v),
{
    [(v / 0x100) as u8, (v % 0x100) as u8]
}

/// The big-endian bytes of `v`.
pub fn u32_to_be_bytes(v: u32) -> (res: [u8; 4])
    ensures
        res@ == u32_be(v),
{
    [
        (v / 0x100_0000) as u8,
        ((v / 0x1_0000) % 0x100) as u8,
        ((v / 0x100) % 0x100) as u8,
        (v % 0x100) as u8,
    ]
}

/// The number that two big-endian bytes spell.
pub fn u16_from_be_bytes(b: &[u8]) -> (res: u16)
    requires
        b@.len() == 2,
    ensures
        res == be_u16(b@),
{
    (b[0] as u16) * 0x100 + (b[1] as u16)
}

/// The number that four big-endian bytes spell.
pub fn u32_from_be_bytes(b: &[u8]) -> (res: u32)
    requires
        b@.len() == 4,
    ensures
        res == be_u32(b@),
{
    (b[0] as u32) * 0x100_0000 + (b[1] as u32) * 0x1_0000 + (b[2] as u32) * 0x100 + (b[3] as u32)
}

} // verus!

verus! {

/// The lowercase hexadecimal digit for `v`, which is below 16.
pub open spec fn hex_digit(v: int) -> u8 {
    if v < 10 {
        (48 + v) as u8
    } else {
        (87 + v) as u8
    }
}

/// `s` in lowercase hexadecimal, two digits per byte, high half first.
pub open spec fn hex_encode(s: Seq<u8>) -> Seq<u8> {
    Seq::new(
        2 * s.len(),
        |i: int|
            if i % 2 == 0 {
                hex_digit(s[i / 2] as int / 16)
            } else {
                hex_digit(s[i / 2] as int % 16)
            },
    )
}

/// The value of a hexadecimal digit of either case.
pub open spec fn hex_value(c: u8) -> Option<u8> {
    if 48 <= c <= 57 {
        Some((c - 48) as u8)
    } else if 97 <= c <= 102 {
        Some((c - 87) as u8)
    } else if 65 <= c <= 70 {
        Some((c - 55) as u8)
    } else {
        None
    }
}

/// The bytes that the hexadecimal text `s` spells, where it has an even
/// length and holds only hex digits.
pub open spec fn hex_decode(s: Seq<u8>) -> Option<Seq<u8>> {
    if s.len() % 2 == 0 && forall|i: int| 0 <= i < s.len() ==> (#[trigger] hex_value(s[i])) is Some {
        Some(
            Seq::new(
                s.len() / 2,
                |i: int| (hex_value(s[2 * i]).unwrap() * 16 + hex_value(s[2 * i + 1]).unwrap()) as u8,
            ),
        )
    } else {
        None
    }
}

/// Decoding the hexadecimal text of bytes gives the bytes back.
pub proof fn lemma_hex_roundtrip(s: Seq<u8>)
    ensures
        hex_decode(hex_encode(s)) == Some(s),
{
    let e = hex_encode(s);
    assert forall|i: int| 0 <= i < e.len() implies (#[trigger] hex_value(e[i])) is Some by {
        let b = s[i / 2];
        assert(b / 16 < 16 && b % 16 < 16);
    }
    let d = hex_decode(e).unwrap();
    assert forall|i: int| 0 <= i < s.len() implies d[i] == s[i] by {
        let b = s[i];
        assert((2 * i) / 2 == i && (2 * i + 1) / 2 == i);
        assert((2 * i) % 2 == 0 && (2 * i + 1) % 2 == 1);
        assert(hex_value(hex_digit(b as int / 16)) == Some((b / 16) as u8));
        assert(hex_value(hex_digit(b as int % 16)) == Some((b % 16) as u8));
        assert((b / 16) * 16 + b % 16 == b);
    }
    assert(d =~= s);
}

/// `hex`'s `encode_to_slice`, into a buffer of twice the input's length:
/// the crate writes each byte as two lowercase digits, high half first,
/// and fails only on a buffer of another length, which this never passes.
#[verifier::external_body]
fn encode_to_slice(input: &[u8]) -> (res: Vec<u8>)
    requires
        input@.len() * 2 <= usize::MAX,
    ensures
        res@ == hex_encode(input@),
{
    let mut out = vec![0u8; input.len() * 2];
    let _ = hex::encode_to_slice(input, &mut out);
    out
}

/// `hex`'s `decode_to_slice`, into a buffer of half the input's length:
/// the crate fails on an odd length or on a byte that is not a hex digit of
/// either case, and otherwise writes the bytes that each pair of digits spells.
#[verifier::external_body]
fn decode_to_slice(data: &[u8]) -> (res: Option<Vec<u8>>)
    ensures
        match res {
            Some(out) => hex_decode(data@) == Some(out@),
            None => hex_decode(data@) is None,
        },
{
    let mut out = vec![0u8; data.len() / 2];
    match hex::decode_to_slice(data, &mut out) {
        Ok(()) => Some(out),
        Err(_) => None,
    }
}

/// `hex`'s `encode`: the lowercase hexadecimal text of `input`, as a string.
#[verifier::external_body]
fn encode_hex_string(input: &[u8]) -> (res: String)
    ensures
        res@ == hex_encode(input@).map_values(|c: u8| c as char),
{
    hex::encode(input)
}

/// The lowercase hexadecimal text of `bytes`.
pub fn to_hex(bytes: &[u8]) -> (res: Vec<u8>)
    requires
        bytes@.len() * 2 <= usize::MAX,
    ensures
        res@ == hex_encode(bytes@),
{
    encode_to_slice(bytes)
}

/// The lowercase hexadecimal text of `bytes`, as a string.
pub fn to_hex_string(bytes: &[u8]) -> (res: String)
    ensures
        res@ == hex_encode(bytes@).map_values(|c: u8| c as char),
{
    encode_hex_string(bytes)
}

/// The bytes that the hexadecimal text `hex` spells, or `None` where it is
/// of odd length or holds a byte that is not a hex digit.
pub fn from_hex(hex: &[u8]) -> (res: Option<Vec<u8>>)
    ensures
        match res {
            Some(out) => hex_decode(hex@) == Some(out@),
            None => hex_decode(hex@) is None,
        },
{
    decode_to_slice(hex)
}

} // verus!

verus! {

/// The decimal digits of `n`, most significant first, without leading zeros.
pub open spec fn decimal_digits(n: nat) -> Seq<u8>
    decreases n,
{
    if n < 10 {
        seq![(48 + n) as u8]
    } else {
        decimal_digits(n / 10) + seq![(48 + n % 10) as u8]
    }
}

/// `n` in decimal, with a leading `-` where it is negative.
pub open spec fn decimal(n: int) -> Seq<u8> {
    if n < 0 {
        seq![45u8] + decimal_digits((-n) as nat)
    } else {
        decimal_digits(n as nat)
    }
}

/// The octal digits of `n`, most significant first, without leading zeros.
pub open spec fn octal_digits(n: nat) -> Seq<u8>
    decreases n,
{
    if n < 8 {
        seq![(48 + n) as u8]
    } else {
        octal_digits(n / 8) + seq![(48 + n % 8) as u8]
    }
}

/// `itoa`'s `Buffer::format`, on the widest integer type it takes: the
/// crate prints the number in decimal, with a `-` before a negative one.
#[verifier::external_body]
fn itoa_format(n: i128) -> (res: Vec<u8>)
    ensures
        res@ == decimal(n as int),
{
    let mut buffer = itoa::Buffer::new();
    buffer.format(n).as_bytes().to_vec()
}

/// `n` in decimal.
pub fn to_decimal(n: i128) -> (res: Vec<u8>)
    ensures
        res@ == decimal(n as int),
{
    itoa_format(n)
}

/// `n` in octal, as `{:o}` prints it.
pub fn to_octal(n: u32) -> (res: Vec<u8>)
    ensures
        res@ == octal_digits(n as nat),
    decreases n,
{
    if n < 8 {
        let mut v: Vec<u8> = Vec::new();
        v.push((48 + n) as u8);
        assert(v@ =~= octal_digits(n as nat));
        v
    } else {
        let mut v = to_octal(n / 8);
        v.push((48 + n % 8) as u8);
        assert(v@ =~= octal_digits(n as nat));
        v
    }
}

} // verus!
