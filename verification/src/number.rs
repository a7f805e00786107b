use crate::error::CodecError;
use byteorder::{BigEndian, ByteOrder, ReadBytesExt};
use vstd::prelude::*;

verus! {

/// The largest number of bytes a variable-length `u64` takes.
pub const MAX_VAR_U64_LEN: usize = 10;

/// The number of bytes a fixed-width `u64` takes.
pub const U64_SIZE: usize = 8;

/// The variable-length form of `v`: seven bits per byte, least significant
/// group first, the high bit set on every byte but the last.
pub open spec fn var_u64_bytes(v: nat) -> Seq<u8>
    decreases v,
{
    if v < 128 {
        seq![v as u8]
    } else {
        seq![(v % 128 + 128) as u8] + var_u64_bytes(v / 128)
    }
}

/// Reads a variable-length integer whose first byte is the group number
/// `depth`. Yields the value of the groups from there on and the bytes that
/// follow the integer. The tenth group may only hold the top bit of a `u64`.
pub open spec fn var_u64_scan(s: Seq<u8>, depth: nat) -> Result<(nat, Seq<u8>), CodecError>
    decreases s.len(),
{
    if s.len() == 0 {
        Err(CodecError::UnexpectedEof)
    } else if depth >= 9 {
        if s[0] <= 1 {
            Ok((s[0] as nat, s.skip(1)))
        } else {
            Err(CodecError::VarintOverflow)
        }
    } else if s[0] < 128 {
        Ok((s[0] as nat, s.skip(1)))
    } else {
        match var_u64_scan(s.skip(1), depth + 1) {
            Ok((high, rest)) => Ok(((s[0] - 128 + 128 * high) as nat, rest)),
            Err(e) => Err(e),
        }
    }
}

/// The value and the remaining bytes that decoding a variable-length `u64`
/// from the front of `s` gives.
pub open spec fn var_u64_parse(s: Seq<u8>) -> Result<(u64, Seq<u8>), CodecError> {
    match var_u64_scan(s, 0) {
        Ok((v, rest)) => Ok((v as u64, rest)),
        Err(e) => Err(e),
    }
}

/// `128` to the power `n`.
pub open spec fn pow128(n: nat) -> nat
    decreases n,
{
    if n == 0 {
        1
    } else {
        128 * pow128((n - 1) as nat)
    }
}

/// The powers of 128 that a `u64` can hold.
pub proof fn lemma_pow128_values()
    ensures
        pow128(0) == 1,
        pow128(1) == 0x80,
        pow128(2) == 0x4000,
        pow128(3) == 0x20_0000,
        pow128(4) == 0x1000_0000,
        pow128(5) == 0x8_0000_0000,
        pow128(6) == 0x400_0000_0000,
        pow128(7) == 0x2_0000_0000_0000,
        pow128(8) == 0x100_0000_0000_0000,
        pow128(9) == 0x8000_0000_0000_0000,
        pow128(10) == 0x40_0000_0000_0000_0000,
{
    reveal_with_fuel(pow128, 11);
}

/// Appends the variable-length form of `v` to `buf`.
pub fn encode_var_u64(buf: &mut Vec<u8>, v: u64)
    ensures
        final(buf)@ == old(buf)@ + var_u64_bytes(v as nat),
{
    let ghost start = buf@;
    let mut rest: u64 = v;
    while rest >= 128
        invariant
            start + var_u64_bytes(v as nat) == buf@ + var_u64_bytes(rest as nat),
        decreases rest,
    {
        let low: u8 = (rest % 128) as u8;
        buf.push(low + 128);
        rest = rest / 128;
    }
    buf.push(rest as u8);
}

/// What `var_u64_scan` gives for the whole integer when its first `depth`
/// groups are worth `low` and the rest of the scan gives `inner`.
pub open spec fn var_u64_join(
    low: nat,
    depth: nat,
    inner: Result<(nat, Seq<u8>), CodecError>,
) -> Result<(nat, Seq<u8>), CodecError> {
    match inner {
        Ok((high, rest)) => Ok((low + pow128(depth) * high, rest)),
        Err(e) => Err(e),
    }
}

/// Decodes a variable-length `u64` from the front of `data` and returns it
/// with the bytes that follow it.
pub fn decode_var_u64(data: &[u8]) -> (r: Result<(u64, &[u8]), CodecError>)
    ensures
        match var_u64_parse(data@) {
            Ok((v, rest)) => r matches Ok((x, tail)) && x == v && tail@ == rest,
            Err(e) => r == Err::<(u64, &[u8]), CodecError>(e),
        },
{
    let mut value: u64 = 0;
    let mut weight: u64 = 1;
    let mut i: usize = 0;
    proof {
        lemma_pow128_values();
        assert(data@.skip(0) =~= data@);
    }
    while i < 9
        invariant
            i <= 9,
            i <= data@.len(),
            weight == pow128(i as nat),
            value < weight,
            var_u64_scan(data@, 0) == var_u64_join(
                value as nat,
                i as nat,
                var_u64_scan(data@.skip(i as int), i as nat),
            ),
        decreases 9 - i,
    {
        proof {
            lemma_pow128_values();
        }
        if i >= data.len() {
            return Err(CodecError::UnexpectedEof);
        }
        let b: u8 = data[i];
        let ghost here = data@.skip(i as int);
        assert(here[0] == b);
        assert(here.skip(1) =~= data@.skip(i + 1));
        if b < 128 {
            assert(value + b * weight == value + weight * b) by (nonlinear_arith);
            assert(b * weight <= 127 * weight) by (nonlinear_arith)
                requires
                    b <= 127,
            ;
            let x: u64 = value + (b as u64) * weight;
            return Ok((x, &data[i + 1..data.len()]));
        }
        let low: u64 = (b - 128) as u64;
        assert(low * weight <= 127 * weight) by (nonlinear_arith)
            requires
                low <= 127,
        ;
        proof {
            if let Ok((high, _)) = var_u64_scan(data@.skip(i + 1), (i + 1) as nat) {
                assert(weight * (low + 128 * high) == low * weight + (weight * 128) * high)
                    by (nonlinear_arith);
            }
        }
        value = value + low * weight;
        weight = weight * 128;
        i = i + 1;
    }
    if i >= data.len() {
        return Err(CodecError::UnexpectedEof);
    }
    let b: u8 = data[i];
    assert(data@.skip(i as int)[0] == b);
    assert(data@.skip(i as int).skip(1) =~= data@.skip(i + 1));
    if b <= 1 {
        assert(b * weight <= weight) by (nonlinear_arith)
            requires
                b <= 1,
        ;
        assert(value + b * weight == value + weight * b) by (nonlinear_arith);
        let x: u64 = value + (b as u64) * weight;
        Ok((x, &data[i + 1..data.len()]))
    } else {
        Err(CodecError::VarintOverflow)
    }
}

/// Scanning the variable-length form of `v` from group `depth` on gives `v`
/// back, and leaves what follows it, as long as `v` fits in the bits that are
/// left of a `u64` at that depth.
pub proof fn lemma_var_u64_scan_bytes(v: nat, tail: Seq<u8>, depth: nat)
    requires
        depth <= 9,
        v * pow128(depth) < 0x1_0000_0000_0000_0000,
    ensures
        var_u64_scan(var_u64_bytes(v) + tail, depth) == Ok::<(nat, Seq<u8>), CodecError>((v, tail)),
    decreases v,
{
    lemma_pow128_values();
    let s = var_u64_bytes(v) + tail;
    if v < 128 {
        assert(s.skip(1) =~= tail);
        if depth == 9 {
            assert(v * 0x8000_0000_0000_0000 < 0x1_0000_0000_0000_0000 ==> v <= 1);
        }
    } else {
        assert(v * pow128(depth) >= 128 * pow128(depth)) by (nonlinear_arith)
            requires
                v >= 128,
        ;
        assert(depth < 9);
        assert(s.skip(1) =~= var_u64_bytes(v / 128) + tail);
        assert((v / 128) * pow128(depth + 1) <= v * pow128(depth)) by (nonlinear_arith)
            requires
                pow128(depth + 1) == 128 * pow128(depth),
                pow128(depth) >= 0,
                v >= 0,
        ;
        lemma_var_u64_scan_bytes(v / 128, tail, depth + 1);
        assert(s[0] == (v % 128 + 128) as u8);
    }
}

/// Decoding what `var_u64_bytes` wrote gives the value back and leaves the
/// bytes that follow.
pub proof fn lemma_var_u64_roundtrip(v: u64, tail: Seq<u8>)
    ensures
        var_u64_parse(var_u64_bytes(v as nat) + tail) == Ok::<(u64, Seq<u8>), CodecError>(
            (v, tail),
        ),
{
    lemma_pow128_values();
    lemma_var_u64_scan_bytes(v as nat, tail, 0);
}

/// The variable-length form of a `u64` takes between one and ten bytes.
pub proof fn lemma_var_u64_len(v: u64)
    ensures
        1 <= var_u64_bytes(v as nat).len() <= MAX_VAR_U64_LEN,
{
    lemma_pow128_values();
    lemma_var_u64_len_bound(v as nat, 0);
}

/// A value that fits in a `u64` from group `depth` on takes at most
/// `10 - depth` bytes.
pub proof fn lemma_var_u64_len_bound(v: nat, depth: nat)
    requires
        depth <= 9,
        v * pow128(depth) < 0x1_0000_0000_0000_0000,
    ensures
        1 <= var_u64_bytes(v).len() <= 10 - depth,
    decreases v,
{
    lemma_pow128_values();
    if v >= 128 {
        assert(v * pow128(depth) >= 128 * pow128(depth)) by (nonlinear_arith)
            requires
                v >= 128,
        ;
        assert((v / 128) * pow128(depth + 1) <= v * pow128(depth)) by (nonlinear_arith)
            requires
                pow128(depth + 1) == 128 * pow128(depth),
                pow128(depth) >= 0,
                v >= 0,
        ;
        lemma_var_u64_len_bound(v / 128, depth + 1);
    }
}

/// A variable-length integer that is cut short does not decode: every proper
/// prefix of the form of `v` ends in the middle of the field.
pub proof fn lemma_var_u64_truncated(v: nat, n: int, depth: nat)
    requires
        0 <= n < var_u64_bytes(v).len(),
        depth + var_u64_bytes(v).len() <= 10,
    ensures
        var_u64_scan(var_u64_bytes(v).take(n), depth) == Err::<(nat, Seq<u8>), CodecError>(
            CodecError::UnexpectedEof,
        ),
    decreases v,
{
    let s = var_u64_bytes(v).take(n);
    if n > 0 {
        assert(v >= 128);
        assert(s[0] == (v % 128 + 128) as u8);
        assert(s.skip(1) =~= var_u64_bytes(v / 128).take(n - 1));
        lemma_var_u64_truncated(v / 128, n - 1, depth + 1);
    }
}

/// The eight bytes of `v`, most significant first.
pub open spec fn be_u64_bytes(v: u64) -> Seq<u8> {
    seq![
        (v / 0x100_0000_0000_0000) as u8,
        (v / 0x1_0000_0000_0000 % 256) as u8,
        (v / 0x100_0000_0000 % 256) as u8,
        (v / 0x1_0000_0000 % 256) as u8,
        (v / 0x100_0000 % 256) as u8,
        (v / 0x1_0000 % 256) as u8,
        (v / 0x100 % 256) as u8,
        (v % 256) as u8,
    ]
}

/// The number whose eight bytes, most significant first, are the first
/// eight of `s`.
pub open spec fn be_u64_value(s: Seq<u8>) -> u64
    recommends
        s.len() >= 8,
{
    (s[0] * 0x100_0000_0000_0000 + s[1] * 0x1_0000_0000_0000 + s[2] * 0x100_0000_0000 + s[3]
        * 0x1_0000_0000 + s[4] * 0x100_0000 + s[5] * 0x1_0000 + s[6] * 0x100 + s[7]) as u64
}

/// Reading back the eight bytes of a number gives the number.
pub proof fn lemma_be_u64_roundtrip(v: u64, tail: Seq<u8>)
    ensures
        be_u64_bytes(v).len() == 8,
        be_u64_value(be_u64_bytes(v) + tail) == v,
{
    let s = be_u64_bytes(v) + tail;
    assert(s[0] == (v / 0x100_0000_0000_0000) as u8);
    assert(s[1] == (v / 0x1_0000_0000_0000 % 256) as u8);
    assert(s[2] == (v / 0x100_0000_0000 % 256) as u8);
    assert(s[3] == (v / 0x1_0000_0000 % 256) as u8);
    assert(s[4] == (v / 0x100_0000 % 256) as u8);
    assert(s[5] == (v / 0x1_0000 % 256) as u8);
    assert(s[6] == (v / 0x100 % 256) as u8);
    assert(s[7] == (v % 256) as u8);
    assert(v == (v / 0x100_0000_0000_0000) * 0x100_0000_0000_0000 + (v / 0x1_0000_0000_0000 % 256)
        * 0x1_0000_0000_0000 + (v / 0x100_0000_0000 % 256) * 0x100_0000_0000 + (v / 0x1_0000_0000
        % 256) * 0x1_0000_0000 + (v / 0x100_0000 % 256) * 0x100_0000 + (v / 0x1_0000 % 256)
        * 0x1_0000 + (v / 0x100 % 256) * 0x100 + v % 256) by (bit_vector);
}

/// `byteorder::BigEndian::write_u64` on an eight-byte buffer: the buffer
/// then holds the bytes of `v`, most significant first.
#[verifier::external_body]
fn be_u64_array(v: u64) -> (out: [u8; 8])
    ensures
        out@ == be_u64_bytes(v),
{
    let mut out = [0u8; 8];
    BigEndian::write_u64(&mut out, v);
    out
}

/// `byteorder::BigEndian::read_u64`: the number that the first eight bytes of
/// `data` spell, most significant first. It panics on a shorter slice.
#[verifier::external_body]
fn be_u64_read(data: &[u8]) -> (v: u64)
    requires
        data@.len() >= 8,
    ensures
        v == be_u64_value(data@),
{
    BigEndian::read_u64(data)
}

/// Appends the eight bytes of `v`, most significant first, to `buf`.
pub fn encode_u64(buf: &mut Vec<u8>, v: u64)
    ensures
        final(buf)@ == old(buf)@ + be_u64_bytes(v),
{
    let ghost start = buf@;
    let bytes = be_u64_array(v);
    let mut i: usize = 0;
    while i < 8
        invariant
            i <= 8,
            bytes@ == be_u64_bytes(v),
            buf@ == start + bytes@.take(i as int),
        decreases 8 - i,
    {
        buf.push(bytes[i]);
        i = i + 1;
    }
    assert(bytes@.take(8) =~= bytes@);
}

/// What decoding a fixed-width `u64` from the front of `s` gives: the value
/// and the bytes that follow it.
pub open spec fn be_u64_parse(s: Seq<u8>) -> Result<(u64, Seq<u8>), CodecError> {
    if s.len() >= 8 {
        Ok((be_u64_value(s), s.skip(8)))
    } else {
        Err(CodecError::UnexpectedEof)
    }
}

/// Decodes a fixed-width big-endian `u64` from the front of `data` and
/// returns it with the bytes that follow it.
pub fn decode_u64(data: &[u8]) -> (r: Result<(u64, &[u8]), CodecError>)
    ensures
        match be_u64_parse(data@) {
            Ok((v, rest)) => r matches Ok((x, tail)) && x == v && tail@ == rest,
            Err(e) => r == Err::<(u64, &[u8]), CodecError>(e),
        },
{
    if data.len() >= U64_SIZE {
        let v: u64 = be_u64_read(data);
        Ok((v, &data[U64_SIZE..data.len()]))
    } else {
        Err(CodecError::UnexpectedEof)
    }
}

/// The unsigned number that stands for `v` in a variable-length signed
/// integer: non-negative values are doubled, negative ones take the odd
/// numbers.
pub open spec fn zigzag(v: i64) -> u64 {
    if v >= 0 {
        (2 * v) as u64
    } else {
        (-2 * v - 1) as u64
    }
}

/// The signed number that `u` stands for: the inverse of `zigzag`.
pub open spec fn unzigzag(u: u64) -> i64 {
    if u % 2 == 0 {
        (u / 2) as i64
    } else {
        (-(u / 2) - 1) as i64
    }
}

/// The variable-length form of the signed number `v`.
pub open spec fn var_i64_bytes(v: i64) -> Seq<u8> {
    var_u64_bytes(zigzag(v) as nat)
}

/// The value and the remaining bytes that decoding a variable-length `i64`
/// from the front of `s` gives.
pub open spec fn var_i64_parse(s: Seq<u8>) -> Result<(i64, Seq<u8>), CodecError> {
    match var_u64_parse(s) {
        Ok((u, rest)) => Ok((unzigzag(u), rest)),
        Err(e) => Err(e),
    }
}

/// Appends the variable-length form of the signed number `v` to `buf`.
pub fn encode_var_i64(buf: &mut Vec<u8>, v: i64)
    ensures
        final(buf)@ == old(buf)@ + var_i64_bytes(v),
{
    let u: u64 = if v >= 0 {
        (v as u64) * 2
    } else {
        ((-(v + 1)) as u64) * 2 + 1
    };
    encode_var_u64(buf, u);
}

/// Decodes a variable-length `i64` from the front of `data` and returns it
/// with the bytes that follow it.
pub fn decode_var_i64(data: &[u8]) -> (r: Result<(i64, &[u8]), CodecError>)
    ensures
        match var_i64_parse(data@) {
            Ok((v, rest)) => r matches Ok((x, tail)) && x == v && tail@ == rest,
            Err(e) => r == Err::<(i64, &[u8]), CodecError>(e),
        },
{
    match decode_var_u64(data) {
        Ok((u, rest)) => {
            let half: i64 = (u / 2) as i64;
            if u % 2 == 0 {
                Ok((half, rest))
            } else {
                Ok((-half - 1, rest))
            }
        },
        Err(e) => Err(e),
    }
}

/// Decoding what `var_i64_bytes` wrote gives the value back and leaves the
/// bytes that follow.
pub proof fn lemma_var_i64_roundtrip(v: i64, tail: Seq<u8>)
    ensures
        var_i64_parse(var_i64_bytes(v) + tail) == Ok::<(i64, Seq<u8>), CodecError>((v, tail)),
{
    lemma_var_u64_roundtrip(zigzag(v), tail);
}

/// The error type of `std::io`, which the readers of `byteorder` return.
#[verifier::external_type_specification]
#[verifier::external_body]
pub struct ExIoError(std::io::Error);

/// `byteorder::ReadBytesExt::read_u8` on a byte slice: it takes the first
/// byte off the slice and returns it, and fails only on an empty slice.
#[verifier::external_body]
fn read_u8(data: &[u8]) -> (r: Result<(u8, &[u8]), std::io::Error>)
    ensures
        r is Ok <==> data@.len() > 0,
        r matches Ok((b, rest)) ==> b == data@[0] && rest@ == data@.skip(1),
{
    let mut rest = data;
    let b = rest.read_u8()?;
    Ok((b, rest))
}

/// What decoding one byte from the front of `s` gives: the byte and the bytes
/// that follow it.
pub open spec fn u8_parse(s: Seq<u8>) -> Result<(u8, Seq<u8>), CodecError> {
    if s.len() > 0 {
        Ok((s[0], s.skip(1)))
    } else {
        Err(CodecError::UnexpectedEof)
    }
}

/// Decodes one byte from the front of `data` and returns it with the bytes
/// that follow it.
pub fn decode_u8(data: &[u8]) -> (r: Result<(u8, &[u8]), CodecError>)
    ensures
        match u8_parse(data@) {
            Ok((v, rest)) => r matches Ok((x, tail)) && x == v && tail@ == rest,
            Err(e) => r == Err::<(u8, &[u8]), CodecError>(e),
        },
{
    match read_u8(data) {
        Ok(found) => Ok(found),
        Err(_) => Err(CodecError::UnexpectedEof),
    }
}

} // verus!
