use crate::error::CodecError;
use crate::number::{
    decode_var_i64, encode_var_i64, lemma_var_i64_roundtrip, lemma_var_u64_len,
    lemma_var_u64_truncated, var_i64_bytes, var_i64_parse, zigzag,
};
use vstd::prelude::*;
use vstd::slice::slice_to_vec;

verus! {

/// The compact form of a byte string: its length as a variable-length signed
/// integer, then the bytes as they are.
pub open spec fn compact_bytes(data: Seq<u8>) -> Seq<u8>
    recommends
        data.len() <= i64::MAX,
{
    var_i64_bytes(data.len() as i64) + data
}

/// What decoding a compact byte string from the front of `s` gives: the
/// string and the bytes that follow it. A length that is negative, or larger
/// than what is left, cannot be met.
pub open spec fn compact_bytes_parse(s: Seq<u8>) -> Result<(Seq<u8>, Seq<u8>), CodecError> {
    match var_i64_parse(s) {
        Ok((n, rest)) => if 0 <= n <= rest.len() {
            Ok((rest.take(n as int), rest.skip(n as int)))
        } else {
            Err(CodecError::UnexpectedEof)
        },
        Err(e) => Err(e),
    }
}

/// Appends `data` to `buf`.
pub fn append_bytes(buf: &mut Vec<u8>, data: &[u8])
    ensures
        final(buf)@ == old(buf)@ + data@,
{
    let ghost start = buf@;
    let mut i: usize = 0;
    while i < data.len()
        invariant
            i <= data@.len(),
            buf@ == start + data@.take(i as int),
        decreases data@.len() - i,
    {
        buf.push(data[i]);
        i = i + 1;
    }
    assert(data@.take(data@.len() as int) =~= data@);
}

/// Whether two byte strings hold the same bytes.
pub fn bytes_eq(a: &[u8], b: &[u8]) -> (same: bool)
    ensures
        same <==> a@ == b@,
{
    if a.len() != b.len() {
        return false;
    }
    let mut i: usize = 0;
    while i < a.len()
        invariant
            i <= a@.len(),
            a@.len() == b@.len(),
            a@.take(i as int) == b@.take(i as int),
        decreases a@.len() - i,
    {
        if a[i] != b[i] {
            return false;
        }
        assert(a@.take(i + 1) =~= a@.take(i as int).push(a@[i as int]));
        assert(b@.take(i + 1) =~= b@.take(i as int).push(b@[i as int]));
        i = i + 1;
    }
    assert(a@.take(a@.len() as int) =~= a@);
    assert(b@.take(b@.len() as int) =~= b@);
    true
}

/// Appends the compact form of `data` to `buf`.
pub fn encode_compact_bytes(buf: &mut Vec<u8>, data: &[u8])
    requires
        data@.len() <= i64::MAX,
    ensures
        final(buf)@ == old(buf)@ + compact_bytes(data@),
{
    let ghost start = buf@;
    encode_var_i64(buf, data.len() as i64);
    append_bytes(buf, data);
    assert(buf@ =~= start + compact_bytes(data@));
}

/// Decodes a compact byte string from the front of `data` and returns it with
/// the bytes that follow it.
pub fn decode_compact_bytes(data: &[u8]) -> (r: Result<(Vec<u8>, &[u8]), CodecError>)
    ensures
        match compact_bytes_parse(data@) {
            Ok((v, rest)) => r matches Ok((x, tail)) && x@ == v && tail@ == rest,
            Err(e) => r matches Err(err) && err == e,
        },
{
    match decode_var_i64(data) {
        Ok((n, rest)) => {
            if n >= 0 && (n as u64) <= rest.len() as u64 {
                let len: usize = n as usize;
                let body = slice_to_vec(&rest[0..len]);
                Ok((body, &rest[len..rest.len()]))
            } else {
                Err(CodecError::UnexpectedEof)
            }
        },
        Err(e) => Err(e),
    }
}

/// Decoding the compact form of a byte string gives the string back and
/// leaves the bytes that follow.
pub proof fn lemma_compact_bytes_roundtrip(data: Seq<u8>, tail: Seq<u8>)
    requires
        data.len() <= i64::MAX,
    ensures
        compact_bytes_parse(compact_bytes(data) + tail) == Ok::<(Seq<u8>, Seq<u8>), CodecError>(
            (data, tail),
        ),
{
    let head = var_i64_bytes(data.len() as i64);
    assert(compact_bytes(data) + tail =~= head + (data + tail));
    lemma_var_i64_roundtrip(data.len() as i64, data + tail);
    assert((data + tail).take(data.len() as int) =~= data);
    assert((data + tail).skip(data.len() as int) =~= tail);
}

/// A compact byte string that is cut short does not decode.
pub proof fn lemma_compact_bytes_truncated(data: Seq<u8>, n: int)
    requires
        data.len() <= i64::MAX,
        0 <= n < compact_bytes(data).len(),
    ensures
        compact_bytes_parse(compact_bytes(data).take(n)) == Err::<(Seq<u8>, Seq<u8>), CodecError>(
            CodecError::UnexpectedEof,
        ),
{
    let len = data.len() as i64;
    let head = var_i64_bytes(len);
    let cut = compact_bytes(data).take(n);
    lemma_var_u64_len(zigzag(len));
    if n < head.len() {
        assert(cut =~= head.take(n));
        lemma_var_u64_truncated(zigzag(len) as nat, n, 0);
    } else {
        let body = data.take(n - head.len());
        assert(cut =~= head + body);
        lemma_var_i64_roundtrip(len, body);
    }
}

/// The number of bytes of a key that one group of its ordered form holds.
pub const ENC_GROUP_SIZE: usize = 8;

/// The byte that closes a full group. A group with padding is closed by this
/// byte less the number of padding bytes.
pub const ENC_MARKER: u8 = 0xff;

/// `n` zero bytes.
pub open spec fn zeros(n: nat) -> Seq<u8> {
    Seq::new(n, |i: int| 0u8)
}

/// The ordered form of a byte string, in which the encoded strings sort as
/// the strings themselves do: groups of eight bytes, each closed by a marker
/// byte. The last group is filled up with zero bytes, and its marker tells
/// how many; a string of a whole number of groups gets a last group of
/// padding alone.
pub open spec fn ordered_bytes(raw: Seq<u8>) -> Seq<u8>
    decreases raw.len(),
{
    if raw.len() >= 8 {
        raw.take(8).push(ENC_MARKER) + ordered_bytes(raw.skip(8))
    } else {
        (raw + zeros((8 - raw.len()) as nat)).push((ENC_MARKER - (8 - raw.len())) as u8)
    }
}

/// Whether the last `pad` of the first eight bytes of `s` are zero.
pub open spec fn zero_padded(s: Seq<u8>, pad: int) -> bool {
    forall|i: int| 8 - pad <= i < 8 ==> s[i] == 0
}

/// What decoding an ordered byte string from the front of `s` gives: the
/// string and the bytes that follow its last group.
pub open spec fn ordered_bytes_parse(s: Seq<u8>) -> Result<(Seq<u8>, Seq<u8>), CodecError>
    decreases s.len(),
{
    if s.len() < 9 {
        Err(CodecError::UnexpectedEof)
    } else if s[8] == ENC_MARKER {
        match ordered_bytes_parse(s.skip(9)) {
            Ok((more, rest)) => Ok((s.take(8) + more, rest)),
            Err(e) => Err(e),
        }
    } else if ENC_MARKER - s[8] > 8 || !zero_padded(s, ENC_MARKER - s[8]) {
        Err(CodecError::KeyPadding)
    } else {
        Ok((s.take(8 - (ENC_MARKER - s[8])), s.skip(9)))
    }
}

/// The ordered form of `raw`.
pub fn encode_bytes(raw: &[u8]) -> (out: Vec<u8>)
    ensures
        out@ == ordered_bytes(raw@),
{
    let mut out: Vec<u8> = Vec::new();
    let mut index: usize = 0;
    proof {
        assert(raw@.skip(0) =~= raw@);
    }
    while raw.len() - index >= ENC_GROUP_SIZE
        invariant
            index <= raw@.len(),
            ordered_bytes(raw@) == out@ + ordered_bytes(raw@.skip(index as int)),
        decreases raw@.len() - index,
    {
        let ghost before = out@;
        let ghost left = raw@.skip(index as int);
        append_bytes(&mut out, &raw[index..index + ENC_GROUP_SIZE]);
        out.push(ENC_MARKER);
        assert(raw@.subrange(index as int, index + 8) =~= left.take(8));
        assert(left.skip(8) =~= raw@.skip(index + 8));
        assert(out@ =~= before + left.take(8).push(ENC_MARKER));
        assert(out@ + ordered_bytes(left.skip(8)) =~= before + (left.take(8).push(ENC_MARKER)
            + ordered_bytes(left.skip(8))));
        index = index + ENC_GROUP_SIZE;
    }
    let ghost before = out@;
    let ghost left = raw@.skip(index as int);
    let pad: usize = ENC_GROUP_SIZE - (raw.len() - index);
    append_bytes(&mut out, &raw[index..raw.len()]);
    assert(raw@.subrange(index as int, raw@.len() as int) =~= left);
    let mut i: usize = 0;
    while i < pad
        invariant
            i <= pad,
            out@ == before + (left + zeros(i as nat)),
        decreases pad - i,
    {
        out.push(0);
        assert(zeros(i as nat).push(0u8) =~= zeros((i + 1) as nat));
        assert(out@ =~= before + (left + zeros((i + 1) as nat)));
        i = i + 1;
    }
    out.push(ENC_MARKER - pad as u8);
    assert(out@ =~= before + ordered_bytes(left));
    out
}

/// What `ordered_bytes_parse` gives for the whole string when the groups
/// read so far hold `front` and the rest of the scan gives `inner`.
pub open spec fn ordered_bytes_join(
    front: Seq<u8>,
    inner: Result<(Seq<u8>, Seq<u8>), CodecError>,
) -> Result<(Seq<u8>, Seq<u8>), CodecError> {
    match inner {
        Ok((more, rest)) => Ok((front + more, rest)),
        Err(e) => Err(e),
    }
}

/// Decodes an ordered byte string from the front of `data` and returns it
/// with the bytes that follow its last group.
pub fn decode_bytes(data: &[u8]) -> (r: Result<(Vec<u8>, &[u8]), CodecError>)
    ensures
        match ordered_bytes_parse(data@) {
            Ok((v, rest)) => r matches Ok((x, tail)) && x@ == v && tail@ == rest,
            Err(e) => r matches Err(err) && err == e,
        },
{
    let mut key: Vec<u8> = Vec::new();
    let mut offset: usize = 0;
    proof {
        assert(data@.skip(0) =~= data@);
        assert(key@ + Seq::<u8>::empty() =~= key@);
    }
    while data.len() - offset >= ENC_GROUP_SIZE + 1 && data[offset + ENC_GROUP_SIZE] == ENC_MARKER
        invariant
            offset <= data@.len(),
            ordered_bytes_parse(data@) == ordered_bytes_join(
                key@,
                ordered_bytes_parse(data@.skip(offset as int)),
            ),
        decreases data@.len() - offset,
    {
        let ghost front = key@;
        let ghost left = data@.skip(offset as int);
        append_bytes(&mut key, &data[offset..offset + ENC_GROUP_SIZE]);
        assert(data@.subrange(offset as int, offset + 8) =~= left.take(8));
        assert(left.skip(9) =~= data@.skip(offset + 9));
        assert(left[8] == data@[offset + 8]);
        proof {
            if let Ok((more, _)) = ordered_bytes_parse(left.skip(9)) {
                assert(front + (left.take(8) + more) =~= (front + left.take(8)) + more);
            }
        }
        offset = offset + ENC_GROUP_SIZE + 1;
    }
    let ghost left = data@.skip(offset as int);
    if data.len() - offset < ENC_GROUP_SIZE + 1 {
        return Err(CodecError::UnexpectedEof);
    }
    let marker: u8 = data[offset + ENC_GROUP_SIZE];
    assert(left[8] == marker);
    let pad: usize = (ENC_MARKER - marker) as usize;
    if pad > ENC_GROUP_SIZE {
        return Err(CodecError::KeyPadding);
    }
    let mut i: usize = ENC_GROUP_SIZE - pad;
    while i < ENC_GROUP_SIZE
        invariant
            pad <= 8,
            8 - pad <= i <= 8,
            offset + 9 <= data.len(),
            left == data@.skip(offset as int),
            left[8] != ENC_MARKER,
            pad == ENC_MARKER - left[8],
            forall|j: int| 8 - pad <= j < i ==> left[j] == 0,
            ordered_bytes_parse(data@) == ordered_bytes_join(key@, ordered_bytes_parse(left)),
        decreases 8 - i,
    {
        if data[offset + i] != 0 {
            assert(left[i as int] != 0);
            return Err(CodecError::KeyPadding);
        }
        i = i + 1;
    }
    assert(zero_padded(left, pad as int));
    let ghost front = key@;
    append_bytes(&mut key, &data[offset..offset + ENC_GROUP_SIZE - pad]);
    assert(data@.subrange(offset as int, offset + 8 - pad) =~= left.take(8 - pad));
    assert(left.skip(9) =~= data@.skip(offset + 9));
    Ok((key, &data[offset + ENC_GROUP_SIZE + 1..data.len()]))
}

/// Decoding the ordered form of a byte string gives the string back and
/// leaves the bytes that follow.
pub proof fn lemma_ordered_bytes_roundtrip(raw: Seq<u8>, tail: Seq<u8>)
    ensures
        ordered_bytes_parse(ordered_bytes(raw) + tail) == Ok::<(Seq<u8>, Seq<u8>), CodecError>(
            (raw, tail),
        ),
    decreases raw.len(),
{
    let s = ordered_bytes(raw) + tail;
    if raw.len() >= 8 {
        let more = ordered_bytes(raw.skip(8));
        assert(s =~= raw.take(8).push(ENC_MARKER) + (more + tail));
        assert(s[8] == ENC_MARKER);
        assert(s.take(8) =~= raw.take(8));
        assert(s.skip(9) =~= more + tail);
        lemma_ordered_bytes_roundtrip(raw.skip(8), tail);
        assert(raw.take(8) + raw.skip(8) =~= raw);
    } else {
        let pad = 8 - raw.len();
        let group = raw + zeros(pad as nat);
        assert(s =~= group.push((ENC_MARKER - pad) as u8) + tail);
        assert(s[8] == ENC_MARKER - pad);
        assert forall|i: int| 8 - pad <= i < 8 implies s[i] == 0 by {
            assert(s[i] == group[i]);
        }
        assert(s.take(8 - pad) =~= raw);
        assert(s.skip(9) =~= tail);
    }
}

} // verus!
