use crate::bytes::{
    decode_bytes, encode_bytes, lemma_ordered_bytes_roundtrip, ordered_bytes, ordered_bytes_parse,
};
use crate::error::CodecError;
use vstd::prelude::*;

verus! {

/// The value stored under a key.
pub type Value = Vec<u8>;

/// A key as the store holds it: in its ordered form, possibly followed by
/// more bytes.
#[derive(Debug, Clone, PartialEq, Eq)]
pub struct Key {
    encoded: Vec<u8>,
}

impl View for Key {
    type V = Seq<u8>;

    /// The bytes of the key as the store holds them.
    closed spec fn view(&self) -> Seq<u8> {
        self.encoded@
    }
}

/// The raw key that the encoded bytes `encoded` stand for, or why they stand
/// for none.
pub open spec fn raw_key(encoded: Seq<u8>) -> Result<Seq<u8>, CodecError> {
    match ordered_bytes_parse(encoded) {
        Ok((raw, _)) => Ok(raw),
        Err(e) => Err(e),
    }
}

impl Key {
    /// The key of the raw bytes `raw`.
    pub fn from_raw(raw: &[u8]) -> (key: Key)
        ensures
            key@ == ordered_bytes(raw@),
            raw_key(key@) == Ok::<Seq<u8>, CodecError>(raw@),
    {
        proof {
            lemma_ordered_bytes_roundtrip(raw@, Seq::empty());
            assert(ordered_bytes(raw@) + Seq::<u8>::empty() =~= ordered_bytes(raw@));
        }
        Key { encoded: encode_bytes(raw) }
    }

    /// The key that the store holds as `encoded`.
    pub fn from_encoded(encoded: Vec<u8>) -> (key: Key)
        ensures
            key@ == encoded@,
    {
        Key { encoded }
    }

    /// The bytes of the key as the store holds them.
    pub fn as_encoded(&self) -> (encoded: &Vec<u8>)
        ensures
            encoded@ == self@,
    {
        &self.encoded
    }

    /// The raw bytes of the key. It fails where the encoded bytes are not the
    /// ordered form of any byte string.
    pub fn to_raw(&self) -> (r: Result<Vec<u8>, CodecError>)
        ensures
            match raw_key(self@) {
                Ok(raw) => r matches Ok(v) && v@ == raw,
                Err(e) => r matches Err(err) && err == e,
            },
    {
        match decode_bytes(self.encoded.as_slice()) {
            Ok((raw, _)) => Ok(raw),
            Err(e) => Err(e),
        }
    }
}

} // verus!
