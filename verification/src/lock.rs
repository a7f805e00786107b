use crate::bytes::{
    append_bytes, bytes_eq, compact_bytes, compact_bytes_parse, decode_compact_bytes,
    encode_compact_bytes, lemma_compact_bytes_roundtrip, lemma_compact_bytes_truncated,
};
use crate::error::{CodecError, Error, ErrorView};
use crate::key::{raw_key, Key};
use crate::lock_info::{LockInfo, LockInfoView, Op};
use crate::mutation::Mutation;
use crate::number::{
    be_u64_bytes, be_u64_parse, decode_u64, decode_u8, decode_var_u64, encode_u64, encode_var_u64,
    lemma_be_u64_roundtrip, lemma_var_u64_len, lemma_var_u64_roundtrip, lemma_var_u64_truncated,
    var_u64_bytes, var_u64_parse, MAX_VAR_U64_LEN,
};
use crate::ts_set::TsSet;
use vstd::slice::slice_to_vec;
use vstd::prelude::*;

verus! {

/// The kind of a pending lock.
#[derive(Debug, Clone, Copy, PartialEq, Eq, Structural)]
pub enum LockType {
    Put,
    Delete,
    Lock,
    Pessimistic,
}

/// The tag of `LockType::Put`, the letter `P`.
pub const FLAG_PUT: u8 = 0x50;

/// The tag of `LockType::Delete`, the letter `D`.
pub const FLAG_DELETE: u8 = 0x44;

/// The tag of `LockType::Lock`, the letter `L`.
pub const FLAG_LOCK: u8 = 0x4c;

/// The tag of `LockType::Pessimistic`, the letter `S`.
pub const FLAG_PESSIMISTIC: u8 = 0x53;

/// The tag in front of an embedded short value, the letter `v`.
pub const SHORT_VALUE_PREFIX: u8 = 0x76;

/// The tag in front of the for-update timestamp, the letter `f`.
pub const FOR_UPDATE_TS_PREFIX: u8 = 0x66;

/// The tag in front of the transaction size, the letter `t`.
pub const TXN_SIZE_PREFIX: u8 = 0x74;

/// The tag in front of the minimum commit timestamp, the letter `c`.
pub const MIN_COMMIT_TS_PREFIX: u8 = 0x63;

/// The longest value that is embedded in a lock rather than stored apart.
pub const SHORT_VALUE_MAX_LEN: usize = 64;

/// The one-byte tag of a lock kind.
pub open spec fn lock_type_tag(t: LockType) -> u8 {
    match t {
        LockType::Put => FLAG_PUT,
        LockType::Delete => FLAG_DELETE,
        LockType::Lock => FLAG_LOCK,
        LockType::Pessimistic => FLAG_PESSIMISTIC,
    }
}

/// The lock kind that a tag byte names, if it names one.
pub open spec fn tag_lock_type(b: u8) -> Option<LockType> {
    if b == FLAG_PUT {
        Some(LockType::Put)
    } else if b == FLAG_DELETE {
        Some(LockType::Delete)
    } else if b == FLAG_LOCK {
        Some(LockType::Lock)
    } else if b == FLAG_PESSIMISTIC {
        Some(LockType::Pessimistic)
    } else {
        None
    }
}

/// The lock kind that a write asks for. No write asks for a pessimistic lock.
pub open spec fn mutation_lock_type(mutation: Mutation) -> LockType {
    match mutation {
        Mutation::Put(_) => LockType::Put,
        Mutation::Insert(_) => LockType::Put,
        Mutation::Delete(_) => LockType::Delete,
        Mutation::Lock(_) => LockType::Lock,
    }
}

impl LockType {
    /// The kind of lock that the write `mutation` takes.
    pub fn from_mutation(mutation: &Mutation) -> (t: LockType)
        ensures
            t == mutation_lock_type(*mutation),
            t != LockType::Pessimistic,
    {
        match mutation {
            Mutation::Put(_) => LockType::Put,
            Mutation::Insert(_) => LockType::Put,
            Mutation::Delete(_) => LockType::Delete,
            Mutation::Lock(_) => LockType::Lock,
        }
    }

    /// The lock kind named by the tag byte `b`; `None` for any other byte.
    pub fn from_u8(b: u8) -> (r: Option<LockType>)
        ensures
            r == tag_lock_type(b),
            r matches Some(t) ==> lock_type_tag(t) == b,
            r is None <==> b != FLAG_PUT && b != FLAG_DELETE && b != FLAG_LOCK && b
                != FLAG_PESSIMISTIC,
    {
        if b == FLAG_PUT {
            Some(LockType::Put)
        } else if b == FLAG_DELETE {
            Some(LockType::Delete)
        } else if b == FLAG_LOCK {
            Some(LockType::Lock)
        } else if b == FLAG_PESSIMISTIC {
            Some(LockType::Pessimistic)
        } else {
            None
        }
    }

    /// The tag byte of this lock kind.
    pub fn to_u8(self) -> (b: u8)
        ensures
            b == lock_type_tag(self),
            tag_lock_type(b) == Some(self),
    {
        match self {
            LockType::Put => FLAG_PUT,
            LockType::Delete => FLAG_DELETE,
            LockType::Lock => FLAG_LOCK,
            LockType::Pessimistic => FLAG_PESSIMISTIC,
        }
    }
}

/// Every lock kind is found again from its tag, and a byte that names a lock
/// kind is the tag of that kind: the two mappings are inverse to each other
/// on the four tags, and no other byte names a kind.
pub proof fn lemma_tag_bijection(t: LockType, b: u8)
    ensures
        tag_lock_type(lock_type_tag(t)) == Some(t),
        tag_lock_type(b) matches Some(k) ==> lock_type_tag(k) == b,
        tag_lock_type(b) is None <==> !(b == 0x50 || b == 0x44 || b == 0x4c || b == 0x53),
{
}

/// A lock: the mark that a transaction leaves on a key it is about to write.
#[derive(Debug, Clone, PartialEq, Eq)]
pub struct Lock {
    pub lock_type: LockType,
    pub primary: Vec<u8>,
    pub ts: u64,
    pub ttl: u64,
    pub short_value: Option<Vec<u8>>,
    /// Not zero only for a lock of a pessimistic transaction.
    pub for_update_ts: u64,
    pub txn_size: u64,
    pub min_commit_ts: u64,
}

/// The mathematical value of a `Lock`.
pub struct LockView {
    pub lock_type: LockType,
    pub primary: Seq<u8>,
    pub ts: u64,
    pub ttl: u64,
    pub short_value: Option<Seq<u8>>,
    pub for_update_ts: u64,
    pub txn_size: u64,
    pub min_commit_ts: u64,
}

/// The mathematical value of an optional byte string.
pub open spec fn option_bytes(v: Option<Vec<u8>>) -> Option<Seq<u8>> {
    match v {
        Some(x) => Some(x@),
        None => None,
    }
}

impl View for Lock {
    type V = LockView;

    open spec fn view(&self) -> LockView {
        LockView {
            lock_type: self.lock_type,
            primary: self.primary@,
            ts: self.ts,
            ttl: self.ttl,
            short_value: option_bytes(self.short_value),
            for_update_ts: self.for_update_ts,
            txn_size: self.txn_size,
            min_commit_ts: self.min_commit_ts,
        }
    }
}

/// The part of a record that every lock must have: the tag of its kind, the
/// primary key in compact form and the start timestamp.
pub open spec fn lock_head_bytes(l: LockView) -> Seq<u8> {
    seq![lock_type_tag(l.lock_type)] + compact_bytes(l.primary) + var_u64_bytes(l.ts as nat)
}

/// The optional field of a short value: its tag, one byte of length, the
/// value. Nothing for a lock without one. Of a length over 255 only the low
/// byte is written, so such a value does not read back.
pub open spec fn short_value_bytes(v: Option<Seq<u8>>) -> Seq<u8> {
    match v {
        Some(x) => seq![SHORT_VALUE_PREFIX, (x.len() % 256) as u8] + x,
        None => Seq::empty(),
    }
}

/// An optional numeric field: its tag and the eight bytes of the number.
/// Nothing where the number is zero.
pub open spec fn tagged_u64_bytes(tag: u8, v: u64) -> Seq<u8> {
    if v > 0 {
        seq![tag] + be_u64_bytes(v)
    } else {
        Seq::empty()
    }
}

/// The optional fields of a record, in the order in which they are written.
pub open spec fn lock_tail_bytes(l: LockView) -> Seq<u8> {
    short_value_bytes(l.short_value) + tagged_u64_bytes(FOR_UPDATE_TS_PREFIX, l.for_update_ts)
        + tagged_u64_bytes(TXN_SIZE_PREFIX, l.txn_size) + tagged_u64_bytes(
        MIN_COMMIT_TS_PREFIX,
        l.min_commit_ts,
    )
}

/// The record of a lock, byte for byte.
pub open spec fn lock_bytes(l: LockView) -> Seq<u8> {
    lock_head_bytes(l) + var_u64_bytes(l.ttl as nat) + lock_tail_bytes(l)
}

/// What reading a short value gives, after its tag: one byte of length, then
/// as many bytes. A length that the record cannot meet shows a corrupt
/// record.
pub open spec fn short_value_parse(s: Seq<u8>) -> Result<(Seq<u8>, Seq<u8>), ErrorView> {
    if s.len() == 0 {
        Err(ErrorView::Codec(CodecError::UnexpectedEof))
    } else if s.len() - 1 < s[0] {
        Err(ErrorView::CorruptLockExtension)
    } else {
        Ok((s.subrange(1, 1 + s[0]), s.skip(1 + s[0])))
    }
}

/// What reading a numeric field gives, after its tag.
pub open spec fn tagged_u64_parse(s: Seq<u8>) -> Result<(u64, Seq<u8>), ErrorView> {
    match be_u64_parse(s) {
        Ok(found) => Ok(found),
        Err(e) => Err(ErrorView::Codec(e)),
    }
}

/// Reads the optional fields `s` of a record into `acc`: tagged fields in any
/// order until the bytes are used up, a later field replacing an earlier one
/// with the same tag. A tag that names no field shows a corrupt record.
pub open spec fn lock_tail_parse(s: Seq<u8>, acc: LockView) -> Result<LockView, ErrorView>
    decreases s.len(),
{
    if s.len() == 0 {
        Ok(acc)
    } else if s[0] == SHORT_VALUE_PREFIX {
        match short_value_parse(s.skip(1)) {
            Ok((v, rest)) => lock_tail_parse(rest, LockView { short_value: Some(v), ..acc }),
            Err(e) => Err(e),
        }
    } else if s[0] == FOR_UPDATE_TS_PREFIX || s[0] == TXN_SIZE_PREFIX || s[0]
        == MIN_COMMIT_TS_PREFIX {
        match tagged_u64_parse(s.skip(1)) {
            Ok((v, rest)) => lock_tail_parse(rest, with_tagged_u64(acc, s[0], v)),
            Err(e) => Err(e),
        }
    } else {
        Err(ErrorView::CorruptLockExtension)
    }
}

/// The lock `acc` with the numeric field that `tag` names set to `v`.
pub open spec fn with_tagged_u64(acc: LockView, tag: u8, v: u64) -> LockView {
    if tag == FOR_UPDATE_TS_PREFIX {
        LockView { for_update_ts: v, ..acc }
    } else if tag == TXN_SIZE_PREFIX {
        LockView { txn_size: v, ..acc }
    } else if tag == MIN_COMMIT_TS_PREFIX {
        LockView { min_commit_ts: v, ..acc }
    } else {
        acc
    }
}

/// A lock with none of the optional fields.
pub open spec fn plain_lock(lock_type: LockType, primary: Seq<u8>, ts: u64, ttl: u64) -> LockView {
    LockView {
        lock_type,
        primary,
        ts,
        ttl,
        short_value: None,
        for_update_ts: 0,
        txn_size: 0,
        min_commit_ts: 0,
    }
}

/// What a record says, or why it says nothing. The kind, the primary key and
/// the start timestamp must be there. A record that ends after them is of the
/// oldest form and has a time to live of zero; any other has the time to
/// live and then the optional fields.
pub open spec fn lock_parse(s: Seq<u8>) -> Result<LockView, ErrorView> {
    if s.len() == 0 {
        Err(ErrorView::BadFormatLock)
    } else {
        match tag_lock_type(s[0]) {
            None => Err(ErrorView::BadFormatLock),
            Some(lock_type) => match compact_bytes_parse(s.skip(1)) {
                Err(e) => Err(ErrorView::Codec(e)),
                Ok((primary, after_primary)) => match var_u64_parse(after_primary) {
                    Err(e) => Err(ErrorView::Codec(e)),
                    Ok((ts, after_ts)) => {
                        if after_ts.len() == 0 {
                            Ok(plain_lock(lock_type, primary, ts, 0))
                        } else {
                            match var_u64_parse(after_ts) {
                                Err(e) => Err(ErrorView::Codec(e)),
                                Ok((ttl, tail)) => lock_tail_parse(
                                    tail,
                                    plain_lock(lock_type, primary, ts, ttl),
                                ),
                            }
                        }
                    },
                },
            },
        }
    }
}

/// The kind of write that a lock of kind `t` is reported as.
pub open spec fn lock_type_op(t: LockType) -> Op {
    match t {
        LockType::Put => Op::Put,
        LockType::Delete => Op::Del,
        LockType::Lock => Op::Lock,
        LockType::Pessimistic => Op::PessimisticLock,
    }
}

/// What a reader of the raw key `raw` is told about the lock `l` on it.
pub open spec fn lock_info(l: LockView, raw: Seq<u8>) -> LockInfoView {
    LockInfoView {
        primary_lock: l.primary,
        lock_version: l.ts,
        key: raw,
        lock_ttl: l.ttl,
        txn_size: l.txn_size,
        lock_type: lock_type_op(l.lock_type),
    }
}

/// Whether a read at `ts` may pass over the lock `l` without looking at the
/// key: the lock is younger than the read, or of a kind that never stands in
/// the way of a read, or one that the reader chose to pass over.
pub open spec fn lock_ignored(l: LockView, ts: u64, bypass: Set<u64>) -> bool {
    ||| l.ts > ts
    ||| l.lock_type == LockType::Lock
    ||| l.lock_type == LockType::Pessimistic
    ||| bypass.contains(l.ts)
}

/// The outcome of a read at `ts` that finds the lock `l` on a key whose raw
/// form is `raw`, with the locks of `bypass` passed over. A lock that is not
/// ignored needs the raw key: a key without one fails the read with its own
/// error. A read of the latest version (`ts` is the largest timestamp) passes
/// over a lock on the primary key of the lock's transaction. Any other lock
/// is reported.
pub open spec fn ts_conflict(
    l: LockView,
    raw: Result<Seq<u8>, CodecError>,
    ts: u64,
    bypass: Set<u64>,
) -> Result<(), ErrorView> {
    if lock_ignored(l, ts, bypass) {
        Ok(())
    } else {
        match raw {
            Err(e) => Err(ErrorView::Codec(e)),
            Ok(k) => if ts == u64::MAX && k == l.primary {
                Ok(())
            } else {
                Err(ErrorView::KeyIsLocked(lock_info(l, k)))
            },
        }
    }
}

impl Lock {
    /// A lock with the given fields.
    pub fn new(
        lock_type: LockType,
        primary: Vec<u8>,
        ts: u64,
        ttl: u64,
        short_value: Option<Vec<u8>>,
        for_update_ts: u64,
        txn_size: u64,
        min_commit_ts: u64,
    ) -> (lock: Lock)
        ensures
            lock == (Lock {
                lock_type,
                primary,
                ts,
                ttl,
                short_value,
                for_update_ts,
                txn_size,
                min_commit_ts,
            }),
    {
        Lock { lock_type, primary, ts, ttl, short_value, for_update_ts, txn_size, min_commit_ts }
    }

    /// Writes the record of this lock: the kind, the primary key, the two
    /// numbers that every record has, then each optional field that is set.
    pub fn to_bytes(&self) -> (b: Vec<u8>)
        requires
            self.primary@.len() <= i64::MAX,
        ensures
            b@ == lock_bytes(self@),
            fits_record(self@) ==> lock_parse(b@) == Ok::<LockView, ErrorView>(self@),
    {
        proof {
            if fits_record(self@) {
                lemma_parse_to_bytes(self@);
            }
        }
        let hint: usize = self.primary.len().saturating_add(
            1 + MAX_VAR_U64_LEN + MAX_VAR_U64_LEN + SHORT_VALUE_MAX_LEN + 2,
        );
        let mut b: Vec<u8> = Vec::with_capacity(hint);
        b.push(self.lock_type.to_u8());
        encode_compact_bytes(&mut b, self.primary.as_slice());
        encode_var_u64(&mut b, self.ts);
        assert(b@ =~= lock_head_bytes(self@));
        encode_var_u64(&mut b, self.ttl);
        let ghost fixed = b@;
        encode_short_value(&mut b, &self.short_value);
        encode_tagged_u64(&mut b, FOR_UPDATE_TS_PREFIX, self.for_update_ts);
        encode_tagged_u64(&mut b, TXN_SIZE_PREFIX, self.txn_size);
        encode_tagged_u64(&mut b, MIN_COMMIT_TS_PREFIX, self.min_commit_ts);
        assert(b@ =~= fixed + lock_tail_bytes(self@));
        b
    }

    /// Reads a lock from its record.
    pub fn parse(b: &[u8]) -> (r: Result<Lock, Error>)
        ensures
            match lock_parse(b@) {
                Ok(l) => r matches Ok(lock) && lock@ == l,
                Err(e) => r matches Err(err) && err@ == e,
            },
            b@.len() == 0 ==> r matches Err(Error::BadFormatLock),
    {
        if b.is_empty() {
            return Err(Error::BadFormatLock);
        }
        let (tag, after_tag) = match decode_u8(b) {
            Ok(found) => found,
            Err(e) => {
                return Err(Error::Codec(e));
            },
        };
        let lock_type = match LockType::from_u8(tag) {
            Some(t) => t,
            None => {
                return Err(Error::BadFormatLock);
            },
        };
        let (primary, after_primary) = match decode_compact_bytes(after_tag) {
            Ok(found) => found,
            Err(e) => {
                return Err(Error::Codec(e));
            },
        };
        let (ts, after_ts) = match decode_var_u64(after_primary) {
            Ok(found) => found,
            Err(e) => {
                return Err(Error::Codec(e));
            },
        };
        if after_ts.is_empty() {
            return Ok(Lock::new(lock_type, primary, ts, 0, None, 0, 0, 0));
        }
        let (ttl, tail) = match decode_var_u64(after_ts) {
            Ok(found) => found,
            Err(e) => {
                return Err(Error::Codec(e));
            },
        };
        let mut rest: &[u8] = tail;
        let mut short_value: Option<Vec<u8>> = None;
        let mut for_update_ts: u64 = 0;
        let mut txn_size: u64 = 0;
        let mut min_commit_ts: u64 = 0;
        while !rest.is_empty()
            invariant
                lock_parse(b@) == lock_tail_parse(
                    rest@,
                    LockView {
                        lock_type,
                        primary: primary@,
                        ts,
                        ttl,
                        short_value: option_bytes(short_value),
                        for_update_ts,
                        txn_size,
                        min_commit_ts,
                    },
                ),
            decreases rest@.len(),
        {
            let (flag, body) = match decode_u8(rest) {
                Ok(found) => found,
                Err(e) => {
                    return Err(Error::Codec(e));
                },
            };
            if flag == SHORT_VALUE_PREFIX {
                let (len, content) = match decode_u8(body) {
                    Ok(found) => found,
                    Err(e) => {
                        return Err(Error::Codec(e));
                    },
                };
                let len: usize = len as usize;
                if content.len() < len {
                    return Err(Error::CorruptLockExtension);
                }
                short_value = Some(slice_to_vec(&content[0..len]));
                assert(content@.subrange(0, len as int) =~= body@.subrange(1, 1 + len));
                assert(content@.skip(len as int) =~= body@.skip(1 + len));
                rest = &content[len..content.len()];
            } else if flag == FOR_UPDATE_TS_PREFIX || flag == TXN_SIZE_PREFIX || flag
                == MIN_COMMIT_TS_PREFIX {
                let (v, next) = match decode_u64(body) {
                    Ok(found) => found,
                    Err(e) => {
                        return Err(Error::Codec(e));
                    },
                };
                if flag == FOR_UPDATE_TS_PREFIX {
                    for_update_ts = v;
                } else if flag == TXN_SIZE_PREFIX {
                    txn_size = v;
                } else {
                    min_commit_ts = v;
                }
                rest = next;
            } else {
                return Err(Error::CorruptLockExtension);
            }
        }
        Ok(
            Lock::new(
                lock_type,
                primary,
                ts,
                ttl,
                short_value,
                for_update_ts,
                txn_size,
                min_commit_ts,
            ),
        )
    }

    /// What a reader of the key `raw_key` is told about this lock.
    pub fn into_lock_info(self, raw_key: Vec<u8>) -> (info: LockInfo)
        ensures
            info@ == lock_info(self@, raw_key@),
    {
        let lock_type = match self.lock_type {
            LockType::Put => Op::Put,
            LockType::Delete => Op::Del,
            LockType::Lock => Op::Lock,
            LockType::Pessimistic => Op::PessimisticLock,
        };
        LockInfo {
            primary_lock: self.primary,
            lock_version: self.ts,
            key: raw_key,
            lock_ttl: self.ttl,
            txn_size: self.txn_size,
            lock_type,
        }
    }

    /// Checks whether this lock stands in the way of a read of `key` at `ts`.
    /// With `ts` the largest timestamp, which asks for the latest version, a
    /// lock on the primary key is passed over.
    pub fn check_ts_conflict(self, key: &Key, ts: u64, bypass_locks: &TsSet) -> (r: Result<
        (),
        Error,
    >)
        ensures
            match ts_conflict(self@, raw_key(key@), ts, bypass_locks@) {
                Ok(_) => r is Ok,
                Err(e) => r matches Err(err) && err@ == e,
            },
    {
        if self.ts > ts || self.lock_type == LockType::Lock || self.lock_type
            == LockType::Pessimistic {
            return Ok(());
        }
        if bypass_locks.contains(self.ts) {
            return Ok(());
        }
        let raw_key = match key.to_raw() {
            Ok(raw) => raw,
            Err(e) => {
                return Err(Error::Codec(e));
            },
        };
        if ts == u64::MAX && bytes_eq(raw_key.as_slice(), self.primary.as_slice()) {
            return Ok(());
        }
        Err(Error::KeyIsLocked(self.into_lock_info(raw_key)))
    }
}

/// Appends the optional field of a short value to `buf`.
fn encode_short_value(buf: &mut Vec<u8>, value: &Option<Vec<u8>>)
    ensures
        final(buf)@ == old(buf)@ + short_value_bytes(option_bytes(*value)),
{
    let ghost start = buf@;
    match value {
        Some(v) => {
            buf.push(SHORT_VALUE_PREFIX);
            buf.push((v.len() % 256) as u8);
            append_bytes(buf, v.as_slice());
            assert(buf@ =~= start + short_value_bytes(Some(v@)));
        },
        None => {
            assert(buf@ =~= start + short_value_bytes(None));
        },
    }
}

/// Appends an optional numeric field to `buf`: nothing where `v` is zero.
fn encode_tagged_u64(buf: &mut Vec<u8>, tag: u8, v: u64)
    ensures
        final(buf)@ == old(buf)@ + tagged_u64_bytes(tag, v),
{
    let ghost start = buf@;
    if v > 0 {
        buf.push(tag);
        encode_u64(buf, v);
        assert(buf@ =~= start + (seq![tag] + be_u64_bytes(v)));
    } else {
        assert(buf@ =~= start + Seq::<u8>::empty());
    }
}

/// Whether a record can hold the lock as it is: the length of the primary
/// key can be written down, and the short value is no longer than the one
/// byte of its length can say.
pub open spec fn fits_record(l: LockView) -> bool {
    &&& l.primary.len() <= i64::MAX
    &&& l.short_value matches Some(v) ==> v.len() <= 255
}

/// Reading the field of a short value sets the short value and goes on with
/// what follows the field.
pub proof fn lemma_tail_short_value(v: Seq<u8>, rest: Seq<u8>, acc: LockView)
    requires
        v.len() <= 255,
    ensures
        lock_tail_parse(short_value_bytes(Some(v)) + rest, acc) == lock_tail_parse(
            rest,
            LockView { short_value: Some(v), ..acc },
        ),
{
    let s = short_value_bytes(Some(v)) + rest;
    let body = s.skip(1);
    assert(s[0] == SHORT_VALUE_PREFIX);
    assert(body[0] == v.len());
    assert(body.subrange(1, 1 + v.len() as int) =~= v);
    assert(body.skip(1 + v.len() as int) =~= rest);
}

/// Reading a numeric field that is written sets that field and goes on with
/// what follows it; one that is zero is not written and leaves all as it is.
pub proof fn lemma_tail_tagged_u64(tag: u8, v: u64, rest: Seq<u8>, acc: LockView)
    requires
        tag == FOR_UPDATE_TS_PREFIX || tag == TXN_SIZE_PREFIX || tag == MIN_COMMIT_TS_PREFIX,
    ensures
        lock_tail_parse(tagged_u64_bytes(tag, v) + rest, acc) == if v > 0 {
            lock_tail_parse(rest, with_tagged_u64(acc, tag, v))
        } else {
            lock_tail_parse(rest, acc)
        },
{
    let s = tagged_u64_bytes(tag, v) + rest;
    if v > 0 {
        lemma_be_u64_roundtrip(v, rest);
        assert(s[0] == tag);
        assert(s.skip(1) =~= be_u64_bytes(v) + rest);
        assert((be_u64_bytes(v) + rest).skip(8) =~= rest);
    } else {
        assert(s =~= rest);
    }
}

/// Reading the optional fields that `lock_tail_bytes` wrote for `l`, into a
/// lock that has the fixed fields of `l` and no optional one, gives `l`.
pub proof fn lemma_tail_roundtrip(l: LockView)
    requires
        fits_record(l),
    ensures
        lock_tail_parse(lock_tail_bytes(l), plain_lock(l.lock_type, l.primary, l.ts, l.ttl)) == Ok::<
            LockView,
            ErrorView,
        >(l),
{
    let acc0 = plain_lock(l.lock_type, l.primary, l.ts, l.ttl);
    let f = tagged_u64_bytes(FOR_UPDATE_TS_PREFIX, l.for_update_ts);
    let t = tagged_u64_bytes(TXN_SIZE_PREFIX, l.txn_size);
    let c = tagged_u64_bytes(MIN_COMMIT_TS_PREFIX, l.min_commit_ts);
    let empty = Seq::<u8>::empty();
    let acc1 = LockView { short_value: l.short_value, ..acc0 };
    assert(lock_tail_bytes(l) =~= short_value_bytes(l.short_value) + (f + (t + (c + empty))));
    match l.short_value {
        Some(v) => {
            lemma_tail_short_value(v, f + (t + (c + empty)), acc0);
        },
        None => {
            assert(short_value_bytes(l.short_value) + (f + (t + (c + empty))) =~= f + (t + (c
                + empty)));
        },
    }
    assert(lock_tail_parse(lock_tail_bytes(l), acc0) == lock_tail_parse(
        f + (t + (c + empty)),
        acc1,
    ));
    let acc2 = LockView { for_update_ts: l.for_update_ts, ..acc1 };
    lemma_tail_tagged_u64(FOR_UPDATE_TS_PREFIX, l.for_update_ts, t + (c + empty), acc1);
    assert(lock_tail_parse(f + (t + (c + empty)), acc1) == lock_tail_parse(t + (c + empty), acc2));
    let acc3 = LockView { txn_size: l.txn_size, ..acc2 };
    lemma_tail_tagged_u64(TXN_SIZE_PREFIX, l.txn_size, c + empty, acc2);
    assert(lock_tail_parse(t + (c + empty), acc2) == lock_tail_parse(c + empty, acc3));
    lemma_tail_tagged_u64(MIN_COMMIT_TS_PREFIX, l.min_commit_ts, empty, acc3);
    assert(lock_tail_parse(c + empty, acc3) == lock_tail_parse(empty, l));
}

/// Decoding undoes encoding: the record of a lock reads back as that lock,
/// whatever its kind, its primary key, its numbers and its short value, as
/// long as the record can hold it.
pub proof fn lemma_parse_to_bytes(l: LockView)
    requires
        fits_record(l),
    ensures
        lock_parse(lock_bytes(l)) == Ok::<LockView, ErrorView>(l),
{
    let s = lock_bytes(l);
    let ts = var_u64_bytes(l.ts as nat);
    let ttl = var_u64_bytes(l.ttl as nat);
    let tail = lock_tail_bytes(l);
    lemma_tag_bijection(l.lock_type, s[0]);
    assert(s[0] == lock_type_tag(l.lock_type));
    assert(s.skip(1) =~= compact_bytes(l.primary) + (ts + (ttl + tail)));
    lemma_compact_bytes_roundtrip(l.primary, ts + (ttl + tail));
    lemma_var_u64_roundtrip(l.ts, ttl + tail);
    lemma_var_u64_len(l.ttl);
    lemma_var_u64_roundtrip(l.ttl, tail);
    lemma_tail_roundtrip(l);
}

/// A record that is cut off inside the part that every lock must have (the
/// kind, the primary key, the start timestamp) does not decode.
pub proof fn lemma_parse_truncated(l: LockView, n: int)
    requires
        l.primary.len() <= i64::MAX,
        0 <= n < lock_head_bytes(l).len(),
    ensures
        lock_parse(lock_bytes(l).take(n)) is Err,
{
    let cut = lock_bytes(l).take(n);
    let primary = compact_bytes(l.primary);
    let ts = var_u64_bytes(l.ts as nat);
    if n > 0 {
        assert(cut[0] == lock_type_tag(l.lock_type));
        lemma_tag_bijection(l.lock_type, cut[0]);
        if n - 1 < primary.len() {
            assert(cut.skip(1) =~= primary.take(n - 1));
            lemma_compact_bytes_truncated(l.primary, n - 1);
        } else {
            let k = n - 1 - primary.len();
            assert(cut.skip(1) =~= primary + ts.take(k));
            lemma_compact_bytes_roundtrip(l.primary, ts.take(k));
            lemma_var_u64_len(l.ts);
            lemma_var_u64_truncated(l.ts as nat, k, 0);
        }
    }
}

/// The optional fields never read into a lock that a record cannot hold:
/// where the lock read so far fits a record, so does the lock read in the end.
pub proof fn lemma_tail_parse_fits(s: Seq<u8>, acc: LockView)
    requires
        fits_record(acc),
    ensures
        lock_tail_parse(s, acc) matches Ok(l) ==> fits_record(l),
    decreases s.len(),
{
    if s.len() > 0 {
        if s[0] == SHORT_VALUE_PREFIX {
            if let Ok((v, rest)) = short_value_parse(s.skip(1)) {
                lemma_tail_parse_fits(rest, LockView { short_value: Some(v), ..acc });
            }
        } else if s[0] == FOR_UPDATE_TS_PREFIX || s[0] == TXN_SIZE_PREFIX || s[0]
            == MIN_COMMIT_TS_PREFIX {
            if let Ok((v, rest)) = tagged_u64_parse(s.skip(1)) {
                lemma_tail_parse_fits(rest, with_tagged_u64(acc, s[0], v));
            }
        }
    }
}

/// Writing a lock that was read gives a record that reads as the same lock:
/// whatever form the first record had, the second is stable.
pub proof fn lemma_parse_is_stable(s: Seq<u8>)
    ensures
        lock_parse(s) matches Ok(l) ==> fits_record(l) && lock_parse(lock_bytes(l)) == Ok::<
            LockView,
            ErrorView,
        >(l),
{
    if let Ok(l) = lock_parse(s) {
        let lock_type = tag_lock_type(s[0])->Some_0;
        let (primary, after_primary) = compact_bytes_parse(s.skip(1))->Ok_0;
        let (ts, after_ts) = var_u64_parse(after_primary)->Ok_0;
        if after_ts.len() > 0 {
            let (ttl, tail) = var_u64_parse(after_ts)->Ok_0;
            lemma_tail_parse_fits(tail, plain_lock(lock_type, primary, ts, ttl));
        }
        lemma_parse_to_bytes(l);
    }
}

} // verus!
