use vstd::prelude::*;

verus! {

/// The kind of write that a reported lock stands for.
#[derive(Debug, Clone, Copy, PartialEq, Eq, Structural)]
pub enum Op {
    Put,
    Del,
    Lock,
    PessimisticLock,
}

/// What a reader is told about a lock that blocks it.
#[derive(Debug, Clone, PartialEq, Eq)]
pub struct LockInfo {
    pub primary_lock: Vec<u8>,
    pub lock_version: u64,
    pub key: Vec<u8>,
    pub lock_ttl: u64,
    pub txn_size: u64,
    pub lock_type: Op,
}

/// The mathematical value of a `LockInfo`.
pub struct LockInfoView {
    pub primary_lock: Seq<u8>,
    pub lock_version: u64,
    pub key: Seq<u8>,
    pub lock_ttl: u64,
    pub txn_size: u64,
    pub lock_type: Op,
}

impl View for LockInfo {
    type V = LockInfoView;

    open spec fn view(&self) -> LockInfoView {
        LockInfoView {
            primary_lock: self.primary_lock@,
            lock_version: self.lock_version,
            key: self.key@,
            lock_ttl: self.lock_ttl,
            txn_size: self.txn_size,
            lock_type: self.lock_type,
        }
    }
}

} // verus!
