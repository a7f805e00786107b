use crate::lock_info::{LockInfo, LockInfoView};
use vstd::prelude::*;

verus! {

/// Why a byte sequence could not be decoded.
#[derive(Debug, Clone, Copy, PartialEq, Eq, Structural)]
pub enum CodecError {
    /// The input ended in the middle of a field.
    UnexpectedEof,
    /// A variable-length integer does not fit in 64 bits.
    VarintOverflow,
    /// The padding of an encoded key is malformed.
    KeyPadding,
}

/// What can go wrong when a lock is decoded or checked.
#[derive(Debug, Clone, PartialEq, Eq)]
pub enum Error {
    /// The bytes are empty or do not start with the tag of a lock kind.
    BadFormatLock,
    /// A field of the record, or the key, could not be decoded.
    Codec(CodecError),
    /// The optional fields hold an unknown tag, or a short value that is
    /// longer than what is left. The record is corrupt, not merely cut short.
    CorruptLockExtension,
    /// A lock stands in the way of the read.
    KeyIsLocked(LockInfo),
}

/// The mathematical value of an `Error`.
pub enum ErrorView {
    BadFormatLock,
    Codec(CodecError),
    CorruptLockExtension,
    KeyIsLocked(LockInfoView),
}

impl View for Error {
    type V = ErrorView;

    open spec fn view(&self) -> ErrorView {
        match self {
            Error::BadFormatLock => ErrorView::BadFormatLock,
            Error::Codec(e) => ErrorView::Codec(*e),
            Error::CorruptLockExtension => ErrorView::CorruptLockExtension,
            Error::KeyIsLocked(info) => ErrorView::KeyIsLocked(info@),
        }
    }
}

} // verus!
