pub mod bytes;
pub mod error;
pub mod key;
pub mod lock;
pub mod lock_info;
pub mod mutation;
pub mod number;
pub mod ts_set;

pub use crate::error::{CodecError, Error};
pub use crate::key::{Key, Value};
pub use crate::lock::{Lock, LockType};
pub use crate::lock_info::{LockInfo, Op};
pub use crate::mutation::Mutation;
pub use crate::ts_set::TsSet;
