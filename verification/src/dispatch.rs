//! The declared-but-unimplemented part of the operation surface. Each of
//! these entry points is part of the call interface, and each returns the
//! stable `NotImplemented` signal rather than silently succeeding or
//! crashing: callers branch to a fallback path on exactly this error.

use vstd::prelude::*;

use crate::codec::HostTerm;
use crate::errors::KvError;
use crate::registry::TxnHandle;

verus! {

/// Transactional read with positional options; declared, not yet backed.
pub fn transaction_get_3(_txn: TxnHandle, _key: &Vec<u8>, _opts: &HostTerm) -> (r: Result<
    Option<Vec<u8>>,
    KvError,
>)
    ensures
        r matches Err(e) && e is NotImplemented,
{
    Err(KvError::NotImplemented)
}

/// Transactional read with positional options and a column family;
/// declared, not yet backed.
pub fn transaction_get_4(_txn: TxnHandle, _key: &Vec<u8>, _opts: &HostTerm, _cf: &Vec<u8>) -> (r:
    Result<Option<Vec<u8>>, KvError>)
    ensures
        r matches Err(e) && e is NotImplemented,
{
    Err(KvError::NotImplemented)
}

/// Read with positional options; declared, not yet backed.
pub fn get_3(_key: &Vec<u8>, _opts: &HostTerm) -> (r: Result<Option<Vec<u8>>, KvError>)
    ensures
        r matches Err(e) && e is NotImplemented,
{
    Err(KvError::NotImplemented)
}

/// Read with positional options and a column family; declared, not yet
/// backed.
pub fn get_4(_key: &Vec<u8>, _opts: &HostTerm, _cf: &Vec<u8>) -> (r: Result<
    Option<Vec<u8>>,
    KvError,
>)
    ensures
        r matches Err(e) && e is NotImplemented,
{
    Err(KvError::NotImplemented)
}

/// Transactional positional write; declared, not yet backed.
pub fn transaction_put_3(_txn: TxnHandle, _key: &Vec<u8>, _value: &Vec<u8>) -> (r: Result<
    bool,
    KvError,
>)
    ensures
        r matches Err(e) && e is NotImplemented,
{
    Err(KvError::NotImplemented)
}

/// Transactional positional write with options; declared, not yet backed.
pub fn transaction_put_4(_txn: TxnHandle, _key: &Vec<u8>, _value: &Vec<u8>, _opts: &HostTerm) -> (r:
    Result<bool, KvError>)
    ensures
        r matches Err(e) && e is NotImplemented,
{
    Err(KvError::NotImplemented)
}

/// Write with positional options; declared, not yet backed.
pub fn put_4(_key: &Vec<u8>, _value: &Vec<u8>, _opts: &HostTerm) -> (r: Result<bool, KvError>)
    ensures
        r matches Err(e) && e is NotImplemented,
{
    Err(KvError::NotImplemented)
}

/// Write with positional options and a column family; declared, not yet
/// backed.
pub fn put_5(_key: &Vec<u8>, _value: &Vec<u8>, _opts: &HostTerm, _cf: &Vec<u8>) -> (r: Result<
    bool,
    KvError,
>)
    ensures
        r matches Err(e) && e is NotImplemented,
{
    Err(KvError::NotImplemented)
}

/// Transactional positional deletion; declared, not yet backed.
pub fn transaction_delete_2(_txn: TxnHandle, _key: &Vec<u8>) -> (r: Result<bool, KvError>)
    ensures
        r matches Err(e) && e is NotImplemented,
{
    Err(KvError::NotImplemented)
}

/// Transactional positional deletion with options; declared, not yet
/// backed.
pub fn transaction_delete_3(_txn: TxnHandle, _key: &Vec<u8>, _opts: &HostTerm) -> (r: Result<
    bool,
    KvError,
>)
    ensures
        r matches Err(e) && e is NotImplemented,
{
    Err(KvError::NotImplemented)
}

/// Deletion with positional options; declared, not yet backed.
pub fn delete_3(_key: &Vec<u8>, _opts: &HostTerm) -> (r: Result<bool, KvError>)
    ensures
        r matches Err(e) && e is NotImplemented,
{
    Err(KvError::NotImplemented)
}

/// Deletion with positional options and a column family; declared, not yet
/// backed.
pub fn delete_4(_key: &Vec<u8>, _opts: &HostTerm, _cf: &Vec<u8>) -> (r: Result<bool, KvError>)
    ensures
        r matches Err(e) && e is NotImplemented,
{
    Err(KvError::NotImplemented)
}

/// Cursor over a transaction's view; declared, not yet backed.
pub fn transaction_iterator_2(_txn: TxnHandle) -> (r: Result<crate::registry::IterHandle, KvError>)
    ensures
        r matches Err(e) && e is NotImplemented,
{
    Err(KvError::NotImplemented)
}

/// Cursor over a transaction's view with options; declared, not yet backed.
pub fn transaction_iterator_3(_txn: TxnHandle, _opts: &HostTerm) -> (r: Result<
    crate::registry::IterHandle,
    KvError,
>)
    ensures
        r matches Err(e) && e is NotImplemented,
{
    Err(KvError::NotImplemented)
}

/// Flush to stable storage; declared, not yet backed.
pub fn flush_3(_opts: &HostTerm, _wait: bool) -> (r: Result<bool, KvError>)
    ensures
        r matches Err(e) && e is NotImplemented,
{
    Err(KvError::NotImplemented)
}

/// Range compaction; declared, not yet backed.
pub fn compact_range_5(_start: &HostTerm, _end: &HostTerm, _opts: &HostTerm, _cf: &Vec<u8>, _output_level: i32) -> (r: Result<bool, KvError>)
    ensures
        r matches Err(e) && e is NotImplemented,
{
    Err(KvError::NotImplemented)
}

} // verus!
