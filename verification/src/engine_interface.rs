//! The vocabulary of a storage engine: write operations and the operations
//! every engine offers.

use crate::error::EngineError;
use crate::text::utf8_lossy;
use vstd::prelude::*;

verus! {

/// A write operation as a mathematical value.
pub enum WriteOp {
    Put { table: Seq<char>, key: Seq<u8>, value: Seq<u8>, sync: bool },
    Delete { table: Seq<char>, key: Seq<u8>, sync: bool },
    DeleteRange { table: Seq<char>, start_key: Seq<u8>, end_key: Seq<u8>, sync: bool },
}

impl WriteOp {
    /// The table the operation writes to.
    pub open spec fn table(self) -> Seq<char> {
        match self {
            WriteOp::Put { table, .. } => table,
            WriteOp::Delete { table, .. } => table,
            WriteOp::DeleteRange { table, .. } => table,
        }
    }
}

/// Write operation
#[non_exhaustive]
#[derive(Debug)]
pub enum WriteOperation<'a> {
    /// `Put` operation
    Put(Put<'a>),
    /// `Delete` operation
    Delete(Delete<'a>),
    /// `DeleteRange` operation
    DeleteRange(DeleteRange<'a>),
}

/// `Put` operation: store a value under a key.
#[derive(Debug)]
pub struct Put<'a> {
    /// The table name
    pub table: &'a str,
    /// The key
    pub key: Vec<u8>,
    /// The value
    pub value: Vec<u8>,
    /// If true, the write is flushed to the storage medium before it counts
    /// as complete. An engine without such a medium may ignore it.
    pub sync: bool,
}

/// `Delete` operation: remove one key.
#[derive(Debug)]
pub struct Delete<'a> {
    /// The table name
    pub table: &'a str,
    /// The key
    pub key: &'a [u8],
    /// If true, the write is flushed to the storage medium before it counts
    /// as complete. An engine without such a medium may ignore it.
    pub sync: bool,
}

/// `DeleteRange` operation: remove the keys in `[start_key, end_key)`.
#[derive(Debug)]
pub struct DeleteRange<'a> {
    /// The table name
    pub table: &'a str,
    /// The start key, which is itself removed
    pub start_key: &'a [u8],
    /// The end key, which itself stays
    pub end_key: &'a [u8],
    /// If true, the write is flushed to the storage medium before it counts
    /// as complete. An engine without such a medium may ignore it.
    pub sync: bool,
}

impl<'a> View for Put<'a> {
    type V = WriteOp;

    open spec fn view(&self) -> WriteOp {
        WriteOp::Put { table: self.table@, key: self.key@, value: self.value@, sync: self.sync }
    }
}

impl<'a> View for Delete<'a> {
    type V = WriteOp;

    open spec fn view(&self) -> WriteOp {
        WriteOp::Delete { table: self.table@, key: self.key@, sync: self.sync }
    }
}

impl<'a> View for DeleteRange<'a> {
    type V = WriteOp;

    open spec fn view(&self) -> WriteOp {
        WriteOp::DeleteRange {
            table: self.table@,
            start_key: self.start_key@,
            end_key: self.end_key@,
            sync: self.sync,
        }
    }
}

impl<'a> View for WriteOperation<'a> {
    type V = WriteOp;

    open spec fn view(&self) -> WriteOp {
        match self {
            WriteOperation::Put(p) => p@,
            WriteOperation::Delete(d) => d@,
            WriteOperation::DeleteRange(r) => r@,
        }
    }
}

impl<'a> Put<'a> {
    /// Create a new `Put` operation
    #[inline]
    #[must_use]
    pub fn new(table: &'a str, key: Vec<u8>, value: Vec<u8>, sync: bool) -> (r: Self)
        ensures
            r@ == (WriteOp::Put { table: table@, key: key@, value: value@, sync }),
            r.table == table,
            r.key == key,
            r.value == value,
            r.sync == sync,
    {
        Self { table, key, value, sync }
    }
}

impl<'a> Delete<'a> {
    /// Create a new `Delete` operation
    #[inline]
    #[must_use]
    pub fn new(table: &'a str, key: &'a [u8], sync: bool) -> (r: Self)
        ensures
            r@ == (WriteOp::Delete { table: table@, key: key@, sync }),
            r.table == table,
            r.key == key,
            r.sync == sync,
    {
        Self { table, key, sync }
    }
}

impl<'a> DeleteRange<'a> {
    /// Create a new `DeleteRange` operation
    #[inline]
    #[must_use]
    pub fn new(table: &'a str, start_key: &'a [u8], end_key: &'a [u8], sync: bool) -> (r: Self)
        ensures
            r@ == (WriteOp::DeleteRange {
                table: table@,
                start_key: start_key@,
                end_key: end_key@,
                sync,
            }),
            r.table == table,
            r.start_key == start_key,
            r.end_key == end_key,
            r.sync == sync,
    {
        Self { table, start_key, end_key, sync }
    }
}

/// What every storage engine offers. An engine is shared between threads,
/// so each operation takes `&self`; what it finds in the engine is whatever
/// the operations before it, on any handle, have left there.
pub trait StorageEngine: Send + Sync + 'static + std::fmt::Debug {
    /// Creates the table `table`. Creating a table that exists is no error
    /// and leaves its contents as they are.
    fn create_table(&self, table: &str) -> (r: Result<(), EngineError>)
        ensures
            !(r matches Err(EngineError::TableNotFound(_))),
            !(r matches Err(EngineError::KeyNotFound(_))),
    ;

    /// The value stored under `key` in `table`. A read that succeeds always
    /// holds a value: a key that is absent is reported as `KeyNotFound`, a
    /// table that is absent as `TableNotFound`.
    fn get(&self, table: &str, key: &[u8]) -> (r: Result<Option<Vec<u8>>, EngineError>)
        ensures
            r matches Ok(found) ==> found is Some,
            r matches Err(EngineError::TableNotFound(name)) ==> name@ == table@,
            r matches Err(EngineError::KeyNotFound(shown)) ==> shown@ == utf8_lossy(key@),
    ;

    /// The values stored under `keys` in `table`, one slot per key in the
    /// order given, `None` where a key is absent. Never `KeyNotFound`.
    fn get_multi(&self, table: &str, keys: &[Vec<u8>]) -> (r: Result<
        Vec<Option<Vec<u8>>>,
        EngineError,
    >)
        ensures
            r matches Ok(values) ==> values.len() == keys.len(),
            r matches Err(EngineError::TableNotFound(name)) ==> name@ == table@,
            !(r matches Err(EngineError::KeyNotFound(_))),
    ;

    /// Applies a batch of write operations in the order given.
    fn write_batch(&self, operations: Vec<WriteOperation<'_>>) -> (r: Result<(), EngineError>)
        ensures
            r matches Err(EngineError::TableNotFound(name)) ==> exists|i: int|
                0 <= i < operations.len() && (#[trigger] operations[i])@.table() == name@,
            !(r matches Err(EngineError::KeyNotFound(_))),
    ;
}

} // verus!
