//! An engine that keeps its tables in memory, behind one reader-writer lock.

use crate::engine_interface::{StorageEngine, WriteOperation};
use crate::error::EngineError;
use crate::laws::law_unknown_table_write;
use crate::model::{
    apply_batch, is_batch_result, is_get_multi_of, is_get_of, ops_view, with_tables, State,
};
use crate::registry::{names_view, TableRegistry};
use std::sync::Arc;
use vstd::prelude::*;

verus! {

/// `lock_api::RwLock`, the lock behind `parking_lot::RwLock`.
#[verifier::external_type_specification]
#[verifier::external_body]
#[verifier::reject_recursive_types(R)]
#[verifier::reject_recursive_types(T)]
pub struct ExRwLock<R, T: ?Sized>(parking_lot::lock_api::RwLock<R, T>);

/// `parking_lot::RawRwLock`, the lock's raw state.
#[verifier::external_type_specification]
#[verifier::external_body]
pub struct ExRawRwLock(parking_lot::RawRwLock);

/// Shared access to the registry: a `parking_lot::RwLockReadGuard`, which
/// gives the access up when it is dropped. The guard's type is bounded by a
/// trait of `lock_api` that Verus knows nothing of, so the guard is kept in a
/// field that Verus does not look into.
#[verifier::external_body]
struct ReadAccess<'a> {
    guard: parking_lot::RwLockReadGuard<'a, TableRegistry>,
}

/// Exclusive access to the registry: a `parking_lot::RwLockWriteGuard`,
/// which gives the access up when it is dropped. Kept in a field that Verus
/// does not look into, for the same reason.
#[verifier::external_body]
struct WriteAccess<'a> {
    guard: parking_lot::RwLockWriteGuard<'a, TableRegistry>,
}

/// The state that a lock was made to guard: what `RwLock::new` was given.
/// This is a fact of the lock's making, which no write changes; it says
/// nothing of what the lock guards at any later time.
pub uninterp spec fn made_with(lock: parking_lot::RwLock<TableRegistry>) -> State;

/// Calls `RwLock::new`: an unlocked lock that guards `registry`. The one
/// claim is that the lock was made with `registry`. What the lock guards
/// later can change between any two calls, and nothing is claimed of it.
#[verifier::external_body]
fn new_lock(registry: TableRegistry) -> (lock: parking_lot::RwLock<TableRegistry>)
    ensures
        made_with(lock) == registry@,
{
    parking_lot::RwLock::new(registry)
}

/// Calls `RwLock::read`: blocks until shared access is granted. Nothing is
/// claimed of what the registry then holds.
#[verifier::external_body]
fn lock_shared<'a>(lock: &'a parking_lot::RwLock<TableRegistry>) -> (access: ReadAccess<'a>) {
    ReadAccess { guard: lock.read() }
}

/// Calls `RwLock::write`: blocks until exclusive access is granted. Nothing
/// is claimed of what the registry then holds.
#[verifier::external_body]
fn lock_exclusive<'a>(lock: &'a parking_lot::RwLock<TableRegistry>) -> (access: WriteAccess<'a>) {
    WriteAccess { guard: lock.write() }
}

/// Calls `deref` on the read guard: the registry it guards. Nothing is
/// claimed of what the registry holds.
#[verifier::external_body]
fn guarded<'a, 'b>(access: &'a ReadAccess<'b>) -> (registry: &'a TableRegistry) {
    std::ops::Deref::deref(&access.guard)
}

/// Calls `deref_mut` on the write guard: the registry it guards, to be
/// changed in place. Nothing is claimed of what the registry holds.
#[verifier::external_body]
fn guarded_mut<'a, 'b>(access: &'a mut WriteAccess<'b>) -> (registry: &'a mut TableRegistry) {
    std::ops::DerefMut::deref_mut(&mut access.guard)
}

/// A storage engine in memory. Clones are handles to the same tables; all of
/// them share one lock, held for the whole of each operation.
#[derive(Clone, Debug)]
pub struct MemoryEngine {
    inner: Arc<parking_lot::RwLock<TableRegistry>>,
}

impl MemoryEngine {
    /// The state the engine was made with: its tables before the first
    /// operation on any of its handles.
    pub closed spec fn initial_state(&self) -> State {
        made_with(*self.inner)
    }

    /// An engine that holds an empty table for each of `tables`, and nothing
    /// else. Never fails.
    #[inline]
    pub fn new(tables: &[&'static str]) -> (r: Result<Self, EngineError>)
        ensures
            r matches Ok(engine) && engine.initial_state() == with_tables(
                Map::empty(),
                names_view(tables@),
                tables.len() as int,
            ),
    {
        let registry = TableRegistry::with_tables(tables);
        Ok(MemoryEngine { inner: Arc::new(new_lock(registry)) })
    }
}

impl Default for MemoryEngine {
    /// An engine without tables.
    fn default() -> (r: Self)
        ensures
            r.initial_state() == Map::<Seq<char>, Map<Seq<u8>, Seq<u8>>>::empty(),
    {
        MemoryEngine { inner: Arc::new(new_lock(TableRegistry::new())) }
    }
}

impl StorageEngine for MemoryEngine {
    /// Creates the table under the exclusive lock. Always succeeds.
    #[inline]
    fn create_table(&self, table: &str) -> (r: Result<(), EngineError>)
        ensures
            r is Ok,
    {
        let mut access = lock_exclusive(&self.inner);
        let registry = guarded_mut(&mut access);
        registry.create_table(table);
        Ok(())
    }

    /// Reads under the shared lock: the result is the point read of some
    /// state of the engine.
    #[inline]
    fn get(&self, table: &str, key: &[u8]) -> (r: Result<Option<Vec<u8>>, EngineError>)
        ensures
            exists|s: State| is_get_of(s, table@, key@, r),
    {
        let access = lock_shared(&self.inner);
        let registry = guarded(&access);
        let r = registry.get(table, key);
        assert(is_get_of(registry@, table@, key@, r));
        r
    }

    /// Reads under the shared lock: the result is the batched read of some
    /// state of the engine, all slots from the same state.
    #[inline]
    fn get_multi(&self, table: &str, keys: &[Vec<u8>]) -> (r: Result<
        Vec<Option<Vec<u8>>>,
        EngineError,
    >)
        ensures
            exists|s: State| is_get_multi_of(s, table@, keys.deep_view(), r),
    {
        let access = lock_shared(&self.inner);
        let registry = guarded(&access);
        let r = registry.get_multi(table, keys);
        assert(is_get_multi_of(registry@, table@, keys.deep_view(), r));
        assert(r matches Ok(values) ==> values.deep_view().len() == values.len());
        r
    }

    /// Writes under the exclusive lock, held for the whole batch: the result
    /// is that of the batch applied to some state of the engine.
    #[inline]
    fn write_batch(&self, operations: Vec<WriteOperation<'_>>) -> (r: Result<(), EngineError>)
        ensures
            exists|s: State| is_batch_result(apply_batch(s, ops_view(operations@)), r),
    {
        let mut access = lock_exclusive(&self.inner);
        let registry = guarded_mut(&mut access);
        let ghost before = registry@;
        let r = registry.write_batch(operations);
        assert(is_batch_result(apply_batch(before, ops_view(operations@)), r));
        proof {
            law_unknown_table_write(before, ops_view(operations@));
            let all = ops_view(operations@);
            if let Some(name) = apply_batch(before, all).missing {
                let i = choose|i: int| 0 <= i < all.len() && (#[trigger] all[i]).table() == name;
                assert(operations[i]@.table() == name);
            }
        }
        r
    }
}

} // verus!
