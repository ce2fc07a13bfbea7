//! The engine as mathematics: what a state is, and what each operation
//! makes of it.

use crate::engine_interface::WriteOp;
use crate::error::EngineError;
use crate::table::without_range;
use crate::text::utf8_lossy;
use vstd::prelude::*;

verus! {

/// The contents of one table.
pub type TableModel = Map<Seq<u8>, Seq<u8>>;

/// The contents of an engine: its tables by name.
pub type State = Map<Seq<char>, TableModel>;

/// The state with an empty table `name` added, unless it exists already.
pub open spec fn with_table(s: State, name: Seq<char>) -> State {
    if s.dom().contains(name) {
        s
    } else {
        s.insert(name, Map::empty())
    }
}

/// The state with the tables `names[0..n]` added in order.
pub open spec fn with_tables(s: State, names: Seq<Seq<char>>, n: int) -> State
    decreases n,
{
    if n <= 0 {
        s
    } else {
        with_table(with_tables(s, names, n - 1), names[n - 1])
    }
}

/// What one operation makes of the table it writes to.
pub open spec fn apply_to_table(t: TableModel, op: WriteOp) -> TableModel {
    match op {
        WriteOp::Put { key, value, .. } => t.insert(key, value),
        WriteOp::Delete { key, .. } => t.remove(key),
        WriteOp::DeleteRange { start_key, end_key, .. } => without_range(t, start_key, end_key),
    }
}

/// What one operation makes of a state in which its table exists.
pub open spec fn apply(s: State, op: WriteOp) -> State
    recommends
        s.dom().contains(op.table()),
{
    s.insert(op.table(), apply_to_table(s[op.table()], op))
}

/// How a batch ends: the state it leaves, and the table whose absence
/// stopped it, if one did.
pub struct BatchEnd {
    pub state: State,
    pub missing: Option<Seq<char>>,
}

/// Applies `ops` in order. The first operation on a table that does not exist
/// stops the batch; what was applied before it stays applied.
pub open spec fn apply_batch(s: State, ops: Seq<WriteOp>) -> BatchEnd
    decreases ops.len(),
{
    if ops.len() == 0 {
        BatchEnd { state: s, missing: None }
    } else if !s.dom().contains(ops[0].table()) {
        BatchEnd { state: s, missing: Some(ops[0].table()) }
    } else {
        apply_batch(apply(s, ops[0]), ops.drop_first())
    }
}

/// `r` is what a point read of `key` in `table` returns in state `s`: the
/// value, or the error that names what is missing.
pub open spec fn is_get_of(
    s: State,
    table: Seq<char>,
    key: Seq<u8>,
    r: Result<Option<Vec<u8>>, EngineError>,
) -> bool {
    if !s.dom().contains(table) {
        r matches Err(e) && e.is_table_not_found(table)
    } else if !s[table].dom().contains(key) {
        r matches Err(e) && e.is_key_not_found(utf8_lossy(key))
    } else {
        r matches Ok(Some(v)) && v@ == s[table][key]
    }
}

/// One slot per key, in order: the value, or `None` where the key is absent.
pub open spec fn lookup_all(t: TableModel, keys: Seq<Seq<u8>>) -> Seq<Option<Seq<u8>>> {
    Seq::new(
        keys.len(),
        |i: int|
            if t.dom().contains(keys[i]) {
                Some(t[keys[i]])
            } else {
                None
            },
    )
}

/// `r` is what a batched read of `keys` in `table` returns in state `s`.
pub open spec fn is_get_multi_of(
    s: State,
    table: Seq<char>,
    keys: Seq<Seq<u8>>,
    r: Result<Vec<Option<Vec<u8>>>, EngineError>,
) -> bool {
    if !s.dom().contains(table) {
        r matches Err(e) && e.is_table_not_found(table)
    } else {
        r matches Ok(values) && values.deep_view() == lookup_all(s[table], keys)
    }
}

/// `r` is what a batch reports when it ends as `end`.
pub open spec fn is_batch_result(end: BatchEnd, r: Result<(), EngineError>) -> bool {
    match end.missing {
        None => r is Ok,
        Some(name) => r matches Err(e) && e.is_table_not_found(name),
    }
}

/// The operations of a batch as mathematical values.
pub open spec fn ops_view(ops: Seq<crate::engine_interface::WriteOperation<'_>>) -> Seq<WriteOp> {
    Seq::new(ops.len(), |i: int| ops[i]@)
}

} // verus!
