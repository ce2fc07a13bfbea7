//! What holds of every state and every batch.

use crate::bytes::{in_range, lemma_lex_lt_irreflexive, lex_lt};
use crate::engine_interface::WriteOp;
use crate::error::EngineError;
use crate::model::{
    apply, apply_batch, apply_to_table, is_batch_result, is_get_multi_of, is_get_of, with_table,
    with_tables, State, TableModel,
};
use crate::table::without_range;
use vstd::prelude::*;

verus! {

/// Some operation of `ops` writes to `table`.
pub open spec fn names_table(ops: Seq<WriteOp>, table: Seq<char>) -> bool {
    exists|i: int| 0 <= i < ops.len() && (#[trigger] ops[i]).table() == table
}

/// Every operation of `ops` writes to a table of `s`.
pub open spec fn all_tables_exist(s: State, ops: Seq<WriteOp>) -> bool {
    forall|i: int| 0 <= i < ops.len() ==> s.dom().contains((#[trigger] ops[i]).table())
}

/// Table isolation, one operation: a write to one table leaves every other
/// table as it was, and creates none.
pub proof fn law_write_leaves_other_tables(s: State, op: WriteOp, other: Seq<char>)
    requires
        s.dom().contains(op.table()),
        other != op.table(),
    ensures
        apply(s, op).dom().contains(other) == s.dom().contains(other),
        apply(s, op)[other] == s[other],
{
}

/// Table isolation, whole batch: a table that no operation of the batch
/// names is left as it was, however the batch ends.
pub proof fn law_batch_leaves_other_tables(s: State, ops: Seq<WriteOp>, other: Seq<char>)
    requires
        !names_table(ops, other),
    ensures
        apply_batch(s, ops).state.dom().contains(other) == s.dom().contains(other),
        apply_batch(s, ops).state[other] == s[other],
    decreases ops.len(),
{
    if ops.len() > 0 {
        assert(ops[0].table() != other);
        if s.dom().contains(ops[0].table()) {
            let rest = ops.drop_first();
            assert(!names_table(rest, other)) by {
                if names_table(rest, other) {
                    let i = choose|i: int| 0 <= i < rest.len() && (#[trigger] rest[i]).table() == other;
                    assert(ops[i + 1].table() == other);
                }
            }
            law_batch_leaves_other_tables(apply(s, ops[0]), rest, other);
        }
    }
}

/// A batch never creates or drops a table.
pub proof fn law_batch_keeps_tables(s: State, ops: Seq<WriteOp>)
    ensures
        apply_batch(s, ops).state.dom() == s.dom(),
    decreases ops.len(),
{
    if ops.len() > 0 && s.dom().contains(ops[0].table()) {
        law_batch_keeps_tables(apply(s, ops[0]), ops.drop_first());
        assert(apply(s, ops[0]).dom() =~= s.dom());
    }
}

/// Overwrite: of two puts to one key, only the later value stays; the state
/// is the one that the later put alone would have left.
pub proof fn law_put_overwrites(
    s: State,
    table: Seq<char>,
    key: Seq<u8>,
    first: Seq<u8>,
    second: Seq<u8>,
    sync: bool,
)
    requires
        s.dom().contains(table),
    ensures
        ({
            let earlier = WriteOp::Put { table, key, value: first, sync };
            let later = WriteOp::Put { table, key, value: second, sync };
            &&& apply(apply(s, earlier), later) == apply(s, later)
            &&& apply(apply(s, earlier), later)[table].dom().contains(key)
            &&& apply(apply(s, earlier), later)[table][key] == second
        }),
{
    let earlier = WriteOp::Put { table, key, value: first, sync };
    let later = WriteOp::Put { table, key, value: second, sync };
    assert(s[table].insert(key, first).insert(key, second) =~= s[table].insert(key, second));
    assert(apply(apply(s, earlier), later) =~= apply(s, later));
}

/// Delete is idempotent: deleting a key that is absent leaves the state as
/// it was, and so a second delete of the same key changes nothing.
pub proof fn law_delete_absent_is_noop(s: State, table: Seq<char>, key: Seq<u8>, sync: bool)
    requires
        s.dom().contains(table),
    ensures
        ({
            let d = WriteOp::Delete { table, key, sync };
            &&& !s[table].dom().contains(key) ==> apply(s, d) == s
            &&& apply(apply(s, d), d) == apply(s, d)
            &&& !apply(s, d)[table].dom().contains(key)
        }),
{
    let d = WriteOp::Delete { table, key, sync };
    if !s[table].dom().contains(key) {
        assert(s[table].remove(key) =~= s[table]);
        assert(apply(s, d) =~= s);
    }
    assert(s[table].remove(key).remove(key) =~= s[table].remove(key));
    assert(apply(apply(s, d), d) =~= apply(s, d));
}

/// A batch that deletes an absent key from an existing table succeeds and
/// leaves the state as it was.
pub proof fn law_delete_absent_batch(
    s: State,
    table: Seq<char>,
    key: Seq<u8>,
    sync: bool,
    r: Result<(), EngineError>,
)
    requires
        s.dom().contains(table),
        !s[table].dom().contains(key),
        is_batch_result(apply_batch(s, seq![WriteOp::Delete { table, key, sync }]), r),
    ensures
        r is Ok,
        apply_batch(s, seq![WriteOp::Delete { table, key, sync }]).state == s,
{
    let d = WriteOp::Delete { table, key, sync };
    let ops = seq![d];
    law_delete_absent_is_noop(s, table, key, sync);
    assert(ops.drop_first().len() == 0);
    assert(apply_batch(s, ops) == apply_batch(apply(s, d), ops.drop_first()));
}

/// The range of a range delete is half-open: what it leaves are exactly the
/// keys outside `[start, end)` with their values; `start` itself goes
/// whenever the range is not empty, and `end` itself stays.
pub proof fn law_range_is_half_open(t: TableModel, start: Seq<u8>, end: Seq<u8>)
    ensures
        forall|k: Seq<u8>| #[trigger]
            without_range(t, start, end).dom().contains(k) <==> t.dom().contains(k) && !in_range(
                k,
                start,
                end,
            ),
        forall|k: Seq<u8>| #[trigger]
            without_range(t, start, end).dom().contains(k) ==> without_range(t, start, end)[k]
                == t[k],
        lex_lt(start, end) ==> !without_range(t, start, end).dom().contains(start),
        without_range(t, start, end).dom().contains(end) == t.dom().contains(end),
{
    lemma_lex_lt_irreflexive(end);
}

/// Reads of a table that does not exist fail with `TableNotFound`.
pub proof fn law_unknown_table_read(
    s: State,
    table: Seq<char>,
    key: Seq<u8>,
    keys: Seq<Seq<u8>>,
    one: Result<Option<Vec<u8>>, EngineError>,
    many: Result<Vec<Option<Vec<u8>>>, EngineError>,
)
    requires
        !s.dom().contains(table),
    ensures
        is_get_of(s, table, key, one) ==> (one matches Err(e) && e.is_table_not_found(table)),
        is_get_multi_of(s, table, keys, many) ==> (many matches Err(e) && e.is_table_not_found(
            table,
        )),
{
}

/// A batch fails exactly when it names a table that does not exist; it then
/// reports the first such table, and stops there.
pub proof fn law_unknown_table_write(s: State, ops: Seq<WriteOp>)
    ensures
        apply_batch(s, ops).missing is None <==> all_tables_exist(s, ops),
        apply_batch(s, ops).missing matches Some(name) ==> !s.dom().contains(name) && exists|
            i: int,
        |
            0 <= i < ops.len() && (#[trigger] ops[i]).table() == name && all_tables_exist(
                s,
                ops.take(i),
            ),
    decreases ops.len(),
{
    if ops.len() == 0 {
    } else if !s.dom().contains(ops[0].table()) {
        assert(all_tables_exist(s, ops.take(0)));
    } else {
        let next = apply(s, ops[0]);
        let rest = ops.drop_first();
        law_unknown_table_write(next, rest);
        assert(next.dom() =~= s.dom());
        if all_tables_exist(next, rest) {
            assert forall|i: int| 0 <= i < ops.len() implies s.dom().contains(
                (#[trigger] ops[i]).table(),
            ) by {
                if i > 0 {
                    assert(rest[i - 1] == ops[i]);
                }
            }
        }
        if all_tables_exist(s, ops) {
            assert forall|i: int| 0 <= i < rest.len() implies next.dom().contains(
                (#[trigger] rest[i]).table(),
            ) by {
                assert(rest[i] == ops[i + 1]);
            }
        }
        if apply_batch(s, ops).missing is Some {
            let name = apply_batch(s, ops).missing->0;
            let i = choose|i: int|
                0 <= i < rest.len() && (#[trigger] rest[i]).table() == name && all_tables_exist(
                    next,
                    rest.take(i),
                );
            assert(ops[i + 1] == rest[i]);
            assert forall|j: int| 0 <= j < ops.take(i + 1).len() implies s.dom().contains(
                (#[trigger] ops.take(i + 1)[j]).table(),
            ) by {
                if j > 0 {
                    assert(ops.take(i + 1)[j] == rest.take(i)[j - 1]);
                }
            }
        }
    }
}

/// One write to a table that does not exist fails with `TableNotFound` and
/// changes nothing, whatever kind of write it is.
pub proof fn law_unknown_table_single_write(s: State, op: WriteOp, r: Result<(), EngineError>)
    requires
        !s.dom().contains(op.table()),
        is_batch_result(apply_batch(s, seq![op]), r),
    ensures
        r matches Err(e) && e.is_table_not_found(op.table()),
        apply_batch(s, seq![op]).state == s,
{
}

/// The tables of a fresh engine are exactly the names it was made with.
pub proof fn law_tables_are_those_created(names: Seq<Seq<char>>, n: int, table: Seq<char>)
    requires
        0 <= n <= names.len(),
    ensures
        with_tables(Map::empty(), names, n).dom().contains(table) <==> exists|i: int|
            0 <= i < n && #[trigger] names[i] == table,
        with_tables(Map::empty(), names, n).dom().contains(table) ==> with_tables(
            Map::empty(),
            names,
            n,
        )[table] == Map::<Seq<u8>, Seq<u8>>::empty(),
    decreases n,
{
    if n > 0 {
        law_tables_are_those_created(names, n - 1, table);
        if with_tables(Map::empty(), names, n).dom().contains(table) {
            if names[n - 1] != table {
                let i = choose|i: int| 0 <= i < n - 1 && #[trigger] names[i] == table;
                assert(names[i] == table);
            }
        }
    }
}

/// Creating a table is idempotent and leaves every table that exists, with
/// its contents, as it was.
pub proof fn law_create_table_idempotent(s: State, name: Seq<char>, other: Seq<char>)
    ensures
        with_table(s, name).dom() == s.dom().insert(name),
        with_table(with_table(s, name), name) == with_table(s, name),
        s.dom().contains(other) ==> with_table(s, name)[other] == s[other],
        !s.dom().contains(name) ==> with_table(s, name)[name] == Map::<Seq<u8>, Seq<u8>>::empty(),
{
    assert(with_table(s, name).dom() =~= s.dom().insert(name));
}

/// A batch applies its operations in order: it ends as its first operation
/// followed by the batch of the rest.
pub proof fn law_batch_in_order(s: State, first: WriteOp, rest: Seq<WriteOp>)
    requires
        s.dom().contains(first.table()),
    ensures
        apply_batch(s, seq![first] + rest) == apply_batch(apply(s, first), rest),
{
    let ops = seq![first] + rest;
    assert(ops[0] == first);
    assert(ops.drop_first() =~= rest);
}

/// Batch ordering: two puts to one key in one batch leave the second value.
pub proof fn law_batch_put_put(
    s: State,
    table: Seq<char>,
    key: Seq<u8>,
    first: Seq<u8>,
    second: Seq<u8>,
    sync: bool,
)
    requires
        s.dom().contains(table),
    ensures
        ({
            let end = apply_batch(
                s,
                seq![
                    WriteOp::Put { table, key, value: first, sync },
                    WriteOp::Put { table, key, value: second, sync },
                ],
            );
            &&& end.missing is None
            &&& end.state[table].dom().contains(key)
            &&& end.state[table][key] == second
        }),
{
    let earlier = WriteOp::Put { table, key, value: first, sync };
    let later = WriteOp::Put { table, key, value: second, sync };
    lemma_batch_of_two(s, earlier, later);
}

/// Batch ordering: a put followed by a delete of the same key in one batch
/// leaves the key absent.
pub proof fn law_batch_put_delete(
    s: State,
    table: Seq<char>,
    key: Seq<u8>,
    value: Seq<u8>,
    sync: bool,
)
    requires
        s.dom().contains(table),
    ensures
        ({
            let end = apply_batch(
                s,
                seq![WriteOp::Put { table, key, value, sync }, WriteOp::Delete { table, key, sync }],
            );
            &&& end.missing is None
            &&& !end.state[table].dom().contains(key)
        }),
{
    let p = WriteOp::Put { table, key, value, sync };
    let d = WriteOp::Delete { table, key, sync };
    lemma_batch_of_two(s, p, d);
}

proof fn lemma_batch_of_two(s: State, a: WriteOp, b: WriteOp)
    requires
        s.dom().contains(a.table()),
        a.table() == b.table(),
    ensures
        apply_batch(s, seq![a, b]).missing is None,
        apply_batch(s, seq![a, b]).state == apply(apply(s, a), b),
{
    let ops = seq![a, b];
    let tail = ops.drop_first();
    assert(tail[0] == b);
    assert(tail.drop_first().len() == 0);
    assert(apply_batch(apply(s, a), tail) == apply_batch(apply(apply(s, a), b), tail.drop_first()));
}

/// The operation with its sync flag cleared.
pub open spec fn without_sync(op: WriteOp) -> WriteOp {
    match op {
        WriteOp::Put { table, key, value, .. } => WriteOp::Put { table, key, value, sync: false },
        WriteOp::Delete { table, key, .. } => WriteOp::Delete { table, key, sync: false },
        WriteOp::DeleteRange { table, start_key, end_key, .. } => WriteOp::DeleteRange {
            table,
            start_key,
            end_key,
            sync: false,
        },
    }
}

/// The sync flag has no part in what an operation does to an engine in
/// memory: two batches that differ in sync flags alone end alike.
pub proof fn law_sync_is_ignored(s: State, a: Seq<WriteOp>, b: Seq<WriteOp>)
    requires
        a.len() == b.len(),
        forall|i: int| 0 <= i < a.len() ==> without_sync(#[trigger] a[i]) == without_sync(b[i]),
    ensures
        apply_batch(s, a) == apply_batch(s, b),
    decreases a.len(),
{
    if a.len() > 0 {
        assert(without_sync(a[0]) == without_sync(b[0]));
        assert(a[0].table() == b[0].table());
        if s.dom().contains(a[0].table()) {
            assert(apply_to_table(s[a[0].table()], a[0]) == apply_to_table(s[b[0].table()], b[0]));
            assert forall|i: int| 0 <= i < a.drop_first().len() implies without_sync(
                #[trigger] a.drop_first()[i],
            ) == without_sync(b.drop_first()[i]) by {
                assert(without_sync(a[i + 1]) == without_sync(b[i + 1]));
            }
            law_sync_is_ignored(apply(s, a[0]), a.drop_first(), b.drop_first());
        }
    }
}

} // verus!
