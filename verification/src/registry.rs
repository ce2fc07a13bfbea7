//! The table registry: every table of an engine, by name.

use crate::engine_interface::WriteOperation;
use crate::error::EngineError;
use crate::model::{
    apply, apply_batch, is_batch_result, is_get_multi_of, is_get_of, lookup_all, ops_view,
    with_table, with_tables, State,
};
use crate::table::MemoryTable;
use crate::text::{lossy_text, str_eq};
use vstd::prelude::*;

verus! {

/// A table together with its name.
#[derive(Debug)]
struct NamedTable {
    name: String,
    table: MemoryTable,
}

/// Some table of `s` is called `name`.
spec fn has_name(s: Seq<NamedTable>, name: Seq<char>) -> bool {
    exists|i: int| 0 <= i < s.len() && (#[trigger] s[i]).name@ == name
}

/// The position of the table called `name`.
spec fn slot_of(s: Seq<NamedTable>, name: Seq<char>) -> int {
    choose|i: int| 0 <= i < s.len() && (#[trigger] s[i]).name@ == name
}

/// No two tables share a name.
spec fn distinct_names(s: Seq<NamedTable>) -> bool {
    forall|i: int, j: int|
        0 <= i < j < s.len() ==> (#[trigger] s[i]).name@ != (#[trigger] s[j]).name@
}

/// The state that a list of named tables stands for.
spec fn tables_state(s: Seq<NamedTable>) -> State {
    Map::new(|name: Seq<char>| has_name(s, name), |name: Seq<char>| s[slot_of(s, name)].table@)
}

/// With distinct names, the table at position `i` is the one the state holds
/// under its name.
proof fn lemma_table_in_state(s: Seq<NamedTable>, i: int)
    requires
        distinct_names(s),
        0 <= i < s.len(),
    ensures
        tables_state(s).dom().contains(s[i].name@),
        tables_state(s)[s[i].name@] == s[i].table@,
{
    let name = s[i].name@;
    assert(has_name(s, name));
    let j = slot_of(s, name);
    assert(0 <= j < s.len() && s[j].name@ == name);
    if j < i {
        assert(s[j].name@ != s[i].name@);
    } else if i < j {
        assert(s[i].name@ != s[j].name@);
    }
}

/// The names in a list of strings.
pub open spec fn names_view(names: Seq<&str>) -> Seq<Seq<char>> {
    Seq::new(names.len(), |i: int| names[i]@)
}

/// All tables of one engine. Table names are unique.
#[derive(Debug)]
pub struct TableRegistry {
    tables: Vec<NamedTable>,
}

impl View for TableRegistry {
    type V = State;

    closed spec fn view(&self) -> State {
        tables_state(self.tables@)
    }
}

impl TableRegistry {
    #[verifier::type_invariant]
    spec fn well_formed(self) -> bool {
        distinct_names(self.tables@)
    }

    /// A registry without tables.
    pub fn new() -> (r: Self)
        ensures
            r@ == Map::<Seq<char>, Map<Seq<u8>, Seq<u8>>>::empty(),
    {
        let r = TableRegistry { tables: Vec::new() };
        assert(r@ =~= Map::<Seq<char>, Map<Seq<u8>, Seq<u8>>>::empty());
        r
    }

    /// A registry with an empty table for each of `names`.
    pub fn with_tables(names: &[&str]) -> (r: Self)
        ensures
            r@ == with_tables(Map::empty(), names_view(names@), names.len() as int),
    {
        let mut r = TableRegistry::new();
        let mut i: usize = 0;
        while i < names.len()
            invariant
                i <= names.len(),
                r@ == with_tables(Map::empty(), names_view(names@), i as int),
            decreases names.len() - i,
        {
            r.create_table(names[i]);
            i += 1;
        }
        r
    }

    fn slot(&self, name: &str) -> (r: Option<usize>)
        ensures
            match r {
                Some(i) => i < self.tables.len() && self.tables[i as int].name@ == name@,
                None => !has_name(self.tables@, name@),
            },
    {
        let mut i: usize = 0;
        while i < self.tables.len()
            invariant
                i <= self.tables.len(),
                forall|j: int| 0 <= j < i ==> (#[trigger] self.tables[j]).name@ != name@,
            decreases self.tables.len() - i,
        {
            if str_eq(self.tables[i].name.as_str(), name) {
                return Some(i);
            }
            i += 1;
        }
        None
    }

    /// The table called `name`, if it exists.
    pub fn table(&self, name: &str) -> (r: Option<&MemoryTable>)
        ensures
            match r {
                Some(t) => self@.dom().contains(name@) && t@ == self@[name@],
                None => !self@.dom().contains(name@),
            },
    {
        proof {
            use_type_invariant(self);
        }
        match self.slot(name) {
            Some(i) => {
                proof {
                    lemma_table_in_state(self.tables@, i as int);
                }
                Some(&self.tables[i].table)
            },
            None => None,
        }
    }

    /// Creates the table `name`, empty. A table that exists already is left
    /// as it is, with its contents.
    pub fn create_table(&mut self, name: &str)
        ensures
            final(self)@ == with_table(old(self)@, name@),
    {
        proof {
            use_type_invariant(&*self);
        }
        if self.slot(name).is_none() {
            let mut tables: Vec<NamedTable> = Vec::new();
            std::mem::swap(&mut tables, &mut self.tables);
            let ghost before = tables@;
            tables.push(NamedTable { name: name.to_owned(), table: MemoryTable::new() });
            proof {
                lemma_state_after_push(before, tables@);
            }
            self.tables = tables;
        }
    }

    /// Applies one write operation. An operation on a table that does not
    /// exist changes nothing and reports the table.
    pub fn apply_op(&mut self, op: WriteOperation<'_>) -> (r: Result<(), EngineError>)
        ensures
            old(self)@.dom().contains(op@.table()) ==> r is Ok && final(self)@ == apply(
                old(self)@,
                op@,
            ),
            !old(self)@.dom().contains(op@.table()) ==> final(self)@ == old(self)@ && (
            r matches Err(e) && e.is_table_not_found(op@.table())),
    {
        proof {
            use_type_invariant(&*self);
        }
        let name: &str = match &op {
            WriteOperation::Put(p) => p.table,
            WriteOperation::Delete(d) => d.table,
            WriteOperation::DeleteRange(d) => d.table,
        };
        match self.slot(name) {
            None => Err(EngineError::TableNotFound(name.to_owned())),
            Some(i) => {
                let mut tables: Vec<NamedTable> = Vec::new();
                std::mem::swap(&mut tables, &mut self.tables);
                let ghost before = tables@;
                match op {
                    WriteOperation::Put(p) => {
                        tables[i].table.insert(p.key, p.value);
                    },
                    WriteOperation::Delete(d) => {
                        tables[i].table.remove(d.key);
                    },
                    WriteOperation::DeleteRange(d) => {
                        tables[i].table.remove_range(d.start_key, d.end_key);
                    },
                }
                proof {
                    lemma_state_after_update(before, tables@, i as int);
                }
                self.tables = tables;
                Ok(())
            },
        }
    }

    /// The value stored under `key` in `table`. A table or a key that does
    /// not exist is an error: a successful read always holds a value.
    pub fn get(&self, table: &str, key: &[u8]) -> (r: Result<Option<Vec<u8>>, EngineError>)
        ensures
            is_get_of(self@, table@, key@, r),
    {
        match self.table(table) {
            None => Err(EngineError::TableNotFound(table.to_owned())),
            Some(t) => match t.get(key) {
                None => Err(EngineError::KeyNotFound(lossy_text(key))),
                Some(v) => Ok(Some(v.clone())),
            },
        }
    }

    /// The values stored under `keys` in `table`: one slot per key, in the
    /// order given, `None` where the key is absent.
    pub fn get_multi(&self, table: &str, keys: &[Vec<u8>]) -> (r: Result<
        Vec<Option<Vec<u8>>>,
        EngineError,
    >)
        ensures
            is_get_multi_of(self@, table@, keys.deep_view(), r),
    {
        match self.table(table) {
            None => Err(EngineError::TableNotFound(table.to_owned())),
            Some(t) => {
                let mut values: Vec<Option<Vec<u8>>> = Vec::with_capacity(keys.len());
                let mut i: usize = 0;
                while i < keys.len()
                    invariant
                        i <= keys.len(),
                        values.len() == i,
                        forall|j: int|
                            0 <= j < i ==> (#[trigger] values[j]).deep_view() == lookup_all(
                                t@,
                                keys.deep_view(),
                            )[j],
                    decreases keys.len() - i,
                {
                    let ghost wanted = lookup_all(t@, keys.deep_view())[i as int];
                    assert(keys.deep_view()[i as int] =~= keys[i as int]@);
                    let slot = match t.get(keys[i].as_slice()) {
                        Some(v) => {
                            let copy = v.clone();
                            assert(copy.deep_view() =~= v@);
                            Some(copy)
                        },
                        None => None,
                    };
                    assert(slot.deep_view() == wanted);
                    values.push(slot);
                    i += 1;
                }
                assert(values.deep_view() =~= lookup_all(t@, keys.deep_view()));
                Ok(values)
            },
        }
    }

    /// Applies `ops` in the order given. The first operation on a table that
    /// does not exist ends the batch with `TableNotFound`; the operations
    /// before it stay applied, the ones after it are not looked at.
    pub fn write_batch(&mut self, ops: Vec<WriteOperation<'_>>) -> (r: Result<(), EngineError>)
        ensures
            final(self)@ == apply_batch(old(self)@, ops_view(ops@)).state,
            is_batch_result(apply_batch(old(self)@, ops_view(ops@)), r),
    {
        let ghost all = ops_view(ops@);
        let ghost items = ops@;
        let ghost start = self@;
        assert(all.skip(0) =~= all);
        for op in it: ops
            invariant
                it.seq() == items,
                all == ops_view(items),
                items == ops@,
                start == old(self)@,
                apply_batch(start, all) == apply_batch(self@, all.skip(it.index() as int)),
        {
            let ghost rest = all.skip(it.index() as int);
            let ghost now = self@;
            assert(rest.len() > 0 && rest[0] == op@);
            assert(rest.drop_first() =~= all.skip(it.index() + 1));
            assert(apply_batch(now, rest) == if now.dom().contains(op@.table()) {
                apply_batch(apply(now, op@), rest.drop_first())
            } else {
                crate::model::BatchEnd { state: now, missing: Some(op@.table()) }
            });
            let done = self.apply_op(op);
            match done {
                Err(e) => {
                    return Err(e);
                },
                Ok(()) => {},
            }
        }
        Ok(())
    }
}

proof fn lemma_state_after_push(before: Seq<NamedTable>, after: Seq<NamedTable>)
    requires
        distinct_names(before),
        after.len() == before.len() + 1,
        forall|j: int| 0 <= j < before.len() ==> after[j] == before[j],
        !has_name(before, after[before.len() as int].name@),
    ensures
        distinct_names(after),
        tables_state(after) == tables_state(before).insert(
            after[before.len() as int].name@,
            after[before.len() as int].table@,
        ),
{
    let n = before.len() as int;
    assert forall|a: int, b: int| 0 <= a < b < after.len() implies (#[trigger] after[a]).name@ != (
    #[trigger] after[b]).name@ by {
        if b < n {
            assert(before[a].name@ != before[b].name@);
        } else {
            assert(before[a].name@ == after[a].name@);
        }
    }
    let m = tables_state(before).insert(after[n].name@, after[n].table@);
    assert forall|k: Seq<char>| m.dom().contains(k) <==> tables_state(after).dom().contains(k) by {
        if has_name(before, k) {
            let j = slot_of(before, k);
            assert(after[j].name@ == k);
        }
        if has_name(after, k) {
            let j = slot_of(after, k);
            if j < n {
                assert(before[j].name@ == k);
            }
        }
        if k == after[n].name@ {
            assert(has_name(after, k));
        }
    }
    assert forall|k: Seq<char>| m.dom().contains(k) implies m[k] == tables_state(after)[k] by {
        let j = slot_of(after, k);
        assert(0 <= j < after.len() && after[j].name@ == k);
        lemma_table_in_state(after, j);
        if j < n {
            assert(before[j].name@ == k);
            lemma_table_in_state(before, j);
        }
    }
    assert(tables_state(after) =~= m);
}

proof fn lemma_state_after_update(before: Seq<NamedTable>, after: Seq<NamedTable>, i: int)
    requires
        distinct_names(before),
        0 <= i < before.len(),
        after.len() == before.len(),
        after[i].name@ == before[i].name@,
        forall|j: int| 0 <= j < before.len() && j != i ==> after[j] == before[j],
    ensures
        distinct_names(after),
        tables_state(after) == tables_state(before).insert(before[i].name@, after[i].table@),
{
    assert forall|a: int, b: int| 0 <= a < b < after.len() implies (#[trigger] after[a]).name@ != (
    #[trigger] after[b]).name@ by {
        assert(before[a].name@ != before[b].name@);
    }
    let m = tables_state(before).insert(before[i].name@, after[i].table@);
    assert forall|k: Seq<char>| m.dom().contains(k) <==> tables_state(after).dom().contains(k) by {
        if has_name(before, k) {
            let j = slot_of(before, k);
            assert(after[j].name@ == k);
        }
        if has_name(after, k) {
            let j = slot_of(after, k);
            assert(before[j].name@ == k);
        }
        if k == before[i].name@ {
            assert(has_name(after, k));
        }
    }
    assert forall|k: Seq<char>| m.dom().contains(k) implies m[k] == tables_state(after)[k] by {
        let j = slot_of(after, k);
        assert(0 <= j < after.len() && after[j].name@ == k);
        lemma_table_in_state(after, j);
        if j != i {
            lemma_table_in_state(before, j);
        }
    }
    assert(tables_state(after) =~= m);
}

} // verus!
