use std::iter::{repeat, zip};

use engine::engine_interface::{Delete, DeleteRange, Put, StorageEngine, WriteOperation};
use engine::error::EngineError;
use engine::memory_engine::MemoryEngine;

const TESTTABLES: [&'static str; 3] = ["testtable1", "testtable2", "testtable3"];

#[test]
fn write_batch_into_a_non_existing_table_should_fail() {
    let engine = MemoryEngine::new(&TESTTABLES).unwrap();
    let wr_ops = vec![WriteOperation::Put(Put {
        table: "testtable4",
        key: b"key".to_vec(),
        value: b"value".to_vec(),
        sync: false,
    })];
    assert!(engine.write_batch(wr_ops).is_err());

    // delete operation
    let wr_ops = vec![WriteOperation::Delete(Delete {
        table: "testtable4",
        key: b"key",
        sync: false,
    })];
    let res = engine.write_batch(wr_ops);
    assert!(res.is_err());
    println!("{:?}", res);

    // delete range operation
    let wr_ops = vec![WriteOperation::DeleteRange(DeleteRange {
        table: "testtable4",
        start_key: b"start_key",
        end_key: b"end_key",
        sync: false,
    })];
    assert!(engine.write_batch(wr_ops).is_err());
}

#[test]
fn write_batch_should_success() {
    let engine = MemoryEngine::new(&TESTTABLES).unwrap();
    engine.create_table("table").unwrap();

    let origin_set: Vec<Vec<u8>> = (1u8..=10u8)
        .map(|val| repeat(val).take(4).collect())
        .collect();

    let keys = origin_set.clone();
    let values = origin_set.clone();
    let puts = zip(keys, values)
        .map(|(key, value)| {
            WriteOperation::Put(Put {
                table: "table",
                key,
                value,
                sync: false,
            })
        })
        .collect::<Vec<WriteOperation<'_>>>();

    assert!(engine.write_batch(puts).is_ok());

    let res_1 = engine.get_multi("table", &origin_set).unwrap();
    assert_eq!(res_1.iter().filter(|v| v.is_some()).count(), 10);

    let delete_keys = vec![1, 1, 1, 1];
    let deletes = WriteOperation::Delete(Delete::new("table", delete_keys.as_slice(), false));

    let res_2 = engine.write_batch(vec![deletes]);
    assert!(res_2.is_ok());

    let res_3 = engine.get("table", &delete_keys);
    assert!(res_3.is_err());

    let delete_start: Vec<u8> = vec![2, 2, 2, 2];
    let delete_end: Vec<u8> = vec![5, 5, 5, 5];
    let delete_range = WriteOperation::DeleteRange(DeleteRange::new(
        "table",
        delete_start.as_slice(),
        delete_end.as_slice(),
        false,
    ));
    let res_4 = engine.write_batch(vec![delete_range]);
    assert!(res_4.is_ok());

    // The range is half-open: its start key goes, its end key stays.
    let get_key_1 = vec![2, 2, 2, 2];
    let get_key_2 = vec![5, 5, 5, 5];
    let get_key_3 = vec![3, 3, 3, 3];
    assert!(engine.get("table", &get_key_1).is_err());
    assert!(engine.get("table", &get_key_2).unwrap().is_some());
    let res_5 = engine.get("table", &get_key_3);
    println!("{:?}", res_5);
    assert!(res_5.is_err());
}

fn put<'a>(table: &'a str, key: &[u8], value: &[u8]) -> WriteOperation<'a> {
    WriteOperation::Put(Put::new(table, key.to_vec(), value.to_vec(), false))
}

#[test]
fn scenario_put_then_get() {
    let engine = MemoryEngine::new(&["t1"]).unwrap();
    assert!(engine.write_batch(vec![put("t1", b"a", b"1")]).is_ok());
    assert_eq!(engine.get("t1", b"a").unwrap(), Some(b"1".to_vec()));
    match engine.get("t1", b"b") {
        Err(EngineError::KeyNotFound(key)) => assert_eq!(key, "b"),
        other => panic!("expected KeyNotFound, got {:?}", other),
    }
    match engine.get("missing", b"a") {
        Err(EngineError::TableNotFound(name)) => assert_eq!(name, "missing"),
        other => panic!("expected TableNotFound, got {:?}", other),
    }
}

#[test]
fn range_delete_boundaries() {
    let engine = MemoryEngine::new(&["t"]).unwrap();
    let keys: Vec<Vec<u8>> = vec![
        vec![0x00, 0x01],
        vec![0x01, 0x01],
        vec![0x02, 0x02],
        vec![0x03, 0x03],
        vec![0x05, 0x05],
    ];
    let puts = keys.iter().map(|k| put("t", k, k)).collect::<Vec<_>>();
    assert!(engine.write_batch(puts).is_ok());
    let start = vec![0x02u8, 0x02];
    let end = vec![0x05u8, 0x05];
    let range = WriteOperation::DeleteRange(DeleteRange::new("t", &start, &end, false));
    assert!(engine.write_batch(vec![range]).is_ok());
    let found = engine.get_multi("t", &keys).unwrap();
    assert_eq!(
        found,
        vec![
            Some(vec![0x00, 0x01]),
            Some(vec![0x01, 0x01]),
            None,
            None,
            Some(vec![0x05, 0x05]),
        ]
    );
    // start is inside the range, end is outside it
    assert!(matches!(engine.get("t", &start), Err(EngineError::KeyNotFound(_))));
    assert_eq!(engine.get("t", &end).unwrap(), Some(end.clone()));
}

#[test]
fn tables_are_isolated() {
    let engine = MemoryEngine::new(&["t1", "t2"]).unwrap();
    assert!(engine.write_batch(vec![put("t2", b"k", b"old")]).is_ok());
    assert!(engine.write_batch(vec![put("t1", b"k", b"new"), put("t1", b"x", b"y")]).is_ok());
    assert_eq!(engine.get("t2", b"k").unwrap(), Some(b"old".to_vec()));
    assert!(matches!(engine.get("t2", b"x"), Err(EngineError::KeyNotFound(_))));
    assert_eq!(engine.get("t1", b"k").unwrap(), Some(b"new".to_vec()));
}

#[test]
fn put_overwrites() {
    let engine = MemoryEngine::new(&["t"]).unwrap();
    assert!(engine.write_batch(vec![put("t", b"k", b"v1")]).is_ok());
    assert!(engine.write_batch(vec![put("t", b"k", b"v2")]).is_ok());
    assert_eq!(engine.get("t", b"k").unwrap(), Some(b"v2".to_vec()));
    assert_eq!(
        engine.get_multi("t", &[b"k".to_vec()]).unwrap(),
        vec![Some(b"v2".to_vec())]
    );
}

#[test]
fn delete_of_absent_key_is_ok() {
    let engine = MemoryEngine::new(&["t"]).unwrap();
    assert!(engine.write_batch(vec![put("t", b"a", b"1")]).is_ok());
    let gone = WriteOperation::Delete(Delete::new("t", b"zz", false));
    assert!(engine.write_batch(vec![gone]).is_ok());
    let again = WriteOperation::Delete(Delete::new("t", b"zz", true));
    assert!(engine.write_batch(vec![again]).is_ok());
    assert_eq!(engine.get("t", b"a").unwrap(), Some(b"1".to_vec()));
    assert_eq!(
        engine.get_multi("t", &[b"a".to_vec(), b"zz".to_vec()]).unwrap(),
        vec![Some(b"1".to_vec()), None]
    );
}

#[test]
fn unknown_table_fails_everywhere() {
    let engine = MemoryEngine::new(&TESTTABLES).unwrap();
    assert!(matches!(engine.get("nope", b"k"), Err(EngineError::TableNotFound(n)) if n == "nope"));
    assert!(matches!(
        engine.get_multi("nope", &[b"k".to_vec()]),
        Err(EngineError::TableNotFound(n)) if n == "nope"
    ));
    assert!(matches!(
        engine.write_batch(vec![put("nope", b"k", b"v")]),
        Err(EngineError::TableNotFound(n)) if n == "nope"
    ));
    assert!(matches!(
        engine.write_batch(vec![WriteOperation::Delete(Delete::new("nope", b"k", false))]),
        Err(EngineError::TableNotFound(n)) if n == "nope"
    ));
    assert!(matches!(
        engine.write_batch(vec![WriteOperation::DeleteRange(DeleteRange::new(
            "nope", b"a", b"z", false
        ))]),
        Err(EngineError::TableNotFound(n)) if n == "nope"
    ));
    // a write never creates the table
    assert!(matches!(engine.get("nope", b"k"), Err(EngineError::TableNotFound(_))));
}

#[test]
fn batch_is_applied_in_order() {
    let engine = MemoryEngine::new(&["t"]).unwrap();
    assert!(engine.write_batch(vec![put("t", b"k", b"v1"), put("t", b"k", b"v2")]).is_ok());
    assert_eq!(engine.get("t", b"k").unwrap(), Some(b"v2".to_vec()));
    let ops = vec![
        put("t", b"j", b"v"),
        WriteOperation::Delete(Delete::new("t", b"j", false)),
    ];
    assert!(engine.write_batch(ops).is_ok());
    assert!(matches!(engine.get("t", b"j"), Err(EngineError::KeyNotFound(_))));
}

#[test]
fn failed_batch_keeps_what_came_before() {
    let engine = MemoryEngine::new(&["t"]).unwrap();
    let ops = vec![put("t", b"a", b"1"), put("gone", b"b", b"2"), put("t", b"c", b"3")];
    match engine.write_batch(ops) {
        Err(EngineError::TableNotFound(name)) => assert_eq!(name, "gone"),
        other => panic!("expected TableNotFound, got {:?}", other),
    }
    assert_eq!(engine.get("t", b"a").unwrap(), Some(b"1".to_vec()));
    assert!(matches!(engine.get("t", b"c"), Err(EngineError::KeyNotFound(_))));
}

#[test]
fn create_table_is_idempotent() {
    let engine = MemoryEngine::new(&[]).unwrap();
    assert!(matches!(engine.get("t", b"a"), Err(EngineError::TableNotFound(_))));
    assert!(engine.create_table("t").is_ok());
    assert!(engine.write_batch(vec![put("t", b"a", b"1")]).is_ok());
    assert!(engine.create_table("t").is_ok());
    assert_eq!(engine.get("t", b"a").unwrap(), Some(b"1".to_vec()));
}

#[test]
fn duplicate_initial_tables_are_one_table() {
    let engine = MemoryEngine::new(&["t", "t"]).unwrap();
    assert!(engine.write_batch(vec![put("t", b"a", b"1")]).is_ok());
    assert_eq!(engine.get("t", b"a").unwrap(), Some(b"1".to_vec()));
}

#[test]
fn clones_share_the_tables() {
    let engine = MemoryEngine::new(&["t"]).unwrap();
    let other = engine.clone();
    assert!(other.write_batch(vec![put("t", b"a", b"1")]).is_ok());
    assert_eq!(engine.get("t", b"a").unwrap(), Some(b"1".to_vec()));
    let fresh = MemoryEngine::default();
    assert!(matches!(fresh.get("t", b"a"), Err(EngineError::TableNotFound(_))));
}

#[test]
fn key_text_of_bytes_that_are_not_utf8() {
    let engine = MemoryEngine::new(&["t"]).unwrap();
    match engine.get("t", &[0x61, 0xff, 0x62]) {
        Err(EngineError::KeyNotFound(key)) => assert_eq!(key, "a\u{fffd}b"),
        other => panic!("expected KeyNotFound, got {:?}", other),
    }
    match engine.get("t", &[3, 3, 3, 3]) {
        Err(EngineError::KeyNotFound(key)) => assert_eq!(key, "\u{3}\u{3}\u{3}\u{3}"),
        other => panic!("expected KeyNotFound, got {:?}", other),
    }
    match engine.get("t", "schlüssel".as_bytes()) {
        Err(EngineError::KeyNotFound(key)) => assert_eq!(key, "schlüssel"),
        other => panic!("expected KeyNotFound, got {:?}", other),
    }
}

#[test]
fn empty_key_and_empty_value() {
    let engine = MemoryEngine::new(&["t"]).unwrap();
    assert!(engine.write_batch(vec![put("t", b"", b"")]).is_ok());
    assert_eq!(engine.get("t", b"").unwrap(), Some(Vec::new()));
    assert!(engine.write_batch(Vec::new()).is_ok());
    assert_eq!(engine.get_multi("t", &[]).unwrap(), Vec::<Option<Vec<u8>>>::new());
}
