use engine::engine_interface::{Delete, DeleteRange, Put, WriteOperation};
use engine::error::EngineError;
use engine::registry::TableRegistry;
use engine::table::MemoryTable;
use engine::text::str_eq;

#[test]
fn table_insert_get_remove() {
    let mut t = MemoryTable::new();
    assert_eq!(t.len(), 0);
    assert_eq!(t.get(b"a"), None);
    t.insert(b"a".to_vec(), b"1".to_vec());
    t.insert(b"b".to_vec(), b"2".to_vec());
    assert_eq!(t.len(), 2);
    assert_eq!(t.get(b"a"), Some(&b"1".to_vec()));
    t.insert(b"a".to_vec(), b"3".to_vec());
    assert_eq!(t.len(), 2);
    assert_eq!(t.get(b"a"), Some(&b"3".to_vec()));
    assert!(t.contains_key(b"b"));
    t.remove(b"a");
    assert_eq!(t.len(), 1);
    assert_eq!(t.get(b"a"), None);
    t.remove(b"a");
    assert_eq!(t.len(), 1);
    assert_eq!(t.get(b"b"), Some(&b"2".to_vec()));
}

#[test]
fn table_remove_range() {
    let mut t = MemoryTable::new();
    for k in 0u8..10 {
        t.insert(vec![k], vec![k, k]);
    }
    t.remove_range(&[3], &[7]);
    assert_eq!(t.len(), 6);
    for k in 0u8..10 {
        let kept = k < 3 || k >= 7;
        let value = vec![k, k];
        assert_eq!(t.get(&[k]), if kept { Some(&value) } else { None });
    }
    // nothing lies in an inverted range
    t.remove_range(&[9], &[0]);
    assert_eq!(t.len(), 6);
    // everything from the empty key up to 0xff
    t.remove_range(&[], &[0xff]);
    assert_eq!(t.len(), 0);
}

#[test]
fn registry_tables_and_lookup() {
    let mut r = TableRegistry::with_tables(&["a", "b", "a"]);
    assert!(r.table("a").is_some());
    assert!(r.table("b").is_some());
    assert!(r.table("c").is_none());
    r.create_table("c");
    assert_eq!(r.table("c").unwrap().len(), 0);
    assert!(r.apply_op(WriteOperation::Put(Put::new("c", vec![1], vec![2], false))).is_ok());
    r.create_table("c");
    assert_eq!(r.table("c").unwrap().get(&[1]), Some(&vec![2]));
    assert!(TableRegistry::new().table("a").is_none());
}

#[test]
fn registry_apply_op_each_kind() {
    let mut r = TableRegistry::with_tables(&["t"]);
    assert!(r.apply_op(WriteOperation::Put(Put::new("t", vec![1], vec![10], true))).is_ok());
    assert!(r.apply_op(WriteOperation::Put(Put::new("t", vec![2], vec![20], false))).is_ok());
    assert!(r.apply_op(WriteOperation::Put(Put::new("t", vec![3], vec![30], false))).is_ok());
    assert!(r.apply_op(WriteOperation::Delete(Delete::new("t", &[1], false))).is_ok());
    assert_eq!(r.get_multi("t", &[vec![1], vec![2], vec![3]]).unwrap(), vec![
        None,
        Some(vec![20]),
        Some(vec![30]),
    ]);
    assert!(r.apply_op(WriteOperation::DeleteRange(DeleteRange::new("t", &[2], &[3], false))).is_ok());
    assert_eq!(r.get_multi("t", &[vec![3], vec![2]]).unwrap(), vec![Some(vec![30]), None]);
    match r.apply_op(WriteOperation::Delete(Delete::new("x", &[3], false))) {
        Err(EngineError::TableNotFound(name)) => assert_eq!(name, "x"),
        other => panic!("expected TableNotFound, got {:?}", other),
    }
    assert_eq!(r.get("t", &[3]).unwrap(), Some(vec![30]));
}

#[test]
fn registry_batch_stops_at_first_missing_table() {
    let mut r = TableRegistry::with_tables(&["t"]);
    let ops = vec![
        WriteOperation::Put(Put::new("t", vec![1], vec![1], false)),
        WriteOperation::Put(Put::new("u", vec![2], vec![2], false)),
        WriteOperation::Put(Put::new("v", vec![3], vec![3], false)),
        WriteOperation::Put(Put::new("t", vec![4], vec![4], false)),
    ];
    match r.write_batch(ops) {
        Err(EngineError::TableNotFound(name)) => assert_eq!(name, "u"),
        other => panic!("expected TableNotFound, got {:?}", other),
    }
    assert_eq!(r.get_multi("t", &[vec![1], vec![4]]).unwrap(), vec![Some(vec![1]), None]);
}

#[test]
fn registry_get_errors() {
    let r = TableRegistry::with_tables(&["t"]);
    match r.get("t", b"key") {
        Err(EngineError::KeyNotFound(key)) => assert_eq!(key, "key"),
        other => panic!("expected KeyNotFound, got {:?}", other),
    }
    match r.get("tt", b"key") {
        Err(EngineError::TableNotFound(name)) => assert_eq!(name, "tt"),
        other => panic!("expected TableNotFound, got {:?}", other),
    }
    assert!(matches!(r.get_multi("", &[]), Err(EngineError::TableNotFound(_))));
}

#[test]
fn names_compare_by_characters() {
    assert!(str_eq("", ""));
    assert!(str_eq("table", "table"));
    assert!(!str_eq("table", "tablE"));
    assert!(!str_eq("table", "tabl"));
    assert!(str_eq("t\u{e4}ble", "täble"));
}

#[test]
fn error_from_io_error() {
    let e: EngineError = std::io::Error::new(std::io::ErrorKind::Other, "disk").into();
    assert!(matches!(e, EngineError::IoError(_)));
}

#[test]
fn operation_constructors_keep_their_arguments() {
    let p = Put::new("t", vec![1], vec![2], true);
    assert_eq!((p.table, p.key, p.value, p.sync), ("t", vec![1], vec![2], true));
    let d = Delete::new("t", &[1], false);
    assert_eq!((d.table, d.key, d.sync), ("t", &[1u8][..], false));
    let r = DeleteRange::new("t", &[1], &[9], true);
    assert_eq!((r.table, r.start_key, r.end_key, r.sync), ("t", &[1u8][..], &[9u8][..], true));
}
