use vector_index::cursor::{
    build_desc, build_row_with_logstore, build_row_with_snapshot, conclude_fetch, decimal,
    plan_fetch, Cell, Cursor, CursorError, CursorEvent, CursorManager, CursorRow, CursorRowValue,
    CursorStep, FetchPlan, PgFieldDescriptor,
};

fn cell(text: &str) -> Cell {
    Some(text.as_bytes().to_vec())
}

fn desc(name: &str) -> PgFieldDescriptor {
    PgFieldDescriptor { name: name.to_owned(), type_oid: 23, type_len: 4 }
}

fn log_descs() -> Vec<PgFieldDescriptor> {
    vec![desc("a"), desc("b"), desc("c"), desc("d"), desc("x"), desc("y"), desc("z")]
}

fn log_row(rw_timestamp: i64, data: &str) -> CursorRow {
    CursorRow {
        rw_timestamp,
        epoch: rw_timestamp as u64 + 1000,
        cells: vec![cell("ts"), cell("seq"), cell("vnode"), cell(data), None, cell("row_id")],
    }
}

fn log_cursor(name: &str, rows: Vec<CursorRow>, start: i64, check: bool) -> Result<Cursor, CursorError> {
    Cursor::new(name.to_owned(), rows, start, 0, false, check, "sub".to_owned(), log_descs())
}

#[test]
fn decimal_renders_the_digits() {
    assert_eq!(decimal(0), b"0");
    assert_eq!(decimal(7), b"7");
    assert_eq!(decimal(10), b"10");
    assert_eq!(decimal(1234567890), b"1234567890");
    assert_eq!(decimal(u64::MAX), b"18446744073709551615");
}

#[test]
fn a_snapshot_row_gets_the_epoch_and_the_operation_in_front() {
    let row = build_row_with_snapshot(vec![cell("x"), None], 42);
    assert_eq!(row, vec![cell("42"), cell("1"), cell("x"), None]);
    assert_eq!(build_row_with_snapshot(vec![], 0), vec![cell("0"), cell("1")]);
}

#[test]
fn a_logstore_row_loses_what_belongs_to_the_log_store() {
    let row = vec![cell("ts"), cell("seq"), cell("vnode"), cell("op"), cell("x"), cell("row_id")];
    assert_eq!(build_row_with_logstore(row, 42), Ok(vec![cell("42"), cell("op"), cell("x")]));
    let short = vec![cell("ts"), cell("seq"), cell("vnode"), cell("row_id")];
    assert_eq!(build_row_with_logstore(short, 5), Ok(vec![cell("5")]));
}

#[test]
fn the_description_starts_with_the_timestamp_and_the_operation() {
    let descs = build_desc(vec![desc("x"), desc("y")], true);
    assert_eq!(
        descs,
        vec![
            PgFieldDescriptor { name: "rw_timestamp".to_owned(), type_oid: 1043, type_len: -1 },
            PgFieldDescriptor { name: "op".to_owned(), type_oid: 21, type_len: 2 },
            desc("x"),
            desc("y"),
        ]
    );
    let descs = build_desc(log_descs(), false);
    assert_eq!(descs.len(), 4);
    assert_eq!(descs[2], desc("x"));
    assert_eq!(descs[3], desc("y"));
    assert_eq!(build_desc(vec![], true).len(), 2);
}

#[test]
fn a_snapshot_cursor_hands_out_its_rows_and_then_asks_for_the_next_timestamp() {
    let mut cursor = Cursor::new(
        "c".to_owned(),
        vec![],
        100,
        7,
        true,
        false,
        "sub".to_owned(),
        vec![desc("x")],
    )
    .unwrap();
    assert_eq!(cursor.rw_timestamp(), 100);
    assert!(matches!(cursor.next(CursorEvent::Poll), CursorStep::NeedChunk));
    let chunk = vec![
        CursorRow { rw_timestamp: 0, epoch: 0, cells: vec![cell("a")] },
        CursorRow { rw_timestamp: 0, epoch: 0, cells: vec![cell("b")] },
    ];
    match cursor.next(CursorEvent::Chunk(chunk)) {
        CursorStep::Value(CursorRowValue::Row((cells, descs))) => {
            assert_eq!(cells, vec![cell("7"), cell("1"), cell("a")]);
            assert_eq!(descs.len(), 3);
            assert_eq!(descs[2], desc("x"));
        }
        other => panic!("no row: {:?}", other),
    }
    match cursor.next(CursorEvent::Poll) {
        CursorStep::Value(CursorRowValue::Row((cells, _))) => {
            assert_eq!(cells, vec![cell("7"), cell("1"), cell("b")]);
        }
        other => panic!("no row: {:?}", other),
    }
    assert!(matches!(cursor.next(CursorEvent::Chunk(vec![])), CursorStep::NeedChunk));
    match cursor.next(CursorEvent::End) {
        CursorStep::Value(CursorRowValue::QueryWithStartRwTimestamp(timestamp, name)) => {
            assert_eq!((timestamp, name.as_str()), (100, "sub"));
        }
        other => panic!("no end: {:?}", other),
    }
}

#[test]
fn a_logstore_cursor_stops_at_the_next_timestamp() {
    let rows = vec![log_row(5, "x"), log_row(5, "y"), log_row(6, "z"), log_row(6, "w")];
    let mut cursor = log_cursor("c", rows, 3, false).unwrap();
    // Without a check the cursor starts at the timestamp of its first row.
    assert_eq!(cursor.rw_timestamp(), 5);
    match cursor.next(CursorEvent::Poll) {
        CursorStep::Value(CursorRowValue::Row((cells, descs))) => {
            assert_eq!(cells, vec![cell("1005"), cell("x"), None]);
            assert_eq!(descs.len(), 4);
        }
        other => panic!("no row: {:?}", other),
    }
    assert!(matches!(cursor.next(CursorEvent::End), CursorStep::Value(CursorRowValue::Row(_))));
    match cursor.next(CursorEvent::Poll) {
        CursorStep::Value(CursorRowValue::QueryWithNextRwTimestamp(timestamp, name)) => {
            assert_eq!((timestamp, name.as_str()), (6, "sub"));
        }
        other => panic!("no next timestamp: {:?}", other),
    }
    // The row that named the next timestamp is given up.
    match cursor.next(CursorEvent::Poll) {
        CursorStep::Value(CursorRowValue::QueryWithNextRwTimestamp(timestamp, _)) => {
            assert_eq!(timestamp, 6);
        }
        other => panic!("no next timestamp: {:?}", other),
    }
    assert!(matches!(cursor.next(CursorEvent::Poll), CursorStep::NeedChunk));
    assert!(matches!(
        cursor.next(CursorEvent::End),
        CursorStep::Value(CursorRowValue::QueryWithStartRwTimestamp(5, _))
    ));
}

#[test]
fn a_checked_logstore_cursor_needs_rows_of_its_timestamp() {
    assert_eq!(
        log_cursor("c", vec![], 5, true).err(),
        Some(CursorError::NoData { rw_timestamp: 5 })
    );
    assert_eq!(
        log_cursor("c", vec![log_row(6, "x")], 5, true).err(),
        Some(CursorError::NoData { rw_timestamp: 5 })
    );
    assert_eq!(log_cursor("c", vec![log_row(5, "x")], 5, true).unwrap().rw_timestamp(), 5);
    assert_eq!(log_cursor("c", vec![], 5, false).unwrap().rw_timestamp(), 5);
}

#[test]
fn a_fetch_answers_a_row_and_queries_again_otherwise() {
    match plan_fetch(CursorRowValue::Row((vec![cell("x")], vec![desc("d")]))) {
        FetchPlan::Respond((cells, descs)) => {
            assert_eq!(cells, vec![cell("x")]);
            assert_eq!(descs, vec![desc("d")]);
        }
        other => panic!("no answer: {:?}", other),
    }
    match plan_fetch(CursorRowValue::QueryWithNextRwTimestamp(8, "sub".to_owned())) {
        FetchPlan::Requery { rw_timestamp, subscription_name, need_check_timestamp } => {
            assert_eq!((rw_timestamp, subscription_name.as_str(), need_check_timestamp), (8, "sub", true));
        }
        other => panic!("no query: {:?}", other),
    }
    match plan_fetch(CursorRowValue::QueryWithStartRwTimestamp(8, "sub".to_owned())) {
        FetchPlan::Requery { rw_timestamp, subscription_name, need_check_timestamp } => {
            assert_eq!((rw_timestamp, subscription_name.as_str(), need_check_timestamp), (9, "sub", false));
        }
        other => panic!("no query: {:?}", other),
    }
    assert_eq!(
        conclude_fetch(CursorRowValue::Row((vec![cell("x")], vec![]))),
        Ok(Some((vec![cell("x")], vec![])))
    );
    assert_eq!(conclude_fetch(CursorRowValue::QueryWithStartRwTimestamp(8, "sub".to_owned())), Ok(None));
    assert_eq!(
        conclude_fetch(CursorRowValue::QueryWithNextRwTimestamp(8, "sub".to_owned())),
        Err(CursorError::NoRowAfterQuery)
    );
}

#[test]
fn a_manager_keeps_cursors_until_their_time_has_passed() {
    let mut manager = CursorManager::new();
    assert_eq!(
        manager.add_cursor(log_cursor("c", vec![log_row(5, "x")], 5, false).unwrap(), 1000),
        Err(CursorError::NoRetention)
    );
    assert!(matches!(
        manager.get_row_with_cursor("c".to_owned(), 1000, CursorEvent::Poll),
        Err(CursorError::NotFound)
    ));
    manager.add_cursor_retention_secs("sub".to_owned(), 60);
    manager.add_cursor_retention_secs("other".to_owned(), 1);
    manager.add_cursor_retention_secs("sub".to_owned(), 50);
    manager.add_cursor(log_cursor("c", vec![log_row(5, "x"), log_row(5, "y")], 5, false).unwrap(), 1000).unwrap();
    manager.add_cursor(log_cursor("d", vec![log_row(9, "z")], 9, false).unwrap(), 2000).unwrap();
    assert!(matches!(
        manager.get_row_with_cursor("c".to_owned(), 1050, CursorEvent::Poll),
        Ok(CursorStep::Value(CursorRowValue::Row(_)))
    ));
    // The time of "c" has passed: it is dropped, and "d" stays.
    assert!(matches!(
        manager.get_row_with_cursor("c".to_owned(), 1051, CursorEvent::Poll),
        Err(CursorError::Expired)
    ));
    assert!(matches!(
        manager.get_row_with_cursor("c".to_owned(), 1000, CursorEvent::Poll),
        Err(CursorError::NotFound)
    ));
    assert!(matches!(
        manager.get_row_with_cursor("d".to_owned(), 2050, CursorEvent::Poll),
        Ok(CursorStep::Value(CursorRowValue::Row(_)))
    ));
    // A cursor of the same name takes the place of the one that is kept.
    manager.update_cursor(log_cursor("d", vec![log_row(11, "w")], 11, false).unwrap(), 3000).unwrap();
    match manager.get_row_with_cursor("d".to_owned(), 3050, CursorEvent::Poll) {
        Ok(CursorStep::Value(CursorRowValue::Row((cells, _)))) => {
            assert_eq!(cells, vec![cell("1011"), cell("w"), None]);
        }
        other => panic!("no row: {:?}", other),
    }
    assert_eq!(manager.remove_cursor("d".to_owned()), Ok(()));
    assert_eq!(manager.remove_cursor("d".to_owned()), Ok(()));
    assert!(matches!(
        manager.get_row_with_cursor("d".to_owned(), 3000, CursorEvent::Poll),
        Err(CursorError::NotFound)
    ));
    // The sum of the time and the retention is cut off at the largest time.
    manager.add_cursor(log_cursor("e", vec![log_row(1, "x")], 1, false).unwrap(), u64::MAX - 10).unwrap();
    assert!(manager.get_row_with_cursor("e".to_owned(), u64::MAX, CursorEvent::Poll).is_ok());
}
