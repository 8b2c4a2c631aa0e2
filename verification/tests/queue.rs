use itq::db::models::{Queue, QueueRow};
use itq::queue::{
    classify, convert_rows, ConversionError, EntryPlayers, QueueEntry, QueueInfo, Side,
};

fn row(id: u128, order: i32, left: Option<&str>, right: Option<&str>) -> QueueRow {
    QueueRow {
        id,
        queue_id: 4,
        left_player_name: left.map(|s| s.to_string()),
        right_player_name: right.map(|s| s.to_string()),
        queue_order: order,
        created_at: 0,
    }
}

#[test]
fn side_renders_as_lower_case_word() {
    assert_eq!(Side::Left.to_string(), "left");
    assert_eq!(Side::Right.to_string(), "right");
}

#[test]
fn classify_both_keeps_both_names() {
    match classify(row(1, 0, Some("Alice"), Some("Bob"))).unwrap() {
        EntryPlayers::Both(left, right) => {
            assert_eq!(left, "Alice");
            assert_eq!(right, "Bob");
        }
        other => panic!("expected both, got {:?}", other),
    }
}

#[test]
fn classify_one_side() {
    assert!(matches!(
        classify(row(1, 0, Some("Alice"), None)).unwrap(),
        EntryPlayers::LeftOnly(name) if name == "Alice"
    ));
    assert!(matches!(
        classify(row(1, 0, None, Some("Bob"))).unwrap(),
        EntryPlayers::RightOnly(name) if name == "Bob"
    ));
}

#[test]
fn classify_empty_row_is_a_fault() {
    assert_eq!(
        classify(row(8, 3, None, None)).unwrap_err(),
        ConversionError::EmptyRow { row_id: 8, queue_id: 4, order: 3 }
    );
}

#[test]
fn entry_from_row() {
    let entry = QueueEntry::try_from(row(8, 3, None, Some("Bob"))).unwrap();
    assert_eq!((entry.id, entry.queue_id, entry.order), (8, 4, 3));
    assert!(matches!(entry.players, EntryPlayers::RightOnly(name) if name == "Bob"));
    assert_eq!(
        QueueEntry::try_from(row(9, 5, None, None)).unwrap_err(),
        ConversionError::EmptyRow { row_id: 9, queue_id: 4, order: 5 }
    );
}

#[test]
fn players_tuple_splits_into_slots() {
    assert_eq!(
        EntryPlayers::LeftOnly("a".to_string()).players_tuple(),
        (Some("a".to_string()), None)
    );
    assert_eq!(
        EntryPlayers::RightOnly("b".to_string()).players_tuple(),
        (None, Some("b".to_string()))
    );
    assert_eq!(
        EntryPlayers::Both("a".to_string(), "b".to_string()).players_tuple(),
        (Some("a".to_string()), Some("b".to_string()))
    );
}

#[test]
fn info_from_queue() {
    let info = QueueInfo::from(Queue {
        id: 3,
        url_name: "main".to_string(),
        display_name: "Main Table".to_string(),
        created_at: 99,
    });
    assert_eq!(info.id, 3);
    assert_eq!(info.url_name, "main");
    assert_eq!(info.display_name, "Main Table");
}

#[test]
fn convert_rows_skips_and_reports_empty_rows() {
    let rows = vec![
        row(1, 0, Some("a"), None),
        row(2, 1, None, None),
        row(3, 2, Some("c"), Some("d")),
        row(4, 3, None, None),
    ];
    let (entries, faults) = convert_rows(rows);
    let ids: Vec<u128> = entries.iter().map(|e| e.id).collect();
    assert_eq!(ids, vec![1, 3]);
    assert_eq!(
        faults,
        vec![
            ConversionError::EmptyRow { row_id: 2, queue_id: 4, order: 1 },
            ConversionError::EmptyRow { row_id: 4, queue_id: 4, order: 3 },
        ]
    );
}

#[test]
fn convert_no_rows() {
    let (entries, faults) = convert_rows(Vec::new());
    assert!(entries.is_empty());
    assert!(faults.is_empty());
}
