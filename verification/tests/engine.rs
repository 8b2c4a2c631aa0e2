use itq::db::api::{
    add_player_at, add_player_to_row, add_queue, add_row, append_new_row, append_new_row_as,
    delete_queue,
    fill_slot,
    get_all_queues, get_queue_entries, get_queue_info, new_row, next_order, ApiError,
};
use itq::db::models::{NewQueue, NewQueueRow, QueueRow};
use itq::db::store::QueueStore;
use itq::queue::{EntryPlayers, Side};

fn store_with_queue(url_name: &str) -> (QueueStore, u128) {
    let mut store = QueueStore::new();
    let info = add_queue("Table".to_string(), url_name.to_string(), &mut store).unwrap();
    (store, info.id)
}

fn row(left: Option<&str>, right: Option<&str>) -> QueueRow {
    QueueRow {
        id: 7,
        queue_id: 9,
        left_player_name: left.map(|s| s.to_string()),
        right_player_name: right.map(|s| s.to_string()),
        queue_order: 3,
        created_at: 11,
    }
}

#[test]
fn next_order_of_empty_queue_is_zero() {
    assert_eq!(next_order(None), 0);
}

#[test]
fn next_order_follows_the_tail() {
    assert_eq!(next_order(Some(0)), 1);
    assert_eq!(next_order(Some(41)), 42);
    assert_eq!(next_order(Some(i32::MAX)), 2147483648);
}

#[test]
fn new_row_takes_the_expected_order() {
    let made = new_row(5, Some(1), 2, Side::Right, "Bob".to_string()).unwrap();
    assert_eq!(made.queue_id, 5);
    assert_eq!(made.queue_order, 2);
    assert_eq!(made.left_player_name, None);
    assert_eq!(made.right_player_name, Some("Bob".to_string()));
}

#[test]
fn new_row_puts_left_player_left() {
    let made = new_row(5, None, 0, Side::Left, "Alice".to_string()).unwrap();
    assert_eq!(made.left_player_name, Some("Alice".to_string()));
    assert_eq!(made.right_player_name, None);
}

#[test]
fn new_row_refuses_any_other_order() {
    assert_eq!(
        new_row(5, Some(1), 1, Side::Left, "A".to_string()).unwrap_err(),
        ApiError::InvalidOrder { expected: 2, got: 1 }
    );
    assert_eq!(
        new_row(5, Some(1), 3, Side::Left, "A".to_string()).unwrap_err(),
        ApiError::InvalidOrder { expected: 2, got: 3 }
    );
    assert_eq!(
        new_row(5, None, 1, Side::Left, "A".to_string()).unwrap_err(),
        ApiError::InvalidOrder { expected: 0, got: 1 }
    );
    assert_eq!(
        new_row(5, None, -1, Side::Left, "A".to_string()).unwrap_err(),
        ApiError::InvalidOrder { expected: 0, got: -1 }
    );
}

#[test]
fn new_row_at_the_highest_order_is_refused() {
    assert_eq!(
        new_row(5, Some(i32::MAX), i32::MAX, Side::Left, "A".to_string()).unwrap_err(),
        ApiError::InvalidOrder { expected: 2147483648, got: i32::MAX }
    );
}

#[test]
fn fill_slot_fills_the_free_side() {
    let filled = fill_slot(row(Some("Alice"), None), Side::Right, "Carol".to_string()).unwrap();
    assert_eq!(filled.id, 7);
    assert_eq!(filled.queue_id, 9);
    assert_eq!(filled.queue_order, 3);
    assert_eq!(filled.created_at, 11);
    assert_eq!(filled.left_player_name, Some("Alice".to_string()));
    assert_eq!(filled.right_player_name, Some("Carol".to_string()));
}

#[test]
fn fill_slot_fills_left_of_empty_row() {
    let filled = fill_slot(row(None, None), Side::Left, "Eve".to_string()).unwrap();
    assert_eq!(filled.left_player_name, Some("Eve".to_string()));
    assert_eq!(filled.right_player_name, None);
}

#[test]
fn fill_slot_refuses_a_taken_side() {
    assert_eq!(
        fill_slot(row(Some("Alice"), None), Side::Left, "Dave".to_string()).unwrap_err(),
        ApiError::Occupied { row_id: 7, order: 3, side: Side::Left }
    );
    assert_eq!(
        fill_slot(row(Some("Alice"), Some("Bob")), Side::Right, "Dave".to_string()).unwrap_err(),
        ApiError::Occupied { row_id: 7, order: 3, side: Side::Right }
    );
}

#[test]
fn scenario_two_rows_then_fill_then_occupied() {
    let (mut store, q) = store_with_queue("main");
    let r0 = append_new_row(q, 0, Side::Left, "Alice".to_string(), &mut store).unwrap();
    assert_eq!(
        append_new_row(q, 0, Side::Right, "Bob".to_string(), &mut store).unwrap_err(),
        ApiError::InvalidOrder { expected: 1, got: 0 }
    );
    let r1 = append_new_row(q, 1, Side::Right, "Bob".to_string(), &mut store).unwrap();
    assert_ne!(r0, r1);
    assert_eq!(add_player_to_row(r0, "Carol".to_string(), Side::Right, &mut store), Ok(r0));
    let entries = get_queue_entries(q, &store).unwrap();
    assert_eq!(entries.len(), 2);
    assert_eq!(entries[0].id, r0);
    assert_eq!(entries[0].order, 0);
    match &entries[0].players {
        EntryPlayers::Both(left, right) => {
            assert_eq!(left, "Alice");
            assert_eq!(right, "Carol");
        }
        other => panic!("expected both sides taken, got {:?}", other),
    }
    assert_eq!(entries[1].id, r1);
    assert_eq!(entries[1].order, 1);
    assert!(matches!(&entries[1].players, EntryPlayers::RightOnly(name) if name == "Bob"));
    assert_eq!(
        add_player_to_row(r0, "Dave".to_string(), Side::Right, &mut store).unwrap_err(),
        ApiError::Occupied { row_id: r0, order: 0, side: Side::Right }
    );
}

#[test]
fn round_trip_left_only() {
    let (mut store, q) = store_with_queue("main");
    store
        .insert_row(NewQueueRow {
            queue_id: q,
            left_player_name: Some("Alice".to_string()),
            right_player_name: None,
            queue_order: 0,
        })
        .unwrap();
    let rows = store.list_rows(q);
    assert_eq!(rows.len(), 1);
    let entries = get_queue_entries(q, &store).unwrap();
    assert_eq!(entries.len(), 1);
    assert!(matches!(&entries[0].players, EntryPlayers::LeftOnly(name) if name == "Alice"));
}

#[test]
fn stale_order_fails_twice() {
    let (mut store, q) = store_with_queue("main");
    append_new_row(q, 0, Side::Left, "A".to_string(), &mut store).unwrap();
    append_new_row(q, 1, Side::Left, "B".to_string(), &mut store).unwrap();
    let stale = ApiError::InvalidOrder { expected: 2, got: 1 };
    assert_eq!(append_new_row(q, 1, Side::Left, "C".to_string(), &mut store).unwrap_err(), stale);
    assert_eq!(append_new_row(q, 1, Side::Right, "D".to_string(), &mut store).unwrap_err(), stale);
    assert_eq!(store.list_rows(q).len(), 2);
}

#[test]
fn order_ahead_of_the_tail_is_refused() {
    let (mut store, q) = store_with_queue("main");
    assert_eq!(
        append_new_row(q, 1, Side::Left, "A".to_string(), &mut store).unwrap_err(),
        ApiError::InvalidOrder { expected: 0, got: 1 }
    );
    assert_eq!(store.get_max_order(q), None);
}

#[test]
fn append_to_missing_queue_is_not_found() {
    let mut store = QueueStore::new();
    assert_eq!(
        append_new_row(1, 0, Side::Left, "A".to_string(), &mut store).unwrap_err(),
        ApiError::NotFound
    );
    assert_eq!(
        append_new_row(1, 4, Side::Left, "A".to_string(), &mut store).unwrap_err(),
        ApiError::InvalidOrder { expected: 0, got: 4 }
    );
}

#[test]
fn occupied_side_is_never_overwritten() {
    let (mut store, q) = store_with_queue("main");
    let r0 = append_new_row(q, 0, Side::Left, "Alice".to_string(), &mut store).unwrap();
    assert_eq!(
        add_player_to_row(r0, "Mallory".to_string(), Side::Left, &mut store).unwrap_err(),
        ApiError::Occupied { row_id: r0, order: 0, side: Side::Left }
    );
    let stored = store.get_row(r0).unwrap();
    assert_eq!(stored.left_player_name, Some("Alice".to_string()));
    assert_eq!(stored.right_player_name, None);
}

#[test]
fn assigning_to_missing_row_is_not_found() {
    let (mut store, _) = store_with_queue("main");
    assert_eq!(
        add_player_to_row(12345, "A".to_string(), Side::Left, &mut store).unwrap_err(),
        ApiError::NotFound
    );
}

#[test]
fn orders_stay_dense() {
    let (mut store, q) = store_with_queue("main");
    let other = add_queue("Other".to_string(), "other".to_string(), &mut store).unwrap().id;
    let mut ids = Vec::new();
    for i in 0..6 {
        ids.push(add_row(q, format!("p{}", i), Side::Left, &mut store).unwrap());
        if i % 2 == 0 {
            add_row(other, format!("o{}", i), Side::Right, &mut store).unwrap();
        }
    }
    add_player_to_row(ids[2], "late".to_string(), Side::Right, &mut store).unwrap();
    let orders: Vec<i32> = store.list_rows(q).iter().map(|r| r.queue_order).collect();
    assert_eq!(orders, vec![0, 1, 2, 3, 4, 5]);
    let orders: Vec<i32> = store.list_rows(other).iter().map(|r| r.queue_order).collect();
    assert_eq!(orders, vec![0, 1, 2]);
    assert_eq!(store.get_max_order(q), Some(5));
}

#[test]
fn add_row_at_the_highest_order_is_refused() {
    let (mut store, q) = store_with_queue("main");
    store
        .insert_row(NewQueueRow {
            queue_id: q,
            left_player_name: Some("Z".to_string()),
            right_player_name: None,
            queue_order: i32::MAX,
        })
        .unwrap();
    assert_eq!(
        add_row(q, "A".to_string(), Side::Left, &mut store).unwrap_err(),
        ApiError::InvalidOrder { expected: 2147483648, got: i32::MAX }
    );
}

#[test]
fn deleting_a_queue_removes_its_rows() {
    let (mut store, q) = store_with_queue("main");
    let other = add_queue("Other".to_string(), "other".to_string(), &mut store).unwrap().id;
    add_row(q, "A".to_string(), Side::Left, &mut store).unwrap();
    add_row(q, "B".to_string(), Side::Left, &mut store).unwrap();
    let kept = add_row(other, "C".to_string(), Side::Right, &mut store).unwrap();
    assert_eq!(delete_queue(q, &mut store), Ok(()));
    assert!(store.list_rows(q).is_empty());
    assert!(get_queue_entries(q, &store).unwrap().is_empty());
    assert_eq!(get_queue_info("main".to_string(), &store).unwrap_err(), ApiError::NotFound);
    let rest = store.list_rows(other);
    assert_eq!(rest.len(), 1);
    assert_eq!(rest[0].id, kept);
    assert_eq!(delete_queue(q, &mut store), Ok(()));
    assert_eq!(get_all_queues(&store).unwrap().len(), 1);
}

#[test]
fn add_queue_conflicts_on_url_name() {
    let (mut store, _) = store_with_queue("main");
    assert_eq!(
        add_queue("Again".to_string(), "main".to_string(), &mut store).unwrap_err(),
        ApiError::Conflict
    );
    let infos = get_all_queues(&store).unwrap();
    assert_eq!(infos.len(), 1);
    assert_eq!(infos[0].display_name, "Table");
    assert_eq!(infos[0].url_name, "main");
}

#[test]
fn queue_info_by_url_name() {
    let (mut store, q) = store_with_queue("main");
    add_queue("Second".to_string(), "second".to_string(), &mut store).unwrap();
    let info = get_queue_info("main".to_string(), &store).unwrap();
    assert_eq!(info.id, q);
    assert_eq!(info.display_name, "Table");
    let info = get_queue_info("second".to_string(), &store).unwrap();
    assert_eq!(info.display_name, "Second");
    assert_eq!(get_queue_info("third".to_string(), &store).unwrap_err(), ApiError::NotFound);
}

#[test]
fn empty_rows_are_left_out_of_entries() {
    let (mut store, q) = store_with_queue("main");
    store
        .insert_row(NewQueueRow {
            queue_id: q,
            left_player_name: None,
            right_player_name: None,
            queue_order: 0,
        })
        .unwrap();
    let shown = add_row(q, "A".to_string(), Side::Right, &mut store).unwrap();
    assert_eq!(store.list_rows(q).len(), 2);
    let entries = get_queue_entries(q, &store).unwrap();
    assert_eq!(entries.len(), 1);
    assert_eq!(entries[0].id, shown);
    assert_eq!(entries[0].order, 1);
}

#[test]
fn new_queue_record_keeps_names() {
    let mut store = QueueStore::new();
    let queue = store
        .add_queue(NewQueue { url_name: "u".to_string(), display_name: "D".to_string() })
        .unwrap();
    assert_eq!(queue.url_name, "u");
    assert_eq!(queue.display_name, "D");
    assert!(queue.created_at > 0);
}

#[test]
fn append_under_a_chosen_identifier() {
    let (mut store, q) = store_with_queue("main");
    assert_eq!(append_new_row_as(q, 0, Side::Left, "A".to_string(), 500, 9, &mut store), Ok(500));
    let row = store.get_row(500).unwrap();
    assert_eq!((row.queue_id, row.queue_order, row.created_at), (q, 0, 9));
    assert_eq!(row.left_player_name, Some("A".to_string()));
    assert_eq!(row.right_player_name, None);
    assert_eq!(
        append_new_row_as(q, 1, Side::Left, "B".to_string(), 500, 9, &mut store).unwrap_err(),
        ApiError::StoreError
    );
    assert_eq!(
        append_new_row_as(q, 0, Side::Left, "B".to_string(), 500, 9, &mut store).unwrap_err(),
        ApiError::InvalidOrder { expected: 1, got: 0 }
    );
    assert_eq!(
        append_new_row_as(q + 1, 0, Side::Left, "B".to_string(), 501, 9, &mut store).unwrap_err(),
        ApiError::NotFound
    );
    assert_eq!(append_new_row_as(q, 1, Side::Right, "B".to_string(), 501, 9, &mut store), Ok(501));
    assert_eq!(store.list_rows(q).len(), 2);
}

#[test]
fn add_player_at_fills_or_appends() {
    let (mut store, q) = store_with_queue("main");
    let r0 = add_player_at(q, 0, Side::Left, "Alice".to_string(), &mut store).unwrap();
    assert_eq!(add_player_at(q, 0, Side::Right, "Bob".to_string(), &mut store), Ok(r0));
    assert_eq!(
        add_player_at(q, 0, Side::Right, "Eve".to_string(), &mut store).unwrap_err(),
        ApiError::Occupied { row_id: r0, order: 0, side: Side::Right }
    );
    assert_eq!(
        add_player_at(q, 2, Side::Left, "Eve".to_string(), &mut store).unwrap_err(),
        ApiError::InvalidOrder { expected: 1, got: 2 }
    );
    let r1 = add_player_at(q, 1, Side::Right, "Carol".to_string(), &mut store).unwrap();
    assert_ne!(r0, r1);
    let rows = store.list_rows(q);
    assert_eq!(rows.len(), 2);
    assert_eq!(rows[0].left_player_name.as_deref(), Some("Alice"));
    assert_eq!(rows[0].right_player_name.as_deref(), Some("Bob"));
    assert_eq!(rows[1].left_player_name, None);
    assert_eq!(rows[1].right_player_name.as_deref(), Some("Carol"));
}
