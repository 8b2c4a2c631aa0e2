use itq::db::api::{add_queue, ApiError};
use itq::db::store::QueueStore;
use itq::pages::add_player::{
    add_player, local_uuid_helper, resolve_pending, submit_locally, AddPlayerError, LocalChange,
};
use itq::pages::rows::{local_entries, open_modal, AddModalState, LocalQueueEntry, LocalUuidState};
use itq::queue::{EntryPlayers, QueueEntry, Side};

fn shown(id: LocalUuidState, left: Option<&str>, right: Option<&str>) -> LocalQueueEntry {
    LocalQueueEntry { id, left: left.map(|s| s.to_string()), right: right.map(|s| s.to_string()) }
}

#[test]
fn helper_reads_exactly_one_identifier() {
    assert_eq!(local_uuid_helper(Some(1), None), Ok(LocalUuidState::Resolved(1)));
    assert_eq!(local_uuid_helper(None, Some(2)), Ok(LocalUuidState::Pending(2)));
    assert_eq!(
        local_uuid_helper(Some(1), Some(2)),
        Err(AddPlayerError::InvalidIds { resolved: Some(1), pending: Some(2) })
    );
    assert_eq!(
        local_uuid_helper(None, None),
        Err(AddPlayerError::InvalidIds { resolved: None, pending: None })
    );
}

#[test]
fn modal_names_only_stored_rows() {
    assert_eq!(
        open_modal(Some(LocalUuidState::Resolved(5)), Side::Left, 2),
        AddModalState::Open { row_id: Some(5), side: Side::Left, order: 2 }
    );
    assert_eq!(
        open_modal(Some(LocalUuidState::Pending(5)), Side::Right, 3),
        AddModalState::Open { row_id: None, side: Side::Right, order: 3 }
    );
    assert_eq!(
        open_modal(None, Side::Right, 0),
        AddModalState::Open { row_id: None, side: Side::Right, order: 0 }
    );
}

#[test]
fn modal_visibility() {
    assert!(open_modal(None, Side::Left, 0).is_visible());
    assert!(!AddModalState::Closed.is_visible());
}

#[test]
fn pending_rows_are_inactive() {
    assert!(shown(LocalUuidState::Pending(1), None, None).is_inactive());
    assert!(!shown(LocalUuidState::Resolved(1), None, None).is_inactive());
}

#[test]
fn entries_become_resolved_rows() {
    let entries = vec![
        QueueEntry { id: 1, queue_id: 9, order: 0, players: EntryPlayers::LeftOnly("a".into()) },
        QueueEntry {
            id: 2,
            queue_id: 9,
            order: 1,
            players: EntryPlayers::Both("b".into(), "c".into()),
        },
        QueueEntry { id: 3, queue_id: 9, order: 2, players: EntryPlayers::RightOnly("d".into()) },
    ];
    let rows = local_entries(entries);
    assert_eq!(rows.len(), 3);
    assert_eq!(rows[0].id, LocalUuidState::Resolved(1));
    assert_eq!((rows[0].left.as_deref(), rows[0].right.as_deref()), (Some("a"), None));
    assert_eq!(rows[1].id, LocalUuidState::Resolved(2));
    assert_eq!((rows[1].left.as_deref(), rows[1].right.as_deref()), (Some("b"), Some("c")));
    assert_eq!((rows[2].left.as_deref(), rows[2].right.as_deref()), (None, Some("d")));
}

#[test]
fn submit_fills_a_free_side() {
    let mut rows = vec![
        shown(LocalUuidState::Resolved(1), Some("a"), None),
        shown(LocalUuidState::Resolved(2), None, Some("b")),
    ];
    let change = submit_locally(&mut rows, LocalUuidState::Resolved(2), Side::Left, 1, "c".into());
    assert_eq!(change, LocalChange::Filled);
    assert_eq!((rows[1].left.as_deref(), rows[1].right.as_deref()), (Some("c"), Some("b")));
    assert_eq!((rows[0].left.as_deref(), rows[0].right.as_deref()), (Some("a"), None));
    assert_eq!(rows[1].id, LocalUuidState::Resolved(2));
}

#[test]
fn submit_leaves_a_taken_side() {
    let mut rows = vec![shown(LocalUuidState::Resolved(1), Some("a"), None)];
    let change = submit_locally(&mut rows, LocalUuidState::Resolved(1), Side::Left, 0, "z".into());
    assert_eq!(change, LocalChange::Occupied);
    assert_eq!((rows[0].left.as_deref(), rows[0].right.as_deref()), (Some("a"), None));
}

#[test]
fn submit_appends_a_pending_row() {
    let mut rows = vec![shown(LocalUuidState::Resolved(1), Some("a"), None)];
    let change = submit_locally(&mut rows, LocalUuidState::Pending(50), Side::Right, 1, "n".into());
    assert_eq!(change, LocalChange::Appended);
    assert_eq!(rows.len(), 2);
    assert_eq!(rows[1].id, LocalUuidState::Pending(50));
    assert_eq!((rows[1].left.as_deref(), rows[1].right.as_deref()), (None, Some("n")));
}

#[test]
fn pending_row_is_resolved_once() {
    let mut rows = vec![
        shown(LocalUuidState::Resolved(50), Some("a"), None),
        shown(LocalUuidState::Pending(50), None, Some("b")),
        shown(LocalUuidState::Pending(50), Some("c"), None),
    ];
    assert!(resolve_pending(&mut rows, 50, 77));
    assert_eq!(rows[0].id, LocalUuidState::Resolved(50));
    assert_eq!(rows[1].id, LocalUuidState::Resolved(77));
    assert_eq!((rows[1].left.as_deref(), rows[1].right.as_deref()), (None, Some("b")));
    assert_eq!(rows[2].id, LocalUuidState::Pending(50));
    assert!(!resolve_pending(&mut rows, 51, 78));
    assert_eq!(rows[2].id, LocalUuidState::Pending(50));
}

#[test]
fn add_player_dispatches_on_the_identifier() {
    let mut store = QueueStore::new();
    let q = add_queue("Table".into(), "main".into(), &mut store).unwrap().id;
    let (temp, r0) =
        add_player(q, None, Some(900), Side::Left, "Alice".into(), &mut store).unwrap().unwrap();
    assert_eq!(temp, 900);
    assert_eq!(store.get_row(r0).unwrap().queue_order, 0);
    assert_eq!(add_player(q, Some(r0), None, Side::Right, "Bob".into(), &mut store), Ok(None));
    let row = store.get_row(r0).unwrap();
    assert_eq!(row.left_player_name.as_deref(), Some("Alice"));
    assert_eq!(row.right_player_name.as_deref(), Some("Bob"));
    assert_eq!(
        add_player(q, Some(r0), None, Side::Right, "Eve".into(), &mut store),
        Err(AddPlayerError::Api(ApiError::Occupied { row_id: r0, order: 0, side: Side::Right }))
    );
    assert_eq!(
        add_player(q, Some(r0), Some(1), Side::Right, "Eve".into(), &mut store),
        Err(AddPlayerError::InvalidIds { resolved: Some(r0), pending: Some(1) })
    );
    assert_eq!(
        add_player(q, None, None, Side::Right, "Eve".into(), &mut store),
        Err(AddPlayerError::InvalidIds { resolved: None, pending: None })
    );
    let (_, r1) =
        add_player(q, None, Some(901), Side::Right, "Carol".into(), &mut store).unwrap().unwrap();
    assert_eq!(store.get_row(r1).unwrap().queue_order, 1);
    assert_eq!(store.list_rows(q).len(), 2);
}
