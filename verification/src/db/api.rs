//! The operations a caller performs on a queue, and the rules that decide
//! them: a side is filled at most once, and a row is appended only at the
//! tail of its queue.

use crate::db::models::{name_view, NewQueue, NewQueueRow, QueueRow, QueueView, RowView};
use crate::db::laws::{
    lemma_add_ordered, lemma_append_ordered, lemma_assign_ordered, lemma_delete_ordered,
};
use crate::db::state::StoreState;
use crate::db::store::{fresh_id, now_micros, QueueStore};
use crate::queue::{convert_rows, entries_of, entry_views, QueueEntry, QueueInfo, QueueInfoView, Side};
use vstd::prelude::*;

verus! {

/// Why an operation on the store was refused.
#[derive(Clone, Copy, Debug, PartialEq, Eq, Structural)]
pub enum ApiError {
    /// No connection to the store could be had.
    PoolError,
    /// The store failed for a reason of its own.
    StoreError,
    /// The queue or row asked for does not exist.
    NotFound,
    /// A queue with the same URL name exists already.
    Conflict,
    /// The side asked for is taken.
    Occupied { row_id: u128, order: i32, side: Side },
    /// The order asked for is not the one that follows the tail.
    InvalidOrder { expected: i64, got: i32 },
}

/// The name that sits on one side of a row, if any.
pub open spec fn slot_of(row: RowView, side: Side) -> Option<Seq<char>> {
    match side {
        Side::Left => row.left,
        Side::Right => row.right,
    }
}

/// A row with one of its sides set to a name and nothing else changed.
pub open spec fn with_slot(row: RowView, side: Side, name: Seq<char>) -> RowView {
    match side {
        Side::Left => RowView { left: Some(name), ..row },
        Side::Right => RowView { right: Some(name), ..row },
    }
}

/// The order that the next row of a queue must carry: zero for a queue
/// without rows, else one more than its highest order.
pub open spec fn expected_order(max_order: Option<i32>) -> int {
    match max_order {
        Some(max) => max + 1,
        None => 0,
    }
}

/// Computes the order that the next row of a queue must carry.
pub fn next_order(max_order: Option<i32>) -> (order: i64)
    ensures
        order == expected_order(max_order),
{
    match max_order {
        Some(max) => max as i64 + 1,
        None => 0,
    }
}

/// Seats a participant on one side of a row.
///
/// The row comes back with that side filled and everything else as it was.
/// A side that is taken is never overwritten: the attempt is refused and
/// names the row, its order and the side.
pub fn fill_slot(row: QueueRow, side: Side, player: String) -> (result: Result<QueueRow, ApiError>)
    ensures
        match result {
            Ok(filled) => slot_of(row@, side) is None && filled@ == with_slot(row@, side, player@),
            Err(e) => slot_of(row@, side) is Some && e == (ApiError::Occupied {
                row_id: row.id,
                order: row.queue_order,
                side,
            }),
        },
{
    let mut row = row;
    match side {
        Side::Left => {
            if row.left_player_name.is_some() {
                return Err(ApiError::Occupied { row_id: row.id, order: row.queue_order, side });
            }
            row.left_player_name = Some(player);
        },
        Side::Right => {
            if row.right_player_name.is_some() {
                return Err(ApiError::Occupied { row_id: row.id, order: row.queue_order, side });
            }
            row.right_player_name = Some(player);
        },
    }
    Ok(row)
}

/// What a fresh row holds: the participant on the side asked for and nobody
/// on the other.
pub open spec fn fresh_slots(side: Side, name: Seq<char>) -> (Option<Seq<char>>, Option<Seq<char>>) {
    match side {
        Side::Left => (Some(name), None),
        Side::Right => (None, Some(name)),
    }
}

/// Prepares the row that opens a new place at the tail of a queue.
///
/// `max_order` is the highest order the queue holds, `None` for a queue
/// without rows. The row is prepared exactly when `order` is the one that
/// follows; any other order is refused and told which one was expected.
pub fn new_row(
    queue_id: u128,
    max_order: Option<i32>,
    order: i32,
    side: Side,
    player: String,
) -> (result: Result<NewQueueRow, ApiError>)
    ensures
        match result {
            Ok(row) => {
                &&& order == expected_order(max_order)
                &&& row.queue_id == queue_id
                &&& row.queue_order == order
                &&& (name_view(row.left_player_name), name_view(row.right_player_name))
                    == fresh_slots(side, player@)
            },
            Err(e) => {
                &&& order != expected_order(max_order)
                &&& e == (ApiError::InvalidOrder { expected: expected_order(max_order) as i64, got: order })
            },
        },
{
    let expected = next_order(max_order);
    if order as i64 != expected {
        return Err(ApiError::InvalidOrder { expected, got: order });
    }
    let (left, right) = match side {
        Side::Left => (Some(player), None),
        Side::Right => (None, Some(player)),
    };
    Ok(NewQueueRow { queue_id, left_player_name: left, right_player_name: right, queue_order: order })
}

/// Seats a participant on one side of a stored row.
///
/// The row is read, the side is inspected, and where it is free both slots
/// are written back, the untouched one with the value it had. The answer is
/// the identifier that was passed in: no row was created. A row that is not
/// stored gives `NotFound`; a side that is taken gives `Occupied` and leaves
/// the store as it was.
pub fn add_player_to_row(row_id: u128, player: String, side: Side, store: &mut QueueStore) -> (result:
    Result<u128, ApiError>)
    requires
        old(store).wf(),
    ensures
        final(store).wf(),
        match old(store)@.assign(row_id, side, player@) {
            Ok(after) => result == Ok::<u128, ApiError>(row_id) && final(store)@ == after,
            Err(e) => result == Err::<u128, ApiError>(e) && final(store)@ == old(store)@,
        },
        old(store)@.has_row(row_id) && slot_of(old(store)@.row(row_id), side) is Some ==> {
            &&& result == Err::<u128, ApiError>(
                ApiError::Occupied { row_id, order: old(store)@.row(row_id).order, side },
            )
            &&& final(store)@ == old(store)@
        },
        old(store)@.ordered() ==> final(store)@.ordered(),
{
    proof {
        if old(store)@.assign(row_id, side, player@) is Ok {
            lemma_assign_ordered(old(store)@, row_id, side, player@);
        }
    }
    let row = match store.get_row(row_id) {
        Some(row) => row,
        None => {
            return Err(ApiError::NotFound);
        },
    };
    match fill_slot(row, side, player) {
        Ok(filled) => {
            store.update_row_slots(row_id, filled.left_player_name, filled.right_player_name);
            Ok(filled.id)
        },
        Err(e) => Err(e),
    }
}

/// Appends a row to a queue for its first participant, under an identifier
/// and a creation time chosen by the caller.
///
/// The row is appended only when `order` is the one that follows the tail
/// of the queue: zero for a queue without rows, else one more than its
/// highest order. Any other order gives `InvalidOrder`. With the right order,
/// a queue that is not stored gives `NotFound`, and then an identifier that
/// is in use gives `StoreError`. Otherwise the row is stored with the
/// participant on the side asked for and nobody on the other, and its
/// identifier is the answer. A refusal leaves the store as it was.
pub fn append_new_row_as(
    queue_id: u128,
    order: i32,
    side: Side,
    player: String,
    id: u128,
    created_at: i64,
    store: &mut QueueStore,
) -> (result: Result<u128, ApiError>)
    requires
        old(store).wf(),
    ensures
        final(store).wf(),
        match old(store)@.append(queue_id, order, side, player@, id, created_at) {
            Ok(after) => result == Ok::<u128, ApiError>(id) && final(store)@ == after,
            Err(e) => result == Err::<u128, ApiError>(e) && final(store)@ == old(store)@,
        },
        order != expected_order(old(store)@.tail(queue_id)) ==> result is Err
            && result->Err_0 is InvalidOrder,
        old(store)@.ordered() ==> final(store)@.ordered(),
{
    proof {
        if old(store)@.append(queue_id, order, side, player@, id, created_at) is Ok {
            if old(store)@.ordered() {
                lemma_append_ordered(old(store)@, queue_id, order, side, player@, id, created_at);
            }
        }
    }
    let max_order = store.get_max_order(queue_id);
    let row = match new_row(queue_id, max_order, order, side, player) {
        Ok(row) => row,
        Err(e) => {
            return Err(e);
        },
    };
    match store.insert_row_as(row, id, created_at) {
        Ok(stored) => Ok(stored.id),
        Err(e) => Err(e),
    }
}

/// Whether `after` is `before` with one row appended that opens the given
/// place for the given participant under the given identifier.
pub open spec fn appended(
    before: StoreState,
    after: StoreState,
    queue_id: u128,
    order: i32,
    side: Side,
    name: Seq<char>,
    id: u128,
) -> bool {
    &&& after.rows.len() == before.rows.len() + 1
    &&& before.append(queue_id, order, side, name, id, after.rows.last().created_at) == Ok::<
        StoreState,
        ApiError,
    >(after)
}

/// What holds of an attempt to append a row under an identifier drawn at
/// random, whatever was drawn.
///
/// An answer names the new row, and the store holds that row behind all
/// others and is otherwise as it was. A refusal left the store as it was, and
/// says why: `InvalidOrder` for an order other than the one that follows the
/// tail, then `NotFound` for a queue that is not stored, and `StoreError`, in
/// a store that holds rows, where the identifier drawn was in use.
pub open spec fn append_outcome(
    before: StoreState,
    after: StoreState,
    result: Result<u128, ApiError>,
    queue_id: u128,
    order: i32,
    side: Side,
    name: Seq<char>,
) -> bool {
    match result {
        Ok(id) => appended(before, after, queue_id, order, side, name, id),
        Err(e) => {
            &&& after == before
            &&& e == if order != expected_order(before.tail(queue_id)) {
                ApiError::InvalidOrder {
                    expected: expected_order(before.tail(queue_id)) as i64,
                    got: order,
                }
            } else if !before.has_queue(queue_id) {
                ApiError::NotFound
            } else {
                ApiError::StoreError
            }
            &&& e == ApiError::StoreError ==> before.rows.len() > 0
        },
    }
}

/// Appends a row to a queue for its first participant.
///
/// The row is appended only when `order` is the one that follows the tail
/// of the queue: zero for a queue without rows, else one more than its
/// highest order. Any other order gives `InvalidOrder`, and asking again with
/// the same order gives it again, since nothing was changed. With the right
/// order, a queue that is not stored gives `NotFound`. The identifier of the
/// row is drawn at random; should it be in use, which only a store that holds
/// rows can cause, the answer is `StoreError`. In every other case the row is
/// stored with the participant on the side asked for and nobody on the other,
/// and its identifier is the answer.
pub fn append_new_row(
    queue_id: u128,
    order: i32,
    side: Side,
    player: String,
    store: &mut QueueStore,
) -> (result: Result<u128, ApiError>)
    requires
        old(store).wf(),
    ensures
        final(store).wf(),
        append_outcome(old(store)@, final(store)@, result, queue_id, order, side, player@),
        old(store)@.ordered() ==> final(store)@.ordered(),
{
    let id = fresh_id();
    let created_at = now_micros();
    let result = append_new_row_as(queue_id, order, side, player, id, created_at, store);
    proof {
        if result is Ok {
            assert(store@.rows.last().created_at == created_at);
        } else if result->Err_0 == ApiError::StoreError {
            assert(old(store)@.has_row(id));
        }
    }
    result
}

/// The summary shown for a stored queue.
pub open spec fn info_of(queue: QueueView) -> QueueInfoView {
    QueueInfoView { id: queue.id, url_name: queue.url_name, display_name: queue.display_name }
}

/// The views of a sequence of summaries.
pub open spec fn info_views(infos: Seq<QueueInfo>) -> Seq<QueueInfoView> {
    infos.map_values(|i: QueueInfo| i@)
}

/// Lists a summary of every queue, in the order in which they were added.
pub fn get_all_queues(store: &QueueStore) -> (result: Result<Vec<QueueInfo>, ApiError>)
    ensures
        result matches Ok(infos) && info_views(infos@) == store@.queues.map_values(
            |q: QueueView| info_of(q),
        ),
{
    let queues = store.list_queues();
    let ghost listed = queues@;
    let mut infos: Vec<QueueInfo> = Vec::new();
    let mut i: usize = 0;
    while i < queues.len()
        invariant
            i <= queues.len(),
            queues@ == listed,
            infos@.len() == i,
            forall|j: int| 0 <= j < i ==> (#[trigger] infos@[j])@ == info_of(listed[j]@),
        decreases queues.len() - i,
    {
        let info = QueueInfo::from(queues[i].clone());
        infos.push(info);
        i += 1;
    }
    assert(info_views(infos@) =~= store@.queues.map_values(|q: QueueView| info_of(q))) by {
        assert(forall|j: int|
            0 <= j < listed.len() ==> store@.queues[j] == (#[trigger] listed[j])@);
    }
    Ok(infos)
}

/// Finds the queue that answers to a URL name and gives its summary; where
/// none does, the answer is `NotFound`.
pub fn get_queue_info(url_name: String, store: &QueueStore) -> (result: Result<QueueInfo, ApiError>)
    requires
        store.wf(),
    ensures
        match result {
            Ok(info) => exists|queue: QueueView|
                {
                    &&& #[trigger] store@.queues.contains(queue)
                    &&& queue.url_name == url_name@
                    &&& info@ == info_of(queue)
                },
            Err(e) => !store@.has_url_name(url_name@) && e == ApiError::NotFound,
        },
{
    match store.get_queue_by_url_name(&url_name) {
        Ok(queue) => {
            let ghost found = queue@;
            let info = QueueInfo::from(queue);
            assert(store@.queues.contains(found) && info@ == info_of(found));
            Ok(info)
        },
        Err(e) => Err(e),
    }
}

/// Lists the entries of a queue, ascending by order.
///
/// A row that holds nobody is left out; the rows around it are listed all
/// the same.
pub fn get_queue_entries(queue_id: u128, store: &QueueStore) -> (result: Result<
    Vec<QueueEntry>,
    ApiError,
>)
    ensures
        result matches Ok(entries) && entry_views(entries@) == entries_of(
            store@.listing(queue_id),
        ),
{
    let rows = store.list_rows(queue_id);
    let (entries, _) = convert_rows(rows);
    Ok(entries)
}

/// Stores a new queue and gives its summary.
///
/// A URL name that is in use gives `Conflict`. The identifier of the queue is
/// drawn at random; should it be in use, which only a store that holds queues
/// can cause, the answer is `StoreError`.
pub fn add_queue(display_name: String, url_name: String, store: &mut QueueStore) -> (result: Result<
    QueueInfo,
    ApiError,
>)
    requires
        old(store).wf(),
    ensures
        final(store).wf(),
        match result {
            Ok(info) => {
                &&& !old(store)@.has_url_name(url_name@)
                &&& !old(store)@.has_queue(info.id)
                &&& info@.url_name == url_name@
                &&& info@.display_name == display_name@
                &&& final(store)@.queues.len() == old(store)@.queues.len() + 1
                &&& final(store)@ == old(store)@.with_queue(final(store)@.queues.last())
                &&& info@ == info_of(final(store)@.queues.last())
            },
            Err(e) => {
                &&& final(store)@ == old(store)@
                &&& e == if old(store)@.has_url_name(url_name@) {
                    ApiError::Conflict
                } else {
                    ApiError::StoreError
                }
                &&& old(store)@.queues.len() > 0
            },
        },
        old(store)@.ordered() ==> final(store)@.ordered(),
{
    let new_queue = NewQueue { display_name, url_name };
    match store.add_queue(new_queue) {
        Ok(queue) => {
            proof {
                lemma_add_ordered(old(store)@, queue@);
            }
            Ok(QueueInfo::from(queue))
        },
        Err(e) => Err(e),
    }
}

/// Deletes a queue together with all of its rows. Deleting a queue that is
/// not stored changes nothing and is no error.
pub fn delete_queue(queue_id: u128, store: &mut QueueStore) -> (result: Result<(), ApiError>)
    requires
        old(store).wf(),
    ensures
        final(store).wf(),
        result is Ok,
        final(store)@ == old(store)@.without_queue(queue_id),
        !final(store)@.has_queue(queue_id),
        final(store)@.rows_of(queue_id) == Seq::<RowView>::empty(),
        final(store)@.listing(queue_id) == Seq::<RowView>::empty(),
        old(store)@.ordered() ==> final(store)@.ordered(),
{
    proof {
        lemma_delete_ordered(old(store)@, queue_id);
    }
    store.delete_queue(queue_id);
    Ok(())
}

/// The order to ask for when the next row of a queue is wanted: the one
/// that follows the tail, or the highest order there is where the tail has
/// reached it.
pub open spec fn order_to_ask(max_order: Option<i32>) -> i32 {
    if expected_order(max_order) <= i32::MAX {
        expected_order(max_order) as i32
    } else {
        i32::MAX
    }
}

/// Appends a row to a queue at whatever order follows its tail.
///
/// This is `append_new_row` asked with the order that the queue expects, so
/// the order is refused only where the tail has reached the highest order
/// there is.
pub fn add_row(queue_id: u128, player: String, side: Side, store: &mut QueueStore) -> (result:
    Result<u128, ApiError>)
    requires
        old(store).wf(),
    ensures
        final(store).wf(),
        append_outcome(
            old(store)@,
            final(store)@,
            result,
            queue_id,
            order_to_ask(old(store)@.tail(queue_id)),
            side,
            player@,
        ),
        result matches Err(ApiError::InvalidOrder { expected, got }) ==> old(store)@.tail(queue_id)
            == Some(i32::MAX) && expected == 2147483648i64 && got == i32::MAX,
        old(store)@.ordered() ==> final(store)@.ordered(),
{
    let expected = next_order(store.get_max_order(queue_id));
    let order: i32 = if expected <= i32::MAX as i64 {
        expected as i32
    } else {
        i32::MAX
    };
    append_new_row(queue_id, order, side, player, store)
}

/// Adds a participant at a place of a queue, whether or not a row stands
/// there.
///
/// Where the queue holds a row at `order`, the participant is seated in that
/// row, as `add_player_to_row` does. Where it holds none, a row is appended at
/// that order, as `append_new_row` does. Either way the answer is the
/// identifier of the row that now holds the participant.
pub fn add_player_at(
    queue_id: u128,
    order: i32,
    side: Side,
    player: String,
    store: &mut QueueStore,
) -> (result: Result<u128, ApiError>)
    requires
        old(store).wf(),
    ensures
        final(store).wf(),
        match old(store)@.row_at(queue_id, order) {
            Some(row) => match old(store)@.assign(row.id, side, player@) {
                Ok(after) => result == Ok::<u128, ApiError>(row.id) && final(store)@ == after,
                Err(e) => result == Err::<u128, ApiError>(e) && final(store)@ == old(store)@,
            },
            None => append_outcome(
                old(store)@,
                final(store)@,
                result,
                queue_id,
                order,
                side,
                player@,
            ),
        },
        old(store)@.ordered() ==> final(store)@.ordered(),
{
    match store.get_row_by_order(queue_id, order) {
        Some(row) => add_player_to_row(row.id, player, side, store),
        None => append_new_row(queue_id, order, side, player, store),
    }
}

} // verus!
