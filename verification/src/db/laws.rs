//! What holds of every store, whatever was done to it: its guarantees
//! survive each operation, and rows that are appended and filled by the rules
//! stay numbered without gap or repeat.

use crate::db::api::{expected_order, with_slot, ApiError};
use crate::db::models::{QueueView, RowView};
use crate::db::state::{
    lemma_listed, lemma_tail_is, lemma_tail_none, lemma_without_queue, Step, StoreState,
};
use crate::queue::Side;
use vstd::prelude::*;

verus! {

/// The store that holds nothing is valid, and no queue in it has a row out of
/// order.
pub proof fn lemma_empty_ordered()
    ensures
        StoreState::empty().valid(),
        StoreState::empty().ordered(),
{
    let start = StoreState::empty();
    assert forall|q: u128| start.dense(q) by {
        reveal(Seq::filter);
        assert(start.orders_of(q) =~= Seq::<int>::empty());
    }
}

/// A store stays valid when a queue with a new identifier and a new URL name
/// is added, and its rows are not touched.
pub proof fn lemma_add_valid(state: StoreState, queue: QueueView)
    requires
        state.valid(),
        state.add(queue) is Ok,
    ensures
        state.with_queue(queue).valid(),
        state.with_queue(queue).rows == state.rows,
{
    let after = state.with_queue(queue);
    assert forall|k: int| 0 <= k < after.rows.len() implies after.has_queue(
        #[trigger] after.rows[k].queue_id,
    ) by {
        assert(after.rows[k] == state.rows[k]);
        assert(state.has_queue(state.rows[k].queue_id));
        let w = choose|w: int|
            0 <= w < state.queues.len() && state.queues[w].id == state.rows[k].queue_id;
        assert(after.queues[w].id == after.rows[k].queue_id);
    }
}

/// A store stays valid when a row with a new identifier is added to a
/// stored queue.
pub proof fn lemma_with_row_valid(state: StoreState, row: RowView)
    requires
        state.valid(),
        state.has_queue(row.queue_id),
        !state.has_row(row.id),
    ensures
        state.with_row(row).valid(),
{
    let after = state.with_row(row);
    assert forall|k: int| 0 <= k < after.rows.len() implies after.has_queue(
        #[trigger] after.rows[k].queue_id,
    ) by {
        if k < state.rows.len() {
            assert(after.rows[k] == state.rows[k]);
            assert(state.has_queue(state.rows[k].queue_id));
        } else {
            assert(after.rows[k] == row);
        }
        assert(state.has_queue(after.rows[k].queue_id));
        let w = choose|w: int|
            0 <= w < state.queues.len() && state.queues[w].id == after.rows[k].queue_id;
        assert(after.queues[w].id == after.rows[k].queue_id);
    }
}

/// A store stays valid when the slots of a row are replaced.
pub proof fn lemma_with_slots_valid(
    state: StoreState,
    row_id: u128,
    left: Option<Seq<char>>,
    right: Option<Seq<char>>,
)
    requires
        state.valid(),
    ensures
        state.with_slots(row_id, left, right).valid(),
{
    let after = state.with_slots(row_id, left, right);
    assert forall|k: int| 0 <= k < after.rows.len() implies after.has_queue(
        #[trigger] after.rows[k].queue_id,
    ) by {
        assert(after.rows[k].queue_id == state.rows[k].queue_id);
        assert(state.has_queue(state.rows[k].queue_id));
        let w = choose|w: int|
            0 <= w < state.queues.len() && state.queues[w].id == state.rows[k].queue_id;
        assert(after.queues[w].id == after.rows[k].queue_id);
    }
    assert forall|a: int, b: int| 0 <= a < b < after.rows.len() implies #[trigger] after.rows[a].id
        != #[trigger] after.rows[b].id by {
        assert(state.rows[a].id != state.rows[b].id);
    }
}

/// In a queue whose rows are numbered without gap or repeat, the order that
/// the next row must carry is the number of rows.
pub proof fn lemma_dense_expects_len(state: StoreState, queue_id: u128)
    requires
        state.dense(queue_id),
    ensures
        expected_order(state.tail(queue_id)) == state.rows_of(queue_id).len(),
{
    let of_queue = |r: RowView| r.queue_id == queue_id;
    let rows = state.rows_of(queue_id);
    let orders = state.orders_of(queue_id);
    let n = rows.len() as int;
    if n == 0 {
        assert forall|i: int| 0 <= i < state.rows.len() implies (#[trigger] state.rows[i]).queue_id
            != queue_id by {
            if state.rows[i].queue_id == queue_id {
                assert(of_queue(state.rows[i]));
                state.rows.lemma_filter_contains(of_queue, i);
            }
        }
        lemma_tail_none(state, queue_id);
    } else {
        assert(orders.contains(n - 1));
        let k = choose|k: int| 0 <= k < orders.len() && orders[k] == n - 1;
        let top = rows[k];
        assert(top.order == n - 1);
        assert(rows.contains(top));
        state.rows.lemma_filter_contains_rev(of_queue, top);
        state.rows.lemma_filter_pred(of_queue, k);
        let at = choose|at: int| 0 <= at < state.rows.len() && state.rows[at] == top;
        assert(state.rows[at].queue_id == queue_id && state.rows[at].order == top.order);
        assert forall|i: int|
            0 <= i < state.rows.len() && (#[trigger] state.rows[i]).queue_id
                == queue_id implies state.rows[i].order <= top.order by {
            assert(of_queue(state.rows[i]));
            state.rows.lemma_filter_contains(of_queue, i);
            let j = choose|j: int| 0 <= j < rows.len() && rows[j] == state.rows[i];
            assert(orders[j] == state.rows[i].order);
            assert(orders.contains(state.rows[i].order as int));
        }
        lemma_tail_is(state, queue_id, top.order);
    }
}

/// Filtering twice, the second time by a condition that entails the first,
/// is filtering by the second condition alone.
proof fn lemma_filter_filter<A>(s: Seq<A>, first: spec_fn(A) -> bool, second: spec_fn(A) -> bool)
    requires
        forall|a: A| #[trigger] second(a) ==> first(a),
    ensures
        s.filter(first).filter(second) == s.filter(second),
    decreases s.len(),
{
    reveal(Seq::filter);
    if s.len() == 0 {
        assert(s.filter(first).filter(second) =~= s.filter(second));
    } else {
        lemma_filter_filter(s.drop_last(), first, second);
        if first(s.last()) {
            s.drop_last().filter(first).lemma_filter_push(s.last(), second);
        }
    }
}

/// Changing the members of a sequence in a way that a condition does not
/// notice, and then filtering by it, is filtering first and changing then.
proof fn lemma_filter_of_changed<A>(s: Seq<A>, change: spec_fn(A) -> A, keep: spec_fn(A) -> bool)
    requires
        forall|a: A| #[trigger] keep(change(a)) == keep(a),
    ensures
        s.map_values(change).filter(keep) == s.filter(keep).map_values(change),
    decreases s.len(),
{
    reveal(Seq::filter);
    if s.len() == 0 {
        assert(s.map_values(change).filter(keep) =~= s.filter(keep).map_values(change));
    } else {
        let front = s.drop_last();
        lemma_filter_of_changed(front, change, keep);
        assert(s.map_values(change).drop_last() =~= front.map_values(change));
        assert(s.map_values(change).last() == change(s.last()));
        if keep(s.last()) {
            assert(front.filter(keep).push(s.last()).map_values(change) =~= front.filter(
                keep,
            ).map_values(change).push(change(s.last())));
        }
    }
}

/// Appending a row by the rules keeps a valid store valid and its rows
/// numbered without gap or repeat: the new row takes the order that equals
/// the number of rows its queue had, and no other queue is touched.
pub proof fn lemma_append_ordered(
    state: StoreState,
    queue_id: u128,
    order: i32,
    side: Side,
    name: Seq<char>,
    id: u128,
    created_at: i64,
)
    requires
        state.valid(),
        state.ordered(),
        state.append(queue_id, order, side, name, id, created_at) is Ok,
    ensures
        state.append(queue_id, order, side, name, id, created_at)->Ok_0.valid(),
        state.append(queue_id, order, side, name, id, created_at)->Ok_0.ordered(),
        order == state.rows_of(queue_id).len(),
        state.append(queue_id, order, side, name, id, created_at)->Ok_0.rows_of(queue_id)
            == state.rows_of(queue_id).push(
            StoreState::opening_row(queue_id, order, side, name, id, created_at),
        ),
{
    let row = StoreState::opening_row(queue_id, order, side, name, id, created_at);
    let after = state.with_row(row);
    lemma_with_row_valid(state, row);
    assert(state.dense(queue_id));
    lemma_dense_expects_len(state, queue_id);
    assert forall|q: u128| after.dense(q) by {
        let of_queue = |r: RowView| r.queue_id == q;
        assert(state.dense(q));
        state.rows.lemma_filter_push(row, of_queue);
        if q == queue_id {
            let before = state.orders_of(q);
            assert(after.orders_of(q) =~= before.push(order as int));
            assert forall|o: int| after.orders_of(q).contains(o) <==> 0 <= o < after.orders_of(
                q,
            ).len() by {
                if after.orders_of(q).contains(o) {
                    let k = choose|k: int|
                        0 <= k < after.orders_of(q).len() && after.orders_of(q)[k] == o;
                    if k < before.len() {
                        assert(before.contains(before[k]));
                    }
                }
                if 0 <= o < after.orders_of(q).len() {
                    if o < before.len() {
                        assert(before.contains(o));
                        let k = choose|k: int| 0 <= k < before.len() && before[k] == o;
                        assert(after.orders_of(q)[k] == o);
                    } else {
                        assert(after.orders_of(q)[before.len() as int] == o);
                    }
                }
            }
            assert forall|a: int, b: int|
                0 <= a < after.orders_of(q).len() && 0 <= b < after.orders_of(q).len() && a
                    != b implies after.orders_of(q)[a] != after.orders_of(q)[b] by {
                if a < before.len() {
                    assert(before.contains(before[a]));
                }
                if b < before.len() {
                    assert(before.contains(before[b]));
                }
            }
        }
    }
    state.rows.lemma_filter_push(row, |r: RowView| r.queue_id == queue_id);
}

/// Seating a participant by the rules keeps a valid store valid and changes
/// no order: rows that were numbered without gap or repeat still are.
pub proof fn lemma_assign_ordered(state: StoreState, row_id: u128, side: Side, name: Seq<char>)
    requires
        state.valid(),
        state.assign(row_id, side, name) is Ok,
    ensures
        state.assign(row_id, side, name)->Ok_0.valid(),
        forall|q: u128| #[trigger]
            state.assign(row_id, side, name)->Ok_0.orders_of(q) == state.orders_of(q),
        state.ordered() ==> state.assign(row_id, side, name)->Ok_0.ordered(),
{
    let filled = with_slot(state.row(row_id), side, name);
    let after = state.with_slots(row_id, filled.left, filled.right);
    lemma_with_slots_valid(state, row_id, filled.left, filled.right);
    let change = |r: RowView|
        if r.id == row_id {
            RowView { left: filled.left, right: filled.right, ..r }
        } else {
            r
        };
    assert forall|q: u128| #[trigger] after.orders_of(q) == state.orders_of(q) by {
        let of_queue = |r: RowView| r.queue_id == q;
        lemma_filter_of_changed(state.rows, change, of_queue);
        assert(after.rows == state.rows.map_values(change));
        assert(after.orders_of(q) =~= state.orders_of(q));
    }
    if state.ordered() {
        assert forall|q: u128| after.dense(q) by {
            assert(state.dense(q));
            assert(after.orders_of(q) == state.orders_of(q));
        }
    }
}

/// Adding a queue keeps a valid store valid and touches no row.
pub proof fn lemma_add_ordered(state: StoreState, queue: QueueView)
    requires
        state.valid(),
        state.add(queue) is Ok,
    ensures
        state.add(queue)->Ok_0.valid(),
        state.add(queue)->Ok_0.rows == state.rows,
        state.ordered() ==> state.add(queue)->Ok_0.ordered(),
{
    lemma_add_valid(state, queue);
    let after = state.with_queue(queue);
    if state.ordered() {
        assert forall|q: u128| after.dense(q) by {
            assert(state.dense(q));
            assert(after.orders_of(q) == state.orders_of(q));
        }
    }
}

/// Deleting a queue keeps a valid store valid, leaves the deleted queue
/// without rows and every other queue with the rows it had.
pub proof fn lemma_delete_ordered(state: StoreState, id: u128)
    requires
        state.valid(),
    ensures
        state.without_queue(id).valid(),
        state.without_queue(id).rows_of(id) == Seq::<RowView>::empty(),
        state.without_queue(id).listing(id) == Seq::<RowView>::empty(),
        forall|q: u128| q != id ==> #[trigger] state.without_queue(id).rows_of(q) == state.rows_of(q),
        state.ordered() ==> state.without_queue(id).ordered(),
{
    let after = state.without_queue(id);
    lemma_without_queue(state, id);
    lemma_listed(after.rows, id);
    assert(after.listing(id) =~= Seq::<RowView>::empty());
    let kept = |r: RowView| r.queue_id != id;
    assert forall|q: u128| q != id implies #[trigger] after.rows_of(q) == state.rows_of(q) by {
        let of_queue = |r: RowView| r.queue_id == q;
        lemma_filter_filter(state.rows, kept, of_queue);
    }
    if state.ordered() {
        assert forall|q: u128| after.dense(q) by {
            if q == id {
                assert(after.orders_of(q) =~= Seq::<int>::empty());
            } else {
                assert(state.dense(q));
                assert(after.rows_of(q) == state.rows_of(q));
            }
        }
    }
}

/// A row stored into a queue without rows is, right after, the whole listing
/// of that queue.
pub proof fn lemma_first_row_is_listed(state: StoreState, row: RowView)
    requires
        state.rows_of(row.queue_id).len() == 0,
    ensures
        state.with_row(row).listing(row.queue_id) == seq![row],
        state.with_row(row).rows_of(row.queue_id) == seq![row],
{
    let after = state.with_row(row);
    lemma_listed(state.rows, row.queue_id);
    assert(after.rows.drop_last() =~= state.rows);
    assert(state.listing(row.queue_id) =~= Seq::<RowView>::empty());
    assert(after.listing(row.queue_id) =~= seq![row]);
    state.rows.lemma_filter_push(row, |r: RowView| r.queue_id == row.queue_id);
    assert(after.rows_of(row.queue_id) =~= seq![row]);
}

/// One operation keeps a valid store valid and its rows numbered without gap
/// or repeat.
pub proof fn lemma_step_ordered(state: StoreState, step: Step)
    requires
        state.valid(),
        state.ordered(),
    ensures
        state.step(step).valid(),
        state.step(step).ordered(),
{
    match step {
        Step::AddQueue { queue } => {
            if state.add(queue) is Ok {
                lemma_add_ordered(state, queue);
            }
        },
        Step::DeleteQueue { id } => {
            lemma_delete_ordered(state, id);
        },
        Step::Append { queue_id, order, side, name, id, created_at } => {
            if state.append(queue_id, order, side, name, id, created_at) is Ok {
                lemma_append_ordered(state, queue_id, order, side, name, id, created_at);
            }
        },
        Step::Assign { row_id, side, name } => {
            if state.assign(row_id, side, name) is Ok {
                lemma_assign_ordered(state, row_id, side, name);
            }
        },
    }
}

/// Whatever operations are performed on a store that was valid and numbered
/// without gap or repeat, in whatever sequence, it stays so.
pub proof fn lemma_run_ordered(state: StoreState, steps: Seq<Step>)
    requires
        state.valid(),
        state.ordered(),
    ensures
        state.run(steps).valid(),
        state.run(steps).ordered(),
    decreases steps.len(),
{
    if steps.len() > 0 {
        lemma_run_ordered(state, steps.drop_last());
        lemma_step_ordered(state.run(steps.drop_last()), steps.last());
    }
}

/// After any sequence of operations on a store that began empty, the orders
/// of the rows of every queue are exactly the numbers from zero up to, and
/// not including, the number of its rows, each of them once.
pub proof fn lemma_orders_are_dense(steps: Seq<Step>, queue_id: u128)
    ensures
        StoreState::empty().run(steps).valid(),
        StoreState::empty().run(steps).orders_of(queue_id).no_duplicates(),
        StoreState::empty().run(steps).orders_of(queue_id).to_set() =~= Set::new(
            |order: int| 0 <= order < StoreState::empty().run(steps).rows_of(queue_id).len(),
        ),
{
    let start = StoreState::empty();
    lemma_empty_ordered();
    lemma_run_ordered(start, steps);
    assert(start.run(steps).dense(queue_id));
}

/// An order that was refused is refused again: the refusal changed nothing,
/// so the same order for the same queue meets the same tail, whoever asks.
pub proof fn lemma_stale_order_refused_again(
    state: StoreState,
    queue_id: u128,
    order: i32,
    side: Side,
    name: Seq<char>,
    id: u128,
    created_at: i64,
    next_side: Side,
    next_name: Seq<char>,
    next_id: u128,
    next_created_at: i64,
)
    requires
        order != expected_order(state.tail(queue_id)),
    ensures
        state.append(queue_id, order, side, name, id, created_at) == Err::<StoreState, ApiError>(
            ApiError::InvalidOrder {
                expected: expected_order(state.tail(queue_id)) as i64,
                got: order,
            },
        ),
        state.step(Step::Append { queue_id, order, side, name, id, created_at }) == state,
        state.step(Step::Append { queue_id, order, side, name, id, created_at }).append(
            queue_id,
            order,
            next_side,
            next_name,
            next_id,
            next_created_at,
        ) == state.append(queue_id, order, side, name, id, created_at),
{
}

/// An order that was accepted is stale at once: the row that took it is the
/// new tail, so the same order for the same queue is refused, and the order
/// expected next is one more.
pub proof fn lemma_accepted_order_is_stale(
    state: StoreState,
    queue_id: u128,
    order: i32,
    side: Side,
    name: Seq<char>,
    id: u128,
    created_at: i64,
    next_side: Side,
    next_name: Seq<char>,
    next_id: u128,
    next_created_at: i64,
)
    requires
        state.append(queue_id, order, side, name, id, created_at) is Ok,
    ensures
        state.append(queue_id, order, side, name, id, created_at)->Ok_0.tail(queue_id) == Some(
            order,
        ),
        state.append(queue_id, order, side, name, id, created_at)->Ok_0.append(
            queue_id,
            order,
            next_side,
            next_name,
            next_id,
            next_created_at,
        ) == Err::<StoreState, ApiError>(
            ApiError::InvalidOrder { expected: (order + 1) as i64, got: order },
        ),
{
    let row = StoreState::opening_row(queue_id, order, side, name, id, created_at);
    let after = state.with_row(row);
    assert(after.rows[state.rows.len() as int] == row);
    assert forall|i: int|
        0 <= i < after.rows.len() && (#[trigger] after.rows[i]).queue_id
            == queue_id implies after.rows[i].order <= order by {
        if i < state.rows.len() {
            assert(after.rows[i] == state.rows[i]);
            match state.tail(queue_id) {
                Some(top) => {
                    assert(state.is_tail(queue_id, top));
                },
                None => {
                    if exists|o: i32| state.is_tail(queue_id, o) {
                    } else {
                        lemma_some_tail(state, queue_id, i);
                    }
                },
            }
        }
    }
    lemma_tail_is(after, queue_id, order);
}

/// A queue with a row has a highest order.
proof fn lemma_some_tail(state: StoreState, queue_id: u128, i: int)
    requires
        0 <= i < state.rows.len(),
        state.rows[i].queue_id == queue_id,
    ensures
        exists|order: i32| state.is_tail(queue_id, order),
    decreases state.rows.len(),
{
    let front = StoreState { rows: state.rows.drop_last(), ..state };
    let last = state.rows.last();
    if exists|k: int| 0 <= k < front.rows.len() && (#[trigger] front.rows[k]).queue_id == queue_id {
        let k = choose|k: int|
            0 <= k < front.rows.len() && (#[trigger] front.rows[k]).queue_id == queue_id;
        lemma_some_tail(front, queue_id, k);
        let top = choose|order: i32| front.is_tail(queue_id, order);
        let w = choose|w: int|
            0 <= w < front.rows.len() && (#[trigger] front.rows[w]).queue_id == queue_id
                && front.rows[w].order == top;
        assert(state.rows[w] == front.rows[w]);
        if last.queue_id == queue_id && last.order > top {
            assert(state.rows[state.rows.len() - 1] == last);
            assert forall|j: int|
                0 <= j < state.rows.len() && (#[trigger] state.rows[j]).queue_id
                    == queue_id implies state.rows[j].order <= last.order by {
                if j < front.rows.len() {
                    assert(front.rows[j] == state.rows[j]);
                }
            }
            assert(state.is_tail(queue_id, last.order));
        } else {
            assert forall|j: int|
                0 <= j < state.rows.len() && (#[trigger] state.rows[j]).queue_id
                    == queue_id implies state.rows[j].order <= top by {
                if j < front.rows.len() {
                    assert(front.rows[j] == state.rows[j]);
                }
            }
            assert(state.is_tail(queue_id, top));
        }
    } else {
        assert(i == state.rows.len() - 1) by {
            if i < front.rows.len() {
                assert(front.rows[i].queue_id == queue_id);
            }
        }
        assert forall|j: int|
            0 <= j < state.rows.len() && (#[trigger] state.rows[j]).queue_id
                == queue_id implies state.rows[j].order <= last.order by {
            if j < front.rows.len() {
                assert(front.rows[j].queue_id == queue_id);
            }
        }
        assert(state.is_tail(queue_id, last.order));
    }
}

} // verus!
