//! The store as a mathematical value: two sequences of records, the
//! conditions under which they form a valid store, and what each operation
//! makes of them.

use crate::db::api::{expected_order, fresh_slots, slot_of, with_slot, ApiError};
use crate::db::models::{QueueView, RowView};
use crate::queue::Side;
use vstd::prelude::*;
use vstd::seq_lib::{to_multiset_build, to_multiset_insert};

verus! {

/// Whether a sequence of rows ascends by order.
pub open spec fn ascending(rows: Seq<RowView>) -> bool {
    forall|i: int, j: int| 0 <= i < j < rows.len() ==> rows[i].order <= rows[j].order
}

/// Where a row of the given order enters an ascending sequence: behind the
/// last row whose order is not higher.
pub open spec fn place_of(listed: Seq<RowView>, order: i32) -> int
    decreases listed.len(),
{
    if listed.len() == 0 || listed.last().order <= order {
        listed.len() as int
    } else {
        place_of(listed.drop_last(), order)
    }
}

/// The rows of one queue out of a sequence of rows, ascending by order; rows
/// of equal order stay in the order in which they were stored.
pub open spec fn listed(rows: Seq<RowView>, queue_id: u128) -> Seq<RowView>
    decreases rows.len(),
{
    if rows.len() == 0 {
        Seq::empty()
    } else {
        let before = listed(rows.drop_last(), queue_id);
        if rows.last().queue_id == queue_id {
            before.insert(place_of(before, rows.last().order), rows.last())
        } else {
            before
        }
    }
}

/// Everything a store holds, in the order in which it was stored.
pub struct StoreState {
    pub queues: Seq<QueueView>,
    pub rows: Seq<RowView>,
}

impl StoreState {
    /// The store that holds nothing.
    pub open spec fn empty() -> StoreState {
        StoreState { queues: Seq::empty(), rows: Seq::empty() }
    }

    /// Whether a queue with this identifier is stored.
    pub open spec fn has_queue(self, id: u128) -> bool {
        exists|i: int| 0 <= i < self.queues.len() && #[trigger] self.queues[i].id == id
    }

    /// Whether a queue with this URL name is stored.
    pub open spec fn has_url_name(self, url_name: Seq<char>) -> bool {
        exists|i: int| 0 <= i < self.queues.len() && #[trigger] self.queues[i].url_name == url_name
    }

    /// Whether a row with this identifier is stored.
    pub open spec fn has_row(self, id: u128) -> bool {
        exists|i: int| 0 <= i < self.rows.len() && #[trigger] self.rows[i].id == id
    }

    /// What the store guarantees by itself: identifiers and URL names are
    /// unique, and every row belongs to a stored queue.
    pub open spec fn valid(self) -> bool {
        &&& forall|i: int, j: int|
            0 <= i < j < self.queues.len() ==> #[trigger] self.queues[i].id
                != #[trigger] self.queues[j].id
        &&& forall|i: int, j: int|
            0 <= i < j < self.queues.len() ==> #[trigger] self.queues[i].url_name
                != #[trigger] self.queues[j].url_name
        &&& forall|i: int, j: int|
            0 <= i < j < self.rows.len() ==> #[trigger] self.rows[i].id
                != #[trigger] self.rows[j].id
        &&& forall|i: int|
            0 <= i < self.rows.len() ==> self.has_queue(#[trigger] self.rows[i].queue_id)
    }

    /// The rows of one queue, in the order in which they were stored.
    pub open spec fn rows_of(self, queue_id: u128) -> Seq<RowView> {
        self.rows.filter(|r: RowView| r.queue_id == queue_id)
    }

    /// The orders of the rows of one queue, in the order in which the rows
    /// were stored.
    pub open spec fn orders_of(self, queue_id: u128) -> Seq<int> {
        self.rows_of(queue_id).map_values(|r: RowView| r.order as int)
    }

    /// Whether the rows of one queue are numbered without gap or repeat: no
    /// order occurs twice, and the orders are exactly the numbers from zero
    /// up to, and not including, the number of rows.
    pub open spec fn dense(self, queue_id: u128) -> bool {
        &&& self.orders_of(queue_id).no_duplicates()
        &&& forall|order: int|
            self.orders_of(queue_id).contains(order) <==> 0 <= order < self.orders_of(
                queue_id,
            ).len()
    }

    /// Whether the rows of every queue are numbered without gap or repeat.
    pub open spec fn ordered(self) -> bool {
        forall|queue_id: u128| self.dense(queue_id)
    }

    /// The rows of one queue, ascending by order.
    pub open spec fn listing(self, queue_id: u128) -> Seq<RowView> {
        listed(self.rows, queue_id)
    }

    /// Whether `order` is the highest order among the rows of a queue.
    pub open spec fn is_tail(self, queue_id: u128, order: i32) -> bool {
        &&& exists|i: int|
            0 <= i < self.rows.len() && (#[trigger] self.rows[i]).queue_id == queue_id
                && self.rows[i].order == order
        &&& forall|i: int|
            0 <= i < self.rows.len() && (#[trigger] self.rows[i]).queue_id == queue_id
                ==> self.rows[i].order <= order
    }

    /// The highest order among the rows of a queue; `None` for a queue
    /// without rows.
    pub open spec fn tail(self, queue_id: u128) -> Option<i32> {
        if exists|order: i32| self.is_tail(queue_id, order) {
            Some(choose|order: i32| self.is_tail(queue_id, order))
        } else {
            None
        }
    }

    /// Whether the row at index `i` is the first stored row that a queue
    /// holds at an order.
    pub open spec fn is_first_at(self, queue_id: u128, order: i32, i: int) -> bool {
        &&& 0 <= i < self.rows.len()
        &&& self.rows[i].queue_id == queue_id
        &&& self.rows[i].order == order
        &&& forall|j: int|
            0 <= j < i ==> !((#[trigger] self.rows[j]).queue_id == queue_id && self.rows[j].order
                == order)
    }

    /// The row that a queue holds at an order: the first that was stored,
    /// where there are several, and `None` where there is none.
    pub open spec fn row_at(self, queue_id: u128, order: i32) -> Option<RowView> {
        if exists|i: int| self.is_first_at(queue_id, order, i) {
            Some(self.rows[choose|i: int| self.is_first_at(queue_id, order, i)])
        } else {
            None
        }
    }

    /// The stored row with this identifier.
    pub open spec fn row(self, id: u128) -> RowView
        recommends
            self.has_row(id),
    {
        choose|r: RowView| self.rows.contains(r) && r.id == id
    }

    /// What seating a participant on one side of a row makes of the store.
    ///
    /// A row that is not stored gives `NotFound`; a side that is taken gives
    /// `Occupied` with the row, its order and the side; otherwise the side
    /// holds the name and nothing else has changed.
    pub open spec fn assign(self, row_id: u128, side: Side, name: Seq<char>) -> Result<
        StoreState,
        ApiError,
    > {
        if !self.has_row(row_id) {
            Err(ApiError::NotFound)
        } else if slot_of(self.row(row_id), side) is Some {
            Err(ApiError::Occupied { row_id, order: self.row(row_id).order, side })
        } else {
            let filled = with_slot(self.row(row_id), side, name);
            Ok(self.with_slots(row_id, filled.left, filled.right))
        }
    }

    /// The row that opens a new place in a queue for one participant.
    pub open spec fn opening_row(
        queue_id: u128,
        order: i32,
        side: Side,
        name: Seq<char>,
        id: u128,
        created_at: i64,
    ) -> RowView {
        RowView {
            id,
            queue_id,
            left: fresh_slots(side, name).0,
            right: fresh_slots(side, name).1,
            order,
            created_at,
        }
    }

    /// What appending a row to a queue makes of the store, when the row is
    /// to be stored under `id` with the creation time `created_at`.
    ///
    /// An order other than the one that follows the tail gives
    /// `InvalidOrder`; then a queue that is not stored gives `NotFound`; then
    /// an identifier that is in use gives `StoreError`; otherwise the row is
    /// stored behind all others.
    pub open spec fn append(
        self,
        queue_id: u128,
        order: i32,
        side: Side,
        name: Seq<char>,
        id: u128,
        created_at: i64,
    ) -> Result<StoreState, ApiError> {
        if order != expected_order(self.tail(queue_id)) {
            Err(
                ApiError::InvalidOrder {
                    expected: expected_order(self.tail(queue_id)) as i64,
                    got: order,
                },
            )
        } else if !self.has_queue(queue_id) {
            Err(ApiError::NotFound)
        } else if self.has_row(id) {
            Err(ApiError::StoreError)
        } else {
            Ok(self.with_row(Self::opening_row(queue_id, order, side, name, id, created_at)))
        }
    }

    /// What adding a queue makes of the store.
    ///
    /// A URL name that is in use gives `Conflict`; then an identifier that
    /// is in use gives `StoreError`; otherwise the queue is stored behind all
    /// others.
    pub open spec fn add(self, queue: QueueView) -> Result<StoreState, ApiError> {
        if self.has_url_name(queue.url_name) {
            Err(ApiError::Conflict)
        } else if self.has_queue(queue.id) {
            Err(ApiError::StoreError)
        } else {
            Ok(self.with_queue(queue))
        }
    }

    /// The store after a queue was added.
    pub open spec fn with_queue(self, queue: QueueView) -> StoreState {
        StoreState { queues: self.queues.push(queue), ..self }
    }

    /// The store after a queue and all of its rows were deleted.
    pub open spec fn without_queue(self, id: u128) -> StoreState {
        StoreState {
            queues: self.queues.filter(|q: QueueView| q.id != id),
            rows: self.rows.filter(|r: RowView| r.queue_id != id),
        }
    }

    /// The store after a row was added.
    pub open spec fn with_row(self, row: RowView) -> StoreState {
        StoreState { rows: self.rows.push(row), ..self }
    }

    /// The store after both slots of a row were replaced. A row that is not
    /// stored leaves the store as it is.
    pub open spec fn with_slots(
        self,
        row_id: u128,
        left: Option<Seq<char>>,
        right: Option<Seq<char>>,
    ) -> StoreState {
        StoreState {
            rows: self.rows.map_values(
                |r: RowView|
                    if r.id == row_id {
                        RowView { left, right, ..r }
                    } else {
                        r
                    },
            ),
            ..self
        }
    }
}

/// One operation on a store.
pub enum Step {
    /// Add a queue.
    AddQueue { queue: QueueView },
    /// Delete a queue and its rows.
    DeleteQueue { id: u128 },
    /// Append a row to a queue for its first participant.
    Append { queue_id: u128, order: i32, side: Side, name: Seq<char>, id: u128, created_at: i64 },
    /// Seat a participant on one side of a row.
    Assign { row_id: u128, side: Side, name: Seq<char> },
}

impl StoreState {
    /// The store after one operation. An operation that is refused leaves the
    /// store as it is.
    pub open spec fn step(self, step: Step) -> StoreState {
        match step {
            Step::AddQueue { queue } => match self.add(queue) {
                Ok(after) => after,
                Err(_) => self,
            },
            Step::DeleteQueue { id } => self.without_queue(id),
            Step::Append { queue_id, order, side, name, id, created_at } => match self.append(
                queue_id,
                order,
                side,
                name,
                id,
                created_at,
            ) {
                Ok(after) => after,
                Err(_) => self,
            },
            Step::Assign { row_id, side, name } => match self.assign(row_id, side, name) {
                Ok(after) => after,
                Err(_) => self,
            },
        }
    }

    /// The store after a sequence of operations, performed from first to
    /// last.
    pub open spec fn run(self, steps: Seq<Step>) -> StoreState
        decreases steps.len(),
    {
        if steps.len() == 0 {
            self
        } else {
            self.run(steps.drop_last()).step(steps.last())
        }
    }
}

/// The highest order of a queue is unique, so having found it is knowing the
/// tail.
pub proof fn lemma_tail_is(state: StoreState, queue_id: u128, order: i32)
    requires
        state.is_tail(queue_id, order),
    ensures
        state.tail(queue_id) == Some(order),
{
    let chosen = choose|o: i32| state.is_tail(queue_id, o);
    assert(state.is_tail(queue_id, chosen));
}

/// The place at which a row enters lies within the sequence, no row before
/// it has a higher order and every row from it on has.
pub proof fn lemma_place_of(listed: Seq<RowView>, order: i32)
    ensures
        0 <= place_of(listed, order) <= listed.len(),
        place_of(listed, order) > 0 ==> listed[place_of(listed, order) - 1].order <= order,
        forall|k: int| place_of(listed, order) <= k < listed.len() ==> listed[k].order > order,
    decreases listed.len(),
{
    if !(listed.len() == 0 || listed.last().order <= order) {
        let front = listed.drop_last();
        lemma_place_of(front, order);
        assert forall|k: int| place_of(listed, order) <= k < listed.len() implies listed[k].order
            > order by {
            if k < front.len() {
                assert(front[k].order > order);
            }
        }
    }
}

/// A listing ascends by order and holds each row of the queue once and no
/// other row.
pub proof fn lemma_listed(rows: Seq<RowView>, queue_id: u128)
    ensures
        ascending(listed(rows, queue_id)),
        listed(rows, queue_id).to_multiset() == rows.filter(
            |r: RowView| r.queue_id == queue_id,
        ).to_multiset(),
        listed(rows, queue_id).len() == rows.filter(|r: RowView| r.queue_id == queue_id).len(),
    decreases rows.len(),
{
    let of_queue = |r: RowView| r.queue_id == queue_id;
    reveal(Seq::filter);
    if rows.len() == 0 {
        assert(rows.filter(of_queue) =~= Seq::<RowView>::empty());
    } else {
        let front = rows.drop_last();
        let last = rows.last();
        let before = listed(front, queue_id);
        lemma_listed(front, queue_id);
        if last.queue_id == queue_id {
            let at = place_of(before, last.order);
            lemma_place_of(before, last.order);
            let after = before.insert(at, last);
            to_multiset_insert(before, at, last);
            to_multiset_build(front.filter(of_queue), last);
            assert(rows.filter(of_queue) == front.filter(of_queue).push(last));
            assert(listed(rows, queue_id) == after);
            assert forall|a: int, b: int| 0 <= a < b < after.len() implies after[a].order
                <= after[b].order by {
                if a < at && b > at {
                    assert(before[a].order <= before[b - 1].order);
                } else if a < at && b == at {
                    assert(before[a].order <= before[at - 1].order);
                } else if a == at {
                    assert(before[b - 1].order > last.order);
                } else if a > at {
                    assert(before[a - 1].order <= before[b - 1].order);
                } else {
                    assert(before[a].order <= before[b].order);
                }
            }
        }
    }
}

/// The first row that a queue holds at an order is unique, so having found
/// it is knowing the row at that order.
pub proof fn lemma_row_at_is(state: StoreState, queue_id: u128, order: i32, i: int)
    requires
        state.is_first_at(queue_id, order, i),
    ensures
        state.row_at(queue_id, order) == Some(state.rows[i]),
{
    let chosen = choose|k: int| state.is_first_at(queue_id, order, k);
    assert(state.is_first_at(queue_id, order, chosen));
    if chosen < i {
        assert(!(state.rows[chosen].queue_id == queue_id && state.rows[chosen].order == order));
    } else if i < chosen {
        assert(!(state.rows[i].queue_id == queue_id && state.rows[i].order == order));
    }
}

/// In a valid store a row is known by its identifier alone.
pub proof fn lemma_row_is(state: StoreState, i: int)
    requires
        state.valid(),
        0 <= i < state.rows.len(),
    ensures
        state.has_row(state.rows[i].id),
        state.row(state.rows[i].id) == state.rows[i],
{
    let id = state.rows[i].id;
    assert(state.rows.contains(state.rows[i]));
    let chosen = state.row(id);
    assert(state.rows.contains(chosen) && chosen.id == id);
    let k = choose|k: int| 0 <= k < state.rows.len() && state.rows[k] == chosen;
    assert(state.rows[k].id == state.rows[i].id);
}

/// A queue without rows has no tail.
pub proof fn lemma_tail_none(state: StoreState, queue_id: u128)
    requires
        forall|i: int| 0 <= i < state.rows.len() ==> (#[trigger] state.rows[i]).queue_id != queue_id,
    ensures
        state.tail(queue_id) is None,
{
}

/// Filtering a sequence whose members differ by some key leaves a sequence
/// whose members differ by that key.
pub proof fn lemma_filter_keeps_keys_distinct<A, K>(
    s: Seq<A>,
    keep: spec_fn(A) -> bool,
    key: spec_fn(A) -> K,
)
    requires
        forall|i: int, j: int| 0 <= i < j < s.len() ==> key(#[trigger] s[i]) != key(#[trigger] s[j]),
    ensures
        forall|i: int, j: int|
            0 <= i < j < s.filter(keep).len() ==> key(#[trigger] s.filter(keep)[i]) != key(
                #[trigger] s.filter(keep)[j],
            ),
    decreases s.len(),
{
    reveal(Seq::filter);
    if s.len() > 0 {
        let front = s.drop_last();
        lemma_filter_keeps_keys_distinct(front, keep, key);
        let kept = s.filter(keep);
        assert forall|i: int, j: int| 0 <= i < j < kept.len() implies key(#[trigger] kept[i])
            != key(#[trigger] kept[j]) by {
            if keep(s.last()) && j == kept.len() - 1 {
                assert(front.filter(keep)[i] == kept[i]);
                assert(front.filter(keep).contains(kept[i]));
                front.lemma_filter_contains_rev(keep, kept[i]);
                let a = choose|a: int| 0 <= a < front.len() && front[a] == kept[i];
                assert(s[a] == kept[i]);
                assert(s[s.len() - 1] == kept[j]);
            } else {
                assert(front.filter(keep)[i] == kept[i]);
                assert(front.filter(keep)[j] == kept[j]);
            }
        }
    }
}

/// Deleting a queue leaves a valid store in which the queue and all of its
/// rows are gone and every other queue and row is as it was.
pub proof fn lemma_without_queue(state: StoreState, id: u128)
    requires
        state.valid(),
    ensures
        state.without_queue(id).valid(),
        !state.without_queue(id).has_queue(id),
        state.without_queue(id).rows_of(id) == Seq::<RowView>::empty(),
        forall|q: QueueView|
            state.without_queue(id).queues.contains(q) <==> state.queues.contains(q) && q.id != id,
        forall|r: RowView|
            state.without_queue(id).rows.contains(r) <==> state.rows.contains(r) && r.queue_id
                != id,
{
    let after = state.without_queue(id);
    let keep_queue = |q: QueueView| q.id != id;
    let keep_row = |r: RowView| r.queue_id != id;
    broadcast use Seq::lemma_filter_pred, Seq::lemma_filter_contains;

    lemma_filter_keeps_keys_distinct(state.queues, keep_queue, |q: QueueView| q.id);
    lemma_filter_keeps_keys_distinct(state.queues, keep_queue, |q: QueueView| q.url_name);
    lemma_filter_keeps_keys_distinct(state.rows, keep_row, |r: RowView| r.id);
    assert forall|q: QueueView| after.queues.contains(q) <==> state.queues.contains(q) && q.id
        != id by {
        if after.queues.contains(q) {
            state.queues.lemma_filter_contains_rev(keep_queue, q);
            let k = choose|k: int| 0 <= k < after.queues.len() && after.queues[k] == q;
            assert(keep_queue(after.queues[k]));
        }
        if state.queues.contains(q) && q.id != id {
            let k = choose|k: int| 0 <= k < state.queues.len() && state.queues[k] == q;
            assert(keep_queue(state.queues[k]));
        }
    }
    assert forall|r: RowView| after.rows.contains(r) <==> state.rows.contains(r) && r.queue_id
        != id by {
        if after.rows.contains(r) {
            state.rows.lemma_filter_contains_rev(keep_row, r);
            let k = choose|k: int| 0 <= k < after.rows.len() && after.rows[k] == r;
            assert(keep_row(after.rows[k]));
        }
        if state.rows.contains(r) && r.queue_id != id {
            let k = choose|k: int| 0 <= k < state.rows.len() && state.rows[k] == r;
            assert(keep_row(state.rows[k]));
        }
    }
    assert forall|i: int| 0 <= i < after.rows.len() implies after.has_queue(
        #[trigger] after.rows[i].queue_id,
    ) by {
        let r = after.rows[i];
        assert(after.rows.contains(r));
        let k = choose|k: int| 0 <= k < state.rows.len() && state.rows[k] == r;
        assert(state.has_queue(state.rows[k].queue_id));
        let w = choose|w: int| 0 <= w < state.queues.len() && state.queues[w].id == r.queue_id;
        assert(state.queues.contains(state.queues[w]));
        assert(after.queues.contains(state.queues[w]));
        let v = choose|v: int| 0 <= v < after.queues.len() && after.queues[v] == state.queues[w];
        assert(after.queues[v].id == r.queue_id);
    }
    assert(!after.has_queue(id)) by {
        if after.has_queue(id) {
            let v = choose|v: int| 0 <= v < after.queues.len() && after.queues[v].id == id;
            assert(keep_queue(after.queues[v]));
        }
    }
    assert(after.rows_of(id) =~= Seq::<RowView>::empty()) by {
        let of_queue = |r: RowView| r.queue_id == id;
        if after.rows.filter(of_queue).len() > 0 {
            let r = after.rows.filter(of_queue)[0];
            assert(of_queue(r));
            assert(after.rows.filter(of_queue).contains(r));
            after.rows.lemma_filter_contains_rev(of_queue, r);
        }
    }
}

} // verus!
