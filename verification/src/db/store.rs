//! The store that keeps queues and rows in memory. It guards what a store
//! guards (unique identifiers, unique URL names, rows that belong to a
//! stored queue) and leaves the rules of ordering to its callers.

use crate::db::api::ApiError;
use crate::db::models::{name_view, NewQueue, NewQueueRow, Queue, QueueRow, QueueView, RowView};
use crate::db::laws::{
    lemma_add_valid, lemma_empty_ordered, lemma_with_row_valid, lemma_with_slots_valid,
};
use crate::db::state::{
    ascending, lemma_listed, lemma_row_at_is, lemma_row_is, lemma_tail_is, lemma_tail_none,
    lemma_without_queue, listed, place_of, StoreState,
};
use vstd::prelude::*;

verus! {

/// The records of a sequence of queues.
pub open spec fn queue_views(queues: Seq<Queue>) -> Seq<QueueView> {
    queues.map_values(|q: Queue| q@)
}

/// The records of a sequence of rows.
pub open spec fn row_views(rows: Seq<QueueRow>) -> Seq<RowView> {
    rows.map_values(|r: QueueRow| r@)
}

/// Draws a random identifier with `uuid::Uuid::new_v4` and hands over its
/// 128 bits as `Uuid::as_u128` packs them. Nothing is claimed of the value:
/// it may be any number, one that is in use included.
#[verifier::external_body]
pub(crate) fn fresh_id() -> (id: u128) {
    uuid::Uuid::new_v4().as_u128()
}

/// Reads the system clock with `std::time::SystemTime::now`, turns the time
/// into a `chrono::DateTime<Utc>` through chrono's `From<SystemTime>`, which
/// takes times before the epoch too, and hands over what
/// `DateTime::timestamp_micros` makes of it: microseconds since the Unix
/// epoch. Nothing is claimed of the value.
#[verifier::external_body]
pub(crate) fn now_micros() -> (micros: i64) {
    chrono::DateTime::<chrono::Utc>::from(std::time::SystemTime::now()).timestamp_micros()
}

/// A store of queues and their rows.
pub struct QueueStore {
    queues: Vec<Queue>,
    rows: Vec<QueueRow>,
}

impl View for QueueStore {
    type V = StoreState;

    closed spec fn view(&self) -> StoreState {
        StoreState { queues: queue_views(self.queues@), rows: row_views(self.rows@) }
    }
}

impl QueueStore {
    /// Whether the store keeps its guarantees.
    pub open spec fn wf(&self) -> bool {
        self@.valid()
    }

    /// Creates a store that holds nothing.
    pub fn new() -> (store: QueueStore)
        ensures
            store.wf(),
            store@ == StoreState::empty(),
            store@.ordered(),
    {
        let store = QueueStore { queues: Vec::new(), rows: Vec::new() };
        assert(store@.queues =~= Seq::empty());
        assert(store@.rows =~= Seq::empty());
        proof {
            lemma_empty_ordered();
        }
        store
    }

    /// Lists every queue, in the order in which they were added.
    pub fn list_queues(&self) -> (queues: Vec<Queue>)
        ensures
            queue_views(queues@) == self@.queues,
    {
        let mut queues: Vec<Queue> = Vec::new();
        let mut i: usize = 0;
        while i < self.queues.len()
            invariant
                i <= self.queues.len(),
                queues@.len() == i,
                forall|j: int| 0 <= j < i ==> (#[trigger] queues@[j])@ == self.queues@[j]@,
            decreases self.queues.len() - i,
        {
            let copy = self.queues[i].clone();
            queues.push(copy);
            i += 1;
        }
        assert(queue_views(queues@) =~= self@.queues);
        queues
    }

    /// Looks a queue up by its URL name.
    ///
    /// URL names are unique, so at most one queue can answer to it; where
    /// none does, the lookup fails with `NotFound`.
    pub fn get_queue_by_url_name(&self, url_name: &String) -> (result: Result<Queue, ApiError>)
        requires
            self.wf(),
        ensures
            match result {
                Ok(queue) => {
                    &&& self@.queues.contains(queue@)
                    &&& queue@.url_name == url_name@
                    &&& forall|other: QueueView|
                        self@.queues.contains(other) && other.url_name == url_name@ ==> other
                            == queue@
                },
                Err(e) => !self@.has_url_name(url_name@) && e == ApiError::NotFound,
            },
    {
        let mut i: usize = 0;
        while i < self.queues.len()
            invariant
                self.wf(),
                i <= self.queues.len(),
                forall|j: int| 0 <= j < i ==> (#[trigger] self@.queues[j]).url_name != url_name@,
            decreases self.queues.len() - i,
        {
            if self.queues[i].url_name == *url_name {
                let found = self.queues[i].clone();
                assert(self@.queues[i as int] == found@);
                assert forall|other: QueueView|
                    self@.queues.contains(other) && other.url_name == url_name@ implies other
                    == found@ by {
                    let k = choose|k: int| 0 <= k < self@.queues.len() && self@.queues[k] == other;
                    assert(self@.queues[k].url_name == self@.queues[i as int].url_name);
                }
                return Ok(found);
            }
            i += 1;
        }
        Err(ApiError::NotFound)
    }
}

impl QueueStore {
    /// Stores a queue under an identifier and a creation time chosen by the
    /// caller.
    ///
    /// A URL name that is in use is refused with `Conflict`. Otherwise an
    /// identifier that is in use is refused with `StoreError`. Otherwise the
    /// queue is stored behind all others and handed back.
    pub fn add_queue_as(&mut self, new_queue: NewQueue, id: u128, created_at: i64) -> (result:
        Result<Queue, ApiError>)
        requires
            old(self).wf(),
        ensures
            final(self).wf(),
            match result {
                Ok(queue) => {
                    &&& !old(self)@.has_url_name(new_queue.url_name@)
                    &&& !old(self)@.has_queue(id)
                    &&& queue@ == (QueueView {
                        id,
                        url_name: new_queue.url_name@,
                        display_name: new_queue.display_name@,
                        created_at,
                    })
                    &&& final(self)@ == old(self)@.with_queue(queue@)
                },
                Err(e) => {
                    &&& final(self)@ == old(self)@
                    &&& e == if old(self)@.has_url_name(new_queue.url_name@) {
                        ApiError::Conflict
                    } else {
                        ApiError::StoreError
                    }
                    &&& old(self)@.has_url_name(new_queue.url_name@) || old(self)@.has_queue(id)
                },
            },
    {
        let mut id_taken = false;
        let mut i: usize = 0;
        while i < self.queues.len()
            invariant
                self.wf(),
                *self == *old(self),
                i <= self.queues.len(),
                forall|j: int|
                    0 <= j < i ==> (#[trigger] self@.queues[j]).url_name != new_queue.url_name@,
                id_taken <==> exists|j: int| 0 <= j < i && (#[trigger] self@.queues[j]).id == id,
            decreases self.queues.len() - i,
        {
            if self.queues[i].url_name == new_queue.url_name {
                assert(self@.queues[i as int].url_name == new_queue.url_name@);
                return Err(ApiError::Conflict);
            }
            if self.queues[i].id == id {
                assert(self@.queues[i as int].id == id);
                id_taken = true;
            }
            i += 1;
        }
        if id_taken {
            return Err(ApiError::StoreError);
        }
        let queue = Queue {
            id,
            url_name: new_queue.url_name,
            display_name: new_queue.display_name,
            created_at,
        };
        let stored = queue.clone();
        self.queues.push(stored);
        proof {
            assert(self@.queues =~= old(self)@.queues.push(queue@));
            assert(self@.rows =~= old(self)@.rows);
            lemma_add_valid(old(self)@, queue@);
        }
        Ok(queue)
    }
}

impl QueueStore {
    /// Stores a queue under a freshly drawn identifier, stamped with the
    /// current time.
    ///
    /// A URL name that is in use is refused with `Conflict`. The identifier
    /// is drawn at random; should it be in use, which only a store that holds
    /// queues can cause, the store refuses with `StoreError`. In every other
    /// case the queue is stored behind all others and handed back.
    pub fn add_queue(&mut self, new_queue: NewQueue) -> (result: Result<Queue, ApiError>)
        requires
            old(self).wf(),
        ensures
            final(self).wf(),
            match result {
                Ok(queue) => {
                    &&& !old(self)@.has_url_name(new_queue.url_name@)
                    &&& !old(self)@.has_queue(queue.id)
                    &&& queue@.url_name == new_queue.url_name@
                    &&& queue@.display_name == new_queue.display_name@
                    &&& final(self)@ == old(self)@.with_queue(queue@)
                },
                Err(e) => {
                    &&& final(self)@ == old(self)@
                    &&& e == if old(self)@.has_url_name(new_queue.url_name@) {
                        ApiError::Conflict
                    } else {
                        ApiError::StoreError
                    }
                    &&& old(self)@.queues.len() > 0
                },
            },
    {
        let id = fresh_id();
        let created_at = now_micros();
        self.add_queue_as(new_queue, id, created_at)
    }
}

impl QueueStore {
    /// Deletes a queue together with all of its rows.
    ///
    /// Deleting a queue that is not stored changes nothing and is no error.
    pub fn delete_queue(&mut self, id: u128)
        requires
            old(self).wf(),
        ensures
            final(self).wf(),
            final(self)@ == old(self)@.without_queue(id),
            !final(self)@.has_queue(id),
            final(self)@.rows_of(id) == Seq::<RowView>::empty(),
    {
        let ghost keep_queue = |q: QueueView| q.id != id;
        let ghost keep_row = |r: RowView| r.queue_id != id;
        let mut queues: Vec<Queue> = Vec::new();
        let mut i: usize = 0;
        while i < self.queues.len()
            invariant
                *self == *old(self),
                i <= self.queues.len(),
                keep_queue == |q: QueueView| q.id != id,
                queue_views(queues@) == self@.queues.take(i as int).filter(keep_queue),
            decreases self.queues.len() - i,
        {
            proof {
                assert(self@.queues.take(i as int + 1) =~= self@.queues.take(i as int).push(
                    self@.queues[i as int],
                ));
                self@.queues.take(i as int).lemma_filter_push(self@.queues[i as int], keep_queue);
            }
            if self.queues[i].id != id {
                let copy = self.queues[i].clone();
                assert(queue_views(queues@.push(copy)) =~= queue_views(queues@).push(copy@));
                queues.push(copy);
            }
            i += 1;
        }
        let mut rows: Vec<QueueRow> = Vec::new();
        let mut k: usize = 0;
        while k < self.rows.len()
            invariant
                *self == *old(self),
                k <= self.rows.len(),
                keep_row == |r: RowView| r.queue_id != id,
                row_views(rows@) == self@.rows.take(k as int).filter(keep_row),
            decreases self.rows.len() - k,
        {
            proof {
                assert(self@.rows.take(k as int + 1) =~= self@.rows.take(k as int).push(
                    self@.rows[k as int],
                ));
                self@.rows.take(k as int).lemma_filter_push(self@.rows[k as int], keep_row);
            }
            if self.rows[k].queue_id != id {
                let copy = self.rows[k].clone();
                assert(row_views(rows@.push(copy)) =~= row_views(rows@).push(copy@));
                rows.push(copy);
            }
            k += 1;
        }
        proof {
            assert(old(self)@.queues.take(i as int) =~= old(self)@.queues);
            assert(old(self)@.rows.take(k as int) =~= old(self)@.rows);
            lemma_without_queue(old(self)@, id);
        }
        self.queues = queues;
        self.rows = rows;
    }
}

impl QueueStore {
    /// Looks a row up by its identifier.
    pub fn get_row(&self, row_id: u128) -> (result: Option<QueueRow>)
        requires
            self.wf(),
        ensures
            match result {
                Some(row) => self@.has_row(row_id) && row@ == self@.row(row_id) && row.id == row_id,
                None => !self@.has_row(row_id),
            },
    {
        let mut i: usize = 0;
        while i < self.rows.len()
            invariant
                self.wf(),
                i <= self.rows.len(),
                forall|j: int| 0 <= j < i ==> (#[trigger] self@.rows[j]).id != row_id,
            decreases self.rows.len() - i,
        {
            if self.rows[i].id == row_id {
                let found = self.rows[i].clone();
                assert(self@.rows[i as int] == found@);
                proof {
                    lemma_row_is(self@, i as int);
                }
                return Some(found);
            }
            i += 1;
        }
        None
    }

    /// Looks up the row that a queue holds at an order.
    ///
    /// Where several rows of the queue carry the order, the one stored first
    /// answers.
    pub fn get_row_by_order(&self, queue_id: u128, order: i32) -> (result: Option<QueueRow>)
        ensures
            match result {
                Some(row) => self@.row_at(queue_id, order) == Some(row@),
                None => self@.row_at(queue_id, order) is None,
            },
            result is None <==> forall|j: int|
                0 <= j < self@.rows.len() ==> !((#[trigger] self@.rows[j]).queue_id == queue_id
                    && self@.rows[j].order == order),
    {
        let mut i: usize = 0;
        while i < self.rows.len()
            invariant
                i <= self.rows.len(),
                forall|j: int|
                    0 <= j < i ==> !((#[trigger] self@.rows[j]).queue_id == queue_id
                        && self@.rows[j].order == order),
            decreases self.rows.len() - i,
        {
            if self.rows[i].queue_id == queue_id && self.rows[i].queue_order == order {
                let found = self.rows[i].clone();
                assert(self@.rows[i as int] == found@);
                proof {
                    lemma_row_at_is(self@, queue_id, order, i as int);
                }
                return Some(found);
            }
            i += 1;
        }
        None
    }

    /// Finds the highest order among the rows of a queue; `None` for a queue
    /// without rows.
    pub fn get_max_order(&self, queue_id: u128) -> (max_order: Option<i32>)
        ensures
            max_order == self@.tail(queue_id),
            max_order matches Some(order) ==> self@.is_tail(queue_id, order),
            max_order is None <==> self@.rows_of(queue_id).len() == 0,
    {
        let mut max_order: Option<i32> = None;
        let mut i: usize = 0;
        while i < self.rows.len()
            invariant
                i <= self.rows.len(),
                max_order is None ==> forall|j: int|
                    0 <= j < i ==> (#[trigger] self@.rows[j]).queue_id != queue_id,
                max_order matches Some(order) ==> {
                    &&& exists|j: int|
                        0 <= j < i && (#[trigger] self@.rows[j]).queue_id == queue_id
                            && self@.rows[j].order == order
                    &&& forall|j: int|
                        0 <= j < i && (#[trigger] self@.rows[j]).queue_id == queue_id
                            ==> self@.rows[j].order <= order
                },
            decreases self.rows.len() - i,
        {
            if self.rows[i].queue_id == queue_id {
                let order = self.rows[i].queue_order;
                let higher = match max_order {
                    Some(current) => order > current,
                    None => true,
                };
                if higher {
                    assert(self@.rows[i as int].order == order);
                    max_order = Some(order);
                }
            }
            i += 1;
        }
        proof {
            let of_queue = |r: RowView| r.queue_id == queue_id;
            match max_order {
                Some(order) => {
                    lemma_tail_is(self@, queue_id, order);
                    let j = choose|j: int|
                        0 <= j < self@.rows.len() && (#[trigger] self@.rows[j]).queue_id
                            == queue_id && self@.rows[j].order == order;
                    assert(of_queue(self@.rows[j]));
                    self@.rows.lemma_filter_contains(of_queue, j);
                },
                None => {
                    lemma_tail_none(self@, queue_id);
                    if self@.rows.filter(of_queue).len() > 0 {
                        let r = self@.rows.filter(of_queue)[0];
                        self@.rows.lemma_filter_pred(of_queue, 0);
                        assert(self@.rows.filter(of_queue).contains(r));
                        self@.rows.lemma_filter_contains_rev(of_queue, r);
                    }
                },
            }
        }
        max_order
    }
}

impl QueueStore {
    /// Stores a row under an identifier and a creation time chosen by the
    /// caller.
    ///
    /// A row for a queue that is not stored is refused with `NotFound`.
    /// Otherwise an identifier that is in use is refused with `StoreError`.
    /// Otherwise the row is stored behind all others and handed back. The
    /// store does not judge the order that the row carries.
    pub fn insert_row_as(&mut self, new_row: NewQueueRow, id: u128, created_at: i64) -> (result:
        Result<QueueRow, ApiError>)
        requires
            old(self).wf(),
        ensures
            final(self).wf(),
            match result {
                Ok(row) => {
                    &&& old(self)@.has_queue(new_row.queue_id)
                    &&& !old(self)@.has_row(id)
                    &&& row@ == (RowView {
                        id,
                        queue_id: new_row.queue_id,
                        left: name_view(new_row.left_player_name),
                        right: name_view(new_row.right_player_name),
                        order: new_row.queue_order,
                        created_at,
                    })
                    &&& final(self)@ == old(self)@.with_row(row@)
                },
                Err(e) => {
                    &&& final(self)@ == old(self)@
                    &&& e == if !old(self)@.has_queue(new_row.queue_id) {
                        ApiError::NotFound
                    } else {
                        ApiError::StoreError
                    }
                    &&& !old(self)@.has_queue(new_row.queue_id) || old(self)@.has_row(id)
                },
            },
    {
        let mut queue_found = false;
        let mut q: usize = 0;
        while q < self.queues.len()
            invariant
                *self == *old(self),
                q <= self.queues.len(),
                queue_found <==> exists|j: int|
                    0 <= j < q && (#[trigger] self@.queues[j]).id == new_row.queue_id,
            decreases self.queues.len() - q,
        {
            if self.queues[q].id == new_row.queue_id {
                assert(self@.queues[q as int].id == new_row.queue_id);
                queue_found = true;
            }
            q += 1;
        }
        if !queue_found {
            return Err(ApiError::NotFound);
        }
        let mut i: usize = 0;
        while i < self.rows.len()
            invariant
                *self == *old(self),
                self.wf(),
                self@.has_queue(new_row.queue_id),
                i <= self.rows.len(),
                forall|j: int| 0 <= j < i ==> (#[trigger] self@.rows[j]).id != id,
            decreases self.rows.len() - i,
        {
            if self.rows[i].id == id {
                assert(self@.rows[i as int].id == id);
                return Err(ApiError::StoreError);
            }
            i += 1;
        }
        let row = QueueRow {
            id,
            queue_id: new_row.queue_id,
            left_player_name: new_row.left_player_name,
            right_player_name: new_row.right_player_name,
            queue_order: new_row.queue_order,
            created_at,
        };
        let stored = row.clone();
        self.rows.push(stored);
        proof {
            assert(self@.rows =~= old(self)@.rows.push(row@));
            assert(self@.queues =~= old(self)@.queues);
            lemma_with_row_valid(old(self)@, row@);
        }
        Ok(row)
    }

    /// Stores a row under a freshly drawn identifier, stamped with the
    /// current time.
    ///
    /// A row for a queue that is not stored is refused with `NotFound`. The
    /// identifier is drawn at random; should it be in use, which only a store
    /// that holds rows can cause, the store refuses with `StoreError`. In
    /// every other case the row is stored behind all others and handed back.
    pub fn insert_row(&mut self, new_row: NewQueueRow) -> (result: Result<QueueRow, ApiError>)
        requires
            old(self).wf(),
        ensures
            final(self).wf(),
            match result {
                Ok(row) => {
                    &&& old(self)@.has_queue(new_row.queue_id)
                    &&& !old(self)@.has_row(row.id)
                    &&& row@.queue_id == new_row.queue_id
                    &&& row@.left == name_view(new_row.left_player_name)
                    &&& row@.right == name_view(new_row.right_player_name)
                    &&& row@.order == new_row.queue_order
                    &&& final(self)@ == old(self)@.with_row(row@)
                },
                Err(e) => {
                    &&& final(self)@ == old(self)@
                    &&& e == if !old(self)@.has_queue(new_row.queue_id) {
                        ApiError::NotFound
                    } else {
                        ApiError::StoreError
                    }
                    &&& !old(self)@.has_queue(new_row.queue_id) || old(self)@.rows.len() > 0
                },
            },
    {
        let id = fresh_id();
        let created_at = now_micros();
        self.insert_row_as(new_row, id, created_at)
    }
}

impl QueueStore {
    /// Replaces both slots of a row, the untouched one included.
    ///
    /// A row that is not stored leaves the store as it is; that is no error.
    pub fn update_row_slots(&mut self, row_id: u128, left: Option<String>, right: Option<String>)
        requires
            old(self).wf(),
        ensures
            final(self).wf(),
            final(self)@ == old(self)@.with_slots(row_id, name_view(left), name_view(right)),
    {
        let ghost before = self@;
        let mut i: usize = 0;
        while i < self.rows.len()
            invariant
                i <= self.rows.len(),
                self@.queues == before.queues,
                self@.rows.len() == before.rows.len(),
                forall|j: int|
                    0 <= j < i ==> #[trigger] self@.rows[j] == before.with_slots(
                        row_id,
                        name_view(left),
                        name_view(right),
                    ).rows[j],
                forall|j: int| i <= j < self@.rows.len() ==> #[trigger] self@.rows[j] == before.rows[j],
            decreases self.rows.len() - i,
        {
            assert(self@.rows[i as int] == before.rows[i as int]);
            assert(self@.rows[i as int] == self.rows@[i as int]@);
            if self.rows[i].id == row_id {
                let new_left = left.clone();
                let new_right = right.clone();
                let ghost prev = self.rows@;
                let row = QueueRow {
                    id: self.rows[i].id,
                    queue_id: self.rows[i].queue_id,
                    left_player_name: new_left,
                    right_player_name: new_right,
                    queue_order: self.rows[i].queue_order,
                    created_at: self.rows[i].created_at,
                };
                self.rows[i] = row;
                assert(self.rows@ == prev.update(i as int, row));
                assert(self@.rows[i as int] == row@);
                assert(forall|j: int|
                    0 <= j < prev.len() && j != i ==> #[trigger] self@.rows[j] == row_views(prev)[j]);
                assert(name_view(new_left) == name_view(left));
                assert(name_view(new_right) == name_view(right));
            }
            assert(self@.rows[i as int] == before.with_slots(
                row_id,
                name_view(left),
                name_view(right),
            ).rows[i as int]);
            i += 1;
        }
        proof {
            assert(self@.rows =~= before.with_slots(
                row_id,
                name_view(left),
                name_view(right),
            ).rows);
            lemma_with_slots_valid(before, row_id, name_view(left), name_view(right));
        }
    }
}

impl QueueStore {
    /// Lists the rows of a queue, ascending by order.
    ///
    /// The listing holds each row of the queue once and no other row; rows of
    /// equal order stay in the order in which they were stored. A queue that
    /// is not stored has no rows, and its listing is empty.
    pub fn list_rows(&self, queue_id: u128) -> (rows: Vec<QueueRow>)
        ensures
            row_views(rows@) == self@.listing(queue_id),
            ascending(row_views(rows@)),
            row_views(rows@).to_multiset() == self@.rows_of(queue_id).to_multiset(),
            rows@.len() == self@.rows_of(queue_id).len(),
    {
        let mut rows: Vec<QueueRow> = Vec::new();
        let mut i: usize = 0;
        assert(row_views(rows@) =~= listed(self@.rows.take(0), queue_id));
        while i < self.rows.len()
            invariant
                i <= self.rows.len(),
                row_views(rows@) == listed(self@.rows.take(i as int), queue_id),
            decreases self.rows.len() - i,
        {
            proof {
                assert(self@.rows.take(i as int + 1).drop_last() =~= self@.rows.take(i as int));
            }
            if self.rows[i].queue_id == queue_id {
                let row = self.rows[i].clone();
                let ghost before = row_views(rows@);
                let mut at: usize = rows.len();
                assert(before.take(at as int) =~= before);
                while at > 0 && rows[at - 1].queue_order > row.queue_order
                    invariant
                        at <= rows.len(),
                        before == row_views(rows@),
                        place_of(before, row.queue_order) == place_of(
                            before.take(at as int),
                            row.queue_order,
                        ),
                    decreases at,
                {
                    assert(before.take(at as int).drop_last() =~= before.take(at as int - 1));
                    at -= 1;
                }
                rows.insert(at, row);
                assert(row_views(rows@) =~= before.insert(at as int, row@));
            }
            i += 1;
        }
        proof {
            assert(self@.rows.take(i as int) =~= self@.rows);
            lemma_listed(self@.rows, queue_id);
        }
        rows
    }
}

} // verus!
