//! The records of the store. Identifiers are the 128 bits of a UUID and
//! timestamps count microseconds since the Unix epoch, so that every field is
//! a plain value.

use vstd::prelude::*;

verus! {

/// What a queue record is, with its names as sequences of characters.
pub struct QueueView {
    pub id: u128,
    pub url_name: Seq<char>,
    pub display_name: Seq<char>,
    pub created_at: i64,
}

/// What a row record is, with its names as sequences of characters.
pub struct RowView {
    pub id: u128,
    pub queue_id: u128,
    pub left: Option<Seq<char>>,
    pub right: Option<Seq<char>>,
    pub order: i32,
    pub created_at: i64,
}

/// The characters of an optional name.
pub open spec fn name_view(name: Option<String>) -> Option<Seq<char>> {
    match name {
        Some(n) => Some(n@),
        None => None,
    }
}

/// A stored queue.
#[derive(Debug)]
pub struct Queue {
    pub id: u128,
    pub url_name: String,
    pub display_name: String,
    pub created_at: i64,
}

impl View for Queue {
    type V = QueueView;

    open spec fn view(&self) -> QueueView {
        QueueView {
            id: self.id,
            url_name: self.url_name@,
            display_name: self.display_name@,
            created_at: self.created_at,
        }
    }
}

impl Clone for Queue {
    fn clone(&self) -> (copy: Self)
        ensures
            copy@ == self@,
    {
        Queue {
            id: self.id,
            url_name: self.url_name.clone(),
            display_name: self.display_name.clone(),
            created_at: self.created_at,
        }
    }
}

/// The fields a caller supplies for a queue that is about to be stored.
#[derive(Debug)]
pub struct NewQueue {
    pub url_name: String,
    pub display_name: String,
}

/// A stored row: one numbered slot pair of a queue.
#[derive(Debug)]
pub struct QueueRow {
    pub id: u128,
    pub queue_id: u128,
    pub left_player_name: Option<String>,
    pub right_player_name: Option<String>,
    pub queue_order: i32,
    pub created_at: i64,
}

impl View for QueueRow {
    type V = RowView;

    open spec fn view(&self) -> RowView {
        RowView {
            id: self.id,
            queue_id: self.queue_id,
            left: name_view(self.left_player_name),
            right: name_view(self.right_player_name),
            order: self.queue_order,
            created_at: self.created_at,
        }
    }
}

impl Clone for QueueRow {
    fn clone(&self) -> (copy: Self)
        ensures
            copy@ == self@,
    {
        QueueRow {
            id: self.id,
            queue_id: self.queue_id,
            left_player_name: self.left_player_name.clone(),
            right_player_name: self.right_player_name.clone(),
            queue_order: self.queue_order,
            created_at: self.created_at,
        }
    }
}

/// The fields a caller supplies for a row that is about to be stored.
#[derive(Debug)]
pub struct NewQueueRow {
    pub queue_id: u128,
    pub left_player_name: Option<String>,
    pub right_player_name: Option<String>,
    pub queue_order: i32,
}

} // verus!
