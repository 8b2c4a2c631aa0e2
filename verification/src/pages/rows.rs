//! The rows of a queue as a page holds them.

use crate::db::models::name_view;
use crate::queue::{EntryView, QueueEntry, Side};
use vstd::prelude::*;

verus! {

/// The identifier of a row on the page.
#[derive(Clone, Copy, Debug, PartialEq, Eq, Hash, Structural)]
pub enum LocalUuidState {
    /// The row is stored, and this is its identifier.
    Resolved(u128),
    /// The row was added on the page and awaits its identifier; until then
    /// it goes by this one.
    Pending(u128),
}

/// A row as the page shows it.
#[derive(Debug)]
pub struct LocalQueueEntry {
    pub id: LocalUuidState,
    pub left: Option<String>,
    pub right: Option<String>,
}

/// What a row on the page is, with its names as sequences of characters.
pub struct LocalEntryView {
    pub id: LocalUuidState,
    pub left: Option<Seq<char>>,
    pub right: Option<Seq<char>>,
}

impl View for LocalQueueEntry {
    type V = LocalEntryView;

    open spec fn view(&self) -> LocalEntryView {
        LocalEntryView { id: self.id, left: name_view(self.left), right: name_view(self.right) }
    }
}

impl Clone for LocalQueueEntry {
    fn clone(&self) -> (copy: Self)
        ensures
            copy@ == self@,
    {
        LocalQueueEntry { id: self.id, left: self.left.clone(), right: self.right.clone() }
    }
}

impl LocalQueueEntry {
    /// Whether the row still awaits its identifier and is shown inactive.
    pub fn is_inactive(&self) -> (inactive: bool)
        ensures
            inactive == (self.id is Pending),
    {
        match self.id {
            LocalUuidState::Pending(_) => true,
            LocalUuidState::Resolved(_) => false,
        }
    }
}

/// The state of the dialog through which a participant is added.
#[derive(Clone, Copy, Debug, PartialEq, Eq)]
pub enum AddModalState {
    /// The dialog is open for one side of the row at `order`; `row_id` names
    /// the row where it is stored.
    Open { row_id: Option<u128>, side: Side, order: usize },
    Closed,
}

impl AddModalState {
    /// Whether the dialog is shown.
    pub fn is_visible(&self) -> (visible: bool)
        ensures
            visible == (*self is Open),
    {
        match self {
            AddModalState::Open { .. } => true,
            AddModalState::Closed => false,
        }
    }
}

/// Opens the dialog for a free side.
///
/// The dialog names the row only where the row is stored: a row that awaits
/// its identifier, like no row at all, leaves the name out.
pub fn open_modal(id: Option<LocalUuidState>, side: Side, order: usize) -> (state: AddModalState)
    ensures
        state == (AddModalState::Open {
            row_id: match id {
                Some(LocalUuidState::Resolved(uuid)) => Some(uuid),
                _ => None,
            },
            side,
            order,
        }),
{
    let row_id = match id {
        None => None,
        Some(LocalUuidState::Pending(_)) => None,
        Some(LocalUuidState::Resolved(uuid)) => Some(uuid),
    };
    AddModalState::Open { row_id, side, order }
}

/// The row shown for an entry of the store.
pub open spec fn local_of(entry: EntryView) -> LocalEntryView {
    LocalEntryView { id: LocalUuidState::Resolved(entry.id), left: entry.left, right: entry.right }
}

/// The views of a sequence of rows on the page.
pub open spec fn local_views(entries: Seq<LocalQueueEntry>) -> Seq<LocalEntryView> {
    entries.map_values(|e: LocalQueueEntry| e@)
}

/// Turns the entries of the store into the rows that the page shows: one
/// for each entry, in the same order, each under its stored identifier.
pub fn local_entries(entries: Vec<QueueEntry>) -> (rows: Vec<LocalQueueEntry>)
    ensures
        local_views(rows@) == entries@.map_values(|e: QueueEntry| local_of(e@)),
{
    let mut rows: Vec<LocalQueueEntry> = Vec::new();
    let mut i: usize = 0;
    while i < entries.len()
        invariant
            i <= entries.len(),
            rows@.len() == i,
            forall|j: int| 0 <= j < i ==> (#[trigger] rows@[j])@ == local_of(entries@[j]@),
        decreases entries.len() - i,
    {
        let entry = entries[i].clone();
        let id = entry.id;
        let (left, right) = entry.players.players_tuple();
        rows.push(LocalQueueEntry { id: LocalUuidState::Resolved(id), left, right });
        i += 1;
    }
    assert(local_views(rows@) =~= entries@.map_values(|e: QueueEntry| local_of(e@)));
    rows
}

} // verus!
