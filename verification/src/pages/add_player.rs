//! Adding a participant from the page: which operation the request is, and
//! what the page shows before the store has answered.

use crate::db::api::{add_player_to_row, add_row, append_outcome, order_to_ask, ApiError};
use crate::db::store::QueueStore;
use crate::pages::rows::{local_views, LocalEntryView, LocalQueueEntry, LocalUuidState};
use crate::queue::Side;
use vstd::prelude::*;

verus! {

/// Why a request to add a participant failed.
#[derive(Clone, Copy, Debug, PartialEq, Eq)]
pub enum AddPlayerError {
    /// The request named both a stored row and a row of the page, or neither.
    InvalidIds { resolved: Option<u128>, pending: Option<u128> },
    /// The store refused.
    Api(ApiError),
}

/// Reads the two identifier fields of a request as one identifier.
///
/// Exactly one of the fields must be filled: the first names a stored row,
/// the second a row that so far exists on the page alone.
pub fn local_uuid_helper(resolved_id: Option<u128>, pending_id: Option<u128>) -> (result: Result<
    LocalUuidState,
    AddPlayerError,
>)
    ensures
        result == match (resolved_id, pending_id) {
            (Some(resolved), None) => Ok::<LocalUuidState, AddPlayerError>(
                LocalUuidState::Resolved(resolved),
            ),
            (None, Some(pending)) => Ok(LocalUuidState::Pending(pending)),
            _ => Err(AddPlayerError::InvalidIds { resolved: resolved_id, pending: pending_id }),
        },
{
    match (resolved_id, pending_id) {
        (Some(resolved), None) => Ok(LocalUuidState::Resolved(resolved)),
        (None, Some(pending)) => Ok(LocalUuidState::Pending(pending)),
        _ => Err(AddPlayerError::InvalidIds { resolved: resolved_id, pending: pending_id }),
    }
}

/// Adds a participant to a queue, to a stored row or as the first of a new
/// one.
///
/// A request that names a stored row seats the participant there and answers
/// `None`. A request that names a row of the page appends a row at the tail
/// of the queue and answers with the identifier the page used and the one
/// under which the row is stored, so that the page can tell them apart no
/// longer. A request that names both or neither is refused before the store
/// is touched.
pub fn add_player(
    queue_id: u128,
    resolved_id: Option<u128>,
    pending_id: Option<u128>,
    side: Side,
    player: String,
    store: &mut QueueStore,
) -> (result: Result<Option<(u128, u128)>, AddPlayerError>)
    requires
        old(store).wf(),
    ensures
        final(store).wf(),
        old(store)@.ordered() ==> final(store)@.ordered(),
        match (resolved_id, pending_id) {
            (Some(row_id), None) => match old(store)@.assign(row_id, side, player@) {
                Ok(after) => result == Ok::<Option<(u128, u128)>, AddPlayerError>(None)
                    && final(store)@ == after,
                Err(e) => result == Err::<Option<(u128, u128)>, AddPlayerError>(
                    AddPlayerError::Api(e),
                ) && final(store)@ == old(store)@,
            },
            (None, Some(temp_id)) => match result {
                Ok(ids) => ids matches Some((old_id, new_id)) && old_id == temp_id
                    && append_outcome(
                    old(store)@,
                    final(store)@,
                    Ok(new_id),
                    queue_id,
                    order_to_ask(old(store)@.tail(queue_id)),
                    side,
                    player@,
                ),
                Err(e) => e matches AddPlayerError::Api(refusal) && append_outcome(
                    old(store)@,
                    final(store)@,
                    Err(refusal),
                    queue_id,
                    order_to_ask(old(store)@.tail(queue_id)),
                    side,
                    player@,
                ),
            },
            _ => result == Err::<Option<(u128, u128)>, AddPlayerError>(
                AddPlayerError::InvalidIds { resolved: resolved_id, pending: pending_id },
            ) && final(store)@ == old(store)@,
        },
{
    let row_id = match local_uuid_helper(resolved_id, pending_id) {
        Ok(row_id) => row_id,
        Err(e) => {
            return Err(e);
        },
    };
    match row_id {
        LocalUuidState::Resolved(row_id) => match add_player_to_row(row_id, player, side, store) {
            Ok(_) => Ok(None),
            Err(e) => Err(AddPlayerError::Api(e)),
        },
        LocalUuidState::Pending(temp_id) => match add_row(queue_id, player, side, store) {
            Ok(new_id) => Ok(Some((temp_id, new_id))),
            Err(e) => Err(AddPlayerError::Api(e)),
        },
    }
}

/// What the page did with a participant that was just submitted.
#[derive(Clone, Copy, Debug, PartialEq, Eq, Structural)]
pub enum LocalChange {
    /// The free side of a shown row was filled.
    Filled,
    /// The side was taken; nothing was changed.
    Occupied,
    /// A row was added behind all others.
    Appended,
}

/// A row of the page with one side set to a name.
pub open spec fn with_local_slot(entry: LocalEntryView, side: Side, name: Seq<char>) -> LocalEntryView {
    match side {
        Side::Left => LocalEntryView { left: Some(name), ..entry },
        Side::Right => LocalEntryView { right: Some(name), ..entry },
    }
}

/// The name on one side of a row of the page, if any.
pub open spec fn local_slot(entry: LocalEntryView, side: Side) -> Option<Seq<char>> {
    match side {
        Side::Left => entry.left,
        Side::Right => entry.right,
    }
}

/// Shows a submitted participant on the page at once, before the store has
/// answered.
///
/// For a stored row, the row shown at `order` gets the participant on the
/// side asked for, unless that side is taken, which changes nothing. For a
/// row that awaits its identifier, a row under that identifier is added
/// behind all others, with the participant on the side asked for and nobody
/// on the other.
pub fn submit_locally(
    entries: &mut Vec<LocalQueueEntry>,
    row_id: LocalUuidState,
    side: Side,
    order: usize,
    player: String,
) -> (change: LocalChange)
    requires
        row_id is Resolved ==> order < old(entries)@.len(),
    ensures
        match row_id {
            LocalUuidState::Resolved(_) => if local_slot(
                local_views(old(entries)@)[order as int],
                side,
            ) is None {
                &&& change == LocalChange::Filled
                &&& local_views(final(entries)@) == local_views(old(entries)@).update(
                    order as int,
                    with_local_slot(local_views(old(entries)@)[order as int], side, player@),
                )
            } else {
                &&& change == LocalChange::Occupied
                &&& local_views(final(entries)@) == local_views(old(entries)@)
            },
            LocalUuidState::Pending(_) => {
                &&& change == LocalChange::Appended
                &&& local_views(final(entries)@) == local_views(old(entries)@).push(
                    with_local_slot(
                        LocalEntryView { id: row_id, left: None, right: None },
                        side,
                        player@,
                    ),
                )
            },
        },
{
    match row_id {
        LocalUuidState::Resolved(_) => {
            let taken = match side {
                Side::Left => entries[order].left.is_some(),
                Side::Right => entries[order].right.is_some(),
            };
            if taken {
                return LocalChange::Occupied;
            }
            let shown = entries[order].clone();
            let filled = match side {
                Side::Left => LocalQueueEntry { id: shown.id, left: Some(player), right: shown.right },
                Side::Right => LocalQueueEntry { id: shown.id, left: shown.left, right: Some(player) },
            };
            let ghost before = entries@;
            entries[order] = filled;
            assert(entries@ == before.update(order as int, filled));
            assert(local_views(entries@) =~= local_views(before).update(
                order as int,
                with_local_slot(local_views(before)[order as int], side, player@),
            ));
            LocalChange::Filled
        },
        LocalUuidState::Pending(_) => {
            let (left, right) = match side {
                Side::Left => (Some(player), None),
                Side::Right => (None, Some(player)),
            };
            let added = LocalQueueEntry { id: row_id, left, right };
            let ghost before = entries@;
            entries.push(added);
            assert(local_views(entries@) =~= local_views(before).push(added@));
            LocalChange::Appended
        },
    }
}

/// Gives a row of the page the identifier under which the store holds it.
///
/// The first row that goes by the pending identifier `old_id` is from now on
/// the stored row `new_id`; its slots and every other row stay as they are.
/// Where no row goes by `old_id`, nothing is changed and the answer is
/// `false`.
pub fn resolve_pending(entries: &mut Vec<LocalQueueEntry>, old_id: u128, new_id: u128) -> (found:
    bool)
    ensures
        found <==> exists|i: int|
            0 <= i < old(entries)@.len() && (#[trigger] old(entries)@[i]).id
                == LocalUuidState::Pending(old_id),
        !found ==> final(entries)@ == old(entries)@,
        found ==> exists|i: int|
            {
                &&& 0 <= i < old(entries)@.len()
                &&& (#[trigger] old(entries)@[i]).id == LocalUuidState::Pending(old_id)
                &&& forall|j: int|
                    0 <= j < i ==> (#[trigger] old(entries)@[j]).id != LocalUuidState::Pending(
                        old_id,
                    )
                &&& local_views(final(entries)@) == local_views(old(entries)@).update(
                    i,
                    LocalEntryView {
                        id: LocalUuidState::Resolved(new_id),
                        ..local_views(old(entries)@)[i]
                    },
                )
            },
{
    let mut i: usize = 0;
    while i < entries.len()
        invariant
            i <= entries.len(),
            entries@ == old(entries)@,
            forall|j: int|
                0 <= j < i ==> (#[trigger] old(entries)@[j]).id != LocalUuidState::Pending(old_id),
        decreases entries.len() - i,
    {
        if entries[i].id == LocalUuidState::Pending(old_id) {
            let shown = entries[i].clone();
            let resolved = LocalQueueEntry {
                id: LocalUuidState::Resolved(new_id),
                left: shown.left,
                right: shown.right,
            };
            let ghost before = entries@;
            entries[i] = resolved;
            assert(entries@ == before.update(i as int, resolved));
            assert(local_views(entries@) =~= local_views(before).update(
                i as int,
                LocalEntryView {
                    id: LocalUuidState::Resolved(new_id),
                    ..local_views(before)[i as int]
                },
            ));
            return true;
        }
        i += 1;
    }
    false
}

} // verus!
