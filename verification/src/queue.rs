//! The values a queue is made of as its users see them: sides, the occupancy
//! of a row, and the summaries handed to a display.

use crate::db::models::{name_view, Queue, QueueRow, RowView};
use vstd::prelude::*;
use vstd::std_specs::convert::{FromSpecImpl, TryFromSpecImpl};

verus! {

/// One of the two symmetric halves of a row.
#[derive(Clone, Copy, Debug, PartialEq, Eq, Structural)]
pub enum Side {
    Left,
    Right,
}

impl Side {
    /// The text that stands for a side wherever it crosses a boundary.
    pub open spec fn spec_name(self) -> Seq<char> {
        match self {
            Side::Left => "left"@,
            Side::Right => "right"@,
        }
    }

    /// Renders the side as `"left"` or `"right"`.
    pub fn to_string(&self) -> (text: String)
        ensures
            text@ == self.spec_name(),
    {
        match self {
            Side::Left => "left".to_string(),
            Side::Right => "right".to_string(),
        }
    }
}

/// The occupants of a row that holds at least one participant.
#[derive(Debug)]
pub enum EntryPlayers {
    LeftOnly(String),
    RightOnly(String),
    Both(String, String),
}

impl EntryPlayers {
    /// The name on the left side, if that side is taken.
    pub open spec fn left_name(self) -> Option<Seq<char>> {
        match self {
            EntryPlayers::LeftOnly(left) => Some(left@),
            EntryPlayers::RightOnly(_) => None,
            EntryPlayers::Both(left, _) => Some(left@),
        }
    }

    /// The name on the right side, if that side is taken.
    pub open spec fn right_name(self) -> Option<Seq<char>> {
        match self {
            EntryPlayers::LeftOnly(_) => None,
            EntryPlayers::RightOnly(right) => Some(right@),
            EntryPlayers::Both(_, right) => Some(right@),
        }
    }

    /// The occupants that a pair of slots stands for; `None` when both slots
    /// are empty.
    pub open spec fn of_slots(left: Option<String>, right: Option<String>) -> Option<EntryPlayers> {
        match (left, right) {
            (Some(l), Some(r)) => Some(EntryPlayers::Both(l, r)),
            (Some(l), None) => Some(EntryPlayers::LeftOnly(l)),
            (None, Some(r)) => Some(EntryPlayers::RightOnly(r)),
            (None, None) => None,
        }
    }

    /// Splits the occupants back into the two slots of the row.
    pub fn players_tuple(self) -> (slots: (Option<String>, Option<String>))
        ensures
            EntryPlayers::of_slots(slots.0, slots.1) == Some(self),
            name_view(slots.0) == self.left_name(),
            name_view(slots.1) == self.right_name(),
    {
        match self {
            EntryPlayers::LeftOnly(left) => (Some(left), None),
            EntryPlayers::RightOnly(right) => (None, Some(right)),
            EntryPlayers::Both(left, right) => (Some(left), Some(right)),
        }
    }
}

impl Clone for EntryPlayers {
    fn clone(&self) -> (copy: Self)
        ensures
            copy == *self,
    {
        match self {
            EntryPlayers::LeftOnly(left) => EntryPlayers::LeftOnly(left.clone()),
            EntryPlayers::RightOnly(right) => EntryPlayers::RightOnly(right.clone()),
            EntryPlayers::Both(left, right) => EntryPlayers::Both(left.clone(), right.clone()),
        }
    }
}

/// Why a stored row could not be shown.
#[derive(Clone, Copy, Debug, PartialEq, Eq, Structural)]
pub enum ConversionError {
    /// The row holds nobody on either side.
    EmptyRow { row_id: u128, queue_id: u128, order: i32 },
}

/// Decides which occupancy a stored row has.
///
/// A row with at least one taken side is classified with its names kept as
/// they are; a row with both sides empty is an integrity fault and is
/// reported with the row's identity.
pub open spec fn spec_classify(row: QueueRow) -> Result<EntryPlayers, ConversionError> {
    match EntryPlayers::of_slots(row.left_player_name, row.right_player_name) {
        Some(players) => Ok(players),
        None => Err(
            ConversionError::EmptyRow {
                row_id: row.id,
                queue_id: row.queue_id,
                order: row.queue_order,
            },
        ),
    }
}

/// Classifies the two slots of a row into its occupancy.
pub fn classify(row: QueueRow) -> (result: Result<EntryPlayers, ConversionError>)
    ensures
        result == spec_classify(row),
        row.left_player_name matches Some(left) ==> (row.right_player_name matches Some(right)
            ==> result == Ok::<EntryPlayers, ConversionError>(EntryPlayers::Both(left, right))),
        result is Err <==> row@.left is None && row@.right is None,
        result matches Ok(players) ==> players.left_name() == row@.left && players.right_name()
            == row@.right,
{
    match (row.left_player_name, row.right_player_name) {
        (Some(left), Some(right)) => Ok(EntryPlayers::Both(left, right)),
        (Some(left), None) => Ok(EntryPlayers::LeftOnly(left)),
        (None, Some(right)) => Ok(EntryPlayers::RightOnly(right)),
        (None, None) => Err(
            ConversionError::EmptyRow {
                row_id: row.id,
                queue_id: row.queue_id,
                order: row.queue_order,
            },
        ),
    }
}

/// What a display needs to know of a queue.
#[derive(Debug)]
pub struct QueueInfo {
    pub id: u128,
    pub url_name: String,
    pub display_name: String,
}

/// What a queue summary is, with its names as sequences of characters.
pub struct QueueInfoView {
    pub id: u128,
    pub url_name: Seq<char>,
    pub display_name: Seq<char>,
}

impl View for QueueInfo {
    type V = QueueInfoView;

    open spec fn view(&self) -> QueueInfoView {
        QueueInfoView { id: self.id, url_name: self.url_name@, display_name: self.display_name@ }
    }
}

impl Clone for QueueInfo {
    fn clone(&self) -> (copy: Self)
        ensures
            copy == *self,
    {
        QueueInfo {
            id: self.id,
            url_name: self.url_name.clone(),
            display_name: self.display_name.clone(),
        }
    }
}

impl From<Queue> for QueueInfo {
    /// Keeps the identity and the names of a stored queue and drops the rest.
    fn from(queue: Queue) -> (info: QueueInfo) {
        QueueInfo { id: queue.id, url_name: queue.url_name, display_name: queue.display_name }
    }
}

impl FromSpecImpl<Queue> for QueueInfo {
    open spec fn obeys_from_spec() -> bool {
        true
    }

    open spec fn from_spec(queue: Queue) -> QueueInfo {
        QueueInfo { id: queue.id, url_name: queue.url_name, display_name: queue.display_name }
    }
}

/// A row as it is shown: its identity, its place and who sits in it.
#[derive(Debug)]
pub struct QueueEntry {
    pub id: u128,
    pub queue_id: u128,
    pub order: i32,
    pub players: EntryPlayers,
}

impl Clone for QueueEntry {
    fn clone(&self) -> (copy: Self)
        ensures
            copy == *self,
    {
        QueueEntry {
            id: self.id,
            queue_id: self.queue_id,
            order: self.order,
            players: self.players.clone(),
        }
    }
}

impl TryFrom<QueueRow> for QueueEntry {
    type Error = ConversionError;

    /// Turns a stored row into the entry shown for it, or reports the row as
    /// empty.
    fn try_from(db_row: QueueRow) -> (result: Result<QueueEntry, ConversionError>) {
        let id = db_row.id;
        let queue_id = db_row.queue_id;
        let order = db_row.queue_order;
        match classify(db_row) {
            Ok(players) => Ok(QueueEntry { id, queue_id, order, players }),
            Err(e) => Err(e),
        }
    }
}

impl TryFromSpecImpl<QueueRow> for QueueEntry {
    open spec fn obeys_try_from_spec() -> bool {
        true
    }

    open spec fn try_from_spec(db_row: QueueRow) -> Result<QueueEntry, ConversionError> {
        match spec_classify(db_row) {
            Ok(players) => Ok(
                QueueEntry {
                    id: db_row.id,
                    queue_id: db_row.queue_id,
                    order: db_row.queue_order,
                    players,
                },
            ),
            Err(e) => Err(e),
        }
    }
}

/// What an entry is, with its names as sequences of characters.
pub struct EntryView {
    pub id: u128,
    pub queue_id: u128,
    pub order: i32,
    pub left: Option<Seq<char>>,
    pub right: Option<Seq<char>>,
}

impl View for QueueEntry {
    type V = EntryView;

    open spec fn view(&self) -> EntryView {
        EntryView {
            id: self.id,
            queue_id: self.queue_id,
            order: self.order,
            left: self.players.left_name(),
            right: self.players.right_name(),
        }
    }
}

/// Whether somebody sits in the row.
pub open spec fn occupied(row: RowView) -> bool {
    row.left is Some || row.right is Some
}

/// The entry shown for a stored row.
pub open spec fn entry_of(row: RowView) -> EntryView {
    EntryView {
        id: row.id,
        queue_id: row.queue_id,
        order: row.order,
        left: row.left,
        right: row.right,
    }
}

/// The fault reported for a stored row that holds nobody.
pub open spec fn fault_of(row: RowView) -> ConversionError {
    ConversionError::EmptyRow { row_id: row.id, queue_id: row.queue_id, order: row.order }
}

/// The entries shown for a sequence of stored rows: one for each row that
/// holds somebody, in the order of the rows.
pub open spec fn entries_of(rows: Seq<RowView>) -> Seq<EntryView> {
    rows.filter(|r: RowView| occupied(r)).map_values(|r: RowView| entry_of(r))
}

/// The faults reported for a sequence of stored rows: one for each row that
/// holds nobody, in the order of the rows.
pub open spec fn faults_of(rows: Seq<RowView>) -> Seq<ConversionError> {
    rows.filter(|r: RowView| !occupied(r)).map_values(|r: RowView| fault_of(r))
}

/// The views of a sequence of entries.
pub open spec fn entry_views(entries: Seq<QueueEntry>) -> Seq<EntryView> {
    entries.map_values(|e: QueueEntry| e@)
}

/// Turns stored rows into the entries shown for them.
///
/// A row that holds nobody is left out of the entries and reported among the
/// faults; the rows around it are shown all the same.
pub fn convert_rows(rows: Vec<QueueRow>) -> (result: (Vec<QueueEntry>, Vec<ConversionError>))
    ensures
        entry_views(result.0@) == entries_of(rows@.map_values(|r: QueueRow| r@)),
        result.1@ == faults_of(rows@.map_values(|r: QueueRow| r@)),
{
    let ghost views = rows@.map_values(|r: QueueRow| r@);
    let ghost shown = |r: RowView| occupied(r);
    let ghost hidden = |r: RowView| !occupied(r);
    let mut entries: Vec<QueueEntry> = Vec::new();
    let mut faults: Vec<ConversionError> = Vec::new();
    let mut i: usize = 0;
    assert(entry_views(entries@) =~= entries_of(views.take(0))) by {
        reveal(Seq::filter);
    }
    assert(faults@ =~= faults_of(views.take(0))) by {
        reveal(Seq::filter);
    }
    while i < rows.len()
        invariant
            i <= rows.len(),
            views == rows@.map_values(|r: QueueRow| r@),
            shown == |r: RowView| occupied(r),
            hidden == |r: RowView| !occupied(r),
            entry_views(entries@) == entries_of(views.take(i as int)),
            faults@ == faults_of(views.take(i as int)),
        decreases rows.len() - i,
    {
        proof {
            assert(views.take(i as int + 1) =~= views.take(i as int).push(views[i as int]));
            views.take(i as int).lemma_filter_push(views[i as int], shown);
            views.take(i as int).lemma_filter_push(views[i as int], hidden);
        }
        let row = rows[i].clone();
        match QueueEntry::try_from(row) {
            Ok(entry) => {
                assert(entry@ == entry_of(views[i as int]));
                assert(entry_views(entries@.push(entry)) =~= entries_of(
                    views.take(i as int),
                ).push(entry@));
                assert(entries_of(views.take(i as int + 1)) =~= entries_of(
                    views.take(i as int),
                ).push(entry_of(views[i as int])));
                entries.push(entry);
            },
            Err(fault) => {
                assert(fault == fault_of(views[i as int]));
                assert(faults_of(views.take(i as int + 1)) =~= faults_of(
                    views.take(i as int),
                ).push(fault_of(views[i as int])));
                faults.push(fault);
            },
        }
        i += 1;
    }
    assert(views.take(i as int) =~= views);
    (entries, faults)
}

/// The entries shown for a sequence of rows are those of its occupied rows
/// and of no others: every occupied row is shown, every entry shows an
/// occupied row, and every row that holds nobody is reported instead.
pub proof fn lemma_empty_rows_are_left_out(rows: Seq<RowView>)
    ensures
        forall|e: EntryView| #[trigger]
            entries_of(rows).contains(e) ==> (e.left is Some || e.right is Some) && exists|
                r: RowView,
            |
                rows.contains(r) && occupied(r) && e == entry_of(r),
        forall|r: RowView|
            rows.contains(r) && occupied(r) ==> #[trigger] entries_of(rows).contains(entry_of(r)),
        forall|r: RowView|
            rows.contains(r) && !occupied(r) ==> #[trigger] faults_of(rows).contains(fault_of(r)),
{
    let shown = |r: RowView| occupied(r);
    let hidden = |r: RowView| !occupied(r);
    assert forall|e: EntryView| #[trigger] entries_of(rows).contains(e) implies (e.left is Some
        || e.right is Some) && exists|r: RowView|
        rows.contains(r) && occupied(r) && e == entry_of(r) by {
        let k = choose|k: int| 0 <= k < entries_of(rows).len() && entries_of(rows)[k] == e;
        let r = rows.filter(shown)[k];
        rows.lemma_filter_pred(shown, k);
        assert(rows.filter(shown).contains(r));
        rows.lemma_filter_contains_rev(shown, r);
        assert(rows.contains(r) && occupied(r) && e == entry_of(r));
    }
    assert forall|r: RowView| rows.contains(r) && occupied(r) implies #[trigger] entries_of(
        rows,
    ).contains(entry_of(r)) by {
        let i = choose|i: int| 0 <= i < rows.len() && rows[i] == r;
        rows.lemma_filter_contains(shown, i);
        let k = choose|k: int| 0 <= k < rows.filter(shown).len() && rows.filter(shown)[k] == r;
        assert(entries_of(rows)[k] == entry_of(r));
    }
    assert forall|r: RowView| rows.contains(r) && !occupied(r) implies #[trigger] faults_of(
        rows,
    ).contains(fault_of(r)) by {
        let i = choose|i: int| 0 <= i < rows.len() && rows[i] == r;
        rows.lemma_filter_contains(hidden, i);
        let k = choose|k: int| 0 <= k < rows.filter(hidden).len() && rows.filter(hidden)[k] == r;
        assert(faults_of(rows)[k] == fault_of(r));
    }
}

} // verus!
