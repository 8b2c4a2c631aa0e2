//! What a page keeps of a queue while it is shown: the rows as the viewer
//! sees them, ahead of the store where a row was just added, and the dialog
//! through which a participant is added.

pub mod add_player;
pub mod rows;
