//! The messages that the server sends to a client.

use vstd::prelude::*;

verus! {

/// What a client is told when it has joined: its id and the code of its
/// color.
#[derive(Debug)]
pub struct JoinedViewData {
    pub player_id: u64,
    pub color: u8,
}

/// What a client is told about the board: the cells column by column, the
/// winner if there is one, and the dimensions.
#[derive(Debug)]
pub struct SnapshotViewData<'a> {
    pub snapshot: &'a mut Vec<u8>,
    pub winner_id: Option<u64>,
    pub col_count: u64,
    pub row_count: u64,
}

/// A message from the server to a client.
#[derive(Debug)]
pub enum View<'a> {
    Snapshot(SnapshotViewData<'a>),
    Joined(JoinedViewData),
}

} // verus!
