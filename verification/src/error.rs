//! The ways in which a move can be refused.

use vstd::prelude::*;

verus! {

/// Why the game refused a request.
///
/// Moves are refused with `CantPlayCoinInEndedGame`, `ColumnOutOfBounds` or
/// `CannotFindMergeTarget`. The other cases are reserved: no function of
/// this library returns them.
#[derive(Debug)]
pub enum GameError {
    ImSoLazy,
    NoCoinAhead,
    GroupNotFound,
    /// A merge named a group that the table does not hold, or named one
    /// group as both source and target.
    CannotFindMergeTarget,
    CannotFindAddTarget,
    /// The column index names no column of the board.
    ColumnOutOfBounds,
    ColumnNotFound,
    CoinNotFound,
    ColumnsAlreadySet,
    /// The game has a winner, so no further piece is accepted.
    CantPlayCoinInEndedGame,
}

} // verus!
