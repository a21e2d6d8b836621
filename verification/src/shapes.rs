//! Pieces of one color that fill a row, a column or a diagonal: when such a
//! shape wins.

use crate::board::{connected_groups, group_at, lemma_groups_by_direction, Position};
use crate::game::{
    board_after, joined_group, joined_size, landing_row, lemma_lone_piece_starts_group,
    lemma_piece_joins_single_group, table_after, table_sound, wins,
};
use crate::groups::cells_of;
use crate::order::{lemma_ascending_of_none, lemma_ascending_of_one};
use crate::piece::{Coin, Color};
use vstd::prelude::*;

verus! {

/// A board of `width` columns on which one piece of `color` lies at the
/// bottom of each of the first `filled` columns, all of them in group 0.
pub open spec fn row_board(width: nat, filled: nat, color: Color) -> Seq<Seq<Coin>> {
    Seq::new(
        width,
        |c: int|
            if c < filled {
                seq![Coin { color, group: 0 }]
            } else {
                Seq::empty()
            },
    )
}

/// The table that goes with `row_board`: no group while the board is empty,
/// and then group 0 with the cells of the bottom row from the left.
pub open spec fn row_table(filled: nat) -> Map<u64, Seq<Position>> {
    if filled == 0 {
        Map::empty()
    } else {
        map![0u64 => Seq::new(filled, |i: int| (i as u64, 0u64))]
    }
}

/// A board of `width` columns on which `height` pieces of `color` are
/// stacked in column `col`, all of them in group 0.
pub open spec fn stack_board(width: nat, col: int, height: nat, color: Color) -> Seq<Seq<Coin>> {
    Seq::new(
        width,
        |c: int|
            if c == col {
                Seq::new(height, |r: int| Coin { color, group: 0 })
            } else {
                Seq::empty()
            },
    )
}

/// The table that goes with `stack_board`.
pub open spec fn stack_table(col: int, height: nat) -> Map<u64, Seq<Position>> {
    if height == 0 {
        Map::empty()
    } else {
        map![0u64 => Seq::new(height, |i: int| (col as u64, i as u64))]
    }
}

/// Filling the bottom row from the left with pieces of one color: on a board
/// of `width` columns whose first `filled` columns hold one such piece each,
/// the next piece, dropped into column `filled`, joins group 0, which then
/// has `filled + 1` cells. So the move wins if and only if it is the
/// `width`-th: the row wins exactly when it is complete, and not before.
pub proof fn lemma_row_wins_when_complete(width: nat, filled: nat, color: Color)
    requires
        filled < width,
        width <= u64::MAX,
    ensures
        board_after(row_board(width, filled, color), row_table(filled), filled as int, color)
            == row_board(width, filled + 1, color),
        table_after(row_board(width, filled, color), row_table(filled), filled as int, color)
            == row_table(filled + 1),
        joined_size(row_board(width, filled, color), row_table(filled), filled as int, color)
            == filled + 1,
        wins(row_board(width, filled, color), row_table(filled), filled as int, color) <==> filled
            + 1 == width,
{
    let board = row_board(width, filled, color);
    let table = row_table(filled);
    let col = filled as int;
    assert(landing_row(board, col) == 0);
    lemma_groups_by_direction(board, col, 0, color);
    lemma_ascending_of_none();
    lemma_ascending_of_one(0);
    let around = connected_groups(board, col, 0, color);
    if filled == 0 {
        assert(around =~= Set::<u64>::empty());
        assert(table.len() == 0);
    } else {
        assert(group_at(board, col - 1, 0, color) == Some(0u64));
        assert(around =~= set![0u64]);
        assert(seq![0u64].drop_first() =~= Seq::<u64>::empty());
    }
    assert(joined_group(board, table, col, color) == 0);
    assert(board_after(board, table, col, color) =~= row_board(width, filled + 1, color)) by {
        assert forall|c: int| 0 <= c < width implies board_after(board, table, col, color)[c]
            =~= row_board(width, filled + 1, color)[c] by {}
    }
    let cell = (col as u64, 0u64);
    assert(cells_of(table, 0).push(cell) =~= Seq::new(filled + 1, |i: int| (i as u64, 0u64)));
    assert(table_after(board, table, col, color) =~= row_table(filled + 1));
}

/// Stacking pieces of one color in one column: on a board of `width`
/// columns where `height` such pieces are stacked in column `col`, the next
/// piece dropped into that column joins group 0, which then has
/// `height + 1` cells. So the move wins if and only if the stack is then
/// at least `width` high: a stack wins exactly on the `width`-th piece.
pub proof fn lemma_stack_wins_when_tall(width: nat, col: int, height: nat, color: Color)
    requires
        0 <= col < width,
        width <= u64::MAX,
        height < u64::MAX,
    ensures
        board_after(stack_board(width, col, height, color), stack_table(col, height), col, color)
            == stack_board(width, col, height + 1, color),
        table_after(stack_board(width, col, height, color), stack_table(col, height), col, color)
            == stack_table(col, height + 1),
        joined_size(stack_board(width, col, height, color), stack_table(col, height), col, color)
            == height + 1,
        wins(stack_board(width, col, height, color), stack_table(col, height), col, color)
            <==> height + 1 >= width,
{
    let board = stack_board(width, col, height, color);
    let table = stack_table(col, height);
    let row = height as int;
    assert(landing_row(board, col) == row);
    lemma_groups_by_direction(board, col, row, color);
    lemma_ascending_of_none();
    lemma_ascending_of_one(0);
    let around = connected_groups(board, col, row, color);
    if height == 0 {
        assert(around =~= Set::<u64>::empty());
        assert(table.len() == 0);
    } else {
        assert(group_at(board, col, row - 1, color) == Some(0u64));
        assert(around =~= set![0u64]);
        assert(seq![0u64].drop_first() =~= Seq::<u64>::empty());
    }
    assert(joined_group(board, table, col, color) == 0);
    assert(board_after(board, table, col, color) =~= stack_board(width, col, height + 1, color))
        by {
        assert forall|c: int| 0 <= c < width implies board_after(board, table, col, color)[c]
            =~= stack_board(width, col, height + 1, color)[c] by {}
    }
    let cell = (col as u64, row as u64);
    assert(cells_of(table, 0).push(cell) =~= Seq::new(
        height + 1,
        |i: int| (col as u64, i as u64),
    ));
    assert(table_after(board, table, col, color) =~= stack_table(col, height + 1));
}

/// Whether the pieces of a column below row `height` are all of another
/// color than `color`, and the column reaches at least that high.
pub open spec fn filled_with_others(column: Seq<Coin>, height: int, color: Color) -> bool {
    column.len() >= height && forall|r: int| 0 <= r < height ==> column[r].color != color
}

/// Whether the board is a staircase of `steps` steps that waits for the next
/// one: each of the first `steps` columns holds as many pieces of other
/// colors as its index says and on top of them a piece of `color` in group
/// 0, so that these pieces form a diagonal; the next column holds `steps`
/// pieces of other colors; the columns behind it are empty.
pub open spec fn staircase(board: Seq<Seq<Coin>>, steps: int, color: Color) -> bool {
    &&& 0 <= steps < board.len()
    &&& forall|c: int|
        0 <= c < steps ==> (#[trigger] board[c]).len() == c + 1 && board[c][c] == (Coin {
            color,
            group: 0,
        }) && filled_with_others(board[c], c, color)
    &&& board[steps].len() == steps
    &&& filled_with_others(board[steps], steps, color)
    &&& forall|c: int| steps < c < board.len() ==> (#[trigger] board[c]).len() == 0
}

/// The next step of a staircase: the piece of the stair's color that is
/// dropped onto the waiting column touches the top of the step before it and
/// no other piece of its color, so it joins the diagonal, which group 0
/// lists. The move wins if and only if the diagonal is then as long as the
/// board is wide.
pub proof fn lemma_stair_wins_when_complete(
    board: Seq<Seq<Coin>>,
    table: Map<u64, Seq<Position>>,
    steps: int,
    color: Color,
)
    requires
        staircase(board, steps, color),
        steps >= 1,
        table.contains_key(0),
        table[0].len() == steps,
    ensures
        joined_group(board, table, steps, color) == 0,
        joined_size(board, table, steps, color) == steps + 1,
        wins(board, table, steps, color) <==> steps + 1 == board.len(),
{
    let around = connected_groups(board, steps, steps, color);
    lemma_groups_by_direction(board, steps, steps, color);
    assert(board[steps - 1].len() == steps);
    assert(group_at(board, steps - 1, steps - 1, color) == Some(0u64));
    assert(group_at(board, steps, steps - 1, color) is None);
    if steps + 1 < board.len() {
        assert(board[steps + 1].len() == 0);
    }
    assert(around =~= set![0u64]);
    lemma_piece_joins_single_group(board, table, steps, color, 0);
}

/// A stair that is interrupted starts over: where the column before the
/// landing column holds only other colors up to the landing row, and so does
/// the landing column below it, and the column behind is empty, the piece
/// touches no piece of its color and starts a group of one cell. On a board
/// of more than one column the move does not win.
pub proof fn lemma_interrupted_stair_starts_over(
    board: Seq<Seq<Coin>>,
    table: Map<u64, Seq<Position>>,
    col: int,
    color: Color,
)
    requires
        table_sound(board, table),
        table.len() <= u64::MAX,
        1 <= col < board.len(),
        board[col - 1].len() == board[col].len(),
        filled_with_others(board[col - 1], board[col].len() as int, color),
        filled_with_others(board[col], board[col].len() as int, color),
        col + 1 < board.len() ==> board[col + 1].len() == 0,
    ensures
        joined_size(board, table, col, color) == 1,
        !wins(board, table, col, color),
{
    let row = landing_row(board, col);
    lemma_groups_by_direction(board, col, row, color);
    assert(group_at(board, col - 1, row - 1, color) is None);
    assert(group_at(board, col, row - 1, color) is None);
    assert(connected_groups(board, col, row, color) =~= Set::<u64>::empty());
    lemma_lone_piece_starts_group(board, table, col, color);
}

} // verus!
