//! The board: columns of stacked pieces, and the neighborhood of a cell.

use crate::error::GameError;
use crate::piece::{Coin, Color};
use std::collections::HashSet;
use vstd::prelude::*;

verus! {

broadcast use vstd::std_specs::hash::group_hash_axioms;

/// One column of the board. Index 0 is the lowest row.
pub type CoinColumn = Vec<Coin>;

/// The board, column by column.
pub type Coins = Vec<CoinColumn>;

/// A cell of the board: column, then row.
pub type Position = (u64, u64);

/// The board as a sequence of columns, each a sequence of pieces from the
/// bottom up.
pub open spec fn board_of(coins: &Coins) -> Seq<Seq<Coin>> {
    Seq::new(coins@.len(), |c: int| coins@[c]@)
}

/// A board of the given number of columns, all of them empty.
pub open spec fn empty_board(columns: nat) -> Seq<Seq<Coin>> {
    Seq::new(columns, |c: int| Seq::<Coin>::empty())
}

/// The height of the tallest column; 0 for a board without columns.
pub open spec fn tallest(board: Seq<Seq<Coin>>) -> nat
    decreases board.len(),
{
    if board.len() == 0 {
        0
    } else if board.last().len() > tallest(board.drop_last()) {
        board.last().len()
    } else {
        tallest(board.drop_last())
    }
}

/// No column is taller than the tallest, and a board with columns has a
/// column of that height.
pub proof fn lemma_tallest(board: Seq<Seq<Coin>>)
    ensures
        forall|c: int| 0 <= c < board.len() ==> #[trigger] board[c].len() <= tallest(board),
        board.len() > 0 ==> exists|c: int|
            0 <= c < board.len() && #[trigger] board[c].len() == tallest(board),
    decreases board.len(),
{
    if board.len() > 0 {
        let front = board.drop_last();
        lemma_tallest(front);
        assert forall|c: int| 0 <= c < board.len() implies #[trigger] board[c].len() <= tallest(
            board,
        ) by {
            if c < front.len() {
                assert(front[c] == board[c]);
            }
        }
        if board.last().len() > tallest(front) || front.len() == 0 {
            assert(board[board.len() - 1].len() == tallest(board));
        } else {
            let c = choose|c: int| 0 <= c < front.len() && #[trigger] front[c].len() == tallest(front);
            assert(board[c] == front[c]);
            assert(board[c].len() == tallest(board));
        }
    }
}

/// The height of the tallest column.
pub fn tallest_column(coins: &Coins) -> (height: usize)
    ensures
        height == tallest(board_of(coins)),
{
    let mut height: usize = 0;
    let mut c: usize = 0;
    while c < coins.len()
        invariant
            c <= coins.len(),
            height == tallest(board_of(coins).take(c as int)),
        decreases coins.len() - c,
    {
        assert(board_of(coins).take(c + 1).drop_last() =~= board_of(coins).take(c as int));
        if coins[c].len() > height {
            height = coins[c].len();
        }
        c += 1;
    }
    assert(board_of(coins).take(c as int) =~= board_of(coins));
    height
}

/// Whether the board holds a piece at column `col`, row `row`.
pub open spec fn occupied(board: Seq<Seq<Coin>>, col: int, row: int) -> bool {
    0 <= col < board.len() && 0 <= row < board[col].len()
}

/// Whether two distinct cells touch: side by side, one on top of the other,
/// or corner to corner.
pub open spec fn adjacent(col: int, row: int, other_col: int, other_row: int) -> bool {
    &&& -1 <= other_col - col <= 1
    &&& -1 <= other_row - row <= 1
    &&& !(other_col == col && other_row == row)
}

/// The group id of the piece at a cell, if the cell holds a piece of the
/// given color.
pub open spec fn group_at(board: Seq<Seq<Coin>>, col: int, row: int, color: Color) -> Option<u64> {
    if occupied(board, col, row) && board[col][row].color == color {
        Some(board[col][row].group)
    } else {
        None
    }
}

/// The group ids of the pieces of the given color in the eight cells around
/// column `col`, row `row`.
pub open spec fn connected_groups(board: Seq<Seq<Coin>>, col: int, row: int, color: Color) -> Set<
    u64,
> {
    Set::new(
        |g: u64|
            exists|c: int, r: int|
                #[trigger] adjacent(col, row, c, r) && group_at(board, c, r, color) == Some(g),
    )
}

/// A set that holds the id in `found`, if there is one.
pub open spec fn as_set(found: Option<u64>) -> Set<u64> {
    match found {
        Some(g) => set![g],
        None => Set::empty(),
    }
}

/// The ids around a cell, direction by direction.
pub open spec fn groups_by_direction(board: Seq<Seq<Coin>>, col: int, row: int, color: Color) -> Set<
    u64,
> {
    as_set(group_at(board, col - 1, row, color)).union(
        as_set(group_at(board, col + 1, row, color)),
    ).union(as_set(group_at(board, col, row + 1, color))).union(
        as_set(group_at(board, col, row - 1, color)),
    ).union(as_set(group_at(board, col - 1, row + 1, color))).union(
        as_set(group_at(board, col + 1, row + 1, color)),
    ).union(as_set(group_at(board, col - 1, row - 1, color))).union(
        as_set(group_at(board, col + 1, row - 1, color)),
    )
}

/// Looking in each of the eight directions finds exactly the ids of the
/// adjacent pieces of the given color.
pub proof fn lemma_groups_by_direction(board: Seq<Seq<Coin>>, col: int, row: int, color: Color)
    ensures
        groups_by_direction(board, col, row, color) == connected_groups(board, col, row, color),
        connected_groups(board, col, row, color).finite(),
        connected_groups(board, col, row, color).len() <= 8,
{
    let by_dir = groups_by_direction(board, col, row, color);
    let around = connected_groups(board, col, row, color);
    assert forall|g: u64| by_dir.contains(g) implies around.contains(g) by {
        assert(adjacent(col, row, col - 1, row));
        assert(adjacent(col, row, col + 1, row));
        assert(adjacent(col, row, col, row + 1));
        assert(adjacent(col, row, col, row - 1));
        assert(adjacent(col, row, col - 1, row + 1));
        assert(adjacent(col, row, col + 1, row + 1));
        assert(adjacent(col, row, col - 1, row - 1));
        assert(adjacent(col, row, col + 1, row - 1));
    }
    assert forall|g: u64| around.contains(g) implies by_dir.contains(g) by {
        let (c, r) = choose|c: int, r: int|
            #[trigger] adjacent(col, row, c, r) && group_at(board, c, r, color) == Some(g);
        assert(c == col - 1 || c == col || c == col + 1);
        assert(r == row - 1 || r == row || r == row + 1);
    }
    assert(by_dir =~= around);
    lemma_as_set_small(group_at(board, col - 1, row, color));
    lemma_as_set_small(group_at(board, col + 1, row, color));
    lemma_as_set_small(group_at(board, col, row + 1, color));
    lemma_as_set_small(group_at(board, col, row - 1, color));
    lemma_as_set_small(group_at(board, col - 1, row + 1, color));
    lemma_as_set_small(group_at(board, col + 1, row + 1, color));
    lemma_as_set_small(group_at(board, col - 1, row - 1, color));
    lemma_as_set_small(group_at(board, col + 1, row - 1, color));
    let s1 = as_set(group_at(board, col - 1, row, color));
    let s2 = s1.union(as_set(group_at(board, col + 1, row, color)));
    let s3 = s2.union(as_set(group_at(board, col, row + 1, color)));
    let s4 = s3.union(as_set(group_at(board, col, row - 1, color)));
    let s5 = s4.union(as_set(group_at(board, col - 1, row + 1, color)));
    let s6 = s5.union(as_set(group_at(board, col + 1, row + 1, color)));
    let s7 = s6.union(as_set(group_at(board, col - 1, row - 1, color)));
    vstd::set_lib::lemma_len_union(s1, as_set(group_at(board, col + 1, row, color)));
    vstd::set_lib::lemma_len_union(s2, as_set(group_at(board, col, row + 1, color)));
    vstd::set_lib::lemma_len_union(s3, as_set(group_at(board, col, row - 1, color)));
    vstd::set_lib::lemma_len_union(s4, as_set(group_at(board, col - 1, row + 1, color)));
    vstd::set_lib::lemma_len_union(s5, as_set(group_at(board, col + 1, row + 1, color)));
    vstd::set_lib::lemma_len_union(s6, as_set(group_at(board, col - 1, row - 1, color)));
    vstd::set_lib::lemma_len_union(s7, as_set(group_at(board, col + 1, row - 1, color)));
}

proof fn lemma_as_set_small(found: Option<u64>)
    ensures
        as_set(found).finite(),
        as_set(found).len() <= 1,
{
}

/// The index one step from `index`: `step` 0 goes down, 1 stays, 2 goes up.
fn shifted(index: u64, step: u8) -> (moved: Option<u64>)
    requires
        step <= 2,
    ensures
        match moved {
            Some(m) => m == index + step - 1,
            None => index + step - 1 < 0 || index + step - 1 > u64::MAX,
        },
{
    if step == 0 {
        if index == 0 {
            None
        } else {
            Some(index - 1)
        }
    } else if step == 1 {
        Some(index)
    } else {
        if index == u64::MAX {
            None
        } else {
            Some(index + 1)
        }
    }
}

/// Adds to `found` the group id of the neighbor one step away, if that cell
/// holds a piece of the given color.
fn note_neighbor(
    coins: &Coins,
    col: u64,
    row: u64,
    col_step: u8,
    row_step: u8,
    color: &Color,
    found: &mut HashSet<u64>,
)
    requires
        col_step <= 2,
        row_step <= 2,
    ensures
        final(found)@ == old(found)@.union(
            as_set(group_at(board_of(coins), col + col_step - 1, row + row_step - 1, *color)),
        ),
{
    let width = coins.len();
    if let Some(c) = shifted(col, col_step) {
        if c < width as u64 {
            let column = &coins[c as usize];
            let height = column.len();
            if let Some(r) = shifted(row, row_step) {
                if r < height as u64 {
                    let coin = column[r as usize];
                    if coin.color == *color {
                        found.insert(coin.group);
                        return ;
                    }
                }
            }
        }
    }
}

/// Collects the group ids of the pieces of the given color in the eight cells
/// around column `column_index`, row `coin_index`. The board is left as it is.
pub fn find_connected_groups(
    column_index: &u64,
    coin_index: &u64,
    color: &Color,
    coins: &mut Coins,
) -> (connected: Result<HashSet<u64>, GameError>)
    ensures
        *final(coins) == *old(coins),
        connected matches Ok(found) && found@ == connected_groups(
            board_of(old(coins)),
            *column_index as int,
            *coin_index as int,
            *color,
        ),
{
    let mut found: HashSet<u64> = HashSet::new();
    let col = *column_index;
    let row = *coin_index;
    // left, right, up, down
    note_neighbor(coins, col, row, 0, 1, color, &mut found);
    note_neighbor(coins, col, row, 2, 1, color, &mut found);
    note_neighbor(coins, col, row, 1, 2, color, &mut found);
    note_neighbor(coins, col, row, 1, 0, color, &mut found);
    // up-left, up-right, down-left, down-right
    note_neighbor(coins, col, row, 0, 2, color, &mut found);
    note_neighbor(coins, col, row, 2, 2, color, &mut found);
    note_neighbor(coins, col, row, 0, 0, color, &mut found);
    note_neighbor(coins, col, row, 2, 0, color, &mut found);
    proof {
        lemma_groups_by_direction(board_of(coins), col as int, row as int, *color);
    }
    Ok(found)
}

} // verus!
