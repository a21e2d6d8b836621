//! The board as bytes: one byte for each cell, column after column.

use crate::board::{board_of, lemma_tallest, tallest, tallest_column, Coins};
use crate::piece::{Coin, Color};
use crate::wire::{be_bytes, be_value, lemma_be_value_of_bytes, read_u64, snapshot_frame};
use vstd::prelude::*;

verus! {

/// The color codes of the pieces of a column, from the bottom up.
pub open spec fn column_codes(column: Seq<Coin>) -> Seq<u8> {
    Seq::new(column.len(), |r: int| column[r].color.code())
}

/// The byte of the cell at row `row` of a column: the code of the piece
/// there, or 0 above the column's top.
pub open spec fn cell_code(column: Seq<Coin>, row: int) -> u8 {
    if 0 <= row < column.len() {
        column[row].color.code()
    } else {
        0
    }
}

/// The bytes of a column that is shown `rows` cells high.
pub open spec fn padded_column(column: Seq<Coin>, rows: nat) -> Seq<u8> {
    Seq::new(rows, |r: int| cell_code(column, r))
}

/// The bytes of a board whose columns are shown `rows` cells high: the
/// columns one after the other, each from the bottom up.
pub open spec fn board_cells(board: Seq<Seq<Coin>>, rows: nat) -> Seq<u8>
    decreases board.len(),
{
    if board.len() == 0 {
        Seq::empty()
    } else {
        board_cells(board.drop_last(), rows) + padded_column(board.last(), rows)
    }
}

/// The cells of a board take `rows` bytes for each column, and the byte of
/// row `r` of column `c` stands at index `c * rows + r`.
pub proof fn lemma_board_cells_layout(board: Seq<Seq<Coin>>, rows: nat)
    ensures
        board_cells(board, rows).len() == board.len() * rows,
        forall|c: int|
            0 <= c < board.len() ==> #[trigger] board_cells(board, rows).subrange(
                c * rows,
                c * rows + rows,
            ) == padded_column(board[c], rows),
    decreases board.len(),
{
    let cells = board_cells(board, rows);
    if board.len() == 0 {
        assert(board.len() * rows == 0) by (nonlinear_arith)
            requires
                board.len() == 0,
        ;
    } else {
        let front = board.drop_last();
        let n = front.len() as int;
        lemma_board_cells_layout(front, rows);
        assert(board.len() * rows == n * rows + rows) by (nonlinear_arith)
            requires
                board.len() == n + 1,
        ;
        assert forall|c: int| 0 <= c < board.len() implies #[trigger] cells.subrange(
            c * rows,
            c * rows + rows,
        ) == padded_column(board[c], rows) by {
            assert(0 <= c * rows && c * rows + rows <= n * rows + rows) by (nonlinear_arith)
                requires
                    0 <= c <= n,
                    rows >= 0,
            ;
            if c < n {
                assert(c * rows + rows <= n * rows) by (nonlinear_arith)
                    requires
                        0 <= c < n,
                        rows >= 0,
                ;
                assert(front[c] == board[c]);
                assert(cells.subrange(c * rows, c * rows + rows) =~= board_cells(
                    front,
                    rows,
                ).subrange(c * rows, c * rows + rows));
            } else {
                assert(cells.subrange(c * rows, c * rows + rows) =~= padded_column(
                    board.last(),
                    rows,
                ));
            }
        }
    }
}

/// Encodes a column: the color code of each piece, from the bottom up.
pub fn serialize_coin_column(column: &[Coin]) -> (result: Vec<u8>)
    ensures
        result@ == column_codes(column@),
{
    let mut result: Vec<u8> = Vec::new();
    let mut r: usize = 0;
    while r < column.len()
        invariant
            r <= column.len(),
            result@ == column_codes(column@.take(r as int)),
        decreases column.len() - r,
    {
        result.push(column[r].color.serialize());
        r += 1;
        assert(result@ =~= column_codes(column@.take(r as int)));
    }
    assert(column@.take(r as int) =~= column@);
    result
}

/// Encodes the board. The result holds the cells, the number of columns,
/// and the number of rows, which is the height of the tallest column; each
/// column is padded with 0 up to that height.
pub fn serialize_coins(coins: &Coins) -> (result: (Vec<u8>, u64, u64))
    ensures
        result.0@ == board_cells(board_of(coins), tallest(board_of(coins))),
        result.1 == coins@.len(),
        result.2 == tallest(board_of(coins)),
{
    let ghost board = board_of(coins);
    let mut data: Vec<u8> = Vec::new();
    let number_of_columns: u64 = coins.len() as u64;
    let rows = tallest_column(coins);
    let number_of_rows: u64 = rows as u64;
    proof {
        lemma_tallest(board);
    }
    let mut column_index: usize = 0;
    while column_index < coins.len()
        invariant
            column_index <= coins.len(),
            board == board_of(coins),
            rows == tallest(board),
            forall|c: int| 0 <= c < board.len() ==> #[trigger] board[c].len() <= rows,
            data@ == board_cells(board.take(column_index as int), rows as nat),
        decreases coins.len() - column_index,
    {
        let mut column_result = serialize_coin_column(coins[column_index].as_slice());
        assert(board[column_index as int].len() <= rows);
        while column_result.len() < rows
            invariant
                column_index < board.len(),
                board[column_index as int].len() <= column_result@.len() <= rows,
                column_result@ =~= padded_column(board[column_index as int], rows as nat).take(
                    column_result@.len() as int,
                ),
            decreases rows - column_result@.len(),
        {
            column_result.push(0);
        }
        assert(column_result@ =~= padded_column(board[column_index as int], rows as nat));
        data.append(&mut column_result);
        assert(board.take(column_index + 1).drop_last() =~= board.take(column_index as int));
        column_index += 1;
    }
    assert(board.take(column_index as int) =~= board);
    (data, number_of_columns, number_of_rows)
}

/// The pieces that a run of cell bytes stands for, in order: a piece of the
/// coded color for each byte that is not 0, and nothing for a 0. A decoded
/// piece carries group id 0.
pub open spec fn decoded_cells(cells: Seq<u8>) -> Seq<Coin>
    decreases cells.len(),
{
    if cells.len() == 0 {
        Seq::empty()
    } else if cells.last() == 0 {
        decoded_cells(cells.drop_last())
    } else {
        decoded_cells(cells.drop_last()).push(
            Coin { color: Color::from_code(cells.last()), group: 0 },
        )
    }
}

/// The board that the cells of `cols` columns, each `rows` cells high,
/// stand for.
pub open spec fn decoded_board(cells: Seq<u8>, cols: nat, rows: nat) -> Seq<Seq<Coin>> {
    Seq::new(cols, |c: int| decoded_cells(cells.subrange(c * rows, c * rows + rows)))
}

/// The winner that a snapshot frame names; an id of 0 stands for none.
pub open spec fn snapshot_winner(frame: Seq<u8>) -> Option<u64> {
    let id = be_value(frame.subrange(1, 9));
    if id == 0 {
        None
    } else {
        Some(id)
    }
}

/// The number of columns that a snapshot frame declares.
pub open spec fn snapshot_cols(frame: Seq<u8>) -> u64 {
    be_value(frame.subrange(9, 17))
}

/// The number of rows that a snapshot frame declares.
pub open spec fn snapshot_rows(frame: Seq<u8>) -> u64 {
    be_value(frame.subrange(17, 25))
}

/// The cells of a snapshot frame: as many bytes behind the header as the
/// declared dimensions ask for.
pub open spec fn snapshot_cells(frame: Seq<u8>) -> Seq<u8> {
    frame.subrange(25, 25 + snapshot_cols(frame) * snapshot_rows(frame))
}

/// Whether the bytes are a snapshot frame: the tag 1, a header of three
/// integers, and behind it at least as many cells as the dimensions ask for,
/// each of them 0 or a color code. Bytes behind the cells are not looked at.
pub open spec fn is_snapshot(frame: Seq<u8>) -> bool {
    &&& frame.len() >= 25
    &&& frame[0] == 1
    &&& 25 + snapshot_cols(frame) * snapshot_rows(frame) <= frame.len()
    &&& forall|i: int|
        0 <= i < snapshot_cols(frame) * snapshot_rows(frame) ==> #[trigger] frame[25 + i] <= 5
}

/// A decoded snapshot: the winner, if there is one, and the board. The
/// pieces of the board carry their colors; their group ids are all 0.
#[derive(Debug)]
pub struct BoardSnapshot {
    pub winner_id: Option<u64>,
    pub coins: Coins,
}

/// Decodes a snapshot frame, or returns `None` where the bytes are no
/// snapshot frame.
pub fn decode_snapshot(frame: &[u8]) -> (decoded: Option<BoardSnapshot>)
    ensures
        decoded is Some <==> is_snapshot(frame@),
        decoded is Some ==> decoded->Some_0.winner_id == snapshot_winner(frame@),
        decoded is Some ==> board_of(&decoded->Some_0.coins) == decoded_board(
            snapshot_cells(frame@),
            snapshot_cols(frame@) as nat,
            snapshot_rows(frame@) as nat,
        ),
{
    if frame.len() < 25 || frame[0] != 1 {
        return None;
    }
    let winner_id = read_u64(frame, 1);
    let cols = read_u64(frame, 9);
    let rows = read_u64(frame, 17);
    let room = (frame.len() - 25) as u64;
    let total = match cols.checked_mul(rows) {
        Some(total) => total,
        None => {
            return None;
        },
    };
    if total > room {
        return None;
    }
    let ghost cells = snapshot_cells(frame@);
    let mut coins: Coins = Vec::new();
    let mut c: u64 = 0;
    while c < cols
        invariant
            c <= cols,
            frame@.len() >= 25,
            frame@.len() <= usize::MAX,
            cols == snapshot_cols(frame@),
            rows == snapshot_rows(frame@),
            total == cols * rows,
            25 + total <= frame@.len(),
            cells == snapshot_cells(frame@),
            coins@.len() == c,
            forall|k: int|
                0 <= k < c ==> (#[trigger] coins@[k])@ == decoded_cells(
                    cells.subrange(k * rows, k * rows + rows),
                ),
            forall|i: int| 0 <= i < c * rows ==> #[trigger] frame@[25 + i] <= 5,
        decreases cols - c,
    {
        assert(c * rows + rows <= total && 0 <= c * rows) by (nonlinear_arith)
            requires
                0 <= c < cols,
                rows >= 0,
                total == cols * rows,
        ;
        let start: u64 = c * rows;
        let mut column: Vec<Coin> = Vec::new();
        let mut r: u64 = 0;
        while r < rows
            invariant
                r <= rows,
                frame@.len() >= 25,
                frame@.len() <= usize::MAX,
                cols == snapshot_cols(frame@),
                rows == snapshot_rows(frame@),
                total == cols * rows,
                start == c * rows,
                start + rows <= total,
                25 + total <= frame@.len(),
                cells == frame@.subrange(25, 25 + total),
                column@ == decoded_cells(cells.subrange(start as int, start + r)),
                forall|i: int| 0 <= i < start + r ==> #[trigger] frame@[25 + i] <= 5,
            decreases rows - r,
        {
            let index = start + r;
            let code = frame[25 + index as usize];
            assert(cells.subrange(start as int, start + r + 1).drop_last() =~= cells.subrange(
                start as int,
                start + r,
            ));
            assert(cells.subrange(start as int, start + r + 1).last() == code);
            if code > 5 {
                assert(frame@[25 + index] > 5);
                return None;
            }
            if code != 0 {
                column.push(Coin { color: Color::deserialize(&code), group: 0 });
            }
            r += 1;
        }
        coins.push(column);
        assert((c + 1) * rows == c * rows + rows) by (nonlinear_arith);
        c += 1;
    }
    assert(board_of(&coins) =~= decoded_board(cells, cols as nat, rows as nat));
    Some(
        BoardSnapshot {
            winner_id: if winner_id == 0 {
                None
            } else {
                Some(winner_id)
            },
            coins,
        },
    )
}

/// The board with every group id set to 0: what is left of a board once it
/// has gone through a snapshot.
pub open spec fn ungrouped(board: Seq<Seq<Coin>>) -> Seq<Seq<Coin>> {
    Seq::new(
        board.len(),
        |c: int| Seq::new(board[c].len(), |r: int| Coin { color: board[c][r].color, group: 0 }),
    )
}

/// Every cell byte of a board is 0 or a color code.
pub proof fn lemma_cells_are_codes(board: Seq<Seq<Coin>>, rows: nat)
    ensures
        forall|i: int|
            0 <= i < board_cells(board, rows).len() ==> #[trigger] board_cells(board, rows)[i]
                <= 5,
    decreases board.len(),
{
    if board.len() > 0 {
        lemma_cells_are_codes(board.drop_last(), rows);
        let front = board_cells(board.drop_last(), rows);
        assert forall|i: int| 0 <= i < board_cells(board, rows).len() implies #[trigger] board_cells(
            board,
            rows,
        )[i] <= 5 by {
            if i >= front.len() {
                assert(board_cells(board, rows)[i] == cell_code(board.last(), i - front.len()));
            }
        }
    }
}

/// Decoding the bytes of a padded column gives the pieces of the column,
/// their group ids set to 0.
pub proof fn lemma_column_round_trip(column: Seq<Coin>, rows: nat)
    requires
        column.len() <= rows,
    ensures
        decoded_cells(padded_column(column, rows)) == Seq::new(
            column.len(),
            |r: int| Coin { color: column[r].color, group: 0 },
        ),
    decreases rows,
{
    let cells = padded_column(column, rows);
    let pieces = Seq::new(column.len(), |r: int| Coin { color: column[r].color, group: 0 });
    if rows == 0 {
        assert(decoded_cells(cells) =~= pieces);
    } else if column.len() < rows {
        assert(cells.drop_last() =~= padded_column(column, (rows - 1) as nat));
        lemma_column_round_trip(column, (rows - 1) as nat);
    } else {
        let below = column.drop_last();
        assert(cells.drop_last() =~= padded_column(below, (rows - 1) as nat));
        lemma_column_round_trip(below, (rows - 1) as nat);
        assert(cells.last() == column.last().color.code());
        assert(Color::from_code(column.last().color.code()) == column.last().color);
        assert(decoded_cells(cells) =~= pieces);
    }
}

/// Snapshot round trip: a board that is encoded with its winner and
/// dimensions, framed, and decoded again comes back with the same color in
/// every occupied cell, nothing in the others, the same dimensions and the
/// same winner. (A winner id of 0 cannot be told from no winner.)
pub proof fn lemma_snapshot_round_trip(board: Seq<Seq<Coin>>, winner_id: Option<u64>)
    requires
        winner_id != Some(0u64),
        board.len() <= u64::MAX,
        tallest(board) <= u64::MAX,
    ensures
        ({
            let frame = snapshot_frame(
                board_cells(board, tallest(board)),
                winner_id,
                board.len() as u64,
                tallest(board) as u64,
            );
            &&& is_snapshot(frame)
            &&& snapshot_winner(frame) == winner_id
            &&& snapshot_cols(frame) == board.len()
            &&& snapshot_rows(frame) == tallest(board)
            &&& snapshot_cells(frame) == board_cells(board, tallest(board))
            &&& decoded_board(
                snapshot_cells(frame),
                snapshot_cols(frame) as nat,
                snapshot_rows(frame) as nat,
            ) == ungrouped(board)
        }),
{
    let rows = tallest(board);
    let cells = board_cells(board, rows);
    let id: u64 = match winner_id {
        Some(id) => id,
        None => 0,
    };
    let frame = snapshot_frame(cells, winner_id, board.len() as u64, rows as u64);
    lemma_be_value_of_bytes(id);
    lemma_be_value_of_bytes(board.len() as u64);
    lemma_be_value_of_bytes(rows as u64);
    assert(frame.subrange(1, 9) =~= be_bytes(id));
    assert(frame.subrange(9, 17) =~= be_bytes(board.len() as u64));
    assert(frame.subrange(17, 25) =~= be_bytes(rows as u64));
    lemma_board_cells_layout(board, rows);
    lemma_cells_are_codes(board, rows);
    lemma_tallest(board);
    assert(frame.len() == 25 + cells.len());
    assert(frame.subrange(25, 25 + cells.len() as int) =~= cells);
    assert forall|i: int| 0 <= i < cells.len() implies #[trigger] frame[25 + i] <= 5 by {
        assert(frame[25 + i] == cells[i]);
    }
    assert forall|c: int| 0 <= c < board.len() implies decoded_cells(
        #[trigger] cells.subrange(c * rows, c * rows + rows),
    ) == ungrouped(board)[c] by {
        lemma_column_round_trip(board[c], rows);
    }
    assert(decoded_board(cells, board.len(), rows) =~= ungrouped(board));
}

} // verus!
