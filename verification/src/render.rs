//! The game as text: the board row by row, lowest row first, and above it
//! the state of the game and the numbers of the columns.

use crate::board::{board_of, occupied, tallest, tallest_column, Coins};
use crate::game::Game;
use crate::piece::Coin;
use vstd::prelude::*;

verus! {

/// The glyph of a cell that holds no piece.
pub open spec fn empty_glyph() -> Seq<char> {
    "\u{26AA}\u{FE0F}"@
}

/// The text of one cell: its glyph with a space on either side.
pub open spec fn cell_text(board: Seq<Seq<Coin>>, col: int, row: int) -> Seq<char> {
    if occupied(board, col, row) {
        " "@ + Coin::glyph(board[col][row].color) + " "@
    } else {
        " "@ + empty_glyph() + " "@
    }
}

/// The text of row `row` over the first `width` columns.
pub open spec fn row_text(board: Seq<Seq<Coin>>, row: int, width: int) -> Seq<char>
    decreases width,
{
    if width <= 0 {
        Seq::empty()
    } else {
        row_text(board, row, width - 1) + cell_text(board, width - 1, row)
    }
}

/// Renders the board: one line of text for each row up to the top of the
/// tallest column, the lowest row first, each showing every column.
pub fn debug_render_game(coins: &Coins) -> (rows: Vec<String>)
    ensures
        rows@.len() == tallest(board_of(coins)),
        forall|row: int|
            0 <= row < rows@.len() ==> (#[trigger] rows@[row])@ == row_text(
                board_of(coins),
                row,
                coins@.len() as int,
            ),
{
    let height = tallest_column(coins);
    let mut rows: Vec<String> = Vec::new();
    let mut coin_index: usize = 0;
    while coin_index < height
        invariant
            coin_index <= height,
            rows@.len() == coin_index,
            forall|row: int|
                0 <= row < coin_index ==> (#[trigger] rows@[row])@ == row_text(
                    board_of(coins),
                    row,
                    coins@.len() as int,
                ),
        decreases height - coin_index,
    {
        let mut row = String::new();
        let mut c: usize = 0;
        while c < coins.len()
            invariant
                c <= coins.len(),
                row@ == row_text(board_of(coins), coin_index as int, c as int),
            decreases coins.len() - c,
        {
            let column = &coins[c];
            row.append(" ");
            if coin_index < column.len() {
                let glyph = column[coin_index].to_string();
                row.append(glyph.as_str());
            } else {
                row.append("\u{26AA}\u{FE0F}");
            }
            row.append(" ");
            assert(row@ =~= row_text(board_of(coins), coin_index as int, c + 1));
            c += 1;
        }
        rows.push(row);
        coin_index += 1;
    }
    rows
}

/// The text of a digit.
pub open spec fn digit_text(digit: nat) -> Seq<char>
    recommends
        digit < 10,
{
    if digit == 0 {
        "0"@
    } else if digit == 1 {
        "1"@
    } else if digit == 2 {
        "2"@
    } else if digit == 3 {
        "3"@
    } else if digit == 4 {
        "4"@
    } else if digit == 5 {
        "5"@
    } else if digit == 6 {
        "6"@
    } else if digit == 7 {
        "7"@
    } else if digit == 8 {
        "8"@
    } else {
        "9"@
    }
}

/// A number in decimal digits.
pub open spec fn decimal_text(number: nat) -> Seq<char>
    decreases number,
{
    if number < 10 {
        digit_text(number)
    } else {
        decimal_text(number / 10) + digit_text(number % 10)
    }
}

/// A text, `times` times in a row.
pub open spec fn repeated(text: Seq<char>, times: nat) -> Seq<char>
    decreases times,
{
    if times == 0 {
        Seq::empty()
    } else {
        repeated(text, (times - 1) as nat) + text
    }
}

/// The line that tells how the game stands.
pub open spec fn status_text(winner_id: Option<u64>) -> Seq<char> {
    match winner_id {
        Some(id) => "WINNER! Player "@ + decimal_text(id as nat),
        None => "PLAYING"@,
    }
}

/// The line that numbers the first `columns` columns, from 1.
pub open spec fn axis_text(columns: nat) -> Seq<char>
    decreases columns,
{
    if columns == 0 {
        Seq::empty()
    } else {
        axis_text((columns - 1) as nat) + "  "@ + decimal_text(columns) + " "@
    }
}

/// The line that is drawn above and below the numbers of the columns: a
/// dash for each character of the numbers' line, rounded down to an even
/// count.
pub open spec fn rule_text(columns: nat) -> Seq<char> {
    repeated("--"@, axis_text(columns).len() / 2)
}

/// The lines that show a game, each behind `indent` spaces: an empty line,
/// the state of the game, the numbers of the columns between two rules, the
/// rows of the board from the bottom up, and an empty line.
pub open spec fn game_lines(winner_id: Option<u64>, board: Seq<Seq<Coin>>, indent: nat) -> Seq<
    Seq<char>,
> {
    let margin = repeated(" "@, indent);
    seq![
        Seq::empty(),
        margin + status_text(winner_id),
        margin + rule_text(board.len()),
        margin + axis_text(board.len()),
        margin + rule_text(board.len()),
    ] + Seq::new(tallest(board), |row: int| margin + row_text(board, row, board.len() as int))
        + seq![Seq::empty()]
}

fn digit(value: u64) -> (text: &'static str)
    requires
        value < 10,
    ensures
        text@ == digit_text(value as nat),
{
    if value == 0 {
        "0"
    } else if value == 1 {
        "1"
    } else if value == 2 {
        "2"
    } else if value == 3 {
        "3"
    } else if value == 4 {
        "4"
    } else if value == 5 {
        "5"
    } else if value == 6 {
        "6"
    } else if value == 7 {
        "7"
    } else if value == 8 {
        "8"
    } else {
        "9"
    }
}

/// Writes a number in decimal digits.
pub fn decimal(number: u64) -> (text: String)
    ensures
        text@ == decimal_text(number as nat),
    decreases number,
{
    if number < 10 {
        String::from_str(digit(number))
    } else {
        let mut text = decimal(number / 10);
        text.append(digit(number % 10));
        text
    }
}

/// Writes `text` `times` times in a row.
pub fn repeat(text: &str, times: u64) -> (line: String)
    ensures
        line@ == repeated(text@, times as nat),
{
    let mut line = String::new();
    let mut done: u64 = 0;
    while done < times
        invariant
            done <= times,
            line@ == repeated(text@, done as nat),
        decreases times - done,
    {
        line.append(text);
        done += 1;
    }
    line
}

/// Writes the lines that show a game, each behind `indent` spaces.
pub fn debug_game_lines(game: &Game, coins: &Coins, indent: u64) -> (lines: Vec<String>)
    ensures
        lines@.len() == game_lines(game.winner_id, board_of(coins), indent as nat).len(),
        forall|i: int|
            0 <= i < lines@.len() ==> (#[trigger] lines@[i])@ == game_lines(
                game.winner_id,
                board_of(coins),
                indent as nat,
            )[i],
{
    let ghost board = board_of(coins);
    let ghost expected = game_lines(game.winner_id, board, indent as nat);
    let render_rows = debug_render_game(coins);
    let win_status_label = match game.winner_id {
        Some(id) => {
            let mut label = String::from_str("WINNER! Player ");
            let number = decimal(id);
            label.append(number.as_str());
            label
        },
        None => String::from_str("PLAYING"),
    };

    let mut axis_label = String::new();
    let mut n: usize = 0;
    while n < coins.len()
        invariant
            n <= coins.len(),
            axis_label@ == axis_text(n as nat),
        decreases coins.len() - n,
    {
        n += 1;
        let number = decimal(n as u64);
        axis_label.append("  ");
        axis_label.append(number.as_str());
        axis_label.append(" ");
    }

    let breaker = repeat("--", (axis_label.as_str().unicode_len() / 2) as u64);
    let indentation = repeat(" ", indent);

    let mut lines: Vec<String> = Vec::new();
    lines.push(String::new());
    lines.push(joined(&indentation, &win_status_label));
    lines.push(joined(&indentation, &breaker));
    lines.push(joined(&indentation, &axis_label));
    lines.push(joined(&indentation, &breaker));
    let mut row: usize = 0;
    while row < render_rows.len()
        invariant
            row <= render_rows.len(),
            render_rows@.len() == tallest(board),
            board == board_of(coins),
            expected == game_lines(game.winner_id, board, indent as nat),
            indentation@ == repeated(" "@, indent as nat),
            forall|r: int|
                0 <= r < render_rows@.len() ==> (#[trigger] render_rows@[r])@ == row_text(
                    board,
                    r,
                    coins@.len() as int,
                ),
            lines@.len() == 5 + row,
            forall|i: int| 0 <= i < lines@.len() ==> (#[trigger] lines@[i])@ == expected[i],
        decreases render_rows.len() - row,
    {
        lines.push(joined(&indentation, &render_rows[row]));
        row += 1;
    }
    lines.push(String::new());
    lines
}

/// Two texts, one behind the other.
fn joined(first: &String, second: &String) -> (both: String)
    ensures
        both@ == first@ + second@,
{
    let mut both = first.clone();
    both.append(second.as_str());
    both
}

} // verus!
