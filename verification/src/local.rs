//! A game on one machine: a person plays orange, and blue answers in a
//! fixed column.

use crate::actor::{create_game, handle_play_coin, GAME_COLUMNS};
use crate::board::{board_of, empty_board, Coins, Position};
use crate::error::GameError;
use crate::game::{
    board_after, lemma_move_keeps_table_sound, table_after, table_sound, wins, Game,
};
use crate::groups::{table_of, Groups};
use crate::piece::{Coin, Color, Player};
use vstd::prelude::*;

verus! {

/// The id of the person at the keyboard, who plays orange.
pub const FIRST_PLAYER: u64 = 1;

/// The id of the opponent, who plays blue.
pub const SECOND_PLAYER: u64 = 2;

/// The column in which the opponent answers every move.
pub const REPLY_COLUMN: u64 = 1;

/// The column that a person means by a number: columns are counted from 1
/// on the screen and from 0 on the board. No column goes by the number 0.
pub fn column_of_choice(choice: u64) -> (column: Option<u64>)
    ensures
        choice == 0 ==> column is None,
        choice > 0 ==> column == Some((choice - 1) as u64),
{
    choice.checked_sub(1)
}

/// What became of the column that the person asked for.
#[derive(Debug)]
pub enum Turn {
    /// The number was beyond the board by more than one: no move was made.
    Skipped,
    /// The piece was dropped.
    Played,
    /// The move was refused.
    Refused(GameError),
}

/// A local game: the board, the group table and the winner.
pub struct LocalGame {
    game: Game,
    coins: Coins,
    groups: Groups,
}

impl LocalGame {
    #[verifier::type_invariant]
    spec fn sound(&self) -> bool {
        &&& table_sound(board_of(&self.coins), table_of(&self.groups))
        &&& self.coins@.len() == GAME_COLUMNS
    }

    /// The board.
    pub closed spec fn board(&self) -> Seq<Seq<Coin>> {
        board_of(&self.coins)
    }

    /// The group table.
    pub closed spec fn table(&self) -> Map<u64, Seq<Position>> {
        table_of(&self.groups)
    }

    /// The winner, once there is one.
    pub closed spec fn winner(&self) -> Option<u64> {
        self.game.winner_id
    }

    /// Whether `next` is this game after a piece of `color` was dropped into
    /// column `col` for player `player_id`.
    pub open spec fn moved(self, next: LocalGame, player_id: u64, color: Color, col: int) -> bool {
        &&& next.board() == board_after(self.board(), self.table(), col, color)
        &&& next.table() == table_after(self.board(), self.table(), col, color)
        &&& next.winner() == if wins(self.board(), self.table(), col, color) {
            Some(player_id)
        } else {
            None
        }
    }

    /// Whether `next` is in every part the game that this one is.
    pub open spec fn same(self, next: LocalGame) -> bool {
        &&& next.board() == self.board()
        &&& next.table() == self.table()
        &&& next.winner() == self.winner()
    }

    /// A game of four empty columns without a winner.
    pub fn new() -> (local: LocalGame)
        ensures
            local.board() == empty_board(GAME_COLUMNS as nat),
            local.table() == Map::<u64, Seq<Position>>::empty(),
            local.winner() is None,
    {
        let (game, coins, groups) = create_game();
        assert(board_of(&coins).len() == GAME_COLUMNS);
        LocalGame { game, coins, groups }
    }

    /// The state of the game, for display.
    pub fn game(&self) -> (game: &Game)
        ensures
            game.winner_id == self.winner(),
    {
        &self.game
    }

    /// The board, for display.
    pub fn coins(&self) -> (coins: &Coins)
        ensures
            board_of(coins) == self.board(),
    {
        &self.coins
    }

    /// Whether the game has a winner.
    pub fn is_over(&self) -> (over: bool)
        ensures
            over == self.winner() is Some,
    {
        self.game.winner_id.is_some()
    }

    /// The move of the person, who asked for column `input`.
    ///
    /// A number greater than the number of columns is passed over. The
    /// number of columns itself, which names no column either, is refused,
    /// as is any move once the game has a winner. Otherwise an orange piece
    /// is dropped into the column.
    pub fn play_first(self, input: u64) -> (next: (LocalGame, Turn))
        ensures
            input > GAME_COLUMNS ==> next.1 is Skipped && self.same(next.0),
            input <= GAME_COLUMNS && self.winner() is Some ==> self.same(next.0)
                && next.1 matches Turn::Refused(GameError::CantPlayCoinInEndedGame),
            input == GAME_COLUMNS && self.winner() is None ==> self.same(next.0)
                && next.1 matches Turn::Refused(GameError::ColumnOutOfBounds),
            input < GAME_COLUMNS && self.winner() is None ==> next.1 is Played && self.moved(
                next.0,
                FIRST_PLAYER,
                Color::Orange,
                input as int,
            ),
    {
        proof {
            use_type_invariant(&self);
            if input < GAME_COLUMNS {
                lemma_move_keeps_table_sound(self.board(), self.table(), input as int, Color::Orange);
            }
        }
        if input > GAME_COLUMNS {
            return (self, Turn::Skipped);
        }
        let LocalGame { mut game, mut coins, mut groups } = self;
        let player = Player::orange(FIRST_PLAYER);
        let played = handle_play_coin(&mut game, &mut coins, &mut groups, &player, input);
        proof {
            assert(board_of(&coins).len() == coins@.len());
        }
        let turn = match played {
            Ok(_) => Turn::Played,
            Err(error) => Turn::Refused(error),
        };
        (LocalGame { game, coins, groups }, turn)
    }

    /// The answer of the opponent: a blue piece into the reply column,
    /// unless the game has a winner already.
    pub fn play_second(self) -> (next: LocalGame)
        ensures
            self.winner() is Some ==> self.same(next),
            self.winner() is None ==> self.moved(
                next,
                SECOND_PLAYER,
                Color::Blue,
                REPLY_COLUMN as int,
            ),
    {
        proof {
            use_type_invariant(&self);
            lemma_move_keeps_table_sound(
                self.board(),
                self.table(),
                REPLY_COLUMN as int,
                Color::Blue,
            );
        }
        if self.game.winner_id.is_some() {
            return self;
        }
        let LocalGame { mut game, mut coins, mut groups } = self;
        let player = Player::blue(SECOND_PLAYER);
        let played = handle_play_coin(&mut game, &mut coins, &mut groups, &player, REPLY_COLUMN);
        proof {
            assert(board_of(&coins).len() == coins@.len());
        }
        LocalGame { game, coins, groups }
    }
}

} // verus!
