//! The state of a served game, and the three requests that change or read
//! it. Requests are handled one at a time, each on the state that the one
//! before left.

use crate::board::{board_of, empty_board, tallest, Coins, Position};
use crate::error::GameError;
use crate::game::{
    board_after, lemma_move_keeps_table_sound, move_refusal, table_after, table_sound, wins, Game,
};
use crate::groups::{table_of, Groups};
use crate::piece::{Coin, Color, Player};
use crate::snapshot::{board_cells, serialize_coins};
use std::collections::HashMap;
use vstd::prelude::*;

verus! {

broadcast use vstd::std_specs::hash::group_hash_axioms;

/// The number of requests that can wait for the game at a time. A session
/// whose request finds no room waits until there is room: no request is
/// dropped.
pub const REQUEST_QUEUE_SIZE: usize = 255;

/// The number of columns of the board that `create_game` makes.
pub const GAME_COLUMNS: u64 = 4;

/// The color of the player with the given id: orange for even ids, blue for
/// odd ones.
pub open spec fn seat_color(id: u64) -> Color {
    if id % 2 == 0 {
        Color::Orange
    } else {
        Color::Blue
    }
}

/// Seats are given out in turn: of two players who join one after the other,
/// the second gets the id after that of the first, and the other color; and
/// the first player of a game gets id 1 and plays blue.
pub proof fn lemma_joins_in_turn(
    start: GameActor,
    first: GameActor,
    second: GameActor,
    first_seat: (u64, Color),
    second_seat: (u64, Color),
)
    requires
        start.joins(first, first_seat.0, first_seat.1),
        first.joins(second, second_seat.0, second_seat.1),
    ensures
        second_seat.0 == first_seat.0 + 1,
        second_seat.1 != first_seat.1,
        start.player_count() == 0 ==> first_seat == (1u64, Color::Blue),
{
}

/// A move has one outcome: two games that both come from the same game by
/// the same move agree in board, table, winner and number of players.
pub proof fn lemma_move_has_one_outcome(
    start: GameActor,
    one: GameActor,
    other: GameActor,
    player_id: u64,
    column_index: u64,
)
    requires
        start.plays(one, player_id, column_index),
        start.plays(other, player_id, column_index),
    ensures
        one.board() == other.board(),
        one.table() == other.table(),
        one.winner() == other.winner(),
        one.player_count() == other.player_count(),
{
}

/// Makes a move for `player` in column `input`: the player's piece is
/// dropped as `Game::play_coin` says, and the winner is left in `game`.
pub fn handle_play_coin(
    game: &mut Game,
    coins: &mut Coins,
    groups: &mut Groups,
    player: &Player,
    input: u64,
) -> (played: Result<(), GameError>)
    ensures
        match played {
            Ok(_) => move_refusal(
                old(game).winner_id,
                board_of(old(coins)),
                table_of(old(groups)),
                input,
                player.color,
            ) is None,
            Err(error) => move_refusal(
                old(game).winner_id,
                board_of(old(coins)),
                table_of(old(groups)),
                input,
                player.color,
            ) == Some(error),
        },
        played is Err ==> *final(game) == *old(game) && *final(coins) == *old(coins)
            && *final(groups) == *old(groups),
        played is Ok ==> board_of(final(coins)) == board_after(
            board_of(old(coins)),
            table_of(old(groups)),
            input as int,
            player.color,
        ),
        played is Ok ==> table_of(final(groups)) == table_after(
            board_of(old(coins)),
            table_of(old(groups)),
            input as int,
            player.color,
        ),
        played is Ok ==> final(game).winner_id == if wins(
            board_of(old(coins)),
            table_of(old(groups)),
            input as int,
            player.color,
        ) {
            Some(player.id)
        } else {
            None
        },
        table_sound(board_of(old(coins)), table_of(old(groups))) ==> table_sound(
            board_of(final(coins)),
            table_of(final(groups)),
        ),
{
    let mut coin = player.coin(groups.len() as u64);
    game.play_coin(player.id, input, &mut coin, groups, coins)?;
    Ok(())
}

/// A new game as the server starts it: no winner, four empty columns, no
/// groups.
pub fn create_game() -> (made: (Game, Coins, Groups))
    ensures
        made.0.winner_id is None,
        board_of(&made.1) == empty_board(GAME_COLUMNS as nat),
        table_of(&made.2) == Map::<u64, Seq<Position>>::empty(),
        table_sound(board_of(&made.1), table_of(&made.2)),
{
    let mut game = Game::default();
    let coins = game.set_columns(GAME_COLUMNS).unwrap();
    let groups: Groups = HashMap::new();
    assert(table_of(&groups).dom() =~= Set::<u64>::empty());
    (game, coins, groups)
}

/// What a session can ask of the game.
#[derive(Debug)]
pub enum Action {
    /// Asks for the board as it is now.
    Snapshot,
    /// Drops a piece: the column, then the id of the player.
    PlayCoin(u64, u64),
    /// Asks for a seat in the game.
    Join,
}

/// What the game answers.
#[derive(Debug)]
pub enum Reply {
    /// The cells of the board, the winner if there is one, the number of
    /// columns and the number of rows.
    Snapshot(Vec<u8>, Option<u64>, u64, u64),
    /// A move was taken in; whether it was carried out is not reported.
    Played,
    /// The id and the color of the player that has joined.
    Joined(u64, Color),
}

/// The game that a server runs: the board, the group table, the winner and
/// the players. Only `join`, `play_coin` and `handle` change it, and each
/// hands back the game that the next request meets.
pub struct GameActor {
    game: Game,
    coins: Coins,
    groups: Groups,
    players: HashMap<u64, Player>,
}

impl GameActor {
    #[verifier::type_invariant]
    spec fn sound(&self) -> bool {
        &&& table_sound(board_of(&self.coins), table_of(&self.groups))
        &&& self.coins@.len() == GAME_COLUMNS
        &&& forall|id: u64| self.players@.contains_key(id) <==> 1 <= id <= self.players@.len()
        &&& forall|id: u64| #[trigger]
            self.players@.contains_key(id) ==> self.players@[id].id == id && self.players@[id].color
                == seat_color(id)
    }

    /// The board.
    pub closed spec fn board(&self) -> Seq<Seq<Coin>> {
        board_of(&self.coins)
    }

    /// The group table.
    pub closed spec fn table(&self) -> Map<u64, Seq<Position>> {
        table_of(&self.groups)
    }

    /// The winner, once there is one.
    pub closed spec fn winner(&self) -> Option<u64> {
        self.game.winner_id
    }

    /// The number of players that have joined.
    pub closed spec fn player_count(&self) -> nat {
        self.players@.len()
    }

    /// Whether `next` is this game after one more player has joined, who
    /// got `player_id` and `color`: the id follows the number of players so
    /// far, the color goes by the id, and the board is untouched.
    pub open spec fn joins(self, next: GameActor, player_id: u64, color: Color) -> bool {
        &&& player_id == self.player_count() + 1
        &&& color == seat_color(player_id)
        &&& next.player_count() == self.player_count() + 1
        &&& next.board() == self.board()
        &&& next.table() == self.table()
        &&& next.winner() == self.winner()
    }

    /// Why a move into column `column_index` is refused, if it is: the game
    /// has a winner, or else the column does not exist.
    pub open spec fn refusal(self, column_index: u64) -> Option<GameError> {
        if self.winner() is Some {
            Some(GameError::CantPlayCoinInEndedGame)
        } else if column_index >= self.board().len() {
            Some(GameError::ColumnOutOfBounds)
        } else {
            None
        }
    }

    /// Whether `next` is this game after player `player_id` asked for a
    /// move into column `column_index`: unchanged where the move is refused,
    /// and else with the player's piece dropped and the winner decided.
    pub open spec fn plays(self, next: GameActor, player_id: u64, column_index: u64) -> bool {
        let col = column_index as int;
        let color = seat_color(player_id);
        &&& next.player_count() == self.player_count()
        &&& self.refusal(column_index) is Some ==> {
            &&& next.board() == self.board()
            &&& next.table() == self.table()
            &&& next.winner() == self.winner()
        }
        &&& self.refusal(column_index) is None ==> {
            &&& next.board() == board_after(self.board(), self.table(), col, color)
            &&& next.table() == table_after(self.board(), self.table(), col, color)
            &&& next.winner() == if wins(self.board(), self.table(), col, color) {
                Some(player_id)
            } else {
                None
            }
        }
    }

    /// Whether the four values are the snapshot of this game: the cells of
    /// the board, the winner if there is one, the number of columns, and the
    /// number of rows, which is the height of the tallest column.
    pub open spec fn shows(
        self,
        cells: Seq<u8>,
        winner_id: Option<u64>,
        col_count: u64,
        row_count: u64,
    ) -> bool {
        &&& cells == board_cells(self.board(), tallest(self.board()))
        &&& winner_id == self.winner()
        &&& col_count == self.board().len()
        &&& row_count == tallest(self.board())
    }

    /// A game that nobody has joined or played in.
    pub fn new() -> (actor: GameActor)
        ensures
            actor.board() == empty_board(GAME_COLUMNS as nat),
            actor.table() == Map::<u64, Seq<Position>>::empty(),
            actor.winner() is None,
            actor.player_count() == 0,
    {
        let (game, coins, groups) = create_game();
        let players: HashMap<u64, Player> = HashMap::new();
        assert(board_of(&coins).len() == GAME_COLUMNS);
        GameActor { game, coins, groups, players }
    }

    /// The state of the game, for display.
    pub fn game(&self) -> (game: &Game)
        ensures
            game.winner_id == self.winner(),
    {
        &self.game
    }

    /// The board, for display.
    pub fn coins(&self) -> (coins: &Coins)
        ensures
            board_of(coins) == self.board(),
    {
        &self.coins
    }

    /// The number of players that have joined.
    pub fn players_joined(&self) -> (count: usize)
        ensures
            count == self.player_count(),
    {
        self.players.len()
    }

    /// Whether a player with this id has joined.
    pub fn has_player(&self, player_id: u64) -> (known: bool)
        ensures
            known == (1 <= player_id <= self.player_count()),
    {
        proof {
            use_type_invariant(self);
        }
        self.players.contains_key(&player_id)
    }

    /// Seats a new player. Ids are given out in order, starting at 1; the
    /// color goes by the id: blue for odd ids, orange for even ones.
    pub fn join(self) -> (next: (GameActor, (u64, Color)))
        requires
            self.player_count() < u64::MAX,
        ensures
            self.joins(next.0, next.1.0, next.1.1),
    {
        proof {
            use_type_invariant(&self);
        }
        let GameActor { game, coins, groups, mut players } = self;
        let player_id = (players.len() as u64) + 1;
        let next_index = player_id % 2;
        let player = if next_index == 0 {
            Player::orange(player_id)
        } else {
            Player::blue(player_id)
        };
        players.insert(player_id, player);
        (GameActor { game, coins, groups, players }, (player_id, player.color))
    }

    /// Drops a piece of player `player_id` into column `column_index`.
    ///
    /// The move is refused, and nothing changes, when the game has a winner
    /// or the column does not exist. Otherwise the piece is placed as
    /// `Game::play_coin` says. Before and after, every piece is listed in
    /// the table under its own group id.
    pub fn play_coin(self, player_id: u64, column_index: u64) -> (next: (
        GameActor,
        Result<(), GameError>,
    ))
        requires
            1 <= player_id <= self.player_count(),
        ensures
            match next.1 {
                Ok(_) => self.refusal(column_index) is None,
                Err(error) => self.refusal(column_index) == Some(error),
            },
            self.plays(next.0, player_id, column_index),
            table_sound(self.board(), self.table()),
            table_sound(next.0.board(), next.0.table()),
            self.board().len() == GAME_COLUMNS,
    {
        proof {
            use_type_invariant(&self);
            if column_index < GAME_COLUMNS {
                lemma_move_keeps_table_sound(
                    board_of(&self.coins),
                    table_of(&self.groups),
                    column_index as int,
                    seat_color(player_id),
                );
            }
        }
        let GameActor { mut game, mut coins, mut groups, players } = self;
        let player = *players.get(&player_id).unwrap();
        let played = handle_play_coin(&mut game, &mut coins, &mut groups, &player, column_index);
        proof {
            assert(board_of(&coins).len() == coins@.len());
        }
        (GameActor { game, coins, groups, players }, played)
    }

    /// The board as it is sent to the clients.
    pub fn snapshot(&self) -> (taken: (Vec<u8>, Option<u64>, u64, u64))
        ensures
            self.shows(taken.0@, taken.1, taken.2, taken.3),
    {
        let (snapshot, col_count, row_count) = serialize_coins(&self.coins);
        (snapshot, self.game.winner_id, col_count, row_count)
    }

    /// Handles one request, and gives the answer and the game that the next
    /// request meets. A move is answered with `Played` whether or not it was
    /// carried out.
    pub fn handle(self, action: Action) -> (next: (GameActor, Reply))
        requires
            action is Join ==> self.player_count() < u64::MAX,
            action matches Action::PlayCoin(_, player_id) ==> 1 <= player_id
                <= self.player_count(),
        ensures
            match action {
                Action::Join => next.1 matches Reply::Joined(player_id, color) && self.joins(
                    next.0,
                    player_id,
                    color,
                ),
                Action::PlayCoin(column_index, player_id) => next.1 is Played && self.plays(
                    next.0,
                    player_id,
                    column_index,
                ),
                Action::Snapshot => next.0 == self && (next.1 matches Reply::Snapshot(
                    cells,
                    winner_id,
                    col_count,
                    row_count,
                ) && self.shows(cells@, winner_id, col_count, row_count)),
            },
    {
        match action {
            Action::PlayCoin(column, player_id) => {
                let (next, _) = self.play_coin(player_id, column);
                (next, Reply::Played)
            },
            Action::Snapshot => {
                let (snapshot, winner_id, col_count, row_count) = self.snapshot();
                (self, Reply::Snapshot(snapshot, winner_id, col_count, row_count))
            },
            Action::Join => {
                let (next, (player_id, color)) = self.join();
                (next, Reply::Joined(player_id, color))
            },
        }
    }
}

} // verus!
