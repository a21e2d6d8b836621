//! Connect-N on a board of any width, where N is the number of columns.
//!
//! Pieces are dropped into columns and stack up. Pieces of one color that
//! touch, side by side or corner to corner, form a group, and a player wins
//! when a group of theirs has as many cells as the board has columns.
//!
//! - `piece`, `board`, `groups`, `order`: the pieces, the board, the table
//!   of groups, and group ids in ascending order.
//! - `game`: the rules of a move, and what they keep true of board and
//!   table.
//! - `shapes`: rows, stacks and staircases of one color, and when they win.
//! - `wire`, `message`, `snapshot`: the frames that server and client
//!   exchange, and the board as bytes.
//! - `actor`: the game that a server runs, one request after the other.
//! - `session`: what the server does for one client, step by step.
//! - `local`: a game at one keyboard.
//! - `render`: the board as rows of text.

pub mod actor;
pub mod board;
pub mod error;
pub mod game;
pub mod groups;
pub mod local;
pub mod message;
pub mod order;
pub mod piece;
pub mod render;
pub mod session;
pub mod shapes;
pub mod snapshot;
pub mod wire;

pub use actor::{create_game, handle_play_coin, Action, GameActor, Reply};
pub use board::{find_connected_groups, CoinColumn, Coins, Position};
pub use error::GameError;
pub use game::Game;
pub use groups::{GroupStore, Groups};
pub use local::{column_of_choice, LocalGame, Turn};
pub use message::{JoinedViewData, SnapshotViewData, View};
pub use piece::{Coin, Color, Player};
pub use wire::{decode_joined, vec_to_u64, Command};
pub use render::{debug_game_lines, debug_render_game};
pub use session::{
    encode_snapshot, payload_of_read, read_buffer, Event, Output, Session, SessionError,
};
pub use snapshot::{decode_snapshot, serialize_coin_column, serialize_coins, BoardSnapshot};
