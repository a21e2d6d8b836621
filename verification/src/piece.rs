//! Colors, players and the pieces they drop.

use vstd::prelude::*;

verus! {

/// The color of a piece. Each color has a one-byte code on the wire; code 0
/// is kept for an empty cell and belongs to no color.
#[derive(Debug, Clone, Copy, PartialEq, Eq, Hash, Structural)]
pub enum Color {
    Orange,
    Blue,
    Red,
    Yellow,
    Purple,
}

impl Color {
    /// The wire code of a color.
    pub open spec fn code(self) -> u8 {
        match self {
            Color::Orange => 1,
            Color::Blue => 2,
            Color::Red => 3,
            Color::Yellow => 4,
            Color::Purple => 5,
        }
    }

    /// Whether a byte is the wire code of some color.
    pub open spec fn is_code(byte: u8) -> bool {
        1 <= byte <= 5
    }

    /// The color that a wire code stands for.
    pub open spec fn from_code(byte: u8) -> Color
        recommends
            Color::is_code(byte),
    {
        if byte == 1 {
            Color::Orange
        } else if byte == 2 {
            Color::Blue
        } else if byte == 3 {
            Color::Red
        } else if byte == 4 {
            Color::Yellow
        } else {
            Color::Purple
        }
    }

    /// Encodes the color as its wire code.
    pub fn serialize(&self) -> (byte: u8)
        ensures
            byte == self.code(),
            Color::is_code(byte),
    {
        match self {
            Color::Orange => 1,
            Color::Blue => 2,
            Color::Red => 3,
            Color::Yellow => 4,
            Color::Purple => 5,
        }
    }

    /// Decodes a wire code. Bytes that are no color code are not accepted.
    pub fn deserialize(input: &u8) -> (color: Color)
        requires
            Color::is_code(*input),
        ensures
            color == Color::from_code(*input),
            color.code() == *input,
    {
        match *input {
            1 => Color::Orange,
            2 => Color::Blue,
            3 => Color::Red,
            4 => Color::Yellow,
            _ => Color::Purple,
        }
    }
}

/// A participant: an id and the color of the pieces that they drop.
#[derive(Debug, Clone, Copy)]
pub struct Player {
    pub color: Color,
    pub id: u64,
}

impl Player {
    /// A piece of this player's color, labelled with `group`.
    pub fn coin(&self, group: u64) -> (coin: Coin)
        ensures
            coin == (Coin { color: self.color, group }),
    {
        Coin::from_player(self, group)
    }

    /// The player with the given id who plays the given color.
    pub fn from_color(id: u64, color: Color) -> (player: Player)
        ensures
            player == (Player { color, id }),
    {
        Player { id, color }
    }

    /// The player with the given id who plays orange.
    pub fn orange(id: u64) -> (player: Player)
        ensures
            player == (Player { color: Color::Orange, id }),
    {
        Player::from_color(id, Color::Orange)
    }

    /// The player with the given id who plays blue.
    pub fn blue(id: u64) -> (player: Player)
        ensures
            player == (Player { color: Color::Blue, id }),
    {
        Player::from_color(id, Color::Blue)
    }

    /// The player with the given id who plays purple.
    pub fn purple(id: u64) -> (player: Player)
        ensures
            player == (Player { color: Color::Purple, id }),
    {
        Player::from_color(id, Color::Purple)
    }

    /// The player with the given id who plays red.
    pub fn red(id: u64) -> (player: Player)
        ensures
            player == (Player { color: Color::Red, id }),
    {
        Player::from_color(id, Color::Red)
    }

    /// The player with the given id who plays yellow.
    pub fn yellow(id: u64) -> (player: Player)
        ensures
            player == (Player { color: Color::Yellow, id }),
    {
        Player::from_color(id, Color::Yellow)
    }
}

/// A piece on the board: its color, and the id of the group that it was put
/// into when it was placed.
#[derive(Debug, Clone, Copy, PartialEq, Eq, Hash, Structural)]
pub struct Coin {
    pub color: Color,
    pub group: u64,
}

impl Coin {
    /// A piece of the player's color, labelled with `group`.
    pub fn from_player(player: &Player, group: u64) -> (coin: Coin)
        ensures
            coin == (Coin { color: player.color, group }),
    {
        Coin { color: player.color, group }
    }

    /// The glyph that stands for a piece of the given color in a rendered row.
    pub open spec fn glyph(color: Color) -> Seq<char> {
        match color {
            Color::Red => "\u{1F534}"@,
            Color::Yellow => "\u{1F7E1}"@,
            Color::Orange => "\u{1F7E0}"@,
            Color::Purple => "\u{1F7E3}"@,
            Color::Blue => "\u{1F535}"@,
        }
    }

    /// The piece as text: the glyph of its color.
    pub fn to_string(&self) -> (text: String)
        ensures
            text@ == Coin::glyph(self.color),
    {
        match self.color {
            Color::Red => String::from_str("\u{1F534}"),
            Color::Yellow => String::from_str("\u{1F7E1}"),
            Color::Orange => String::from_str("\u{1F7E0}"),
            Color::Purple => String::from_str("\u{1F7E3}"),
            Color::Blue => String::from_str("\u{1F535}"),
        }
    }
}

} // verus!
