//! The wire format: big-endian integers and the frames built from them.

use crate::message::{JoinedViewData, SnapshotViewData};
use crate::piece::{Color, Player};
use vstd::prelude::*;

verus! {

/// The eight bytes of a value, most significant first.
pub open spec fn be_bytes(value: u64) -> Seq<u8> {
    seq![
        (value / 0x100_0000_0000_0000) as u8,
        (value / 0x1_0000_0000_0000 % 0x100) as u8,
        (value / 0x100_0000_0000 % 0x100) as u8,
        (value / 0x1_0000_0000 % 0x100) as u8,
        (value / 0x100_0000 % 0x100) as u8,
        (value / 0x1_0000 % 0x100) as u8,
        (value / 0x100 % 0x100) as u8,
        (value % 0x100) as u8,
    ]
}

/// The value whose big-endian bytes are the first eight of `bytes`.
pub open spec fn be_value(bytes: Seq<u8>) -> u64
    recommends
        bytes.len() >= 8,
{
    (bytes[0] * 0x100_0000_0000_0000 + bytes[1] * 0x1_0000_0000_0000 + bytes[2] * 0x100_0000_0000
        + bytes[3] * 0x1_0000_0000 + bytes[4] * 0x100_0000 + bytes[5] * 0x1_0000 + bytes[6] * 0x100
        + bytes[7]) as u64
}

/// Dividing by 256 again and again is dividing by a power of 256.
proof fn lemma_shift_steps(value: u64)
    ensures
        value / 0x100 / 0x100 == value / 0x1_0000,
        value / 0x1_0000 / 0x100 == value / 0x100_0000,
        value / 0x100_0000 / 0x100 == value / 0x1_0000_0000,
        value / 0x1_0000_0000 / 0x100 == value / 0x100_0000_0000,
        value / 0x100_0000_0000 / 0x100 == value / 0x1_0000_0000_0000,
        value / 0x1_0000_0000_0000 / 0x100 == value / 0x100_0000_0000_0000,
        value / 0x100_0000_0000_0000 < 0x100,
{
    assert(value / 0x100 / 0x100 == value / 0x1_0000) by (bit_vector);
    assert(value / 0x1_0000 / 0x100 == value / 0x100_0000) by (bit_vector);
    assert(value / 0x100_0000 / 0x100 == value / 0x1_0000_0000) by (bit_vector);
    assert(value / 0x1_0000_0000 / 0x100 == value / 0x100_0000_0000) by (bit_vector);
    assert(value / 0x100_0000_0000 / 0x100 == value / 0x1_0000_0000_0000) by (bit_vector);
    assert(value / 0x1_0000_0000_0000 / 0x100 == value / 0x100_0000_0000_0000) by (bit_vector);
    assert(value / 0x100_0000_0000_0000 < 0x100) by (bit_vector);
}

/// Decoding the eight bytes of a value gives the value back.
pub proof fn lemma_be_value_of_bytes(value: u64)
    ensures
        be_bytes(value).len() == 8,
        be_value(be_bytes(value)) == value,
{
    lemma_shift_steps(value);
    let q1 = value / 0x100;
    let q2 = value / 0x1_0000;
    let q3 = value / 0x100_0000;
    let q4 = value / 0x1_0000_0000;
    let q5 = value / 0x100_0000_0000;
    let q6 = value / 0x1_0000_0000_0000;
    let q7 = value / 0x100_0000_0000_0000;
    assert(value == q1 * 0x100 + value % 0x100);
    assert(q1 == q2 * 0x100 + q1 % 0x100);
    assert(q2 == q3 * 0x100 + q2 % 0x100);
    assert(q3 == q4 * 0x100 + q3 % 0x100);
    assert(q4 == q5 * 0x100 + q4 % 0x100);
    assert(q5 == q6 * 0x100 + q5 % 0x100);
    assert(q6 == q7 * 0x100 + q6 % 0x100);
}

/// Encoding the value of eight bytes gives the bytes back.
pub proof fn lemma_be_bytes_of_value(bytes: Seq<u8>)
    requires
        bytes.len() == 8,
    ensures
        be_bytes(be_value(bytes)) == bytes,
{
    let value = be_value(bytes);
    lemma_shift_steps(value);
    let t6: int = bytes[0] * 0x100 + bytes[1];
    let t5: int = t6 * 0x100 + bytes[2];
    let t4: int = t5 * 0x100 + bytes[3];
    let t3: int = t4 * 0x100 + bytes[4];
    let t2: int = t3 * 0x100 + bytes[5];
    let t1: int = t2 * 0x100 + bytes[6];
    let t0: int = t1 * 0x100 + bytes[7];
    assert(value == t0);
    assert(value / 0x100 == t1 && value % 0x100 == bytes[7]);
    assert(t1 / 0x100 == t2 && t1 % 0x100 == bytes[6]);
    assert(t2 / 0x100 == t3 && t2 % 0x100 == bytes[5]);
    assert(t3 / 0x100 == t4 && t3 % 0x100 == bytes[4]);
    assert(t4 / 0x100 == t5 && t4 % 0x100 == bytes[3]);
    assert(t5 / 0x100 == t6 && t5 % 0x100 == bytes[2]);
    assert(t6 / 0x100 == bytes[0] && t6 % 0x100 == bytes[1]);
    assert(be_bytes(value) =~= bytes);
}

/// Reads a big-endian value from exactly eight bytes.
pub fn vec_to_u64(vec: Vec<u8>) -> (value: u64)
    requires
        vec@.len() == 8,
    ensures
        value == be_value(vec@),
{
    read_u64(vec.as_slice(), 0)
}

/// Reads the big-endian value of the eight bytes that start at `at`.
pub fn read_u64(bytes: &[u8], at: usize) -> (value: u64)
    requires
        at + 8 <= bytes@.len(),
    ensures
        value == be_value(bytes@.subrange(at as int, at + 8)),
{
    let b0 = bytes[at] as u64;
    let b1 = bytes[at + 1] as u64;
    let b2 = bytes[at + 2] as u64;
    let b3 = bytes[at + 3] as u64;
    let b4 = bytes[at + 4] as u64;
    let b5 = bytes[at + 5] as u64;
    let b6 = bytes[at + 6] as u64;
    let b7 = bytes[at + 7] as u64;
    b0 * 0x100_0000_0000_0000 + b1 * 0x1_0000_0000_0000 + b2 * 0x100_0000_0000 + b3
        * 0x1_0000_0000 + b4 * 0x100_0000 + b5 * 0x1_0000 + b6 * 0x100 + b7
}

/// Appends the eight big-endian bytes of `value` to `buffer`.
pub fn write_u64(buffer: &mut Vec<u8>, value: u64)
    ensures
        final(buffer)@ == old(buffer)@ + be_bytes(value),
{
    let ghost before = buffer@;
    buffer.push((value / 0x100_0000_0000_0000) as u8);
    buffer.push((value / 0x1_0000_0000_0000 % 0x100) as u8);
    buffer.push((value / 0x100_0000_0000 % 0x100) as u8);
    buffer.push((value / 0x1_0000_0000 % 0x100) as u8);
    buffer.push((value / 0x100_0000 % 0x100) as u8);
    buffer.push((value / 0x1_0000 % 0x100) as u8);
    buffer.push((value / 0x100 % 0x100) as u8);
    buffer.push((value % 0x100) as u8);
    assert(buffer@ =~= before + be_bytes(value));
}

/// A request that a client sends.
#[derive(Debug)]
pub enum Command {
    /// Drop a piece into the column with this index.
    PlayCoin(u64),
    /// The peer closed its side: an empty payload.
    Closed,
}

impl Command {
    /// The tag byte of a `PlayCoin` frame.
    pub open spec fn play_coin_tag() -> u8 {
        2
    }

    /// The bytes that stand for the command.
    pub open spec fn frame(self) -> Seq<u8> {
        match self {
            Command::Closed => Seq::empty(),
            Command::PlayCoin(column) => seq![Command::play_coin_tag()] + be_bytes(column),
        }
    }

    /// Whether the bytes can be decoded: an empty payload, or the tag of
    /// `PlayCoin` followed by at least eight bytes.
    pub open spec fn accepts(bytes: Seq<u8>) -> bool {
        bytes.len() == 0 || (bytes[0] == Command::play_coin_tag() && bytes.len() >= 9)
    }

    /// The command that accepted bytes stand for. Bytes after the ninth are
    /// not looked at.
    pub open spec fn parse(bytes: Seq<u8>) -> Command
        recommends
            Command::accepts(bytes),
    {
        if bytes.len() == 0 {
            Command::Closed
        } else {
            Command::PlayCoin(be_value(bytes.subrange(1, 9)))
        }
    }

    /// Whether `binary` can be decoded.
    pub fn is_frame(binary: &Vec<u8>) -> (accepted: bool)
        ensures
            accepted == Command::accepts(binary@),
    {
        binary.len() == 0 || (binary[0] == 2 && binary.len() >= 9)
    }

    /// Decodes a command.
    pub fn deserialize(binary: Vec<u8>) -> (command: Command)
        requires
            Command::accepts(binary@),
        ensures
            command == Command::parse(binary@),
    {
        if binary.len() == 0 {
            return Command::Closed;
        }
        Command::PlayCoin(read_u64(binary.as_slice(), 1))
    }

    /// Encodes the command.
    pub fn serialize(&self) -> (binary: Vec<u8>)
        ensures
            binary@ == self.frame(),
    {
        match self {
            Command::Closed => Vec::new(),
            Command::PlayCoin(column_index) => {
                let mut buffer: Vec<u8> = Vec::new();
                buffer.push(2);
                write_u64(&mut buffer, *column_index);
                buffer
            },
        }
    }
}

/// Every command is decoded from its own frame.
pub proof fn lemma_command_round_trip(command: Command)
    ensures
        Command::accepts(command.frame()),
        Command::parse(command.frame()) == command,
{
    match command {
        Command::Closed => {},
        Command::PlayCoin(column) => {
            lemma_be_value_of_bytes(column);
            assert(command.frame().subrange(1, 9) =~= be_bytes(column));
        },
    }
}

/// The frame that tells a client its id and color.
pub open spec fn joined_frame(player_id: u64, color: u8) -> Seq<u8> {
    seq![0u8] + be_bytes(player_id) + seq![color]
}

/// The frame that carries a board. A winner id of 0 stands for no winner.
pub open spec fn snapshot_frame(
    cells: Seq<u8>,
    winner_id: Option<u64>,
    col_count: u64,
    row_count: u64,
) -> Seq<u8> {
    seq![1u8] + be_bytes(
        match winner_id {
            Some(id) => id,
            None => 0,
        },
    ) + be_bytes(col_count) + be_bytes(row_count) + cells
}

// The message type is written by its path: the bare name `View` stands for
// the view of a value in this file.
impl<'a> crate::message::View<'a> {
    /// Encodes the message. The cells of a snapshot are moved into the
    /// frame.
    pub fn serialize(view: crate::message::View) -> (binary: Vec<u8>)
        ensures
            binary@ == match view {
                crate::message::View::Joined(joined) => joined_frame(joined.player_id, joined.color),
                crate::message::View::Snapshot(data) => snapshot_frame(
                    data.snapshot@,
                    data.winner_id,
                    data.col_count,
                    data.row_count,
                ),
            },
            view matches crate::message::View::Snapshot(data) ==> final(data.snapshot)@
                == Seq::<u8>::empty(),
    {
        match view {
            crate::message::View::Joined(JoinedViewData { player_id, color }) => {
                let mut buffer: Vec<u8> = Vec::new();
                buffer.push(0);
                write_u64(&mut buffer, player_id);
                buffer.push(color);
                buffer
            },
            crate::message::View::Snapshot(
                SnapshotViewData { snapshot, winner_id, col_count, row_count },
            ) => {
                let mut buffer: Vec<u8> = Vec::new();
                buffer.push(1);
                let winner_id: u64 = winner_id.unwrap_or(0);
                write_u64(&mut buffer, winner_id);
                write_u64(&mut buffer, col_count);
                write_u64(&mut buffer, row_count);
                buffer.append(snapshot);
                buffer
            },
        }
    }
}

/// Whether the bytes are a frame that tells a client its id and color: the
/// tag 0, eight bytes of id, and a color code. Bytes behind them are not
/// looked at.
pub open spec fn is_joined(frame: Seq<u8>) -> bool {
    frame.len() >= 10 && frame[0] == 0 && Color::is_code(frame[9])
}

/// The player that such a frame names.
pub open spec fn joined_player(frame: Seq<u8>) -> Player
    recommends
        is_joined(frame),
{
    Player { color: Color::from_code(frame[9]), id: be_value(frame.subrange(1, 9)) }
}

/// Decodes the frame that tells a client its id and color, or returns `None`
/// where the bytes are no such frame.
pub fn decode_joined(frame: &[u8]) -> (decoded: Option<Player>)
    ensures
        decoded is Some <==> is_joined(frame@),
        decoded is Some ==> decoded->Some_0 == joined_player(frame@),
{
    if frame.len() < 10 || frame[0] != 0 {
        return None;
    }
    let code = frame[9];
    if code < 1 || code > 5 {
        return None;
    }
    let id = read_u64(frame, 1);
    Some(Player::from_color(id, Color::deserialize(&code)))
}

/// A player is decoded from the frame that was encoded for them.
pub proof fn lemma_joined_round_trip(player: Player)
    ensures
        is_joined(joined_frame(player.id, player.color.code())),
        joined_player(joined_frame(player.id, player.color.code())) == player,
{
    let frame = joined_frame(player.id, player.color.code());
    lemma_be_value_of_bytes(player.id);
    assert(frame.subrange(1, 9) =~= be_bytes(player.id));
    assert(frame[9] == player.color.code());
}

} // verus!
