//! One client's session: what the server does, step by step, with what the
//! game answers and with what the client sends.
//!
//! A session begins by putting its client among those that snapshots are
//! sent to, and by asking the game for a seat. It greets the client with the
//! seat and with a first snapshot, and then reads commands: each move goes
//! to the game, and the snapshot that follows goes to every client. An empty
//! read ends the session.

use crate::message::{JoinedViewData, SnapshotViewData};
use crate::piece::Color;
use crate::wire::{joined_frame, snapshot_frame, Command};
use vstd::prelude::*;

verus! {

/// The number of bytes that are read from a client at a time. A frame has
/// to fit into one read.
pub const READ_SIZE: usize = 255;

/// Where a session stands.
#[derive(Debug, Clone, Copy, PartialEq, Eq, Structural)]
pub enum Session {
    /// The client has connected.
    Connected,
    /// The game has been asked for a seat.
    Joining,
    /// The client has its seat; the game has been asked for the first
    /// snapshot. Holds the id of the player.
    Syncing(u64),
    /// The next command of the client is awaited. Holds the id of the
    /// player.
    Reading(u64),
    /// A move has gone to the game, which has been asked for a snapshot.
    /// Holds the id of the player.
    Relaying(u64),
    /// The client has closed its side.
    Closed,
}

/// What happens to a session.
#[derive(Debug)]
pub enum Event {
    /// The stream to and from the client is open.
    Opened,
    /// The game has seated the player: the id and the color.
    Joined(u64, Color),
    /// The game has answered with a snapshot: the cells, the winner if
    /// there is one, the number of columns, the number of rows.
    Snapshot(Vec<u8>, Option<u64>, u64, u64),
    /// Bytes have been read from the client; none, if it has closed.
    Read(Vec<u8>),
}

/// What the server is to do next for a session.
#[derive(Debug)]
pub enum Output {
    /// Put this client among those that snapshots are sent to, then ask the
    /// game for a seat.
    Register,
    /// Write the frame to this client, then ask the game for a snapshot.
    Greet(Vec<u8>),
    /// Write the frame to this client, then read its next command.
    Send(Vec<u8>),
    /// Hand the move to the game: the column, then the id of the player.
    /// Then ask the game for a snapshot.
    Play(u64, u64),
    /// Write the frame to every client, then read the next command of this
    /// one.
    Broadcast(Vec<u8>),
    /// Read no more from this client.
    Stop,
}

/// Why a session cannot go on.
#[derive(Debug)]
pub enum SessionError {
    /// The client sent bytes that are no command.
    InvalidCommand,
    /// Something happened that the session was not waiting for.
    OutOfTurn,
}

/// What the server is to do next, with frames as sequences of bytes.
pub enum Step {
    Register,
    Greet(Seq<u8>),
    Send(Seq<u8>),
    Play(u64, u64),
    Broadcast(Seq<u8>),
    Stop,
}

impl Output {
    /// The output as a step.
    pub open spec fn step(self) -> Step {
        match self {
            Output::Register => Step::Register,
            Output::Greet(frame) => Step::Greet(frame@),
            Output::Send(frame) => Step::Send(frame@),
            Output::Play(column, player_id) => Step::Play(column, player_id),
            Output::Broadcast(frame) => Step::Broadcast(frame@),
            Output::Stop => Step::Stop,
        }
    }
}

impl Session {
    /// How the session goes on when `event` happens: the state it is in
    /// then, and what the server is to do; or why it cannot go on.
    pub open spec fn reaction(self, event: Event) -> Result<(Session, Step), SessionError> {
        match (self, event) {
            (Session::Connected, Event::Opened) => Ok((Session::Joining, Step::Register)),
            (Session::Joining, Event::Joined(player_id, color)) => Ok(
                (Session::Syncing(player_id), Step::Greet(joined_frame(player_id, color.code()))),
            ),
            (Session::Syncing(player_id), Event::Snapshot(cells, winner_id, cols, rows)) => Ok(
                (
                    Session::Reading(player_id),
                    Step::Send(snapshot_frame(cells@, winner_id, cols, rows)),
                ),
            ),
            (Session::Relaying(player_id), Event::Snapshot(cells, winner_id, cols, rows)) => Ok(
                (
                    Session::Reading(player_id),
                    Step::Broadcast(snapshot_frame(cells@, winner_id, cols, rows)),
                ),
            ),
            (Session::Reading(player_id), Event::Read(bytes)) => {
                if !Command::accepts(bytes@) {
                    Err(SessionError::InvalidCommand)
                } else {
                    match Command::parse(bytes@) {
                        Command::Closed => Ok((Session::Closed, Step::Stop)),
                        Command::PlayCoin(column) => Ok(
                            (Session::Relaying(player_id), Step::Play(column, player_id)),
                        ),
                    }
                }
            },
            _ => Err(SessionError::OutOfTurn),
        }
    }

    /// The session of a client that has just connected.
    pub fn start() -> (session: Session)
        ensures
            session == Session::Connected,
    {
        Session::Connected
    }

    /// Takes the session one step on: `event` has happened.
    pub fn step(self, event: Event) -> (next: Result<(Session, Output), SessionError>)
        ensures
            match next {
                Ok((session, output)) => self.reaction(event) matches Ok(reaction) && reaction == (
                    session,
                    output.step(),
                ),
                Err(error) => self.reaction(event) matches Err(reason) && reason == error,
            },
    {
        match (self, event) {
            (Session::Connected, Event::Opened) => Ok((Session::Joining, Output::Register)),
            (Session::Joining, Event::Joined(player_id, color)) => {
                let frame = crate::message::View::serialize(
                    crate::message::View::Joined(
                        JoinedViewData { player_id, color: color.serialize() },
                    ),
                );
                Ok((Session::Syncing(player_id), Output::Greet(frame)))
            },
            (Session::Syncing(player_id), Event::Snapshot(cells, winner_id, col_count, row_count)) => {
                let frame = encode_snapshot(cells, winner_id, col_count, row_count);
                Ok((Session::Reading(player_id), Output::Send(frame)))
            },
            (
                Session::Relaying(player_id),
                Event::Snapshot(cells, winner_id, col_count, row_count),
            ) => {
                let frame = encode_snapshot(cells, winner_id, col_count, row_count);
                Ok((Session::Reading(player_id), Output::Broadcast(frame)))
            },
            (Session::Reading(player_id), Event::Read(bytes)) => {
                if !Command::is_frame(&bytes) {
                    return Err(SessionError::InvalidCommand);
                }
                match Command::deserialize(bytes) {
                    Command::Closed => Ok((Session::Closed, Output::Stop)),
                    Command::PlayCoin(column) => Ok(
                        (Session::Relaying(player_id), Output::Play(column, player_id)),
                    ),
                }
            },
            _ => Err(SessionError::OutOfTurn),
        }
    }
}

/// The frame that carries a snapshot.
pub fn encode_snapshot(
    cells: Vec<u8>,
    winner_id: Option<u64>,
    col_count: u64,
    row_count: u64,
) -> (frame: Vec<u8>)
    ensures
        frame@ == snapshot_frame(cells@, winner_id, col_count, row_count),
{
    let mut cells = cells;
    crate::message::View::serialize(
        crate::message::View::Snapshot(
            SnapshotViewData { snapshot: &mut cells, winner_id, col_count, row_count },
        ),
    )
}

/// The buffer that a read fills: `READ_SIZE` bytes, all of them 0.
pub fn read_buffer() -> (buffer: Vec<u8>)
    ensures
        buffer@ == Seq::new(READ_SIZE as nat, |i: int| 0u8),
{
    let mut buffer: Vec<u8> = Vec::new();
    while buffer.len() < READ_SIZE
        invariant
            buffer@.len() <= READ_SIZE,
            buffer@ == Seq::new(buffer@.len(), |i: int| 0u8),
        decreases READ_SIZE - buffer@.len(),
    {
        buffer.push(0);
    }
    buffer
}

/// What a read hands to the session: the whole buffer where bytes came in,
/// and nothing where the client has closed.
pub fn payload_of_read(buffer: Vec<u8>, count: Option<usize>) -> (payload: Vec<u8>)
    ensures
        payload@ == match count {
            Some(n) => if n > 0 {
                buffer@
            } else {
                Seq::empty()
            },
            None => Seq::empty(),
        },
{
    match count {
        Some(n) => {
            if n > 0 {
                buffer
            } else {
                Vec::new()
            }
        },
        None => Vec::new(),
    }
}

} // verus!
