use connect4000::{
    column_of_choice, create_game, decode_joined, decode_snapshot, encode_snapshot,
    handle_play_coin, payload_of_read, read_buffer, Action, Coin, Color, Command, Event, GameActor, GameError,
    LocalGame, Output, Player, Reply, Session, SessionError, SnapshotViewData, Turn, View,
};

fn join(actor: GameActor) -> (GameActor, u64, Color) {
    let (actor, (id, color)) = actor.join();
    (actor, id, color)
}

fn play(actor: GameActor, player_id: u64, column: u64) -> (GameActor, Result<(), GameError>) {
    assert!(actor.has_player(player_id));
    actor.play_coin(player_id, column)
}

#[test]
fn created_game_has_four_empty_columns() {
    let (game, coins, groups) = create_game();
    assert_eq!(game.winner_id, None);
    assert_eq!(coins, vec![Vec::<Coin>::new(); 4]);
    assert!(groups.is_empty());
}

#[test]
fn joins_count_up_from_one_and_colors_alternate() {
    let mut actor = GameActor::new();
    assert_eq!(actor.players_joined(), 0);
    for expected in 1..=9u64 {
        assert!(!actor.has_player(expected));
        let (next, id, color) = join(actor);
        actor = next;
        assert_eq!(id, expected);
        let expected_color = if expected % 2 == 0 { Color::Orange } else { Color::Blue };
        assert_eq!(color, expected_color);
        assert!(actor.has_player(expected));
        assert_eq!(actor.players_joined() as u64, expected);
    }
    assert!(!actor.has_player(0));
    assert!(!actor.has_player(10));
}

#[test]
fn snapshot_of_a_new_game_is_empty() {
    let actor = GameActor::new();
    assert_eq!(actor.snapshot(), (vec![], None, 4, 0));
}

#[test]
fn moves_show_up_in_the_snapshot() {
    let (actor, blue, _) = join(GameActor::new());
    let (actor, orange, _) = join(actor);
    let (actor, played) = play(actor, blue, 0);
    assert!(played.is_ok());
    let (actor, played) = play(actor, orange, 0);
    assert!(played.is_ok());
    let (actor, played) = play(actor, blue, 3);
    assert!(played.is_ok());
    assert_eq!(actor.snapshot(), (vec![2, 1, 0, 0, 0, 0, 2, 0], None, 4, 2));
}

#[test]
fn fourth_piece_in_a_row_wins_the_served_game() {
    let (actor, blue, _) = join(GameActor::new());
    let mut actor = actor;
    for column in 0..4u64 {
        assert_eq!(actor.snapshot().1, None);
        let (next, played) = play(actor, blue, column);
        assert!(played.is_ok());
        actor = next;
    }
    assert_eq!(actor.snapshot(), (vec![2, 2, 2, 2], Some(1), 4, 1));
}

#[test]
fn refused_moves_leave_the_served_game_alone() {
    let (actor, blue, _) = join(GameActor::new());
    let (actor, orange, _) = join(actor);
    let (actor, played) = play(actor, blue, 4);
    assert!(matches!(played, Err(GameError::ColumnOutOfBounds)));
    assert_eq!(actor.snapshot(), (vec![], None, 4, 0));

    let mut actor = actor;
    for _ in 0..4 {
        actor = play(actor, orange, 2).0;
    }
    let won = actor.snapshot();
    assert_eq!(won, (vec![0, 0, 0, 0, 0, 0, 0, 0, 1, 1, 1, 1, 0, 0, 0, 0], Some(2), 4, 4));
    for column in [0u64, 2, 4, 100] {
        let (next, played) = play(actor, blue, column);
        assert!(matches!(played, Err(GameError::CantPlayCoinInEndedGame)));
        actor = next;
        assert_eq!(actor.snapshot(), won);
    }
}

#[test]
fn requests_are_answered_in_kind() {
    let actor = GameActor::new();
    let (actor, reply) = actor.handle(Action::Join);
    assert!(matches!(reply, Reply::Joined(1, Color::Blue)));
    let (actor, reply) = actor.handle(Action::Join);
    assert!(matches!(reply, Reply::Joined(2, Color::Orange)));
    let (actor, reply) = actor.handle(Action::PlayCoin(1, 2));
    assert!(matches!(reply, Reply::Played));
    let (actor, reply) = actor.handle(Action::PlayCoin(9, 1));
    assert!(matches!(reply, Reply::Played));
    let (actor, reply) = actor.handle(Action::Snapshot);
    match reply {
        Reply::Snapshot(cells, winner_id, col_count, row_count) => {
            assert_eq!((cells, winner_id, col_count, row_count), (vec![0, 1, 0, 0], None, 4, 1));
        }
        other => panic!("a snapshot was answered with {:?}", other),
    }
    assert_eq!(actor.players_joined(), 2);
}

#[test]
fn requests_apply_in_the_order_they_arrive() {
    let moves = [(0u64, 1u64), (0, 2), (1, 1), (1, 2), (0, 1), (3, 2), (2, 1), (2, 2)];
    let mut by_handle = GameActor::new().handle(Action::Join).0.handle(Action::Join).0;
    let mut by_call = GameActor::new().join().0.join().0;
    for (column, player_id) in moves {
        by_handle = by_handle.handle(Action::PlayCoin(column, player_id)).0;
        by_call = by_call.play_coin(player_id, column).0;
        assert_eq!(by_handle.snapshot(), by_call.snapshot());
    }
    // the last orange piece joins (0,1), (1,1) and (3,0): four cells on four columns
    assert_eq!(
        by_call.snapshot(),
        (vec![2, 1, 2, 2, 1, 0, 2, 1, 0, 1, 0, 0], Some(2), 4, 3)
    );
}

#[test]
fn served_snapshot_comes_back_from_its_frame() {
    let (actor, blue, _) = join(GameActor::new());
    let (actor, orange, _) = join(actor);
    let (actor, _) = play(actor, blue, 1);
    let (actor, _) = play(actor, orange, 1);
    let (actor, _) = play(actor, blue, 2);
    let (mut cells, winner_id, col_count, row_count) = actor.snapshot();
    let frame = View::serialize(View::Snapshot(SnapshotViewData {
        snapshot: &mut cells,
        winner_id,
        col_count,
        row_count,
    }));
    let decoded = decode_snapshot(&frame).unwrap();
    assert_eq!(decoded.winner_id, None);
    let blue_piece = Coin { color: Color::Blue, group: 0 };
    let orange_piece = Coin { color: Color::Orange, group: 0 };
    assert_eq!(
        decoded.coins,
        vec![vec![], vec![blue_piece, orange_piece], vec![blue_piece], vec![]]
    );
}

#[test]
fn handle_play_coin_plays_the_players_color() {
    let (mut game, mut coins, mut groups) = create_game();
    let purple = Player::purple(8);
    handle_play_coin(&mut game, &mut coins, &mut groups, &purple, 2).unwrap();
    assert_eq!(coins[2], vec![Coin { color: Color::Purple, group: 0 }]);
    assert_eq!(groups[&0], vec![(2, 0)]);
    let refused = handle_play_coin(&mut game, &mut coins, &mut groups, &purple, 4);
    assert!(matches!(refused, Err(GameError::ColumnOutOfBounds)));
    for column in [1u64, 3, 0] {
        handle_play_coin(&mut game, &mut coins, &mut groups, &purple, column).unwrap();
    }
    assert_eq!(game.winner_id, Some(8));
    let refused = handle_play_coin(&mut game, &mut coins, &mut groups, &purple, 9);
    assert!(matches!(refused, Err(GameError::CantPlayCoinInEndedGame)));
}

#[test]
fn screen_numbers_start_at_one() {
    assert_eq!(column_of_choice(0), None);
    assert_eq!(column_of_choice(1), Some(0));
    assert_eq!(column_of_choice(4), Some(3));
    assert_eq!(column_of_choice(u64::MAX), Some(u64::MAX - 1));
}

#[test]
fn local_round_is_a_move_and_a_reply() {
    let local = LocalGame::new();
    assert!(!local.is_over());
    let (local, turn) = local.play_first(0);
    assert!(matches!(turn, Turn::Played));
    assert_eq!(local.coins()[0], vec![Coin { color: Color::Orange, group: 0 }]);
    let local = local.play_second();
    assert_eq!(local.coins()[1], vec![Coin { color: Color::Blue, group: 1 }]);
    assert_eq!(local.game().winner_id, None);
}

#[test]
fn local_input_beyond_the_board_is_passed_over_or_refused() {
    let local = LocalGame::new();
    let (local, turn) = local.play_first(5);
    assert!(matches!(turn, Turn::Skipped));
    let (local, turn) = local.play_first(u64::MAX);
    assert!(matches!(turn, Turn::Skipped));
    let (local, turn) = local.play_first(4);
    assert!(matches!(turn, Turn::Refused(GameError::ColumnOutOfBounds)));
    assert_eq!(local.coins(), &vec![Vec::<Coin>::new(); 4]);
}

#[test]
fn local_game_ends_with_a_winner() {
    let mut local = LocalGame::new();
    // blue answers in column 1 every time: its fourth piece there wins
    for (round, input) in [3u64, 3, 3, 0].into_iter().enumerate() {
        assert!(!local.is_over());
        let (next, turn) = local.play_first(input);
        assert!(matches!(turn, Turn::Played));
        local = next.play_second();
        assert_eq!(local.coins()[1].len(), round + 1);
    }
    assert!(local.is_over());
    assert_eq!(local.game().winner_id, Some(2));
    let before = local.coins().clone();
    let (local, turn) = local.play_first(0);
    assert!(matches!(turn, Turn::Refused(GameError::CantPlayCoinInEndedGame)));
    let local = local.play_second();
    assert_eq!(local.coins(), &before);
}

#[test]
fn session_greets_then_relays_moves_until_the_client_closes() {
    let session = Session::start();
    assert_eq!(session, Session::Connected);

    let (session, output) = session.step(Event::Opened).unwrap();
    assert_eq!(session, Session::Joining);
    assert!(matches!(output, Output::Register));

    let (session, output) = session.step(Event::Joined(7, Color::Blue)).unwrap();
    assert_eq!(session, Session::Syncing(7));
    match output {
        Output::Greet(frame) => assert_eq!(frame, vec![0, 0, 0, 0, 0, 0, 0, 0, 7, 2]),
        other => panic!("the seat was answered with {:?}", other),
    }

    let (session, output) = session.step(Event::Snapshot(vec![], None, 4, 0)).unwrap();
    assert_eq!(session, Session::Reading(7));
    match output {
        Output::Send(frame) => {
            assert_eq!(frame.len(), 25);
            assert_eq!(frame[0], 1);
            assert_eq!(frame[16], 4);
        }
        other => panic!("the first snapshot was answered with {:?}", other),
    }

    let mut buffer = Command::PlayCoin(3).serialize();
    buffer.resize(255, 0);
    let (session, output) = session.step(Event::Read(buffer)).unwrap();
    assert_eq!(session, Session::Relaying(7));
    assert!(matches!(output, Output::Play(3, 7)));

    let (session, output) = session.step(Event::Snapshot(vec![0, 0, 0, 2], None, 4, 1)).unwrap();
    assert_eq!(session, Session::Reading(7));
    match output {
        Output::Broadcast(frame) => {
            assert_eq!(frame, encode_snapshot(vec![0, 0, 0, 2], None, 4, 1));
            assert_eq!(&frame[25..], &[0, 0, 0, 2]);
        }
        other => panic!("the snapshot of a move was answered with {:?}", other),
    }

    let (session, output) = session.step(Event::Read(vec![])).unwrap();
    assert_eq!(session, Session::Closed);
    assert!(matches!(output, Output::Stop));
}

#[test]
fn session_fails_on_bytes_that_are_no_command() {
    let reading = Session::Reading(1);
    for bytes in [vec![0u8; 255], vec![3, 0, 0, 0, 0, 0, 0, 0, 0], vec![2, 0, 0]] {
        assert!(matches!(reading.step(Event::Read(bytes)), Err(SessionError::InvalidCommand)));
    }
}

#[test]
fn session_fails_on_what_it_does_not_wait_for() {
    let snapshot = || Event::Snapshot(vec![], None, 4, 0);
    let joined = || Event::Joined(1, Color::Blue);
    let read = || Event::Read(vec![]);
    assert!(matches!(Session::Connected.step(joined()), Err(SessionError::OutOfTurn)));
    assert!(matches!(Session::Connected.step(read()), Err(SessionError::OutOfTurn)));
    assert!(matches!(Session::Joining.step(Event::Opened), Err(SessionError::OutOfTurn)));
    assert!(matches!(Session::Reading(1).step(Event::Opened), Err(SessionError::OutOfTurn)));
    assert!(matches!(Session::Joining.step(snapshot()), Err(SessionError::OutOfTurn)));
    assert!(matches!(Session::Joining.step(read()), Err(SessionError::OutOfTurn)));
    assert!(matches!(Session::Syncing(1).step(joined()), Err(SessionError::OutOfTurn)));
    assert!(matches!(Session::Syncing(1).step(read()), Err(SessionError::OutOfTurn)));
    assert!(matches!(Session::Reading(1).step(snapshot()), Err(SessionError::OutOfTurn)));
    assert!(matches!(Session::Reading(1).step(joined()), Err(SessionError::OutOfTurn)));
    assert!(matches!(Session::Relaying(1).step(read()), Err(SessionError::OutOfTurn)));
    assert!(matches!(Session::Relaying(1).step(joined()), Err(SessionError::OutOfTurn)));
    assert!(matches!(Session::Closed.step(read()), Err(SessionError::OutOfTurn)));
    assert!(matches!(Session::Closed.step(snapshot()), Err(SessionError::OutOfTurn)));
    assert!(matches!(Session::Closed.step(joined()), Err(SessionError::OutOfTurn)));
}

#[test]
fn read_buffer_is_255_zero_bytes() {
    assert_eq!(read_buffer(), vec![0u8; 255]);
}

#[test]
fn read_hands_on_the_whole_buffer_or_nothing() {
    assert_eq!(payload_of_read(vec![2, 0, 0, 9], Some(2)), vec![2, 0, 0, 9]);
    assert_eq!(payload_of_read(vec![2, 0, 0, 9], Some(4)), vec![2, 0, 0, 9]);
    assert_eq!(payload_of_read(vec![2, 0, 0, 9], Some(0)), Vec::<u8>::new());
    assert_eq!(payload_of_read(vec![2, 0, 0, 9], None), Vec::<u8>::new());
}

#[test]
fn two_sessions_share_one_game() {
    // what the server does, without the network: sessions and game exchange events and requests
    let mut actor = GameActor::new();
    let mut sessions = Vec::new();
    let mut seats = Vec::new();
    for _ in 0..2 {
        let (next, reply) = actor.handle(Action::Join);
        actor = next;
        let (id, color) = match reply {
            Reply::Joined(id, color) => (id, color),
            other => panic!("a seat was answered with {:?}", other),
        };
        let (session, _) = Session::start().step(Event::Opened).unwrap();
        let (session, greeting) = session.step(Event::Joined(id, color)).unwrap();
        match greeting {
            Output::Greet(frame) => {
                let player = decode_joined(&frame).unwrap();
                assert_eq!((player.id, player.color), (id, color));
            }
            other => panic!("a seat was answered with {:?}", other),
        }
        let (cells, winner_id, cols, rows) = actor.snapshot();
        let (session, _) = session.step(Event::Snapshot(cells, winner_id, cols, rows)).unwrap();
        sessions.push(session);
        seats.push(id);
    }
    assert_eq!(seats, vec![1, 2]);

    let mut last_frame = Vec::new();
    for (turn, column) in [0u64, 0, 1, 1, 2, 2, 3].into_iter().enumerate() {
        let who = turn % 2;
        let read = Event::Read(payload_of_read(Command::PlayCoin(column).serialize(), Some(9)));
        let (session, output) = sessions[who].step(read).unwrap();
        let (column, player_id) = match output {
            Output::Play(column, player_id) => (column, player_id),
            other => panic!("a move was answered with {:?}", other),
        };
        assert_eq!(player_id, seats[who]);
        assert!(actor.has_player(player_id));
        actor = actor.handle(Action::PlayCoin(column, player_id)).0;
        let (cells, winner_id, cols, rows) = actor.snapshot();
        let (session, output) = session.step(Event::Snapshot(cells, winner_id, cols, rows)).unwrap();
        sessions[who] = session;
        last_frame = match output {
            Output::Broadcast(frame) => frame,
            other => panic!("a snapshot was answered with {:?}", other),
        };
    }
    let shown = decode_snapshot(&last_frame).unwrap();
    assert_eq!(shown.winner_id, Some(1));
    let blue = Coin { color: Color::Blue, group: 0 };
    let orange = Coin { color: Color::Orange, group: 0 };
    assert_eq!(
        shown.coins,
        vec![vec![blue, orange], vec![blue, orange], vec![blue, orange], vec![blue]]
    );
}
