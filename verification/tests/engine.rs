use connect4000::{
    debug_render_game, find_connected_groups, Coin, Coins, Color, Game, GameError, GroupStore,
    Groups, Player,
};
use std::collections::{HashMap, HashSet};

fn drop_piece(
    game: &mut Game,
    coins: &mut Coins,
    groups: &mut Groups,
    player: &Player,
    column: u64,
) -> Result<Option<u64>, GameError> {
    let mut coin = player.coin(groups.len() as u64);
    game.play_coin(player.id, column, &mut coin, groups, coins)
}

fn new_board(columns: u64) -> (Game, Coins, Groups) {
    let mut game = Game::default();
    let coins = game.set_columns(columns).unwrap();
    (game, coins, HashMap::new())
}

#[test]
fn test_check_wins_horizontal() {
    let mut game = Game::default();
    let player = Player::red(1);

    let column_count = 8;
    let mut coins = game.set_columns(column_count).unwrap();

    let mut groups = HashMap::new();

    for column_index in 0..column_count {
        let mut coin = player.coin(groups.len() as u64);
        let winner_id = game
            .play_coin(player.id, column_index, &mut coin, &mut groups, &mut coins)
            .unwrap();

        let has_winner = winner_id.is_some();

        if column_index == column_count - 1 {
            assert!(has_winner);
        } else {
            assert!(!has_winner);
        };
    }

    assert_eq!(debug_render_game(&coins).len(), 1);
}

#[test]
fn test_check_wins_vertical() {
    let mut game = Game::default();
    let player = Player::red(1);

    let column_count = 8;
    let mut coins = game.set_columns(column_count).unwrap();

    let mut groups = HashMap::new();

    for column_index in 0..column_count {
        let mut coin = player.coin(groups.len() as u64);
        let winner_id = game
            .play_coin(1, 0, &mut coin, &mut groups, &mut coins)
            .unwrap();

        let has_winner = winner_id.is_some();

        if column_index == column_count - 1 {
            assert!(has_winner);
        } else {
            assert!(!has_winner);
        };
    }

    assert_eq!(debug_render_game(&coins).len(), 8);
}

#[test]
fn test_check_wins_diagonal() {
    let mut game = Game::default();
    let player = Player::red(1);
    let orange_player = Player::orange(2);
    let purple_player = Player::purple(3);

    let column_count = 8;
    let mut coins = game.set_columns(column_count).unwrap();

    let mut groups = HashMap::new();

    for column_index in 0..(column_count - 1) {
        let mut coin = player.coin(groups.len() as u64);
        let fill_count = column_index;
        for _i in 0..fill_count {
            let mut other_player = orange_player.clone();
            if column_index % 2 == 0 {
                other_player = purple_player.clone();
            }
            let mut other_coin = other_player.coin(groups.len() as u64);
            let winner_id = game
                .play_coin(
                    other_player.id,
                    column_index,
                    &mut other_coin,
                    &mut groups,
                    &mut coins,
                )
                .unwrap();

            let has_winner = winner_id.is_some();

            debug_render_game(&coins);
            assert!(!has_winner);
        }

        let winner_id = game
            .play_coin(player.id, column_index, &mut coin, &mut groups, &mut coins)
            .unwrap();
        let has_winner = winner_id.is_some();
        debug_render_game(&coins);

        if column_index == column_count - 1 {
            assert!(has_winner);
        } else {
            assert!(!has_winner);
        };
    }
}

#[test]
fn set_columns_makes_empty_columns() {
    let mut game = Game::default();
    let coins = game.set_columns(5).unwrap();
    assert_eq!(coins.len(), 5);
    assert!(coins.iter().all(|column| column.is_empty()));
    assert!(game.winner_id.is_none());
    assert_eq!(game.set_columns(0).unwrap().len(), 0);
}

#[test]
fn row_wins_exactly_on_last_column() {
    for width in 1..=6u64 {
        let (mut game, mut coins, mut groups) = new_board(width);
        let player = Player::yellow(7);
        for column in 0..width {
            let winner = drop_piece(&mut game, &mut coins, &mut groups, &player, column).unwrap();
            if column + 1 == width {
                assert_eq!(winner, Some(7));
                assert_eq!(game.winner_id, Some(7));
            } else {
                assert_eq!(winner, None);
                assert_eq!(game.winner_id, None);
            }
        }
        assert_eq!(groups.len(), 1);
        let expected: Vec<(u64, u64)> = (0..width).map(|c| (c, 0)).collect();
        assert_eq!(groups[&0], expected);
    }
}

#[test]
fn stack_wins_exactly_on_width_th_piece() {
    for width in 1..=6u64 {
        let (mut game, mut coins, mut groups) = new_board(width);
        let player = Player::purple(3);
        let column = width - 1;
        for height in 0..width {
            let winner = drop_piece(&mut game, &mut coins, &mut groups, &player, column).unwrap();
            assert_eq!(winner.is_some(), height + 1 == width);
        }
        let expected: Vec<(u64, u64)> = (0..width).map(|r| (column, r)).collect();
        assert_eq!(groups[&0], expected);
        assert_eq!(coins[column as usize].len() as u64, width);
    }
}

fn staircase(width: u64, interrupt_at: Option<u64>) -> (Game, Vec<Option<u64>>) {
    let (mut game, mut coins, mut groups) = new_board(width);
    let red = Player::red(1);
    let orange = Player::orange(2);
    let purple = Player::purple(3);
    let mut outcomes = Vec::new();
    for column in 0..width {
        let filler = if column % 2 == 0 { purple } else { orange };
        for _ in 0..column {
            let winner = drop_piece(&mut game, &mut coins, &mut groups, &filler, column).unwrap();
            assert_eq!(winner, None);
        }
        let top = if interrupt_at == Some(column) { filler } else { red };
        outcomes.push(drop_piece(&mut game, &mut coins, &mut groups, &top, column).unwrap());
    }
    (game, outcomes)
}

#[test]
fn diagonal_wins_when_chain_reaches_width() {
    let (game, outcomes) = staircase(8, None);
    for (column, outcome) in outcomes.iter().enumerate() {
        if column == 7 {
            assert_eq!(*outcome, Some(1));
        } else {
            assert_eq!(*outcome, None);
        }
    }
    assert_eq!(game.winner_id, Some(1));
}

#[test]
fn interrupted_diagonal_does_not_win() {
    let (game, outcomes) = staircase(8, Some(3));
    assert!(outcomes.iter().all(|outcome| outcome.is_none()));
    assert_eq!(game.winner_id, None);
}

#[test]
fn crooked_group_wins_by_size_alone() {
    let (mut game, mut coins, mut groups) = new_board(3);
    let blue = Player::blue(4);
    assert_eq!(drop_piece(&mut game, &mut coins, &mut groups, &blue, 0).unwrap(), None);
    assert_eq!(drop_piece(&mut game, &mut coins, &mut groups, &blue, 1).unwrap(), None);
    assert_eq!(drop_piece(&mut game, &mut coins, &mut groups, &blue, 1).unwrap(), Some(4));
    assert_eq!(groups[&0], vec![(0, 0), (1, 0), (1, 1)]);
}

#[test]
fn group_below_width_never_wins() {
    let (mut game, mut coins, mut groups) = new_board(4);
    let blue = Player::blue(1);
    let red = Player::red(2);
    for column in [0u64, 1, 2] {
        assert_eq!(drop_piece(&mut game, &mut coins, &mut groups, &blue, column).unwrap(), None);
    }
    assert_eq!(drop_piece(&mut game, &mut coins, &mut groups, &red, 3).unwrap(), None);
    assert_eq!(groups[&0].len(), 3);
    assert_eq!(groups[&1], vec![(3, 0)]);
    assert_eq!(game.winner_id, None);
}

#[test]
fn no_move_after_a_winner() {
    let (mut game, mut coins, mut groups) = new_board(2);
    let red = Player::red(1);
    let blue = Player::blue(2);
    drop_piece(&mut game, &mut coins, &mut groups, &red, 0).unwrap();
    assert_eq!(drop_piece(&mut game, &mut coins, &mut groups, &red, 1).unwrap(), Some(1));
    let coins_before = coins.clone();
    let groups_before = groups.clone();
    for column in [0u64, 1, 2, 99] {
        for player in [red, blue] {
            let mut coin = player.coin(77);
            let refused = game.play_coin(player.id, column, &mut coin, &mut groups, &mut coins);
            assert!(matches!(refused, Err(GameError::CantPlayCoinInEndedGame)));
            assert_eq!(coin.group, 77);
            assert_eq!(coins, coins_before);
            assert_eq!(groups, groups_before);
            assert_eq!(game.winner_id, Some(1));
        }
    }
}

#[test]
fn column_beyond_the_board_is_refused() {
    let (mut game, mut coins, mut groups) = new_board(3);
    let red = Player::red(1);
    drop_piece(&mut game, &mut coins, &mut groups, &red, 1).unwrap();
    let coins_before = coins.clone();
    let groups_before = groups.clone();
    for column in [3u64, 4, u64::MAX] {
        let refused = drop_piece(&mut game, &mut coins, &mut groups, &red, column);
        assert!(matches!(refused, Err(GameError::ColumnOutOfBounds)));
        assert_eq!(coins, coins_before);
        assert_eq!(groups, groups_before);
        assert_eq!(game.winner_id, None);
    }
}

#[test]
fn coin_leaves_with_the_fresh_group_id() {
    let (mut game, mut coins, mut groups) = new_board(5);
    let red = Player::red(1);
    let blue = Player::blue(2);
    drop_piece(&mut game, &mut coins, &mut groups, &red, 0).unwrap();
    drop_piece(&mut game, &mut coins, &mut groups, &blue, 2).unwrap();
    let mut coin = red.coin(40);
    game.play_coin(1, 1, &mut coin, &mut groups, &mut coins).unwrap();
    assert_eq!(coin, Coin { color: Color::Red, group: 2 });
    assert_eq!(coins[1], vec![Coin { color: Color::Red, group: 0 }]);
    let mut coin = red.coin(40);
    let refused = game.play_coin(1, 9, &mut coin, &mut groups, &mut coins);
    assert!(refused.is_err());
    assert_eq!(coin.group, 2);
}

#[test]
fn piece_between_three_groups_merges_them_into_the_smallest() {
    let (mut game, mut coins, mut groups) = new_board(5);
    let red = Player::red(1);
    let blue = Player::blue(2);
    for (player, column) in [(red, 2u64), (blue, 1), (blue, 1), (red, 1), (blue, 3), (blue, 3), (red, 3)] {
        assert_eq!(drop_piece(&mut game, &mut coins, &mut groups, &player, column).unwrap(), None);
    }
    assert_eq!(groups.len(), 5);
    assert_eq!(groups[&0], vec![(2, 0)]);
    assert_eq!(groups[&2], vec![(1, 2)]);
    assert_eq!(groups[&4], vec![(3, 2)]);

    assert_eq!(drop_piece(&mut game, &mut coins, &mut groups, &red, 2).unwrap(), None);
    assert_eq!(groups[&0], vec![(2, 0), (1, 2), (3, 2), (2, 1)]);
    assert_eq!(coins[2][1], Coin { color: Color::Red, group: 0 });
    // the absorbed groups stay in the table, and their pieces keep their ids
    assert_eq!(groups.len(), 5);
    assert_eq!(groups[&2], vec![(1, 2)]);
    assert_eq!(groups[&4], vec![(3, 2)]);
    assert_eq!(coins[1][2].group, 2);
    assert_eq!(coins[3][2].group, 4);
    assert_eq!(groups[&1], vec![(1, 0), (1, 1)]);
    assert_eq!(groups[&3], vec![(3, 0), (3, 1)]);
}

#[test]
fn merged_size_decides_the_win() {
    let (mut game, mut coins, mut groups) = new_board(4);
    let red = Player::red(6);
    let blue = Player::blue(2);
    for (player, column) in [(red, 2u64), (blue, 1), (blue, 1), (red, 1), (blue, 3), (blue, 3), (red, 3)] {
        assert_eq!(drop_piece(&mut game, &mut coins, &mut groups, &player, column).unwrap(), None);
    }
    assert_eq!(drop_piece(&mut game, &mut coins, &mut groups, &red, 2).unwrap(), Some(6));
    assert_eq!(groups[&0].len(), 4);
}

#[test]
fn merge_with_a_missing_group_is_refused_and_changes_nothing() {
    let mut game = Game::default();
    let mut coins: Coins = vec![
        vec![Coin { color: Color::Red, group: 5 }],
        vec![],
        vec![Coin { color: Color::Red, group: 9 }],
    ];
    let mut groups: Groups = HashMap::new();
    groups.insert(5, vec![(0, 0)]);
    let coins_before = coins.clone();
    let groups_before = groups.clone();
    let refused = drop_piece(&mut game, &mut coins, &mut groups, &Player::red(1), 1);
    assert!(matches!(refused, Err(GameError::CannotFindMergeTarget)));
    assert_eq!(coins, coins_before);
    assert_eq!(groups, groups_before);
    assert_eq!(game.winner_id, None);

    // a single touched group that the table lacks is created
    let winner = drop_piece(&mut game, &mut coins, &mut groups, &Player::red(1), 2).unwrap();
    assert_eq!(winner, None);
    assert_eq!(groups[&9], vec![(2, 1)]);
    assert_eq!(coins[2][1].group, 9);
}

#[test]
fn neighbors_of_other_colors_start_a_new_group() {
    let (mut game, mut coins, mut groups) = new_board(4);
    drop_piece(&mut game, &mut coins, &mut groups, &Player::red(1), 0).unwrap();
    drop_piece(&mut game, &mut coins, &mut groups, &Player::blue(2), 1).unwrap();
    drop_piece(&mut game, &mut coins, &mut groups, &Player::blue(2), 0).unwrap();
    assert_eq!(coins[0], vec![Coin { color: Color::Red, group: 0 }, Coin { color: Color::Blue, group: 1 }]);
    assert_eq!(coins[1], vec![Coin { color: Color::Blue, group: 1 }]);
    assert_eq!(groups[&1], vec![(1, 0), (0, 1)]);
}

#[test]
fn connected_groups_looks_in_all_eight_directions() {
    let piece = |color: Color, group: u64| Coin { color, group };
    let mut coins: Coins = vec![
        vec![piece(Color::Red, 10), piece(Color::Red, 11), piece(Color::Red, 12)],
        vec![piece(Color::Red, 13), piece(Color::Blue, 99), piece(Color::Red, 14)],
        vec![piece(Color::Red, 15), piece(Color::Red, 16), piece(Color::Red, 17)],
        vec![piece(Color::Red, 50)],
    ];
    let before = coins.clone();
    let found = find_connected_groups(&1, &1, &Color::Red, &mut coins).unwrap();
    let expected: HashSet<u64> = [10, 11, 12, 13, 14, 15, 16, 17].into_iter().collect();
    assert_eq!(found, expected);
    assert_eq!(coins, before);

    let found = find_connected_groups(&1, &1, &Color::Blue, &mut coins).unwrap();
    assert!(found.is_empty());

    let found = find_connected_groups(&0, &0, &Color::Red, &mut coins).unwrap();
    let expected: HashSet<u64> = [11, 13].into_iter().collect();
    assert_eq!(found, expected);

    let found = find_connected_groups(&3, &1, &Color::Red, &mut coins).unwrap();
    let expected: HashSet<u64> = [15, 16, 17, 50].into_iter().collect();
    assert_eq!(found, expected);

    let found = find_connected_groups(&u64::MAX, &u64::MAX, &Color::Red, &mut coins).unwrap();
    assert!(found.is_empty());
    let found = find_connected_groups(&4, &0, &Color::Red, &mut coins).unwrap();
    let expected: HashSet<u64> = [50].into_iter().collect();
    assert_eq!(found, expected);
}

#[test]
fn group_store_add_appends_and_counts() {
    let mut groups: Groups = HashMap::new();
    assert_eq!(GroupStore::add(&mut groups, &3, &(1, 2)).unwrap(), 1);
    assert_eq!(GroupStore::add(&mut groups, &3, &(4, 5)).unwrap(), 2);
    assert_eq!(GroupStore::add(&mut groups, &0, &(7, 7)).unwrap(), 1);
    assert_eq!(groups[&3], vec![(1, 2), (4, 5)]);
    assert_eq!(groups[&0], vec![(7, 7)]);
    assert_eq!(groups.len(), 2);
}

#[test]
fn group_store_merge_appends_source_to_target() {
    let mut groups: Groups = HashMap::new();
    groups.insert(1, vec![(0, 0), (0, 1)]);
    groups.insert(2, vec![(5, 5)]);
    GroupStore::merge(&mut groups, &1, &2).unwrap();
    assert_eq!(groups[&2], vec![(5, 5), (0, 0), (0, 1)]);
    assert_eq!(groups[&1], vec![(0, 0), (0, 1)]);
    assert_eq!(groups.len(), 2);
}

#[test]
fn group_store_merge_needs_two_groups_of_the_table() {
    let mut groups: Groups = HashMap::new();
    groups.insert(1, vec![(0, 0)]);
    let before = groups.clone();
    assert!(matches!(GroupStore::merge(&mut groups, &1, &2), Err(GameError::CannotFindMergeTarget)));
    assert!(matches!(GroupStore::merge(&mut groups, &2, &1), Err(GameError::CannotFindMergeTarget)));
    assert!(matches!(GroupStore::merge(&mut groups, &1, &1), Err(GameError::CannotFindMergeTarget)));
    assert_eq!(groups, before);
}

#[test]
fn players_carry_id_and_color() {
    let cases = [
        (Player::orange(1), Color::Orange),
        (Player::blue(2), Color::Blue),
        (Player::purple(3), Color::Purple),
        (Player::red(4), Color::Red),
        (Player::yellow(5), Color::Yellow),
        (Player::from_color(6, Color::Red), Color::Red),
    ];
    for (index, (player, color)) in cases.iter().enumerate() {
        assert_eq!(player.id, index as u64 + 1);
        assert_eq!(player.color, *color);
        assert_eq!(player.coin(12), Coin { color: *color, group: 12 });
        assert_eq!(Coin::from_player(player, 3), Coin { color: *color, group: 3 });
    }
}

#[test]
fn merged_group_counts_each_piece_once() {
    let (mut game, mut coins, mut groups) = new_board(4);
    let red = Player::red(1);
    assert_eq!(drop_piece(&mut game, &mut coins, &mut groups, &red, 0).unwrap(), None);
    assert_eq!(drop_piece(&mut game, &mut coins, &mut groups, &red, 2).unwrap(), None);
    assert_eq!(groups[&0], vec![(0, 0)]);
    assert_eq!(groups[&1], vec![(2, 0)]);
    // the piece between them joins both: group 1 goes into group 0 and stays in the table
    assert_eq!(drop_piece(&mut game, &mut coins, &mut groups, &red, 1).unwrap(), None);
    assert_eq!(groups[&0], vec![(0, 0), (2, 0), (1, 0)]);
    assert_eq!(groups[&1], vec![(2, 0)]);
    assert_eq!(groups.len(), 2);
    // three pieces are connected and three are counted: the fourth one wins
    assert_eq!(drop_piece(&mut game, &mut coins, &mut groups, &red, 0).unwrap(), Some(1));
    assert_eq!(groups[&0], vec![(0, 0), (2, 0), (1, 0), (0, 1)]);
    assert_eq!(groups[&1], vec![(2, 0)]);
}

#[test]
fn fresh_group_takes_the_number_of_groups_as_id() {
    let (mut game, mut coins, mut groups) = new_board(9);
    let colors = [Player::red(1), Player::blue(2), Player::yellow(3), Player::purple(4)];
    for (index, player) in colors.iter().enumerate() {
        drop_piece(&mut game, &mut coins, &mut groups, player, index as u64).unwrap();
        assert_eq!(groups.len(), index + 1);
        assert_eq!(coins[index][0].group, index as u64);
        assert_eq!(groups[&(index as u64)], vec![(index as u64, 0)]);
    }
}
