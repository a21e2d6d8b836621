//! The rules of a move: where a piece lands, which groups it joins, and
//! whether it wins.

use crate::board::{
    adjacent, board_of, connected_groups, empty_board, find_connected_groups, group_at,
    lemma_groups_by_direction, occupied, Coins, Position,
};
use crate::error::GameError;
use crate::groups::{
    cells_of, table_of, with_cell, with_merged, GroupStore, Groups,
};
use crate::order::{
    ascending, lemma_ascending, lemma_ascending_of_none, lemma_ascending_of_one, sorted_ids,
    strictly_increasing,
};
use crate::piece::{Coin, Color};
use vstd::prelude::*;

verus! {

broadcast use vstd::std_specs::hash::group_hash_axioms;

/// Whether the table holds every id of the list.
fn all_present(groups: &Groups, ids: &Vec<u64>) -> (present: bool)
    ensures
        present <==> forall|i: int| 0 <= i < ids@.len() ==> table_of(groups).contains_key(ids@[i]),
{
    let mut i: usize = 0;
    while i < ids.len()
        invariant
            i <= ids.len(),
            forall|k: int| 0 <= k < i ==> table_of(groups).contains_key(ids@[k]),
        decreases ids.len() - i,
    {
        if !groups.contains_key(&ids[i]) {
            return false;
        }
        i += 1;
    }
    true
}

/// The table after the lists of the groups in `sources`, one after the
/// other, were appended to the list of `target`.
pub open spec fn absorbed(table: Map<u64, Seq<Position>>, sources: Seq<u64>, target: u64) -> Map<
    u64,
    Seq<Position>,
>
    decreases sources.len(),
{
    if sources.len() == 0 {
        table
    } else {
        with_merged(absorbed(table, sources.drop_last(), target), sources.last(), target)
    }
}

/// The row at which a piece dropped into column `col` comes to rest.
pub open spec fn landing_row(board: Seq<Seq<Coin>>, col: int) -> int {
    board[col].len() as int
}

/// The ids, in ascending order, of the groups of `color` that touch the cell
/// where a piece dropped into column `col` lands.
pub open spec fn touched_groups(board: Seq<Seq<Coin>>, col: int, color: Color) -> Seq<u64> {
    ascending(connected_groups(board, col, landing_row(board, col), color))
}

/// The group that a piece of `color` dropped into column `col` joins: the
/// smallest of the groups it touches, or, where it touches none, a new group
/// whose id is the number of groups in the table.
pub open spec fn joined_group(
    board: Seq<Seq<Coin>>,
    table: Map<u64, Seq<Position>>,
    col: int,
    color: Color,
) -> u64 {
    let touched = touched_groups(board, col, color);
    if touched.len() == 0 {
        table.len() as u64
    } else {
        touched[0]
    }
}

/// Whether the move cannot be carried out because it touches several groups
/// and the table lacks one of them.
pub open spec fn merge_blocked(
    board: Seq<Seq<Coin>>,
    table: Map<u64, Seq<Position>>,
    col: int,
    color: Color,
) -> bool {
    let touched = touched_groups(board, col, color);
    touched.len() >= 2 && exists|i: int| 0 <= i < touched.len() && !table.contains_key(touched[i])
}

/// Why a move into column `column_index` is refused, if it is: the game has
/// a winner; or else the column does not exist; or else the move is held up
/// by a missing group.
pub open spec fn move_refusal(
    winner_id: Option<u64>,
    board: Seq<Seq<Coin>>,
    table: Map<u64, Seq<Position>>,
    column_index: u64,
    color: Color,
) -> Option<GameError> {
    if winner_id is Some {
        Some(GameError::CantPlayCoinInEndedGame)
    } else if column_index >= board.len() {
        Some(GameError::ColumnOutOfBounds)
    } else if merge_blocked(board, table, column_index as int, color) {
        Some(GameError::CannotFindMergeTarget)
    } else {
        None
    }
}

/// The board after a piece of `color` was dropped into column `col`.
pub open spec fn board_after(
    board: Seq<Seq<Coin>>,
    table: Map<u64, Seq<Position>>,
    col: int,
    color: Color,
) -> Seq<Seq<Coin>> {
    board.update(
        col,
        board[col].push(Coin { color, group: joined_group(board, table, col, color) }),
    )
}

/// The table after a piece of `color` was dropped into column `col`: every
/// other touched group, in ascending order, is appended to the joined group,
/// and then the new cell.
pub open spec fn table_after(
    board: Seq<Seq<Coin>>,
    table: Map<u64, Seq<Position>>,
    col: int,
    color: Color,
) -> Map<u64, Seq<Position>> {
    let touched = touched_groups(board, col, color);
    let target = joined_group(board, table, col, color);
    let cell = (col as u64, landing_row(board, col) as u64);
    if touched.len() == 0 {
        with_cell(table, target, cell)
    } else {
        with_cell(absorbed(table, touched.drop_first(), target), target, cell)
    }
}

/// The size of the joined group once the piece is part of it.
pub open spec fn joined_size(
    board: Seq<Seq<Coin>>,
    table: Map<u64, Seq<Position>>,
    col: int,
    color: Color,
) -> nat {
    table_after(board, table, col, color)[joined_group(board, table, col, color)].len()
}

/// Whether the move wins: the joined group then has at least as many cells
/// as the board has columns.
pub open spec fn wins(
    board: Seq<Seq<Coin>>,
    table: Map<u64, Seq<Position>>,
    col: int,
    color: Color,
) -> bool {
    joined_size(board, table, col, color) >= board.len()
}

/// What holds of a board and its table throughout a game: the group ids in
/// use are the numbers below the number of groups, and every piece is listed
/// under its own group id.
pub open spec fn table_sound(board: Seq<Seq<Coin>>, table: Map<u64, Seq<Position>>) -> bool {
    &&& table.dom().finite()
    &&& forall|id: u64| table.contains_key(id) <==> id < table.len()
    &&& forall|c: int, r: int| #[trigger]
        occupied(board, c, r) ==> table.contains_key(board[c][r].group)
            && table[board[c][r].group].contains((c as u64, r as u64))
}

/// Absorbing groups of the table into one of its groups adds no group and
/// removes none, changes no list but that of the target, and takes no cell
/// away from any list.
pub proof fn lemma_absorbed(table: Map<u64, Seq<Position>>, sources: Seq<u64>, target: u64)
    requires
        table.contains_key(target),
        forall|i: int| 0 <= i < sources.len() ==> table.contains_key(sources[i]),
    ensures
        absorbed(table, sources, target).dom() == table.dom(),
        forall|id: u64|
            id != target ==> #[trigger] absorbed(table, sources, target)[id] == table[id],
        forall|cell: Position|
            table[target].contains(cell) ==> absorbed(table, sources, target)[target].contains(
                cell,
            ),
    decreases sources.len(),
{
    if sources.len() > 0 {
        let front = sources.drop_last();
        assert forall|i: int| 0 <= i < front.len() implies table.contains_key(front[i]) by {
            assert(front[i] == sources[i]);
        }
        lemma_absorbed(table, front, target);
        let before = absorbed(table, front, target);
        let after = absorbed(table, sources, target);
        assert(before.dom().contains(target));
        assert(after.dom() =~= table.dom());
        assert forall|cell: Position| table[target].contains(cell) implies after[target].contains(
            cell,
        ) by {
            let k = choose|k: int| 0 <= k < before[target].len() && before[target][k] == cell;
            assert(after[target][k] == cell);
        }
    }
}

/// On a sound board and table, the groups that a piece touches are groups
/// of the table. They are at most eight, and no two of them are the same.
pub proof fn lemma_touched_groups_exist(
    board: Seq<Seq<Coin>>,
    table: Map<u64, Seq<Position>>,
    col: int,
    color: Color,
)
    requires
        table_sound(board, table),
    ensures
        strictly_increasing(touched_groups(board, col, color)),
        touched_groups(board, col, color).len() <= 8,
        forall|i: int|
            0 <= i < touched_groups(board, col, color).len() ==> table.contains_key(
                #[trigger] touched_groups(board, col, color)[i],
            ),
{
    let row = landing_row(board, col);
    let touched = touched_groups(board, col, color);
    lemma_groups_by_direction(board, col, row, color);
    lemma_ascending(connected_groups(board, col, row, color));
    assert forall|i: int| 0 <= i < touched.len() implies table.contains_key(touched[i]) by {
        assert(touched.to_set().contains(touched[i]));
        let (c, r) = choose|c: int, r: int|
            #[trigger] adjacent(col, row, c, r) && group_at(board, c, r, color) == Some(
                touched[i],
            );
        assert(occupied(board, c, r));
    }
}

/// The number of cells that the table lists under the ids of `ids`, taken
/// together.
pub open spec fn cells_in(table: Map<u64, Seq<Position>>, ids: Seq<u64>) -> nat
    decreases ids.len(),
{
    if ids.len() == 0 {
        0
    } else {
        cells_in(table, ids.drop_last()) + table[ids.last()].len()
    }
}

/// A group that absorbs other groups has afterwards as many cells as it and
/// they had together.
pub proof fn lemma_absorbed_size(table: Map<u64, Seq<Position>>, sources: Seq<u64>, target: u64)
    requires
        table.contains_key(target),
        forall|i: int| 0 <= i < sources.len() ==> table.contains_key(sources[i]) && sources[i]
            != target,
    ensures
        absorbed(table, sources, target)[target].len() == table[target].len() + cells_in(
            table,
            sources,
        ),
    decreases sources.len(),
{
    if sources.len() > 0 {
        let front = sources.drop_last();
        assert forall|i: int| 0 <= i < front.len() implies table.contains_key(front[i])
            && front[i] != target by {
            assert(front[i] == sources[i]);
        }
        lemma_absorbed_size(table, front, target);
        lemma_absorbed(table, front, target);
        assert(absorbed(table, front, target)[sources.last()] == table[sources.last()]);
    }
}

/// The size that decides a win: the piece's group has afterwards the cells
/// of all the groups that the piece touches, and the piece's own cell.
pub proof fn lemma_joined_size(
    board: Seq<Seq<Coin>>,
    table: Map<u64, Seq<Position>>,
    col: int,
    color: Color,
)
    requires
        table_sound(board, table),
        0 <= col < board.len(),
        touched_groups(board, col, color).len() > 0,
    ensures
        joined_size(board, table, col, color) == cells_in(
            table,
            touched_groups(board, col, color),
        ) + 1,
{
    let row = landing_row(board, col);
    let touched = touched_groups(board, col, color);
    let target = touched[0];
    let sources = touched.drop_first();
    lemma_touched_groups_exist(board, table, col, color);
    assert forall|i: int| 0 <= i < sources.len() implies table.contains_key(sources[i])
        && sources[i] != target by {
        assert(sources[i] == touched[i + 1]);
    }
    lemma_absorbed_size(table, sources, target);
    lemma_cells_in_from_first(table, touched);
}

/// The cells under a list of ids are those under the first id and those
/// under the rest.
pub proof fn lemma_cells_in_from_first(table: Map<u64, Seq<Position>>, ids: Seq<u64>)
    requires
        ids.len() > 0,
    ensures
        cells_in(table, ids) == table[ids[0]].len() + cells_in(table, ids.drop_first()),
    decreases ids.len(),
{
    if ids.len() == 1 {
        assert(ids.drop_last() =~= Seq::<u64>::empty());
        assert(ids.drop_first() =~= Seq::<u64>::empty());
    } else {
        lemma_cells_in_from_first(table, ids.drop_last());
        assert(ids.drop_last().drop_first() =~= ids.drop_first().drop_last());
    }
}

/// A move on a sound board and table is never held up by a missing group,
/// and leaves board and table sound.
pub proof fn lemma_move_keeps_table_sound(
    board: Seq<Seq<Coin>>,
    table: Map<u64, Seq<Position>>,
    col: int,
    color: Color,
)
    requires
        table_sound(board, table),
        0 <= col < board.len(),
    ensures
        !merge_blocked(board, table, col, color),
        table_sound(board_after(board, table, col, color), table_after(board, table, col, color)),
{
    let row = landing_row(board, col);
    let touched = touched_groups(board, col, color);
    let target = joined_group(board, table, col, color);
    let cell = (col as u64, row as u64);
    lemma_touched_groups_exist(board, table, col, color);
    let merged = if touched.len() == 0 {
        table
    } else {
        absorbed(table, touched.drop_first(), target)
    };
    if touched.len() > 0 {
        let sources = touched.drop_first();
        assert forall|i: int| 0 <= i < sources.len() implies table.contains_key(sources[i]) by {
            assert(sources[i] == touched[i + 1]);
        }
        lemma_absorbed(table, sources, target);
    }
    assert(merged.dom() == table.dom());
    let next_board = board_after(board, table, col, color);
    let next_table = table_after(board, table, col, color);
    assert(next_table == with_cell(merged, target, cell));
    assert(next_table.dom() =~= table.dom().insert(target));
    assert(next_table[target].last() == cell);
    assert forall|c: int, r: int| #[trigger] occupied(next_board, c, r) implies next_table.contains_key(
        next_board[c][r].group,
    ) && next_table[next_board[c][r].group].contains((c as u64, r as u64)) by {
        if c == col && r == row {
            assert(next_board[c][r].group == target);
            assert(next_table[target][next_table[target].len() - 1] == cell);
        } else {
            assert(occupied(board, c, r));
            assert(next_board[c][r] == board[c][r]);
            let id = board[c][r].group;
            let spot = (c as u64, r as u64);
            assert(table[id].contains(spot));
            if id == target {
                assert(merged[target].contains(spot));
                let k = choose|k: int| 0 <= k < merged[target].len() && merged[target][k] == spot;
                assert(next_table[target][k] == spot);
            } else {
                assert(next_table[id] == table[id]);
            }
        }
    }
    if table.contains_key(target) {
        assert(next_table.dom() =~= table.dom());
    } else {
        assert(touched.len() == 0);
        assert(target == table.len());
    }
}

/// A piece that lands where no piece of its color touches it starts a group
/// of its own, whatever other colors lie around it. The group has one cell,
/// so the move wins only on a board of a single column.
pub proof fn lemma_lone_piece_starts_group(
    board: Seq<Seq<Coin>>,
    table: Map<u64, Seq<Position>>,
    col: int,
    color: Color,
)
    requires
        table_sound(board, table),
        table.len() <= u64::MAX,
        0 <= col < board.len(),
        connected_groups(board, col, landing_row(board, col), color) == Set::<u64>::empty(),
    ensures
        joined_group(board, table, col, color) == table.len(),
        !table.contains_key(joined_group(board, table, col, color)),
        table_after(board, table, col, color) == table.insert(
            table.len() as u64,
            seq![(col as u64, landing_row(board, col) as u64)],
        ),
        joined_size(board, table, col, color) == 1,
        wins(board, table, col, color) <==> board.len() == 1,
{
    lemma_ascending_of_none();
    let cell = (col as u64, landing_row(board, col) as u64);
    assert(cells_of(table, table.len() as u64).push(cell) =~= seq![cell]);
}

/// A piece that lands where the pieces of its color around it all belong to
/// one group joins that group, which grows by the one cell. The move wins if
/// and only if the group then has as many cells as the board has columns.
pub proof fn lemma_piece_joins_single_group(
    board: Seq<Seq<Coin>>,
    table: Map<u64, Seq<Position>>,
    col: int,
    color: Color,
    group: u64,
)
    requires
        table.contains_key(group),
        connected_groups(board, col, landing_row(board, col), color) == set![group],
    ensures
        joined_group(board, table, col, color) == group,
        table_after(board, table, col, color) == table.insert(
            group,
            table[group].push((col as u64, landing_row(board, col) as u64)),
        ),
        joined_size(board, table, col, color) == table[group].len() + 1,
        wins(board, table, col, color) <==> table[group].len() + 1 >= board.len(),
{
    lemma_ascending_of_one(group);
    assert(seq![group].drop_first() =~= Seq::<u64>::empty());
}

/// The state of a game: who won, if anyone has.
#[derive(Debug)]
pub struct Game {
    pub winner_id: Option<u64>,
}

impl Default for Game {
    fn default() -> (game: Game)
        ensures
            game.winner_id is None,
    {
        Game { winner_id: None }
    }
}

impl Game {
    /// Drops `coin` into column `column_index` for player `player_id`.
    ///
    /// The move is refused, and the game, the board and the table stay as
    /// they were, when the game has a winner, when the column does not
    /// exist, or when the piece touches several groups of which the table
    /// lacks one. Otherwise the piece lands on top of the column, the groups
    /// it touches are merged into the one with the smallest id, and the
    /// player wins if that group then has as many cells as the board has
    /// columns. The result is the winner after the move.
    ///
    /// A group that was merged into another stays in the table as it was,
    /// and its pieces keep its id. On a board and table that are sound (see
    /// `table_sound`) no group is ever missing, and they stay sound.
    ///
    /// Unless the game was over, `coin` leaves with the id that a new group
    /// would get.
    pub fn play_coin(
        &mut self,
        player_id: u64,
        column_index: u64,
        coin: &mut Coin,
        groups: &mut Groups,
        coins: &mut Coins,
    ) -> (outcome: Result<Option<u64>, GameError>)
        ensures
            final(coin).color == old(coin).color,
            final(coin).group == if old(self).winner_id is Some {
                old(coin).group
            } else {
                table_of(old(groups)).len() as u64
            },
            match outcome {
                Ok(winner_id) => winner_id == final(self).winner_id && move_refusal(
                    old(self).winner_id,
                    board_of(old(coins)),
                    table_of(old(groups)),
                    column_index,
                    old(coin).color,
                ) is None,
                Err(error) => move_refusal(
                    old(self).winner_id,
                    board_of(old(coins)),
                    table_of(old(groups)),
                    column_index,
                    old(coin).color,
                ) == Some(error),
            },
            outcome is Err ==> *final(self) == *old(self) && *final(coins) == *old(coins)
                && *final(groups) == *old(groups),
            outcome is Ok ==> board_of(final(coins)) == board_after(
                board_of(old(coins)),
                table_of(old(groups)),
                column_index as int,
                old(coin).color,
            ),
            outcome is Ok ==> table_of(final(groups)) == table_after(
                board_of(old(coins)),
                table_of(old(groups)),
                column_index as int,
                old(coin).color,
            ),
            outcome is Ok ==> final(self).winner_id == if wins(
                board_of(old(coins)),
                table_of(old(groups)),
                column_index as int,
                old(coin).color,
            ) {
                Some(player_id)
            } else {
                None
            },
            table_sound(board_of(old(coins)), table_of(old(groups))) ==> table_sound(
                board_of(final(coins)),
                table_of(final(groups)),
            ),
    {
        if self.winner_id.is_some() {
            return Err(GameError::CantPlayCoinInEndedGame);
        }
        let ghost board = board_of(coins);
        let ghost table = table_of(groups);
        let ghost at = column_index as int;
        assert(table.dom() =~= groups@.dom());
        coin.group = groups.len() as u64;
        let color = coin.color;

        let width = coins.len();
        if column_index >= width as u64 {
            return Err(GameError::ColumnOutOfBounds);
        }
        let col = column_index as usize;
        let coin_index = coins[col].len() as u64;
        proof {
            if table_sound(board, table) {
                lemma_move_keeps_table_sound(board, table, at, color);
            }
        }

        let found = find_connected_groups(&column_index, &coin_index, &color, coins)?;
        let ids = sorted_ids(&found);
        if ids.len() >= 2 && !all_present(groups, &ids) {
            return Err(GameError::CannotFindMergeTarget);
        }
        let target = if ids.len() == 0 {
            coin.group
        } else {
            ids[0]
        };

        let mut i: usize = 1;
        while i < ids.len()
            invariant
                1 <= i,
                ids@.len() >= 2 ==> i <= ids@.len(),
                ids@.len() >= 1 ==> target == ids@[0],
                strictly_increasing(ids@),
                ids@.len() >= 2 ==> forall|k: int|
                    0 <= k < ids@.len() ==> table.contains_key(ids@[k]),
                forall|id: u64| table_of(groups).contains_key(id) <==> table.contains_key(id),
                ids@.len() >= 2 ==> table_of(groups) == absorbed(
                    table,
                    ids@.subrange(1, i as int),
                    target,
                ),
                ids@.len() < 2 ==> *groups == *old(groups),
            decreases ids.len() - i,
        {
            GroupStore::merge(groups, &ids[i], &target)?;
            assert(ids@.subrange(1, i + 1).drop_last() =~= ids@.subrange(1, i as int));
            i += 1;
        }
        let ghost merged = table_of(groups);
        assert(ids@.len() >= 1 ==> merged == absorbed(table, ids@.drop_first(), target)) by {
            if ids@.len() >= 2 {
                assert(ids@.subrange(1, i as int) =~= ids@.drop_first());
            } else if ids@.len() == 1 {
                assert(ids@.drop_first() =~= Seq::<u64>::empty());
            }
        }

        coins[col].push(Coin { color, group: target });
        assert(board_of(coins) =~= board_after(board, table, at, color));

        let size = GroupStore::add(groups, &target, &(column_index, coin_index))?;
        if size >= width as u64 {
            self.winner_id = Some(player_id);
        }
        Ok(self.winner_id)
    }

    /// A board of `column_count` columns, all of them empty.
    pub fn set_columns(&mut self, column_count: u64) -> (made: Result<Coins, GameError>)
        ensures
            *final(self) == *old(self),
            made is Ok,
            board_of(&made->Ok_0) == empty_board(column_count as nat),
    {
        let mut coins: Coins = Vec::new();
        let mut made: u64 = 0;
        while made < column_count
            invariant
                made <= column_count,
                coins@.len() == made,
                forall|c: int| 0 <= c < made ==> coins@[c]@ == Seq::<Coin>::empty(),
            decreases column_count - made,
        {
            coins.push(Vec::new());
            made += 1;
        }
        Ok(coins)
    }
}

} // verus!
