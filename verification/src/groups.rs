//! The group table: for each group id, the cells of the connected set.

use crate::board::Position;
use crate::error::GameError;
use std::collections::HashMap;
use vstd::prelude::*;

verus! {

broadcast use vstd::std_specs::hash::group_hash_axioms;

/// The group table. A group's list only ever grows.
pub type Groups = HashMap<u64, Vec<Position>>;

/// The table as a map from group id to the sequence of the group's cells.
pub open spec fn table_of(groups: &Groups) -> Map<u64, Seq<Position>> {
    Map::new(|id: u64| groups@.contains_key(id), |id: u64| groups@[id]@)
}

/// The cells listed under `id`; none where the table has no such group.
pub open spec fn cells_of(table: Map<u64, Seq<Position>>, id: u64) -> Seq<Position> {
    if table.contains_key(id) {
        table[id]
    } else {
        Seq::empty()
    }
}

/// The table after `position` was appended to the list of group `id`, which
/// is created if the table did not hold it.
pub open spec fn with_cell(table: Map<u64, Seq<Position>>, id: u64, position: Position) -> Map<
    u64,
    Seq<Position>,
> {
    table.insert(id, cells_of(table, id).push(position))
}

/// Whether `from` can be merged into `to`: both are groups of the table, and
/// they are not the same group.
pub open spec fn can_merge(table: Map<u64, Seq<Position>>, from: u64, to: u64) -> bool {
    from != to && table.contains_key(from) && table.contains_key(to)
}

/// The table after the cells of `from` were appended to the list of `to`.
/// The entry of `from` stays as it was.
pub open spec fn with_merged(table: Map<u64, Seq<Position>>, from: u64, to: u64) -> Map<
    u64,
    Seq<Position>,
> {
    table.insert(to, table[to] + table[from])
}

/// The operations on the group table.
pub struct GroupStore {}

impl GroupStore {
    /// Appends `position` to the list of group `key`, creating the group if
    /// the table does not hold it, and returns the length of the list.
    pub fn add(groups: &mut Groups, key: &u64, position: &Position) -> (size: Result<
        u64,
        GameError,
    >)
        ensures
            table_of(final(groups)) == with_cell(table_of(old(groups)), *key, *position),
            size is Ok,
            size->Ok_0 == cells_of(table_of(old(groups)), *key).len() + 1,
    {
        let ghost before = table_of(groups);
        let mut cells = match groups.remove(key) {
            Some(cells) => cells,
            None => Vec::new(),
        };
        assert(cells@ == cells_of(before, *key));
        cells.push(*position);
        let size = cells.len();
        groups.insert(*key, cells);
        assert(table_of(groups) =~= with_cell(before, *key, *position));
        Ok(size as u64)
    }

    /// Appends the cells of group `from` to the list of group `to`. Where one
    /// of the two is missing, or they are the same group, nothing changes.
    pub fn merge(groups: &mut Groups, from: &u64, to: &u64) -> (merged: Result<(), GameError>)
        ensures
            merged is Ok <==> can_merge(table_of(old(groups)), *from, *to),
            merged is Ok ==> table_of(final(groups)) == with_merged(
                table_of(old(groups)),
                *from,
                *to,
            ),
            merged is Err ==> merged->Err_0 is CannotFindMergeTarget && *final(groups) == *old(
                groups,
            ),
    {
        let ghost before = table_of(groups);
        if *from == *to || !groups.contains_key(from) || !groups.contains_key(to) {
            return Err(GameError::CannotFindMergeTarget);
        }
        let mut target = match groups.remove(to) {
            Some(cells) => cells,
            None => Vec::new(),
        };
        assert(target@ == before[*to]);
        match groups.get(from) {
            Some(source) => {
                let mut i: usize = 0;
                while i < source.len()
                    invariant
                        i <= source.len(),
                        target@ == before[*to] + source@.take(i as int),
                    decreases source.len() - i,
                {
                    target.push(source[i]);
                    i += 1;
                    assert(source@.take(i as int) == source@.take(i - 1).push(source@[i - 1]));
                }
                assert(source@.take(i as int) == source@);
                assert(source@ == before[*from]);
            },
            None => {},
        }
        groups.insert(*to, target);
        assert(table_of(groups) =~= with_merged(before, *from, *to));
        Ok(())
    }
}

} // verus!
