//! The split cells of one player: which cells are the player's, how much
//! mass they hold together, and the scans that find, sum and delete them.

use crate::rows::{Identity, PlayerCell};
use crate::table::{
    as_map, distinct_keys, holds_key, lemma_empty_map, lemma_map_entry_is_row, lemma_map_finite,
    lemma_push_row, Keyed, Table,
};
use crate::world::{World, WorldState};
use vstd::prelude::*;

verus! {

/// Keys of the cells that belong to `owner`.
pub open spec fn cells_of(cells: Map<u64, PlayerCell>, owner: Identity) -> Set<u64> {
    Set::new(|k: u64| cells.dom().contains(k) && cells[k].player_identity == owner)
}

/// The player has at least one split cell.
pub open spec fn has_cell(cells: Map<u64, PlayerCell>, owner: Identity) -> bool {
    exists|k: u64| #[trigger] cells.dom().contains(k) && cells[k].player_identity == owner
}

/// The table without the cells of `owner`.
pub open spec fn without_cells_of(cells: Map<u64, PlayerCell>, owner: Identity) -> Map<
    u64,
    PlayerCell,
> {
    cells.remove_keys(cells_of(cells, owner))
}

/// What one cell adds to the split mass of `owner`: its mass if it is the
/// owner's, nothing otherwise.
pub open spec fn share_of(cell: PlayerCell, owner: Identity) -> nat {
    if cell.player_identity == owner {
        cell.mass as nat
    } else {
        0
    }
}

/// Mass that the cells of `owner` hold together.
pub open spec fn owned_mass(cells: Map<u64, PlayerCell>, owner: Identity) -> nat
    decreases cells.dom().len(),
    when cells.dom().finite()
{
    if cells.dom().len() == 0 {
        0
    } else {
        let k = cells.dom().choose();
        share_of(cells[k], owner) + owned_mass(cells.remove(k), owner)
    }
}

/// The mass of the owner's cells is the share of any one cell plus the mass
/// of the others.
pub proof fn lemma_owned_mass_remove(cells: Map<u64, PlayerCell>, owner: Identity, key: u64)
    requires
        cells.dom().finite(),
        cells.dom().contains(key),
    ensures
        owned_mass(cells, owner) == share_of(cells[key], owner) + owned_mass(
            cells.remove(key),
            owner,
        ),
    decreases cells.dom().len(),
{
    let k = cells.dom().choose();
    if k != key {
        lemma_owned_mass_remove(cells.remove(k), owner, key);
        lemma_owned_mass_remove(cells.remove(key), owner, k);
        assert(cells.remove(k).remove(key) =~= cells.remove(key).remove(k));
    }
}

/// A new cell adds its share to the mass of the owner's cells.
pub proof fn lemma_owned_mass_insert(
    cells: Map<u64, PlayerCell>,
    owner: Identity,
    key: u64,
    cell: PlayerCell,
)
    requires
        cells.dom().finite(),
        !cells.dom().contains(key),
    ensures
        owned_mass(cells.insert(key, cell), owner) == share_of(cell, owner) + owned_mass(
            cells,
            owner,
        ),
{
    lemma_owned_mass_remove(cells.insert(key, cell), owner, key);
    assert(cells.insert(key, cell).remove(key) =~= cells);
}

/// A player without cells has no split mass.
pub proof fn lemma_owned_mass_none(cells: Map<u64, PlayerCell>, owner: Identity)
    requires
        cells.dom().finite(),
        !has_cell(cells, owner),
    ensures
        owned_mass(cells, owner) == 0,
    decreases cells.dom().len(),
{
    if cells.dom().len() > 0 {
        let k = cells.dom().choose();
        assert(cells.dom().contains(k));
        assert forall|j: u64| #[trigger]
            cells.remove(k).dom().contains(j) implies cells.remove(k)[j].player_identity
            != owner by {
            assert(cells.dom().contains(j));
        }
        lemma_owned_mass_none(cells.remove(k), owner);
    }
}

/// Whether the player has a split cell.
pub fn owns_cell(cells: &Table<PlayerCell>, owner: Identity) -> (found: bool)
    requires
        cells.wf(),
    ensures
        found == has_cell(cells@, owner),
{
    let mut i: usize = 0;
    while i < cells.len()
        invariant
            cells.wf(),
            i <= cells.rows().len(),
            forall|j: int| 0 <= j < i ==> (#[trigger] cells.rows()[j]).player_identity != owner,
        decreases cells.rows().len() - i,
    {
        if cells.row(i).player_identity == owner {
            return true;
        }
        i += 1;
    }
    proof {
        assert forall|k: u64| #[trigger] cells@.dom().contains(k) implies cells@[k].player_identity
            != owner by {
            lemma_map_entry_is_row(cells.rows(), k);
        }
    }
    false
}

/// Mass that the split cells of `owner` hold together.
pub fn cell_mass_of(cells: &Table<PlayerCell>, owner: Identity) -> (total: u128)
    requires
        cells.wf(),
    ensures
        total == owned_mass(cells@, owner),
        total < 0x1_0000_0000_0000_0000_0000_0000,
{
    let mut total: u128 = 0;
    let mut i: usize = 0;
    proof {
        lemma_empty_map::<PlayerCell>();
        assert(cells.rows().take(0) =~= Seq::<PlayerCell>::empty());
        lemma_owned_mass_none(as_map(cells.rows().take(0)), owner);
    }
    while i < cells.len()
        invariant
            cells.wf(),
            i <= cells.rows().len(),
            total == owned_mass(as_map(cells.rows().take(i as int)), owner),
            total <= i * 0xffff_ffff,
        decreases cells.rows().len() - i,
    {
        let cell = cells.row(i);
        proof {
            let rows = cells.rows();
            let front = rows.take(i as int);
            assert(distinct_keys(front)) by {
                assert forall|a: int, b: int|
                    0 <= a < front.len() && 0 <= b < front.len() && a != b implies
                    #[trigger] front[a].key() != #[trigger] front[b].key() by {
                    assert(front[a] == rows[a]);
                    assert(front[b] == rows[b]);
                }
            }
            assert(!holds_key(front, cell.cell_id)) by {
                if holds_key(front, cell.cell_id) {
                    let a = choose|a: int|
                        0 <= a < front.len() && #[trigger] front[a].key() == cell.cell_id;
                    assert(front[a] == rows[a]);
                    assert(rows[i as int].key() == cell.cell_id);
                }
            }
            lemma_push_row(front, *cell);
            lemma_map_finite(front);
            lemma_owned_mass_insert(as_map(front), owner, cell.cell_id, *cell);
            assert(front.push(*cell) =~= rows.take(i + 1));
            assert((i + 1) * 0xffff_ffff == i * 0xffff_ffff + 0xffff_ffff) by (nonlinear_arith);
            assert(i * 0xffff_ffff <= 0xffff_ffff_ffff_ffff * 0xffff_ffff) by (nonlinear_arith)
                requires
                    i <= 0xffff_ffff_ffff_ffff,
            ;
        }
        if cell.player_identity == owner {
            total = total + cell.mass as u128;
        }
        i += 1;
    }
    proof {
        assert(cells.rows().take(i as int) =~= cells.rows());
    }
    total
}

/// The world without the split cells of one player.
pub open spec fn after_delete_cells(s: WorldState, identity: Identity) -> WorldState {
    WorldState { cells: without_cells_of(s.cells, identity), ..s }
}

/// Deletes every split cell that belongs to `identity`.
pub fn delete_player_cells(world: &mut World, identity: Identity)
    requires
        old(world).wf(),
    ensures
        final(world).wf(),
        final(world)@ == after_delete_cells(old(world)@, identity),
{
    let ghost before = world.cells@;
    let mut i: usize = 0;
    while i < world.cells.len()
        invariant
            world.wf(),
            world@ == (WorldState { cells: world.cells@, ..old(world)@ }),
            i <= world.cells.rows().len(),
            before == old(world)@.cells,
            forall|k: u64| #[trigger]
                world.cells@.dom().contains(k) ==> before.dom().contains(k) && world.cells@[k]
                    == before[k],
            forall|k: u64|
                before.dom().contains(k) && before[k].player_identity != identity
                    ==> #[trigger] world.cells@.dom().contains(k),
            forall|j: int|
                0 <= j < i ==> (#[trigger] world.cells.rows()[j]).player_identity != identity,
        decreases world.cells.rows().len() - i,
    {
        if world.cells.row(i).player_identity == identity {
            world.cells.remove(i);
        } else {
            i += 1;
        }
    }
    proof {
        assert forall|k: u64| #[trigger]
            world.cells@.dom().contains(k) implies world.cells@[k].player_identity
            != identity by {
            lemma_map_entry_is_row(world.cells.rows(), k);
        }
        assert(world.cells@ =~= without_cells_of(before, identity));
    }
}

} // verus!
