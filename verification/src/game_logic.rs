//! A game in progress: the pile of tiles, the board, and the regions that
//! the placed tiles form.
use vstd::prelude::*;
use crate::catalog::{get_absolute_area_from_relative_area, GameTileData, GameTileDataView};
use crate::game_board::{
    is_frontier, lemma_remove_entry, open_after_placing, origin, position_of, BoardGrid,
    IllegalPlacement, PlacedTile, TileMatrixCoords,
};
use crate::region_merger::{
    area_count, keeps_together, merged_spec, neighbor_joined, RegionHandle, RegionMerger,
};
use crate::region_union::{compressed, grow_spec};
use crate::segments::TileDirection;
use crate::tiles::{TileAreaIndex, TileIndex};

verus! {

/// All areas of one region, by their indices in the catalog's flat
/// sequence of areas.
#[derive(Debug, Clone)]
pub struct MegaArea {
    pub connected_areas: Vec<TileAreaIndex>,
}

/// The state of a game.
#[derive(Debug, Clone)]
pub struct GameplayData {
    /// The tiles of the catalog that have been drawn, in the order in
    /// which they were drawn.
    pub spawned_tiles: Vec<TileIndex>,
    /// The tiles of the catalog that are still in the pile.
    pub unspawned_tiles: Vec<TileIndex>,
    pub board: BoardGrid,
    pub regions: RegionMerger,
    /// Cells that were marked as candidates by hand. They have nothing to
    /// do with the open cells of the board.
    pub free_placeholders: Vec<TileMatrixCoords>,
}

/// A number below `n`, picked at random by `rand::Rng::gen_range` on the
/// thread's generator `rand::thread_rng()`. All that is claimed is that the
/// number lies in the range `0..n` that is handed over; the call panics on
/// an empty range, which `n > 0` rules out.
#[verifier::external_body]
fn random_index(n: usize) -> (r: usize)
    requires
        n > 0,
    ensures
        r < n,
{
    rand::Rng::gen_range(&mut rand::thread_rng(), 0..n)
}

impl GameplayData {
    /// The state is consistent: the board is, the regions are, and the
    /// regions know the placed tiles with the areas that the catalog gives
    /// them.
    pub open spec fn wf(&self, catalog: GameTileDataView) -> bool {
        &&& self.board.wf()
        &&& self.regions.wf()
        &&& self.regions.matches(self.board.placed_tiles@, catalog)
    }

    /// The state in which a tile of the catalog with index `tile_def_index`
    /// has just been placed at `at` in a state like `before`, and has got
    /// the index `t`: the board holds it, the open cells have moved on, and
    /// the regions are those of `before` with the tile's areas, joined
    /// across each edge beyond which a tile lies. No region of `before` has
    /// come apart, and areas that touch with kinds that agree are in one
    /// region.
    pub open spec fn placed_from(
        &self,
        before: &GameplayData,
        catalog: GameTileDataView,
        at: TileMatrixCoords,
        tile_def_index: TileIndex,
        rotation: TileDirection,
        t: TileIndex,
    ) -> bool {
        let tile = PlacedTile { tile_def_index, coords: at, rotation };
        &&& t == before.board.placed_tiles@.len()
        &&& self.board.placed_tiles@ == before.board.placed_tiles@.push(tile)
        &&& self.board.tile_at_map() == before.board.tile_at_map().insert(at, t)
        &&& self.board.coordinate_of_map() == before.board.coordinate_of_map().insert(t, at)
        &&& self.board.occupied() == before.board.occupied().insert(at)
        &&& self.board.open_set() == open_after_placing(
            before.board.open_set(),
            self.board.occupied(),
            at,
        )
        &&& forall|c: TileMatrixCoords|
            self.board.open_set().contains(c) <==> is_frontier(self.board.occupied(), c)
        &&& self.regions.tile_first@ == before.regions.tile_first@.push(
            before.regions.regions@.len() as usize,
        )
        &&& self.regions.tile_count@ == before.regions.tile_count@.push(
            area_count(catalog, tile) as usize,
        )
        &&& self.regions.regions@ == merged_spec(
            grow_spec(before.regions.regions@, area_count(catalog, tile) as nat),
            self.regions.tile_first@,
            catalog,
            self.board.placed_tiles@,
            self.board.tile_at_map(),
            t as int,
        )
        &&& keeps_together(
            grow_spec(before.regions.regions@, area_count(catalog, tile) as nat),
            self.regions.regions@,
        )
        &&& forall|d: TileDirection| #[trigger]
            neighbor_joined(
                self.regions.regions@,
                self.regions.tile_first@,
                catalog,
                self.board.placed_tiles@,
                self.board.tile_at_map(),
                t as int,
                d,
            )
        &&& self.spawned_tiles == before.spawned_tiles
        &&& self.unspawned_tiles == before.unspawned_tiles
        &&& self.free_placeholders == before.free_placeholders
    }

    /// The state at the start of a game: every tile of the catalog is in
    /// the pile, in the catalog's order, and the board is empty.
    pub fn new(catalog: &GameTileData) -> (r: GameplayData)
        ensures
            r.wf(catalog@),
            r.board.is_empty_spec(),
            r.board.open_set() == Set::<TileMatrixCoords>::empty(),
            r.spawned_tiles@ == Seq::<TileIndex>::empty(),
            r.unspawned_tiles@ == Seq::new(catalog@.all_tiles.len(), |i: int| i as usize),
            r.free_placeholders@ == Seq::<TileMatrixCoords>::empty(),
            r.regions.regions@ == Seq::<int>::empty(),
    {
        let mut unspawned_tiles: Vec<TileIndex> = Vec::new();
        let n: usize = catalog.all_tiles.len();
        let mut i: usize = 0;
        while i < n
            invariant
                i <= n,
                n == catalog@.all_tiles.len(),
                unspawned_tiles@ == Seq::new(i as nat, |j: int| j as usize),
            decreases n - i,
        {
            unspawned_tiles.push(i);
            proof {
                assert(unspawned_tiles@ =~= Seq::new((i + 1) as nat, |j: int| j as usize));
            }
            i += 1;
        }
        GameplayData {
            spawned_tiles: Vec::new(),
            unspawned_tiles,
            board: BoardGrid::new(),
            regions: RegionMerger::new(),
            free_placeholders: Vec::new(),
        }
    }

    /// Opens the origin if the board is empty; on a board with a tile
    /// nothing changes.
    pub fn initialize(&mut self)
        requires
            old(self).board.wf(),
        ensures
            final(self).board.wf(),
            final(self).board.maps_inverse(),
            forall|c: TileMatrixCoords|
                final(self).board.open_set().contains(c) ==> !final(self).board.occupied().contains(
                    c,
                ),
            final(self).board.board_tile_matrix == old(self).board.board_tile_matrix,
            final(self).board.placed_tiles == old(self).board.placed_tiles,
            final(self).board.open_set() == if old(self).board.is_empty_spec() {
                set![origin()]
            } else {
                old(self).board.open_set()
            },
            !old(self).board.is_empty_spec() ==> *final(self) == *old(self),
            final(self).regions == old(self).regions,
            final(self).spawned_tiles == old(self).spawned_tiles,
            final(self).unspawned_tiles == old(self).unspawned_tiles,
            final(self).free_placeholders == old(self).free_placeholders,
    {
        self.board.initialize();
    }

    /// Places the tile of the catalog with index `tile_def_index` on the
    /// cell `at`, turned as `rotation` says. The cell must be open. The
    /// tile gets the next index; the cell is open no more and its free
    /// neighbours are; the tile's areas become regions and are joined with
    /// the areas of the neighbouring tiles that they touch, where the
    /// kinds agree. On a cell that is not open nothing changes.
    pub fn place_tile(
        &mut self,
        catalog: &GameTileData,
        at: TileMatrixCoords,
        tile_def_index: TileIndex,
        rotation: TileDirection,
    ) -> (r: Result<TileIndex, IllegalPlacement>)
        requires
            old(self).wf(catalog@),
            catalog@.wf(),
            tile_def_index < catalog@.all_tiles.len(),
        ensures
            final(self).wf(catalog@),
            final(self).board.maps_inverse(),
            forall|c: TileMatrixCoords|
                final(self).board.open_set().contains(c) ==> !final(self).board.occupied().contains(
                    c,
                ),
            match r {
                Ok(t) => old(self).board.open_set().contains(at) && final(self).placed_from(
                    old(self),
                    catalog@,
                    at,
                    tile_def_index,
                    rotation,
                    t,
                ),
                Err(e) => {
                    &&& !old(self).board.open_set().contains(at)
                    &&& *final(self) == *old(self)
                    &&& e == if old(self).board.occupied().contains(at) {
                        IllegalPlacement::Occupied
                    } else {
                        IllegalPlacement::NotOpen
                    }
                },
            },
    {
        match self.board.place_tile(at, tile_def_index, rotation) {
            Err(e) => Err(e),
            Ok(t) => {
                proof {
                    assert(self.board.placed_tiles@.drop_last() =~= old(self).board.placed_tiles@);
                }
                self.regions.on_tile_placed(
                    t,
                    at,
                    rotation,
                    tile_def_index,
                    &self.board,
                    catalog,
                );
                Ok(t)
            },
        }
    }

    /// The area of the catalog that the area with number `area` on the
    /// placed tile `tile` is.
    pub open spec fn absolute_area_spec(
        &self,
        catalog: GameTileDataView,
        tile: int,
        area: int,
    ) -> TileAreaIndex {
        catalog.all_tiles[self.board.placed_tiles@[tile].tile_def_index as int].areas[area]
    }

    /// The areas of a region as areas of the catalog: for each entry of
    /// `instances`, a tile and the number of an area on it, the index of
    /// that area in the catalog's flat sequence.
    pub fn mega_area(&self, catalog: &GameTileData, instances: &Vec<(TileIndex, usize)>) -> (r:
        MegaArea)
        requires
            self.wf(catalog@),
            forall|i: int|
                0 <= i < instances.len() ==> self.regions.has_area(
                    (#[trigger] instances[i]).0 as int,
                    instances[i].1 as int,
                ),
        ensures
            r.connected_areas@ == Seq::new(
                instances.len() as nat,
                |i: int|
                    self.absolute_area_spec(catalog@, instances[i].0 as int, instances[i].1 as int),
            ),
    {
        let mut connected_areas: Vec<TileAreaIndex> = Vec::new();
        let mut i: usize = 0;
        while i < instances.len()
            invariant
                i <= instances.len(),
                self.wf(catalog@),
                forall|j: int|
                    0 <= j < instances.len() ==> self.regions.has_area(
                        (#[trigger] instances[j]).0 as int,
                        instances[j].1 as int,
                    ),
                connected_areas@ == Seq::new(
                    i as nat,
                    |j: int|
                        self.absolute_area_spec(
                            catalog@,
                            instances[j].0 as int,
                            instances[j].1 as int,
                        ),
                ),
            decreases instances.len() - i,
        {
            let tile: TileIndex = instances[i].0;
            let area: usize = instances[i].1;
            proof {
                assert(self.regions.has_area(instances[i as int].0 as int, instances[i as int].1 as int));
                assert(self.board.placed_tiles@[tile as int].tile_def_index
                    < catalog@.all_tiles.len());
            }
            let def: TileIndex = self.board.placed_tiles[tile].tile_def_index;
            let absolute: TileAreaIndex = get_absolute_area_from_relative_area(def, area, catalog);
            connected_areas.push(absolute);
            proof {
                assert(connected_areas@ =~= Seq::new(
                    (i + 1) as nat,
                    |j: int|
                        self.absolute_area_spec(
                            catalog@,
                            instances[j].0 as int,
                            instances[j].1 as int,
                        ),
                ));
            }
            i += 1;
        }
        MegaArea { connected_areas }
    }

    /// The state in which the tile at place `pick` of the pile of `before`
    /// has just been drawn.
    pub open spec fn drew(&self, before: &GameplayData, pick: int) -> bool {
        &&& 0 <= pick < before.unspawned_tiles@.len()
        &&& self.unspawned_tiles@ == before.unspawned_tiles@.remove(pick)
        &&& self.spawned_tiles@ == before.spawned_tiles@.push(before.unspawned_tiles@[pick])
    }

    /// Draws the tile at place `pick` of the pile.
    pub fn draw_tile(&mut self, pick: usize) -> (r: TileIndex)
        requires
            pick < old(self).unspawned_tiles@.len(),
        ensures
            r == old(self).unspawned_tiles@[pick as int],
            final(self).drew(old(self), pick as int),
            final(self).board == old(self).board,
            final(self).regions == old(self).regions,
            final(self).free_placeholders == old(self).free_placeholders,
    {
        let tile: TileIndex = self.unspawned_tiles.remove(pick);
        self.spawned_tiles.push(tile);
        tile
    }

    /// Draws a tile from the pile at random and makes sure that the board
    /// has a cell to put the first tile on. With an empty pile nothing
    /// happens.
    pub fn spawn_tile(&mut self) -> (r: Option<TileIndex>)
        requires
            old(self).board.wf(),
        ensures
            final(self).board.wf(),
            final(self).regions == old(self).regions,
            final(self).free_placeholders == old(self).free_placeholders,
            match r {
                None => old(self).unspawned_tiles@.len() == 0 && *final(self) == *old(self),
                Some(tile) => {
                    &&& exists|pick: int|
                        final(self).drew(old(self), pick) && tile
                            == #[trigger] old(self).unspawned_tiles@[pick]
                    &&& final(self).board.board_tile_matrix == old(self).board.board_tile_matrix
                    &&& final(self).board.placed_tiles == old(self).board.placed_tiles
                    &&& final(self).board.open_set() == if old(self).board.is_empty_spec() {
                        set![origin()]
                    } else {
                        old(self).board.open_set()
                    }
                },
            },
    {
        if self.unspawned_tiles.len() == 0 {
            return None;
        }
        let pick: usize = random_index(self.unspawned_tiles.len());
        let tile: TileIndex = self.draw_tile(pick);
        self.board.initialize();
        proof {
            assert(self.drew(old(self), pick as int) && tile == old(self).unspawned_tiles@[pick as int]);
        }
        Some(tile)
    }

    /// Marks the cell as a candidate by hand. Such a mark is kept apart
    /// from the open cells of the board and never spreads to neighbours.
    /// Returns whether the cell was unmarked before.
    pub fn add_placeholder(&mut self, at: TileMatrixCoords) -> (r: bool)
        requires
            old(self).free_placeholders@.no_duplicates(),
        ensures
            r == !old(self).free_placeholders@.contains(at),
            final(self).free_placeholders@.no_duplicates(),
            final(self).free_placeholders@ == if r {
                old(self).free_placeholders@.push(at)
            } else {
                old(self).free_placeholders@
            },
            final(self).board == old(self).board,
            final(self).regions == old(self).regions,
            final(self).spawned_tiles == old(self).spawned_tiles,
            final(self).unspawned_tiles == old(self).unspawned_tiles,
    {
        match position_of(&self.free_placeholders, at) {
            Some(i) => {
                proof {
                    assert(self.free_placeholders@[i as int] == at);
                }
                false
            },
            None => {
                self.free_placeholders.push(at);
                true
            },
        }
    }

    /// Takes back the mark that was put on the cell by hand. The open
    /// cells of the board are not touched. Returns whether the cell was
    /// marked.
    pub fn remove_placeholder(&mut self, at: TileMatrixCoords) -> (r: bool)
        requires
            old(self).free_placeholders@.no_duplicates(),
        ensures
            r == old(self).free_placeholders@.contains(at),
            final(self).free_placeholders@.no_duplicates(),
            final(self).free_placeholders@.to_set() == old(self).free_placeholders@.to_set().remove(
                at,
            ),
            !r ==> final(self).free_placeholders@ == old(self).free_placeholders@,
            final(self).board == old(self).board,
            final(self).regions == old(self).regions,
            final(self).spawned_tiles == old(self).spawned_tiles,
            final(self).unspawned_tiles == old(self).unspawned_tiles,
    {
        match position_of(&self.free_placeholders, at) {
            Some(i) => {
                proof {
                    assert(self.free_placeholders@[i as int] == at);
                    lemma_remove_entry(self.free_placeholders@, i as int);
                }
                self.free_placeholders.remove(i);
                true
            },
            None => {
                proof {
                    assert(self.free_placeholders@.to_set()
                        =~= self.free_placeholders@.to_set().remove(at));
                }
                false
            },
        }
    }

    /// The region that the given area of the given tile belongs to.
    pub fn find_region(&mut self, tile_index: TileIndex, relative_area_index: usize) -> (r:
        RegionHandle)
        requires
            old(self).regions.wf(),
            old(self).regions.has_area(tile_index as int, relative_area_index as int),
        ensures
            final(self).regions.wf(),
            final(self).regions.regions@ == old(self).regions.regions@,
            final(self).regions.tile_first == old(self).regions.tile_first,
            final(self).regions.tile_count == old(self).regions.tile_count,
            final(self).regions.node_tile == old(self).regions.node_tile,
            final(self).board == old(self).board,
            final(self).spawned_tiles == old(self).spawned_tiles,
            final(self).unspawned_tiles == old(self).unspawned_tiles,
            final(self).free_placeholders == old(self).free_placeholders,
            r.root == old(self).regions.regions@[old(self).regions.node_spec(
                tile_index as int,
                relative_area_index as int,
            )],
            final(self).regions.regions.parent@ == compressed(
                old(self).regions.regions.parent@,
                old(self).regions.node_spec(tile_index as int, relative_area_index as int),
            ),
    {
        self.regions.find_region(tile_index, relative_area_index)
    }
}

} // verus!
