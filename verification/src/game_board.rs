//! The board: which cell holds which tile, and which cells are open for the
//! next tile.
use std::collections::HashMap;
use vstd::prelude::*;
use crate::segments::TileDirection;
use crate::tiles::TileIndex;

verus! {

broadcast use vstd::std_specs::hash::group_hash_axioms;

/// A cell of the board. The board has no edge but that of the numbers.
#[derive(Clone, Copy, Debug, PartialEq, Eq, Structural, Hash)]
pub struct TileMatrixCoords {
    pub x: i32,
    pub y: i32,
}

/// A tile on the board: which tile of the catalog it is, where it lies and
/// how it is turned.
#[derive(Clone, Copy, Debug, PartialEq, Eq, Structural)]
pub struct PlacedTile {
    pub tile_def_index: TileIndex,
    pub coords: TileMatrixCoords,
    pub rotation: TileDirection,
}

/// Why a tile could not be placed.
#[derive(Clone, Copy, Debug, PartialEq, Eq, Structural)]
pub enum IllegalPlacement {
    /// The cell already holds a tile.
    Occupied,
    /// The cell holds no tile, but is not open either.
    NotOpen,
}

/// Step in `x` towards the neighbour in direction `d`.
pub open spec fn offset_x(d: TileDirection) -> int {
    match d {
        TileDirection::North => 0,
        TileDirection::East => 1,
        TileDirection::South => 0,
        TileDirection::West => -1,
    }
}

/// Step in `y` towards the neighbour in direction `d`.
pub open spec fn offset_y(d: TileDirection) -> int {
    match d {
        TileDirection::North => 1,
        TileDirection::East => 0,
        TileDirection::South => -1,
        TileDirection::West => 0,
    }
}

/// The cell in the middle of the board, where the first tile goes.
pub open spec fn origin() -> TileMatrixCoords {
    TileMatrixCoords { x: 0, y: 0 }
}

impl TileMatrixCoords {
    /// The neighbouring cell in direction `d`, if the numbers reach that
    /// far.
    pub open spec fn neighbor_spec(self, d: TileDirection) -> Option<TileMatrixCoords> {
        let x = self.x + offset_x(d);
        let y = self.y + offset_y(d);
        if i32::MIN <= x <= i32::MAX && i32::MIN <= y <= i32::MAX {
            Some(TileMatrixCoords { x: x as i32, y: y as i32 })
        } else {
            None
        }
    }

    /// The number that stands for this cell in the board's map: the two
    /// coordinates, each moved into the non-negative numbers, side by side.
    pub open spec fn key_spec(self) -> u64 {
        ((self.x + 0x8000_0000) * 0x1_0000_0000 + (self.y + 0x8000_0000)) as u64
    }

    /// The neighbouring cell in direction `d`, if the numbers reach that
    /// far.
    pub fn neighbor(self, d: TileDirection) -> (r: Option<TileMatrixCoords>)
        ensures
            r == self.neighbor_spec(d),
    {
        match d {
            TileDirection::North => {
                if self.y < i32::MAX {
                    Some(TileMatrixCoords { x: self.x, y: self.y + 1 })
                } else {
                    None
                }
            },
            TileDirection::East => {
                if self.x < i32::MAX {
                    Some(TileMatrixCoords { x: self.x + 1, y: self.y })
                } else {
                    None
                }
            },
            TileDirection::South => {
                if self.y > i32::MIN {
                    Some(TileMatrixCoords { x: self.x, y: self.y - 1 })
                } else {
                    None
                }
            },
            TileDirection::West => {
                if self.x > i32::MIN {
                    Some(TileMatrixCoords { x: self.x - 1, y: self.y })
                } else {
                    None
                }
            },
        }
    }

    /// The step from a cell to its neighbour in direction `d`.
    pub fn neighbor_offset(d: TileDirection) -> (r: TileMatrixCoords)
        ensures
            r.x == offset_x(d),
            r.y == offset_y(d),
    {
        match d {
            TileDirection::North => TileMatrixCoords { x: 0, y: 1 },
            TileDirection::East => TileMatrixCoords { x: 1, y: 0 },
            TileDirection::South => TileMatrixCoords { x: 0, y: -1 },
            TileDirection::West => TileMatrixCoords { x: -1, y: 0 },
        }
    }

    /// The number that stands for this cell in the board's map.
    pub fn key(self) -> (k: u64)
        ensures
            k == self.key_spec(),
    {
        let ux: u64 = (self.x as i64 + 0x8000_0000) as u64;
        let uy: u64 = (self.y as i64 + 0x8000_0000) as u64;
        ux * 0x1_0000_0000 + uy
    }
}

/// Different cells have different keys.
pub proof fn lemma_key_injective(a: TileMatrixCoords, b: TileMatrixCoords)
    ensures
        a.key_spec() == b.key_spec() <==> a == b,
{
}

/// If `b` is the neighbour of `a` in direction `d`, then `a` is the
/// neighbour of `b` in the opposite direction.
pub proof fn lemma_neighbor_symmetric(a: TileMatrixCoords, b: TileMatrixCoords, d: TileDirection)
    ensures
        a.neighbor_spec(d) == Some(b) <==> b.neighbor_spec(d.opposite_spec()) == Some(a),
        a.neighbor_spec(d) != Some(a),
{
}

/// The cell next to `c` in direction `d` exists and holds a tile.
pub open spec fn occupied_towards(
    occupied: Set<TileMatrixCoords>,
    c: TileMatrixCoords,
    d: TileDirection,
) -> bool {
    c.neighbor_spec(d) is Some && occupied.contains(c.neighbor_spec(d).unwrap())
}

/// One of the four cells next to `c` holds a tile.
pub open spec fn touches(occupied: Set<TileMatrixCoords>, c: TileMatrixCoords) -> bool {
    ||| occupied_towards(occupied, c, TileDirection::North)
    ||| occupied_towards(occupied, c, TileDirection::East)
    ||| occupied_towards(occupied, c, TileDirection::South)
    ||| occupied_towards(occupied, c, TileDirection::West)
}

/// The cell `c` holds no tile and lies next to one that does.
pub open spec fn is_frontier(occupied: Set<TileMatrixCoords>, c: TileMatrixCoords) -> bool {
    !occupied.contains(c) && touches(occupied, c)
}

/// The cells `a` and `b` lie side by side.
pub open spec fn adjacent(a: TileMatrixCoords, b: TileMatrixCoords) -> bool {
    ||| a.neighbor_spec(TileDirection::North) == Some(b)
    ||| a.neighbor_spec(TileDirection::East) == Some(b)
    ||| a.neighbor_spec(TileDirection::South) == Some(b)
    ||| a.neighbor_spec(TileDirection::West) == Some(b)
}

/// The open cells after the neighbour of `at` in direction `d` has been
/// considered: it is open from now on if it exists and holds no tile.
pub open spec fn with_neighbor(
    open: Set<TileMatrixCoords>,
    occupied: Set<TileMatrixCoords>,
    at: TileMatrixCoords,
    d: TileDirection,
) -> Set<TileMatrixCoords> {
    match at.neighbor_spec(d) {
        Some(n) => if occupied.contains(n) {
            open
        } else {
            open.insert(n)
        },
        None => open,
    }
}

/// The open cells after a tile has been placed at `at`: that cell is open
/// no more, and each of its four neighbours that holds no tile is open.
pub open spec fn open_after_placing(
    open: Set<TileMatrixCoords>,
    occupied_after: Set<TileMatrixCoords>,
    at: TileMatrixCoords,
) -> Set<TileMatrixCoords> {
    with_neighbor(
        with_neighbor(
            with_neighbor(
                with_neighbor(open.remove(at), occupied_after, at, TileDirection::North),
                occupied_after,
                at,
                TileDirection::East,
            ),
            occupied_after,
            at,
            TileDirection::South,
        ),
        occupied_after,
        at,
        TileDirection::West,
    )
}

/// Placing a tile on an open cell keeps the open cells what they must be:
/// the cells without a tile that lie next to a cell with one.
pub proof fn lemma_open_after_placing(
    occupied: Set<TileMatrixCoords>,
    open: Set<TileMatrixCoords>,
    at: TileMatrixCoords,
    c: TileMatrixCoords,
)
    requires
        !occupied.contains(at),
        open.contains(at),
        (forall|e: TileMatrixCoords| !occupied.contains(e)) ==> (forall|e: TileMatrixCoords|
            open.contains(e) ==> e == at),
        (exists|e: TileMatrixCoords| occupied.contains(e)) ==> (forall|e: TileMatrixCoords|
            open.contains(e) <==> is_frontier(occupied, e)),
    ensures
        open_after_placing(open, occupied.insert(at), at).contains(c) <==> is_frontier(
            occupied.insert(at),
            c,
        ),
{
    let after = occupied.insert(at);
    lemma_neighbor_symmetric(at, c, TileDirection::North);
    lemma_neighbor_symmetric(at, c, TileDirection::East);
    lemma_neighbor_symmetric(at, c, TileDirection::South);
    lemma_neighbor_symmetric(at, c, TileDirection::West);
    let reached = adjacent(at, c) && !after.contains(c);
    assert(open_after_placing(open, after, at).contains(c) <==> (open.remove(at).contains(c)
        || reached));
    if exists|e: TileMatrixCoords| occupied.contains(e) {
        assert(open.contains(c) <==> is_frontier(occupied, c));
    } else {
        assert(forall|e: TileMatrixCoords| !occupied.contains(e));
        assert(open.contains(c) ==> c == at);
        assert(!touches(occupied, c));
    }
}

/// The cells whose keys the map holds.
pub open spec fn cells_of(matrix: Map<u64, TileIndex>) -> Set<TileMatrixCoords> {
    Set::new(|c: TileMatrixCoords| matrix.contains_key(c.key_spec()))
}

/// Considers the neighbour of `at` in direction `d`: if it exists, holds
/// no tile and is not listed yet, it is added to the list of open cells.
fn open_neighbor(
    open_slots: &mut Vec<TileMatrixCoords>,
    matrix: &HashMap<u64, TileIndex>,
    at: TileMatrixCoords,
    d: TileDirection,
)
    requires
        old(open_slots)@.no_duplicates(),
    ensures
        final(open_slots)@.no_duplicates(),
        final(open_slots)@.to_set() == with_neighbor(
            old(open_slots)@.to_set(),
            cells_of(matrix@),
            at,
            d,
        ),
{
    match at.neighbor(d) {
        None => {},
        Some(n) => {
            let k: u64 = n.key();
            if !matrix.contains_key(&k) {
                match position_of(open_slots, n) {
                    None => {
                        open_slots.push(n);
                        proof {
                            let before = old(open_slots)@;
                            assert(open_slots@ == before.push(n));
                            assert(open_slots@.to_set() =~= before.to_set().insert(n)) by {
                                assert forall|c: TileMatrixCoords|
                                    open_slots@.to_set().contains(c) <==> before.to_set().insert(
                                        n,
                                    ).contains(c) by {
                                    if open_slots@.contains(c) {
                                        let j = choose|j: int|
                                            0 <= j < open_slots@.len() && open_slots@[j] == c;
                                        if j < before.len() {
                                            assert(before[j] == c);
                                        }
                                    }
                                    if before.contains(c) {
                                        let j = choose|j: int|
                                            0 <= j < before.len() && before[j] == c;
                                        assert(open_slots@[j] == c);
                                    }
                                    if c == n {
                                        assert(open_slots@[before.len() as int] == n);
                                    }
                                }
                            }
                        }
                    },
                    Some(i) => {
                        proof {
                            assert(open_slots@[i as int] == n);
                            assert(open_slots@.to_set() =~= open_slots@.to_set().insert(n));
                        }
                    },
                }
            }
        },
    }
}

/// Taking one entry out of a list without repetitions takes that cell out
/// of the set of its entries.
pub proof fn lemma_remove_entry(list: Seq<TileMatrixCoords>, i: int)
    requires
        list.no_duplicates(),
        0 <= i < list.len(),
    ensures
        list.remove(i).no_duplicates(),
        list.remove(i).to_set() == list.to_set().remove(list[i]),
{
    let rest = list.remove(i);
    assert forall|c: TileMatrixCoords| rest.to_set().contains(c) <==> list.to_set().remove(
        list[i],
    ).contains(c) by {
        if rest.contains(c) {
            let j = choose|j: int| 0 <= j < rest.len() && rest[j] == c;
            if j < i {
                assert(list[j] == c);
            } else {
                assert(list[j + 1] == c);
            }
        }
        if list.contains(c) && c != list[i] {
            let j = choose|j: int| 0 <= j < list.len() && list[j] == c;
            if j < i {
                assert(rest[j] == c);
            } else {
                assert(rest[j - 1] == c);
            }
        }
    }
    assert(rest.to_set() =~= list.to_set().remove(list[i]));
}

/// The place of `c` in the list, if it is there.
pub fn position_of(list: &Vec<TileMatrixCoords>, c: TileMatrixCoords) -> (r: Option<usize>)
    ensures
        match r {
            Some(i) => i < list.len() && list[i as int] == c,
            None => !list@.contains(c),
        },
{
    let mut i: usize = 0;
    while i < list.len()
        invariant
            i <= list.len(),
            forall|j: int| 0 <= j < i ==> list[j] != c,
        decreases list.len() - i,
    {
        if list[i] == c {
            return Some(i);
        }
        i += 1;
    }
    None
}

/// The grid of placed tiles with the cells that are open for the next one.
#[derive(Debug, Clone)]
pub struct BoardGrid {
    /// For each cell that holds a tile, under the cell's key, the tile.
    pub board_tile_matrix: HashMap<u64, TileIndex>,
    /// The tiles in the order in which they were placed; a tile's index is
    /// its place in this list.
    pub placed_tiles: Vec<PlacedTile>,
    /// The open cells, each once.
    pub open_slots: Vec<TileMatrixCoords>,
}

impl BoardGrid {
    /// Which tile each cell holds.
    pub open spec fn tile_at_map(&self) -> Map<TileMatrixCoords, TileIndex> {
        Map::new(
            |c: TileMatrixCoords| self.board_tile_matrix@.contains_key(c.key_spec()),
            |c: TileMatrixCoords| self.board_tile_matrix@[c.key_spec()],
        )
    }

    /// Where each tile lies.
    pub open spec fn coordinate_of_map(&self) -> Map<TileIndex, TileMatrixCoords> {
        Map::new(
            |t: TileIndex| t < self.placed_tiles@.len(),
            |t: TileIndex| self.placed_tiles@[t as int].coords,
        )
    }

    /// The cells that hold a tile.
    pub open spec fn occupied(&self) -> Set<TileMatrixCoords> {
        cells_of(self.board_tile_matrix@)
    }

    /// The cells that are open for the next tile.
    pub open spec fn open_set(&self) -> Set<TileMatrixCoords> {
        self.open_slots@.to_set()
    }

    /// No cell holds a tile.
    pub open spec fn is_empty_spec(&self) -> bool {
        self.placed_tiles@.len() == 0
    }

    /// The two maps are inverses of each other.
    pub open spec fn maps_inverse(&self) -> bool {
        forall|c: TileMatrixCoords, t: TileIndex|
            self.tile_at_map().contains_pair(c, t) <==> self.coordinate_of_map().contains_pair(t, c)
    }

    /// The board is consistent: the map of cells and the list of tiles
    /// agree, no open cell is listed twice, and the open cells are exactly
    /// the cells without a tile next to a cell with one; while the board
    /// is empty, no cell but the origin can be open.
    pub open spec fn wf(&self) -> bool {
        &&& forall|t: int|
            0 <= t < self.placed_tiles@.len() ==> self.board_tile_matrix@.contains_key(
                (#[trigger] self.placed_tiles@[t]).coords.key_spec(),
            ) && self.board_tile_matrix@[self.placed_tiles@[t].coords.key_spec()] == t
        &&& forall|k: u64| #[trigger]
            self.board_tile_matrix@.contains_key(k) ==> self.board_tile_matrix@[k]
                < self.placed_tiles@.len()
                && self.placed_tiles@[self.board_tile_matrix@[k] as int].coords.key_spec() == k
        &&& self.open_slots@.no_duplicates()
        &&& if self.is_empty_spec() {
            forall|c: TileMatrixCoords| self.open_set().contains(c) ==> c == origin()
        } else {
            forall|c: TileMatrixCoords|
                self.open_set().contains(c) <==> is_frontier(self.occupied(), c)
        }
    }

    /// On a consistent board the cell of a tile and the tile of a cell
    /// answer each other, and no open cell holds a tile.
    pub proof fn lemma_consistent(&self)
        requires
            self.wf(),
        ensures
            self.maps_inverse(),
            forall|c: TileMatrixCoords| self.open_set().contains(c) ==> !self.occupied().contains(c),
            self.is_empty_spec() ==> forall|c: TileMatrixCoords|
                self.open_set().contains(c) ==> c == origin(),
            !self.is_empty_spec() ==> forall|c: TileMatrixCoords|
                self.open_set().contains(c) <==> is_frontier(self.occupied(), c),
            self.occupied() == self.tile_at_map().dom(),
            self.is_empty_spec() <==> (forall|c: TileMatrixCoords| !self.occupied().contains(c)),
            self.is_empty_spec() <==> self.tile_at_map() == Map::<
                TileMatrixCoords,
                TileIndex,
            >::empty(),
    {
        assert forall|c: TileMatrixCoords, t: TileIndex|
            self.tile_at_map().contains_pair(c, t) <==> self.coordinate_of_map().contains_pair(
                t,
                c,
            ) by {
            if self.tile_at_map().contains_pair(c, t) {
                let k = c.key_spec();
                assert(self.board_tile_matrix@.contains_key(k));
                lemma_key_injective(self.placed_tiles@[t as int].coords, c);
            }
            if self.coordinate_of_map().contains_pair(t, c) {
                assert(self.placed_tiles@[t as int].coords == c);
            }
        }
        if self.is_empty_spec() {
            assert forall|c: TileMatrixCoords| !self.occupied().contains(c) by {
                if self.occupied().contains(c) {
                    assert(self.board_tile_matrix@.contains_key(c.key_spec()));
                }
            }
            assert(self.tile_at_map() =~= Map::<TileMatrixCoords, TileIndex>::empty());
        } else {
            let c = self.placed_tiles@[0].coords;
            assert(self.board_tile_matrix@.contains_key(c.key_spec()));
            assert(self.occupied().contains(c));
            assert(self.tile_at_map().contains_key(c));
        }
        assert(self.occupied() =~= self.tile_at_map().dom());
        assert forall|c: TileMatrixCoords| self.open_set().contains(c) implies !self.occupied().contains(
            c,
        ) by {
            if self.is_empty_spec() {
                if self.occupied().contains(c) {
                    assert(self.board_tile_matrix@.contains_key(c.key_spec()));
                }
            }
        }
    }

    /// A board without tiles and without open cells.
    pub fn new() -> (r: BoardGrid)
        ensures
            r.wf(),
            r.is_empty_spec(),
            r.tile_at_map() == Map::<TileMatrixCoords, TileIndex>::empty(),
            r.coordinate_of_map() == Map::<TileIndex, TileMatrixCoords>::empty(),
            r.open_set() == Set::<TileMatrixCoords>::empty(),
    {
        let r = BoardGrid {
            board_tile_matrix: HashMap::new(),
            placed_tiles: Vec::new(),
            open_slots: Vec::new(),
        };
        proof {
            assert(r.tile_at_map() =~= Map::<TileMatrixCoords, TileIndex>::empty());
            assert(r.coordinate_of_map() =~= Map::<TileIndex, TileMatrixCoords>::empty());
            assert(r.open_set() =~= Set::<TileMatrixCoords>::empty());
        }
        r
    }

    /// The tile that the cell holds, if it holds one.
    pub fn tile_at(&self, coord: TileMatrixCoords) -> (r: Option<TileIndex>)
        ensures
            r == if self.tile_at_map().contains_key(coord) {
                Some(self.tile_at_map()[coord])
            } else {
                None
            },
    {
        let k: u64 = coord.key();
        match self.board_tile_matrix.get(&k) {
            Some(t) => Some(*t),
            None => None,
        }
    }

    /// The cell in which the tile lies, if it has been placed.
    pub fn coordinate_of(&self, tile: TileIndex) -> (r: Option<TileMatrixCoords>)
        ensures
            r == if self.coordinate_of_map().contains_key(tile) {
                Some(self.coordinate_of_map()[tile])
            } else {
                None
            },
    {
        if tile < self.placed_tiles.len() {
            Some(self.placed_tiles[tile].coords)
        } else {
            None
        }
    }

    /// The placed tile with the given index, if there is one.
    pub fn placed_tile(&self, tile: TileIndex) -> (r: Option<PlacedTile>)
        ensures
            r == if tile < self.placed_tiles@.len() {
                Some(self.placed_tiles@[tile as int])
            } else {
                None
            },
    {
        if tile < self.placed_tiles.len() {
            Some(self.placed_tiles[tile])
        } else {
            None
        }
    }

    /// The index that the next tile will get: the number of tiles placed.
    pub fn next_tile_index(&self) -> (r: TileIndex)
        ensures
            r == self.placed_tiles@.len(),
    {
        self.placed_tiles.len()
    }

    /// Tells whether the cell is open for the next tile.
    pub fn is_open(&self, coord: TileMatrixCoords) -> (r: bool)
        ensures
            r == self.open_set().contains(coord),
    {
        position_of(&self.open_slots, coord).is_some()
    }

    /// The open cells, each once.
    pub fn query_open_slots(&self) -> (r: Vec<TileMatrixCoords>)
        ensures
            r@ == self.open_slots@,
            r@.to_set() == self.open_set(),
            self.wf() ==> r@.no_duplicates(),
    {
        let mut r: Vec<TileMatrixCoords> = Vec::new();
        let mut i: usize = 0;
        while i < self.open_slots.len()
            invariant
                i <= self.open_slots.len(),
                r@ == self.open_slots@.take(i as int),
            decreases self.open_slots.len() - i,
        {
            r.push(self.open_slots[i]);
            proof {
                assert(r@ =~= self.open_slots@.take(i + 1));
            }
            i += 1;
        }
        proof {
            assert(self.open_slots@.take(i as int) =~= self.open_slots@);
        }
        r
    }

    /// Opens the origin if the board is empty. On a board with a tile, or
    /// with the origin open already, nothing changes.
    pub fn initialize(&mut self)
        requires
            old(self).wf(),
        ensures
            final(self).wf(),
            final(self).maps_inverse(),
            forall|c: TileMatrixCoords|
                final(self).open_set().contains(c) ==> !final(self).occupied().contains(c),
            final(self).board_tile_matrix == old(self).board_tile_matrix,
            final(self).placed_tiles == old(self).placed_tiles,
            final(self).open_set() == if old(self).is_empty_spec() {
                set![origin()]
            } else {
                old(self).open_set()
            },
            !old(self).is_empty_spec() ==> *final(self) == *old(self),
    {
        if self.placed_tiles.len() == 0 {
            let o = TileMatrixCoords { x: 0, y: 0 };
            match position_of(&self.open_slots, o) {
                None => {
                    proof {
                        assert(self.open_slots@ =~= Seq::empty()) by {
                            if self.open_slots@.len() > 0 {
                                assert(self.open_set().contains(self.open_slots@[0]));
                            }
                        }
                    }
                    self.open_slots.push(o);
                    proof {
                        assert(self.open_slots@ =~= seq![o]);
                        assert(self.open_slots@[0] == o);
                    }
                },
                Some(i) => {
                    assert(self.open_slots@[i as int] == o);
                },
            }
            proof {
                assert(self.open_slots@.contains(o));
                assert(self.open_set() =~= set![origin()]);
            }
        }
        proof {
            self.lemma_consistent();
        }
    }

    /// Places a tile on the open cell `at`. The tile gets the next index,
    /// the cell is open no more, and each of its four neighbours that
    /// holds no tile is open from now on. On a cell that is not open
    /// nothing changes.
    pub fn place_tile(
        &mut self,
        at: TileMatrixCoords,
        tile_def_index: TileIndex,
        rotation: TileDirection,
    ) -> (r: Result<TileIndex, IllegalPlacement>)
        requires
            old(self).wf(),
        ensures
            final(self).wf(),
            final(self).maps_inverse(),
            forall|c: TileMatrixCoords|
                final(self).open_set().contains(c) ==> !final(self).occupied().contains(c),
            match r {
                Ok(t) => {
                    &&& old(self).open_set().contains(at)
                    &&& t == old(self).placed_tiles@.len()
                    &&& final(self).placed_tiles@ == old(self).placed_tiles@.push(
                        PlacedTile { tile_def_index, coords: at, rotation },
                    )
                    &&& final(self).tile_at_map() == old(self).tile_at_map().insert(at, t)
                    &&& final(self).coordinate_of_map() == old(self).coordinate_of_map().insert(
                        t,
                        at,
                    )
                    &&& final(self).occupied() == old(self).occupied().insert(at)
                    &&& final(self).open_set() == open_after_placing(
                        old(self).open_set(),
                        final(self).occupied(),
                        at,
                    )
                },
                Err(e) => {
                    &&& !old(self).open_set().contains(at)
                    &&& *final(self) == *old(self)
                    &&& e == if old(self).occupied().contains(at) {
                        IllegalPlacement::Occupied
                    } else {
                        IllegalPlacement::NotOpen
                    }
                },
            },
    {
        proof {
            self.lemma_consistent();
        }
        let k: u64 = at.key();
        if self.board_tile_matrix.contains_key(&k) {
            return Err(IllegalPlacement::Occupied);
        }
        match position_of(&self.open_slots, at) {
            None => Err(IllegalPlacement::NotOpen),
            Some(i) => {
                let t: TileIndex = self.placed_tiles.len();
                let ghost open_before = self.open_slots@;
                self.open_slots.remove(i);
                self.placed_tiles.push(PlacedTile { tile_def_index, coords: at, rotation });
                self.board_tile_matrix.insert(k, t);
                proof {
                    assert(open_before[i as int] == at);
                    assert(old(self).open_set().contains(at));
                    lemma_remove_entry(open_before, i as int);
                    assert(self.occupied() =~= old(self).occupied().insert(at)) by {
                        assert forall|c: TileMatrixCoords|
                            self.occupied().contains(c) <==> old(self).occupied().insert(
                                at,
                            ).contains(c) by {
                            lemma_key_injective(c, at);
                        }
                    }
                }
                open_neighbor(
                    &mut self.open_slots,
                    &self.board_tile_matrix,
                    at,
                    TileDirection::North,
                );
                open_neighbor(
                    &mut self.open_slots,
                    &self.board_tile_matrix,
                    at,
                    TileDirection::East,
                );
                open_neighbor(
                    &mut self.open_slots,
                    &self.board_tile_matrix,
                    at,
                    TileDirection::South,
                );
                open_neighbor(
                    &mut self.open_slots,
                    &self.board_tile_matrix,
                    at,
                    TileDirection::West,
                );
                proof {
                    assert(self.open_set() == open_after_placing(
                        old(self).open_set(),
                        self.occupied(),
                        at,
                    ));
                    assert(self.tile_at_map() =~= old(self).tile_at_map().insert(at, t)) by {
                        assert forall|c: TileMatrixCoords|
                            self.tile_at_map().contains_key(c) <==> old(
                                self,
                            ).tile_at_map().insert(at, t).contains_key(c) by {
                            lemma_key_injective(c, at);
                        }
                        assert forall|c: TileMatrixCoords|
                            self.tile_at_map().contains_key(c) implies self.tile_at_map()[c]
                            == old(self).tile_at_map().insert(at, t)[c] by {
                            lemma_key_injective(c, at);
                        }
                    }
                    assert(self.coordinate_of_map() =~= old(self).coordinate_of_map().insert(
                        t,
                        at,
                    ));
                    assert forall|u: int| 0 <= u < self.placed_tiles@.len() implies
                        self.board_tile_matrix@.contains_key(
                        (#[trigger] self.placed_tiles@[u]).coords.key_spec(),
                    ) && self.board_tile_matrix@[self.placed_tiles@[u].coords.key_spec()] == u by {
                        if u < t {
                            assert(self.placed_tiles@[u] == old(self).placed_tiles@[u]);
                        }
                    }
                    assert forall|c: TileMatrixCoords|
                        self.open_set().contains(c) <==> is_frontier(self.occupied(), c) by {
                        if old(self).is_empty_spec() {
                            assert(at == origin());
                        }
                        lemma_open_after_placing(
                            old(self).occupied(),
                            old(self).open_set(),
                            at,
                            c,
                        );
                    }
                    self.lemma_consistent();
                }
                Ok(t)
            },
        }
    }
}

} // verus!
