//! Regions across tiles: every area of every placed tile is a region
//! instance, and instances whose segments touch along the edge of two
//! adjacent tiles are joined when their kinds agree.
use vstd::prelude::*;
use crate::catalog::{GameTileData, GameTileDataView};
use crate::game_board::{BoardGrid, PlacedTile, TileMatrixCoords};
use crate::region_union::{compressed, grow_spec, lemma_union_joins, union_spec, RegionUnion};
use crate::segments::{
    facing_segment, facing_segment_spec, relative_segment, relative_segment_spec, touching_segment,
    touching_segment_spec, EdgeNumber, TileDirection,
};
use crate::tiles::{
    areas_view, covered, owns, segments_partitioned, AreaType, TileArea, TileAreaView, TileIndex,
};

verus! {

/// Whether areas of these two kinds, touching across an edge, are one
/// region: road with road, a road's end with a road, town with town with
/// or without pennant, farm with farm, water with water.
pub open spec fn compatible_spec(a: AreaType, b: AreaType) -> bool {
    match (a, b) {
        (AreaType::Road, AreaType::Road) => true,
        (AreaType::EndRoad, AreaType::Road) => true,
        (AreaType::Road, AreaType::EndRoad) => true,
        (AreaType::Town, AreaType::Town) => true,
        (AreaType::Town, AreaType::PennantTown) => true,
        (AreaType::PennantTown, AreaType::Town) => true,
        (AreaType::PennantTown, AreaType::PennantTown) => true,
        (AreaType::Farm, AreaType::Farm) => true,
        (AreaType::Water, AreaType::Water) => true,
        _ => false,
    }
}

/// Tells whether areas of these two kinds, touching across an edge, are
/// one region.
pub fn compatible(a: AreaType, b: AreaType) -> (r: bool)
    ensures
        r == compatible_spec(a, b),
        r == compatible_spec(b, a),
{
    match (a, b) {
        (AreaType::Road, AreaType::Road) => true,
        (AreaType::EndRoad, AreaType::Road) => true,
        (AreaType::Road, AreaType::EndRoad) => true,
        (AreaType::Town, AreaType::Town) => true,
        (AreaType::Town, AreaType::PennantTown) => true,
        (AreaType::PennantTown, AreaType::Town) => true,
        (AreaType::PennantTown, AreaType::PennantTown) => true,
        (AreaType::Farm, AreaType::Farm) => true,
        (AreaType::Water, AreaType::Water) => true,
        _ => false,
    }
}

/// Area `i` lists the segment `s`.
pub open spec fn owns_segment(areas: Seq<TileAreaView>, i: int, s: int) -> bool {
    exists|j: int| #[trigger] owns(areas, i, j, s)
}

/// The area, among `areas`, that owns the segment `s`.
pub open spec fn owner_spec(areas: Seq<TileAreaView>, s: int) -> int {
    choose|i: int| #[trigger] owns_segment(areas, i, s)
}

/// Where the areas divide the twelve segments, the owner of a segment is
/// the one area that lists it.
pub proof fn lemma_owner_unique(areas: Seq<TileAreaView>, i: int, j: int, s: int)
    requires
        segments_partitioned(areas),
        owns(areas, i, j, s),
    ensures
        owner_spec(areas, s) == i,
{
    assert(owns_segment(areas, i, s));
    let w = owner_spec(areas, s);
    assert(owns_segment(areas, w, s));
    let jw = choose|jw: int| #[trigger] owns(areas, w, jw, s);
    assert(areas[w].edges[jw] == areas[i].edges[j]);
}

/// Finds the area that owns the segment `s`.
pub fn owner_of_segment(areas: &[TileArea], s: EdgeNumber) -> (r: usize)
    requires
        segments_partitioned(areas_view(areas@)),
        s < 12,
    ensures
        r < areas@.len(),
        r == owner_spec(areas_view(areas@), s as int),
        owns_segment(areas_view(areas@), r as int, s as int),
{
    let ghost av = areas_view(areas@);
    let mut i: usize = 0;
    while i < areas.len()
        invariant
            i <= areas.len(),
            av == areas_view(areas@),
            segments_partitioned(av),
            forall|i2: int, j2: int|
                0 <= i2 < i && 0 <= j2 < av[i2].edges.len() ==> #[trigger] av[i2].edges[j2] != s,
        decreases areas.len() - i,
    {
        let mut j: usize = 0;
        while j < areas[i].edges.len()
            invariant
                i < areas.len(),
                j <= areas[i as int].edges.len(),
                av == areas_view(areas@),
                segments_partitioned(av),
                forall|i2: int, j2: int|
                    0 <= i2 < i && 0 <= j2 < av[i2].edges.len() ==> #[trigger] av[i2].edges[j2]
                        != s,
                forall|j2: int| 0 <= j2 < j ==> #[trigger] av[i as int].edges[j2] != s,
            decreases areas[i as int].edges.len() - j,
        {
            if areas[i].edges[j] == s {
                proof {
                    assert(av[i as int].edges[j as int] == s);
                    assert(owns(av, i as int, j as int, s as int));
                    lemma_owner_unique(av, i as int, j as int, s as int);
                }
                return i;
            }
            j += 1;
        }
        i += 1;
    }
    proof {
        assert(covered(av, s as int));
        let (i2, j2) = choose|i2: int, j2: int|
            0 <= i2 < av.len() && 0 <= j2 < av[i2].edges.len() && #[trigger] av[i2].edges[j2] == s;
        assert(false);
    }
    0
}

/// How many areas a placed tile has.
pub open spec fn area_count(catalog: GameTileDataView, tile: PlacedTile) -> int {
    catalog.all_tiles[tile.tile_def_index as int].areas.len() as int
}

/// The area of a placed tile that owns the segment which lies, on the
/// board, at the absolute position `segment` of the tile.
pub open spec fn area_at(catalog: GameTileDataView, tile: PlacedTile, segment: int) -> int {
    owner_spec(
        catalog.tile_areas(tile.tile_def_index as int),
        relative_segment_spec(segment, tile.rotation.steps()),
    )
}

/// The kind of the area with the given number on a placed tile.
pub open spec fn area_type_of(catalog: GameTileDataView, tile: PlacedTile, area: int) -> AreaType {
    catalog.tile_areas(tile.tile_def_index as int)[area].area_type
}

/// The partition after the pair of segments `k` places along the edge
/// between tile `t` and its neighbour `o` in direction `d` has been
/// looked at: the two areas that own them are joined if their kinds agree.
pub open spec fn touch_spec(
    roots: Seq<int>,
    firsts: Seq<usize>,
    catalog: GameTileDataView,
    placed: Seq<PlacedTile>,
    t: int,
    o: int,
    d: TileDirection,
    k: int,
) -> Seq<int> {
    let mine = area_at(catalog, placed[t], facing_segment_spec(d, k));
    let theirs = area_at(catalog, placed[o], touching_segment_spec(d, k));
    if compatible_spec(
        area_type_of(catalog, placed[t], mine),
        area_type_of(catalog, placed[o], theirs),
    ) {
        union_spec(roots, firsts[t] + mine, firsts[o] + theirs)
    } else {
        roots
    }
}

/// The partition after the edge of tile `t` that faces `d` has been looked
/// at: if a tile lies beyond it, the three pairs of touching segments are
/// taken in turn.
pub open spec fn join_spec(
    roots: Seq<int>,
    firsts: Seq<usize>,
    catalog: GameTileDataView,
    placed: Seq<PlacedTile>,
    tile_at: Map<TileMatrixCoords, TileIndex>,
    t: int,
    d: TileDirection,
) -> Seq<int> {
    match placed[t].coords.neighbor_spec(d) {
        Some(n) => if tile_at.contains_key(n) {
            let o = tile_at[n] as int;
            touch_spec(
                touch_spec(
                    touch_spec(roots, firsts, catalog, placed, t, o, d, 0),
                    firsts,
                    catalog,
                    placed,
                    t,
                    o,
                    d,
                    1,
                ),
                firsts,
                catalog,
                placed,
                t,
                o,
                d,
                2,
            )
        } else {
            roots
        },
        None => roots,
    }
}

/// The partition after all four edges of tile `t` have been looked at,
/// north first, then clockwise.
pub open spec fn merged_spec(
    roots: Seq<int>,
    firsts: Seq<usize>,
    catalog: GameTileDataView,
    placed: Seq<PlacedTile>,
    tile_at: Map<TileMatrixCoords, TileIndex>,
    t: int,
) -> Seq<int> {
    join_spec(
        join_spec(
            join_spec(
                join_spec(roots, firsts, catalog, placed, tile_at, t, TileDirection::North),
                firsts,
                catalog,
                placed,
                tile_at,
                t,
                TileDirection::East,
            ),
            firsts,
            catalog,
            placed,
            tile_at,
            t,
            TileDirection::South,
        ),
        firsts,
        catalog,
        placed,
        tile_at,
        t,
        TileDirection::West,
    )
}

/// The nodes of the two areas that own the pair of segments `k` places
/// along the edge between tile `t` and its neighbour `o` in direction `d`.
pub open spec fn touching_nodes(
    firsts: Seq<usize>,
    catalog: GameTileDataView,
    placed: Seq<PlacedTile>,
    t: int,
    o: int,
    d: TileDirection,
    k: int,
) -> (int, int) {
    (
        firsts[t] + area_at(catalog, placed[t], facing_segment_spec(d, k)),
        firsts[o] + area_at(catalog, placed[o], touching_segment_spec(d, k)),
    )
}

/// The two areas that own the pair of segments `k` places along the edge
/// between tile `t` and its neighbour `o` are of kinds that agree.
pub open spec fn touching_compatible(
    catalog: GameTileDataView,
    placed: Seq<PlacedTile>,
    t: int,
    o: int,
    d: TileDirection,
    k: int,
) -> bool {
    compatible_spec(
        area_type_of(catalog, placed[t], area_at(catalog, placed[t], facing_segment_spec(d, k))),
        area_type_of(
            catalog,
            placed[o],
            area_at(catalog, placed[o], touching_segment_spec(d, k)),
        ),
    )
}

/// In the partition `roots`, whichever of the three pairs of areas that
/// touch across the edge between tile `t` and its neighbour `o` are of
/// kinds that agree are in one region.
pub open spec fn edge_joined(
    roots: Seq<int>,
    firsts: Seq<usize>,
    catalog: GameTileDataView,
    placed: Seq<PlacedTile>,
    t: int,
    o: int,
    d: TileDirection,
) -> bool {
    forall|k: int|
        0 <= k < 3 && #[trigger] touching_compatible(catalog, placed, t, o, d, k) ==> {
            let (a, b) = touching_nodes(firsts, catalog, placed, t, o, d, k);
            0 <= a < roots.len() && 0 <= b < roots.len() && roots[a] == roots[b]
        }
}

/// In the partition `roots`, if a tile lies next to tile `t` in direction
/// `d`, the areas that touch across the edge between the two are in one
/// region wherever their kinds agree.
pub open spec fn neighbor_joined(
    roots: Seq<int>,
    firsts: Seq<usize>,
    catalog: GameTileDataView,
    placed: Seq<PlacedTile>,
    tile_at: Map<TileMatrixCoords, TileIndex>,
    t: int,
    d: TileDirection,
) -> bool {
    match placed[t].coords.neighbor_spec(d) {
        Some(n) => tile_at.contains_key(n) ==> edge_joined(
            roots,
            firsts,
            catalog,
            placed,
            t,
            tile_at[n] as int,
            d,
        ),
        None => true,
    }
}

/// An edge that is joined stays joined while regions only grow together.
pub proof fn lemma_neighbor_stays_joined(
    before: Seq<int>,
    after: Seq<int>,
    firsts: Seq<usize>,
    catalog: GameTileDataView,
    placed: Seq<PlacedTile>,
    tile_at: Map<TileMatrixCoords, TileIndex>,
    t: int,
    d: TileDirection,
)
    requires
        keeps_together(before, after),
        neighbor_joined(before, firsts, catalog, placed, tile_at, t, d),
    ensures
        neighbor_joined(after, firsts, catalog, placed, tile_at, t, d),
{
    match placed[t].coords.neighbor_spec(d) {
        Some(n) => {
            if tile_at.contains_key(n) {
                let o = tile_at[n] as int;
                assert forall|k: int|
                    0 <= k < 3 && #[trigger] touching_compatible(
                        catalog,
                        placed,
                        t,
                        o,
                        d,
                        k,
                    ) implies {
                    let (a, b) = touching_nodes(firsts, catalog, placed, t, o, d, k);
                    0 <= a < after.len() && 0 <= b < after.len() && after[a] == after[b]
                } by {
                    let (a, b) = touching_nodes(firsts, catalog, placed, t, o, d, k);
                    assert(before[a] == before[b]);
                }
            }
        },
        None => {},
    }
}

/// Whatever was one region in `before` is one region in `after`: regions
/// grow together and never come apart.
pub open spec fn keeps_together(before: Seq<int>, after: Seq<int>) -> bool {
    &&& after.len() == before.len()
    &&& forall|x: int, y: int|
        0 <= x < before.len() && 0 <= y < before.len() && before[x] == before[y]
            ==> #[trigger] after[x] == #[trigger] after[y]
}

/// Growing together goes on through any number of steps.
pub proof fn lemma_keeps_together_transitive(a: Seq<int>, b: Seq<int>, c: Seq<int>)
    requires
        keeps_together(a, b),
        keeps_together(b, c),
    ensures
        keeps_together(a, c),
{
    assert forall|x: int, y: int|
        0 <= x < a.len() && 0 <= y < a.len() && a[x] == a[y] implies #[trigger] c[x]
        == #[trigger] c[y] by {
        assert(b[x] == b[y]);
    }
}

/// Names a region: the smallest node of its class.
#[derive(Clone, Copy, Debug, PartialEq, Eq, Structural, Hash)]
pub struct RegionHandle {
    pub root: usize,
}

/// The regions of the board. Every area of every placed tile is a node of
/// the forest; the nodes of a tile stand side by side, tile after tile.
#[derive(Debug, Clone)]
pub struct RegionMerger {
    pub regions: RegionUnion,
    /// For each placed tile the node of its first area.
    pub tile_first: Vec<usize>,
    /// For each placed tile the number of its areas.
    pub tile_count: Vec<usize>,
    /// For each node the tile that it belongs to.
    pub node_tile: Vec<TileIndex>,
}

impl RegionMerger {
    /// The node at which the areas of tile `t` begin: where those of the
    /// tile before it end.
    pub open spec fn start(&self, t: int) -> int {
        if t <= 0 {
            0
        } else {
            self.tile_first@[t - 1] + self.tile_count@[t - 1]
        }
    }

    /// The node of the area with the given number on the given tile.
    pub open spec fn node_spec(&self, tile: int, area: int) -> int {
        self.tile_first@[tile] + area
    }

    /// `(tile, area)` names an area of a placed tile.
    pub open spec fn has_area(&self, tile: int, area: int) -> bool {
        0 <= tile < self.tile_count@.len() && 0 <= area < self.tile_count@[tile]
    }

    /// The forest and the lists agree.
    pub open spec fn wf(&self) -> bool {
        &&& self.regions.wf()
        &&& self.tile_first@.len() == self.tile_count@.len()
        &&& forall|t: int|
            0 <= t < self.tile_first@.len() ==> #[trigger] self.tile_first@[t] == self.start(t)
                && self.tile_first@[t] + self.tile_count@[t] <= self.regions@.len()
        &&& self.regions@.len() == self.start(self.tile_first@.len() as int)
        &&& self.node_tile@.len() == self.regions@.len()
        &&& forall|n: int|
            0 <= n < self.node_tile@.len() ==> (#[trigger] self.node_tile@[n])
                < self.tile_first@.len() && self.tile_first@[self.node_tile@[n] as int] <= n
                < self.tile_first@[self.node_tile@[n] as int]
                + self.tile_count@[self.node_tile@[n] as int]
    }

    /// The merger knows the tiles `placed`, with as many areas each as the
    /// catalog says.
    pub open spec fn matches(&self, placed: Seq<PlacedTile>, catalog: GameTileDataView) -> bool {
        &&& self.tile_count@.len() == placed.len()
        &&& forall|t: int|
            0 <= t < placed.len() ==> (#[trigger] placed[t]).tile_def_index
                < catalog.all_tiles.len() && self.tile_count@[t] == area_count(catalog, placed[t])
    }

    /// A merger that knows no tile.
    pub fn new() -> (r: RegionMerger)
        ensures
            r.wf(),
            r.regions@ == Seq::<int>::empty(),
            r.tile_first@ == Seq::<usize>::empty(),
            r.tile_count@ == Seq::<usize>::empty(),
            r.node_tile@ == Seq::<TileIndex>::empty(),
    {
        RegionMerger {
            regions: RegionUnion::new(),
            tile_first: Vec::new(),
            tile_count: Vec::new(),
            node_tile: Vec::new(),
        }
    }

    /// Tells whether `(tile_index, relative_area_index)` names an area of
    /// a placed tile.
    pub fn knows_area(&self, tile_index: TileIndex, relative_area_index: usize) -> (r: bool)
        requires
            self.wf(),
        ensures
            r == self.has_area(tile_index as int, relative_area_index as int),
    {
        tile_index < self.tile_count.len() && relative_area_index < self.tile_count[tile_index]
    }

    /// The node of the area with the given number on the given tile.
    pub fn node(&self, tile_index: TileIndex, relative_area_index: usize) -> (r: usize)
        requires
            self.wf(),
            self.has_area(tile_index as int, relative_area_index as int),
        ensures
            r == self.node_spec(tile_index as int, relative_area_index as int),
            r < self.regions@.len(),
            self.node_tile@[r as int] == tile_index,
    {
        proof {
            assert(self.tile_first@[tile_index as int] + self.tile_count@[tile_index as int]
                <= self.regions@.len());
            assert(self.regions@.len() == self.regions.parent.len());
        }
        let r: usize = self.tile_first[tile_index] + relative_area_index;
        proof {
            let t = self.node_tile@[r as int] as int;
            assert(self.tile_first@[t] <= r < self.tile_first@[t] + self.tile_count@[t]);
            if t < tile_index {
                self.lemma_spans_ordered(t, tile_index as int);
            }
            if tile_index < t {
                self.lemma_spans_ordered(tile_index as int, t);
            }
        }
        r
    }

    /// The nodes of an earlier tile lie before those of a later one.
    pub proof fn lemma_spans_ordered(&self, a: int, b: int)
        requires
            self.wf(),
            0 <= a < b < self.tile_first@.len(),
        ensures
            self.tile_first@[a] + self.tile_count@[a] <= self.tile_first@[b],
        decreases b - a,
    {
        if a + 1 < b {
            self.lemma_spans_ordered(a, b - 1);
        }
        assert(self.tile_first@[b] == self.start(b));
    }

    /// Makes `count` new nodes for the areas of the next tile, each a
    /// region of its own.
    pub fn add_tile(&mut self, count: usize)
        requires
            old(self).wf(),
        ensures
            final(self).wf(),
            final(self).regions@ == grow_spec(old(self).regions@, count as nat),
            final(self).tile_first@ == old(self).tile_first@.push(old(self).regions@.len() as usize),
            final(self).tile_count@ == old(self).tile_count@.push(count),
    {
        let tile: TileIndex = self.tile_first.len();
        let first: usize = self.regions.len();
        let mut made: usize = 0;
        proof {
            assert(self.regions@ =~= grow_spec(old(self).regions@, 0));
        }
        while made < count
            invariant
                made <= count,
                self.regions.wf(),
                self.tile_first == old(self).tile_first,
                self.tile_count == old(self).tile_count,
                old(self).wf(),
                first == old(self).regions@.len(),
                tile == old(self).tile_first@.len(),
                self.regions@ == grow_spec(old(self).regions@, made as nat),
                self.node_tile@ == old(self).node_tile@ + Seq::new(made as nat, |i: int| tile),
            decreases count - made,
        {
            self.regions.add_node();
            self.node_tile.push(tile);
            proof {
                assert(self.regions@ =~= grow_spec(old(self).regions@, (made + 1) as nat));
                assert(self.node_tile@ =~= old(self).node_tile@ + Seq::new(
                    (made + 1) as nat,
                    |i: int| tile,
                ));
            }
            made += 1;
        }
        self.tile_first.push(first);
        self.tile_count.push(count);
        proof {
            assert forall|t: int| 0 <= t < self.tile_first@.len() implies
                #[trigger] self.tile_first@[t] == self.start(t) && self.tile_first@[t]
                + self.tile_count@[t] <= self.regions@.len() by {
                if t < tile {
                    assert(old(self).tile_first@[t] == old(self).start(t));
                }
            }
            assert forall|n: int| 0 <= n < self.node_tile@.len() implies
                (#[trigger] self.node_tile@[n]) < self.tile_first@.len()
                && self.tile_first@[self.node_tile@[n] as int] <= n
                < self.tile_first@[self.node_tile@[n] as int]
                + self.tile_count@[self.node_tile@[n] as int] by {
                if n < first {
                    assert(self.node_tile@[n] == old(self).node_tile@[n]);
                }
            }
        }
    }

    /// The region that the given area of the given tile belongs to. The
    /// links passed on the way are shortened; no region changes.
    pub fn find_region(&mut self, tile_index: TileIndex, relative_area_index: usize) -> (r:
        RegionHandle)
        requires
            old(self).wf(),
            old(self).has_area(tile_index as int, relative_area_index as int),
        ensures
            final(self).wf(),
            final(self).regions@ == old(self).regions@,
            final(self).tile_first == old(self).tile_first,
            final(self).tile_count == old(self).tile_count,
            final(self).node_tile == old(self).node_tile,
            r.root == old(self).regions@[old(self).node_spec(
                tile_index as int,
                relative_area_index as int,
            )],
            final(self).regions.parent@ == compressed(
                old(self).regions.parent@,
                old(self).node_spec(tile_index as int, relative_area_index as int),
            ),
    {
        let n: usize = self.node(tile_index, relative_area_index);
        let root: usize = self.regions.find(n);
        RegionHandle { root }
    }

    /// Tells whether two areas of placed tiles belong to one region.
    pub fn same_region(
        &self,
        tile_a: TileIndex,
        area_a: usize,
        tile_b: TileIndex,
        area_b: usize,
    ) -> (r: bool)
        requires
            self.wf(),
            self.has_area(tile_a as int, area_a as int),
            self.has_area(tile_b as int, area_b as int),
        ensures
            r == (self.regions@[self.node_spec(tile_a as int, area_a as int)]
                == self.regions@[self.node_spec(tile_b as int, area_b as int)]),
    {
        let a: usize = self.node(tile_a, area_a);
        let b: usize = self.node(tile_b, area_b);
        self.regions.same_class(a, b)
    }

    /// All areas of the region, each as its tile and its number on that
    /// tile, in the order in which the tiles were placed and, within a
    /// tile, in the order of the tile's areas.
    pub fn connected_tile_areas(&self, region_handle: RegionHandle) -> (r: Vec<(TileIndex, usize)>)
        requires
            self.wf(),
            region_handle.root < self.regions@.len(),
        ensures
            forall|i: int|
                0 <= i < r.len() ==> self.has_area((#[trigger] r[i]).0 as int, r[i].1 as int)
                    && self.regions@[self.node_spec(r[i].0 as int, r[i].1 as int)]
                    == self.regions@[region_handle.root as int],
            forall|i: int, j: int|
                0 <= i < j < r.len() ==> self.node_spec(r[i].0 as int, r[i].1 as int)
                    < self.node_spec(r[j].0 as int, r[j].1 as int),
            forall|tile: int, area: int|
                self.has_area(tile, area) && self.regions@[#[trigger] self.node_spec(tile, area)]
                    == self.regions@[region_handle.root as int] ==> exists|i: int|
                    0 <= i < r.len() && #[trigger] r[i] == (tile as usize, area as usize),
    {
        let nodes: Vec<usize> = self.regions.members(region_handle.root);
        let mut r: Vec<(TileIndex, usize)> = Vec::new();
        let mut i: usize = 0;
        while i < nodes.len()
            invariant
                i <= nodes.len(),
                self.wf(),
                r.len() == i,
                forall|m: int| 0 <= m < nodes.len() ==> (#[trigger] nodes[m]) < self.regions@.len(),
                forall|m: int|
                    0 <= m < i ==> self.has_area((#[trigger] r[m]).0 as int, r[m].1 as int)
                        && self.node_spec(r[m].0 as int, r[m].1 as int) == nodes[m],
            decreases nodes.len() - i,
        {
            let n: usize = nodes[i];
            let tile: TileIndex = self.node_tile[n];
            let area: usize = n - self.tile_first[tile];
            r.push((tile, area));
            i += 1;
        }
        proof {
            assert forall|tile: int, area: int|
                self.has_area(tile, area) && self.regions@[#[trigger] self.node_spec(tile, area)]
                    == self.regions@[region_handle.root as int] implies exists|i: int|
                0 <= i < r.len() && #[trigger] r[i] == (tile as usize, area as usize) by {
                let n = self.node_spec(tile, area);
                assert(self.tile_first@[tile] + self.tile_count@[tile] <= self.regions@.len());
                let m = choose|m: int| 0 <= m < nodes.len() && #[trigger] nodes[m] == n;
                let t2 = r[m].0 as int;
                if t2 < tile {
                    self.lemma_spans_ordered(t2, tile);
                }
                if tile < t2 {
                    self.lemma_spans_ordered(tile, t2);
                }
                assert(r[m] == (tile as usize, area as usize));
            }
        }
        r
    }

    /// Looks at the pair of segments `k` places along the edge between
    /// tile `t` and its neighbour `o` in direction `d`, and joins the two
    /// areas that own them if their kinds agree.
    fn touch(
        &mut self,
        catalog: &GameTileData,
        board: &BoardGrid,
        t: TileIndex,
        o: TileIndex,
        d: TileDirection,
        k: usize,
    )
        requires
            old(self).wf(),
            catalog@.wf(),
            old(self).matches(board.placed_tiles@, catalog@),
            t < board.placed_tiles@.len(),
            o < board.placed_tiles@.len(),
            k < 3,
        ensures
            final(self).wf(),
            final(self).tile_first == old(self).tile_first,
            final(self).tile_count == old(self).tile_count,
            final(self).node_tile == old(self).node_tile,
            final(self).regions@ == touch_spec(
                old(self).regions@,
                old(self).tile_first@,
                catalog@,
                board.placed_tiles@,
                t as int,
                o as int,
                d,
                k as int,
            ),
            keeps_together(old(self).regions@, final(self).regions@),
            touching_compatible(catalog@, board.placed_tiles@, t as int, o as int, d, k as int)
                ==> {
                let (a, b) = touching_nodes(
                    old(self).tile_first@,
                    catalog@,
                    board.placed_tiles@,
                    t as int,
                    o as int,
                    d,
                    k as int,
                );
                0 <= a < final(self).regions@.len() && 0 <= b < final(self).regions@.len()
                    && final(self).regions@[a] == final(self).regions@[b]
            },
    {
        proof {
            self.regions.lemma_partition();
        }
        let mine_tile: PlacedTile = board.placed_tiles[t];
        let theirs_tile: PlacedTile = board.placed_tiles[o];
        proof {
            assert(board.placed_tiles@[t as int].tile_def_index < catalog@.all_tiles.len());
            assert(board.placed_tiles@[o as int].tile_def_index < catalog@.all_tiles.len());
            assert(catalog@.tile_wf(mine_tile.tile_def_index as int));
            assert(catalog@.tile_wf(theirs_tile.tile_def_index as int));
        }
        let mine_areas = catalog.areas_of(mine_tile.tile_def_index);
        let theirs_areas = catalog.areas_of(theirs_tile.tile_def_index);
        let mine_segment: EdgeNumber = relative_segment(
            facing_segment(d, k),
            mine_tile.rotation.rotation_steps(),
        );
        let theirs_segment: EdgeNumber = relative_segment(
            touching_segment(d, k),
            theirs_tile.rotation.rotation_steps(),
        );
        let mine: usize = owner_of_segment(mine_areas, mine_segment);
        let theirs: usize = owner_of_segment(theirs_areas, theirs_segment);
        proof {
            assert(areas_view(mine_areas@)[mine as int] == mine_areas@[mine as int]@);
            assert(areas_view(theirs_areas@)[theirs as int] == theirs_areas@[theirs as int]@);
        }
        if compatible(mine_areas[mine].area_type, theirs_areas[theirs].area_type) {
            let a: usize = self.node(t, mine);
            let b: usize = self.node(o, theirs);
            proof {
                lemma_union_joins(self.regions@, a as int, b as int);
            }
            self.regions.union(a, b);
        }
    }

    /// Looks at the edge of tile `t` that faces `d`: if a tile lies beyond
    /// it, the three pairs of touching segments are taken in turn.
    fn join(&mut self, catalog: &GameTileData, board: &BoardGrid, t: TileIndex, d: TileDirection)
        requires
            old(self).wf(),
            catalog@.wf(),
            board.wf(),
            old(self).matches(board.placed_tiles@, catalog@),
            t < board.placed_tiles@.len(),
        ensures
            final(self).wf(),
            final(self).tile_first == old(self).tile_first,
            final(self).tile_count == old(self).tile_count,
            final(self).node_tile == old(self).node_tile,
            final(self).regions@ == join_spec(
                old(self).regions@,
                old(self).tile_first@,
                catalog@,
                board.placed_tiles@,
                board.tile_at_map(),
                t as int,
                d,
            ),
            keeps_together(old(self).regions@, final(self).regions@),
            neighbor_joined(
                final(self).regions@,
                old(self).tile_first@,
                catalog@,
                board.placed_tiles@,
                board.tile_at_map(),
                t as int,
                d,
            ),
    {
        match board.placed_tiles[t].coords.neighbor(d) {
            None => {},
            Some(n) => {
                match board.tile_at(n) {
                    None => {},
                    Some(o) => {
                        proof {
                            assert(board.board_tile_matrix@.contains_key(n.key_spec()));
                        }
                        let ghost r0 = self.regions@;
                        let ghost firsts = self.tile_first@;
                        let ghost placed = board.placed_tiles@;
                        self.touch(catalog, board, t, o, d, 0);
                        let ghost r1 = self.regions@;
                        self.touch(catalog, board, t, o, d, 1);
                        let ghost r2 = self.regions@;
                        self.touch(catalog, board, t, o, d, 2);
                        proof {
                            let r3 = self.regions@;
                            lemma_keeps_together_transitive(r0, r1, r2);
                            lemma_keeps_together_transitive(r0, r2, r3);
                            lemma_keeps_together_transitive(r1, r2, r3);
                            assert forall|k: int|
                                0 <= k < 3 && #[trigger] touching_compatible(
                                    catalog@,
                                    placed,
                                    t as int,
                                    o as int,
                                    d,
                                    k,
                                ) implies {
                                let (a, b) = touching_nodes(
                                    firsts,
                                    catalog@,
                                    placed,
                                    t as int,
                                    o as int,
                                    d,
                                    k,
                                );
                                0 <= a < r3.len() && 0 <= b < r3.len() && r3[a] == r3[b]
                            } by {
                                let (a, b) = touching_nodes(
                                    firsts,
                                    catalog@,
                                    placed,
                                    t as int,
                                    o as int,
                                    d,
                                    k,
                                );
                                if k == 0 {
                                    assert(r1[a] == r1[b]);
                                    assert(r3[a] == r3[b]);
                                } else if k == 1 {
                                    assert(r2[a] == r2[b]);
                                    assert(r3[a] == r3[b]);
                                }
                            }
                        }
                    },
                }
            },
        }
    }

    /// Takes the tile that was placed last into the regions: each of its
    /// areas becomes a region of its own, and then, for each of the four
    /// edges beyond which a tile lies, the areas that touch across the
    /// edge are joined where their kinds agree.
    pub fn on_tile_placed(
        &mut self,
        tile_index: TileIndex,
        coord: TileMatrixCoords,
        rotation: TileDirection,
        tile_def_index: TileIndex,
        board: &BoardGrid,
        catalog: &GameTileData,
    )
        requires
            old(self).wf(),
            catalog@.wf(),
            board.wf(),
            board.placed_tiles@.len() == tile_index + 1,
            board.placed_tiles@[tile_index as int] == (PlacedTile {
                tile_def_index,
                coords: coord,
                rotation,
            }),
            tile_def_index < catalog@.all_tiles.len(),
            old(self).matches(board.placed_tiles@.drop_last(), catalog@),
        ensures
            final(self).wf(),
            final(self).matches(board.placed_tiles@, catalog@),
            final(self).tile_first@ == old(self).tile_first@.push(old(self).regions@.len() as usize),
            final(self).tile_count@ == old(self).tile_count@.push(
                area_count(catalog@, board.placed_tiles@[tile_index as int]) as usize,
            ),
            final(self).regions@ == merged_spec(
                grow_spec(
                    old(self).regions@,
                    area_count(catalog@, board.placed_tiles@[tile_index as int]) as nat,
                ),
                final(self).tile_first@,
                catalog@,
                board.placed_tiles@,
                board.tile_at_map(),
                tile_index as int,
            ),
            keeps_together(
                grow_spec(
                    old(self).regions@,
                    area_count(catalog@, board.placed_tiles@[tile_index as int]) as nat,
                ),
                final(self).regions@,
            ),
            forall|d: TileDirection| #[trigger]
                neighbor_joined(
                    final(self).regions@,
                    final(self).tile_first@,
                    catalog@,
                    board.placed_tiles@,
                    board.tile_at_map(),
                    tile_index as int,
                    d,
                ),
    {
        let count: usize = catalog.area_count(tile_def_index);
        self.add_tile(count);
        proof {
            assert forall|t: int| 0 <= t < board.placed_tiles@.len() implies
                (#[trigger] board.placed_tiles@[t]).tile_def_index < catalog@.all_tiles.len()
                && self.tile_count@[t] == area_count(catalog@, board.placed_tiles@[t]) by {
                if t < tile_index {
                    assert(board.placed_tiles@.drop_last()[t] == board.placed_tiles@[t]);
                }
            }
        }
        let ghost r0 = self.regions@;
        let ghost firsts = self.tile_first@;
        let ghost placed = board.placed_tiles@;
        let ghost tile_at = board.tile_at_map();
        let ghost t = tile_index as int;
        self.join(catalog, board, tile_index, TileDirection::North);
        let ghost r1 = self.regions@;
        self.join(catalog, board, tile_index, TileDirection::East);
        let ghost r2 = self.regions@;
        self.join(catalog, board, tile_index, TileDirection::South);
        let ghost r3 = self.regions@;
        self.join(catalog, board, tile_index, TileDirection::West);
        proof {
            let r4 = self.regions@;
            lemma_keeps_together_transitive(r0, r1, r2);
            lemma_keeps_together_transitive(r0, r2, r3);
            lemma_keeps_together_transitive(r0, r3, r4);
            lemma_keeps_together_transitive(r1, r2, r3);
            lemma_keeps_together_transitive(r1, r3, r4);
            lemma_keeps_together_transitive(r2, r3, r4);
            lemma_neighbor_stays_joined(
                r1,
                r4,
                firsts,
                catalog@,
                placed,
                tile_at,
                t,
                TileDirection::North,
            );
            lemma_neighbor_stays_joined(
                r2,
                r4,
                firsts,
                catalog@,
                placed,
                tile_at,
                t,
                TileDirection::East,
            );
            lemma_neighbor_stays_joined(
                r3,
                r4,
                firsts,
                catalog@,
                placed,
                tile_at,
                t,
                TileDirection::South,
            );
            assert forall|d: TileDirection| #[trigger]
                neighbor_joined(r4, firsts, catalog@, placed, tile_at, t, d) by {
                match d {
                    TileDirection::North => {},
                    TileDirection::East => {},
                    TileDirection::South => {},
                    TileDirection::West => {},
                }
            }
        }
    }
}

} // verus!
