//! Tile definitions: the typed areas of a tile, the edge segments that each
//! of them owns, and the catalog of all tiles of a game.
use vstd::prelude::*;
use crate::segments::EdgeNumber;
use crate::tile_shapes::{lemma_defined_shapes_partitioned, tile_shape, tile_shape_spec};

verus! {

/// Index of an area in the catalog's flat sequence of areas.
pub type TileAreaIndex = usize;

/// Index of a tile.
pub type TileIndex = usize;

/// What kind of region an area of a tile is.
#[derive(Copy, Clone, Debug, PartialEq, Eq, Structural, Hash)]
pub enum AreaType {
    Unspecified,
    Farm,
    Road,
    /// A road that ends on this tile.
    EndRoad,
    /// The junction or obstacle at which the roads of a tile end.
    RoadStopMarker,
    Town,
    /// A town that counts double.
    PennantTown,
    Cloister,
    Water,
}

/// The geometry of a tile. The four letters give the kind of each edge,
/// starting from the right edge; the groups after them say which edges are
/// joined, and a final `C` marks a cloister.
#[derive(Copy, Clone, Debug, PartialEq, Eq, Structural, Hash)]
pub enum TileType {
    Unspecified,
    RFRF_02,
    FRRF_12,
    RRRF,
    RRRR,
    FFFF_C,
    FRFF_C,
    FFFT,
    RFRT_02,
    RRFT_01,
    FRRT_12,
    RRRT,
    FTFT,
    TFFT,
    TFTF_02,
    PFPF_02,
    TFFT_03,
    PFFP_03,
    TRRT_03_12,
    PRRP_03_12,
    TFTT_013,
    PFPP_013,
    TRTT_013,
    PRPP_013,
    PPPP_0123,
    FWFF,
    WFWF_02,
    FWWF_12,
    WRWF_02_C,
    WRWR_02_13,
    RWWR_03_12,
    WRWT_02,
    WTWT_02,
    TWWT_03,
}

/// Why a catalog could not be built.
#[derive(Copy, Clone, Debug, PartialEq, Eq, Structural)]
pub enum ConfigurationError {
    /// A tile type was asked for whose shape has not been defined.
    UndefinedShape,
    /// The areas of a tile do not divide the twelve edge segments among
    /// them: a segment is out of range, missing, or owned twice.
    SegmentsNotPartitioned,
}

/// A typed region of one tile.
#[derive(Debug, Clone)]
pub struct TileArea {
    pub area_type: AreaType,
    /// Index of this area in the catalog's flat sequence of areas.
    pub self_idx: TileAreaIndex,
    /// The edge segments that the area owns, in the tile's unrotated
    /// orientation.
    pub edges: Vec<EdgeNumber>,
    /// Areas of the same tile that this one borders.
    pub connected_areas: Vec<TileAreaIndex>,
}

/// A `TileArea` as a mathematical value.
pub struct TileAreaView {
    pub area_type: AreaType,
    pub self_idx: TileAreaIndex,
    pub edges: Seq<EdgeNumber>,
    pub connected_areas: Seq<TileAreaIndex>,
}

impl View for TileArea {
    type V = TileAreaView;

    open spec fn view(&self) -> TileAreaView {
        TileAreaView {
            area_type: self.area_type,
            self_idx: self.self_idx,
            edges: self.edges@,
            connected_areas: self.connected_areas@,
        }
    }
}

/// The views of a sequence of areas.
pub open spec fn areas_view(areas: Seq<TileArea>) -> Seq<TileAreaView> {
    Seq::new(areas.len(), |i: int| areas[i]@)
}

/// An area that has not been entered in a catalog yet.
pub open spec fn area_spec(area_type: AreaType, edges: Seq<EdgeNumber>) -> TileAreaView {
    TileAreaView { area_type, self_idx: 0, edges, connected_areas: Seq::empty() }
}

/// Makes an area of the given type that owns the given segments.
pub fn create_area(area_type: AreaType, edges: Vec<EdgeNumber>) -> (r: TileArea)
    ensures
        r@ == area_spec(area_type, edges@),
{
    TileArea { area_type, self_idx: 0, edges, connected_areas: Vec::new() }
}

/// Entry `j` of area `i` is the segment `s`.
pub open spec fn owns(areas: Seq<TileAreaView>, i: int, j: int, s: int) -> bool {
    0 <= i < areas.len() && 0 <= j < areas[i].edges.len() && areas[i].edges[j] == s
}

/// Some area owns the segment `s`.
pub open spec fn covered(areas: Seq<TileAreaView>, s: int) -> bool {
    exists|i: int, j: int|
        0 <= i < areas.len() && 0 <= j < areas[i].edges.len() && #[trigger] areas[i].edges[j] == s
}

/// The areas divide the twelve edge segments among them: every entry is a
/// segment, every segment is owned, and none is owned twice. Areas without
/// segments, which lie in the interior of the tile, are free.
pub open spec fn segments_partitioned(areas: Seq<TileAreaView>) -> bool {
    &&& forall|i: int, j: int|
        0 <= i < areas.len() && 0 <= j < areas[i].edges.len() ==> #[trigger] areas[i].edges[j] < 12
    &&& forall|s: int| 0 <= s < 12 ==> #[trigger] covered(areas, s)
    &&& forall|i1: int, j1: int, i2: int, j2: int|
        0 <= i1 < areas.len() && 0 <= j1 < areas[i1].edges.len() && 0 <= i2 < areas.len() && 0
            <= j2 < areas[i2].edges.len() && #[trigger] areas[i1].edges[j1]
            == #[trigger] areas[i2].edges[j2] ==> i1 == i2 && j1 == j2
}

/// Entry `j2` of area `i2` comes before entry `j` of area `i` when the
/// areas are read in order.
spec fn scanned(areas: Seq<TileAreaView>, i: int, j: int, i2: int, j2: int) -> bool {
    0 <= i2 < areas.len() && 0 <= j2 < areas[i2].edges.len() && (i2 < i || (i2 == i && j2 < j))
}

/// What is known after reading the entries before entry `j` of area `i`:
/// they are segments, no two of them are equal, and `seen` marks exactly
/// the segments among them.
spec fn scan_state(areas: Seq<TileAreaView>, seen: Seq<bool>, i: int, j: int) -> bool {
    &&& seen.len() == 12
    &&& forall|i2: int, j2: int|
        scanned(areas, i, j, i2, j2) ==> #[trigger] areas[i2].edges[j2] < 12
    &&& forall|s: int|
        0 <= s < 12 ==> (#[trigger] seen[s] <==> exists|i2: int, j2: int|
            scanned(areas, i, j, i2, j2) && #[trigger] areas[i2].edges[j2] == s)
    &&& forall|i1: int, j1: int, i2: int, j2: int|
        scanned(areas, i, j, i1, j1) && scanned(areas, i, j, i2, j2)
            && #[trigger] areas[i1].edges[j1] == #[trigger] areas[i2].edges[j2] ==> i1 == i2 && j1
            == j2
}

/// Tells whether the areas divide the twelve edge segments among them.
pub fn segments_are_partitioned(areas: &Vec<TileArea>) -> (r: bool)
    ensures
        r == segments_partitioned(areas_view(areas@)),
{
    let ghost av = areas_view(areas@);
    let mut seen: Vec<bool> = Vec::new();
    while seen.len() < 12
        invariant
            seen.len() <= 12,
            forall|s: int| 0 <= s < seen.len() ==> !seen[s],
        decreases 12 - seen.len(),
    {
        seen.push(false);
    }
    let mut i: usize = 0;
    while i < areas.len()
        invariant
            i <= areas.len(),
            av == areas_view(areas@),
            scan_state(av, seen@, i as int, 0),
        decreases areas.len() - i,
    {
        let mut j: usize = 0;
        while j < areas[i].edges.len()
            invariant
                i < areas.len(),
                j <= areas[i as int].edges.len(),
                av == areas_view(areas@),
                scan_state(av, seen@, i as int, j as int),
            decreases areas[i as int].edges.len() - j,
        {
            let e: usize = areas[i].edges[j];
            assert(av[i as int].edges[j as int] == e);
            if e >= 12 {
                return false;
            }
            if seen[e] {
                proof {
                    let (i2, j2) = choose|i2: int, j2: int|
                        scanned(av, i as int, j as int, i2, j2) && #[trigger] av[i2].edges[j2]
                            == e;
                    assert(av[i2].edges[j2] == av[i as int].edges[j as int]);
                }
                return false;
            }
            let ghost before = seen@;
            seen.set(e, true);
            proof {
                assert forall|s: int| 0 <= s < 12 implies (#[trigger] seen@[s] <==> exists|
                    i2: int,
                    j2: int,
                |
                    scanned(av, i as int, j + 1, i2, j2) && #[trigger] av[i2].edges[j2] == s) by {
                    if s == e {
                        assert(scanned(av, i as int, j + 1, i as int, j as int));
                    } else if before[s] {
                        let (i2, j2) = choose|i2: int, j2: int|
                            scanned(av, i as int, j as int, i2, j2) && #[trigger] av[i2].edges[j2]
                                == s;
                        assert(scanned(av, i as int, j + 1, i2, j2));
                    } else {
                        if exists|i2: int, j2: int|
                            scanned(av, i as int, j + 1, i2, j2) && #[trigger] av[i2].edges[j2]
                                == s {
                            let (i2, j2) = choose|i2: int, j2: int|
                                scanned(av, i as int, j + 1, i2, j2) && #[trigger] av[i2].edges[j2]
                                    == s;
                            assert(scanned(av, i as int, j as int, i2, j2));
                        }
                    }
                }
                assert forall|i1: int, j1: int, i2: int, j2: int|
                    scanned(av, i as int, j + 1, i1, j1) && scanned(av, i as int, j + 1, i2, j2)
                        && #[trigger] av[i1].edges[j1] == #[trigger] av[i2].edges[j2] implies i1
                    == i2 && j1 == j2 by {
                    if i1 == i && j1 == j && !(i2 == i && j2 == j) {
                        assert(scanned(av, i as int, j as int, i2, j2));
                        assert(before[e as int]);
                    }
                    if i2 == i && j2 == j && !(i1 == i && j1 == j) {
                        assert(scanned(av, i as int, j as int, i1, j1));
                        assert(before[e as int]);
                    }
                }
            }
            j += 1;
        }
        proof {
            assert forall|i2: int, j2: int| scanned(av, i as int, j as int, i2, j2) == scanned(
                av,
                i + 1,
                0,
                i2,
                j2,
            ) by {}
        }
        i += 1;
    }
    let mut s: usize = 0;
    while s < 12
        invariant
            s <= 12,
            i == areas.len(),
            av == areas_view(areas@),
            scan_state(av, seen@, i as int, 0),
            forall|t: int| 0 <= t < s ==> seen[t],
        decreases 12 - s,
    {
        if !seen[s] {
            proof {
                if covered(av, s as int) {
                    let (i2, j2) = choose|i2: int, j2: int|
                        0 <= i2 < av.len() && 0 <= j2 < av[i2].edges.len()
                            && #[trigger] av[i2].edges[j2] == s;
                    assert(scanned(av, i as int, 0, i2, j2));
                }
            }
            return false;
        }
        s += 1;
    }
    proof {
        assert forall|t: int| 0 <= t < 12 implies #[trigger] covered(av, t) by {
            assert(seen[t]);
            let (i2, j2) = choose|i2: int, j2: int|
                scanned(av, i as int, 0, i2, j2) && #[trigger] av[i2].edges[j2] == t;
            assert(av[i2].edges[j2] == t);
        }
        assert forall|i2: int, j2: int|
            0 <= i2 < av.len() && 0 <= j2 < av[i2].edges.len() implies scanned(
            av,
            i as int,
            0,
            i2,
            j2,
        ) by {}
    }
    true
}

/// Whether two sequences of areas own the same segments, area by area.
pub open spec fn same_segments(a: Seq<TileAreaView>, b: Seq<TileAreaView>) -> bool {
    a.len() == b.len() && forall|i: int| 0 <= i < a.len() ==> (#[trigger] a[i]).edges == b[i].edges
}

/// Whether the twelve segments are divided depends on the segments alone.
pub proof fn lemma_partition_by_segments(a: Seq<TileAreaView>, b: Seq<TileAreaView>)
    requires
        same_segments(a, b),
        segments_partitioned(a),
    ensures
        segments_partitioned(b),
{
    assert forall|i: int, j: int| 0 <= i < b.len() && 0 <= j < b[i].edges.len() implies #[trigger] b[i].edges[j]
        < 12 by {
        assert(a[i].edges[j] < 12);
    }
    assert forall|s: int| 0 <= s < 12 implies #[trigger] covered(b, s) by {
        assert(covered(a, s));
        let (i, j) = choose|i: int, j: int|
            0 <= i < a.len() && 0 <= j < a[i].edges.len() && #[trigger] a[i].edges[j] == s;
        assert(b[i].edges[j] == s);
    }
    assert forall|i1: int, j1: int, i2: int, j2: int|
        0 <= i1 < b.len() && 0 <= j1 < b[i1].edges.len() && 0 <= i2 < b.len() && 0 <= j2
            < b[i2].edges.len() && #[trigger] b[i1].edges[j1]
            == #[trigger] b[i2].edges[j2] implies i1 == i2 && j1 == j2 by {
        assert(a[i1].edges[j1] == a[i2].edges[j2]);
    }
}

/// The areas as they stand in a catalog when the first of them is entered
/// at index `base`: each knows its own index, the rest is unchanged.
pub open spec fn indexed(areas: Seq<TileAreaView>, base: int) -> Seq<TileAreaView> {
    Seq::new(
        areas.len(),
        |i: int|
            TileAreaView {
                area_type: areas[i].area_type,
                self_idx: (base + i) as usize,
                edges: areas[i].edges,
                connected_areas: areas[i].connected_areas,
            },
    )
}

/// The `n` indices from `base` on.
pub open spec fn index_run(base: int, n: nat) -> Seq<TileAreaIndex> {
    Seq::new(n, |i: int| (base + i) as usize)
}

/// Checks that the areas divide the twelve edge segments among them, and if
/// so enters them at the end of `all_areas`, each with its index set.
/// Returns their indices. If they do not, nothing is entered.
pub fn fill_area_idxs(areas: Vec<TileArea>, all_areas: &mut Vec<TileArea>) -> (r: Result<
    Vec<TileAreaIndex>,
    ConfigurationError,
>)
    ensures
        match r {
            Ok(idxs) => {
                &&& segments_partitioned(areas_view(areas@))
                &&& idxs@ == index_run(old(all_areas).len() as int, areas.len() as nat)
                &&& areas_view(final(all_areas)@) == areas_view(old(all_areas)@) + indexed(
                    areas_view(areas@),
                    old(all_areas).len() as int,
                )
            },
            Err(e) => {
                &&& e == ConfigurationError::SegmentsNotPartitioned
                &&& !segments_partitioned(areas_view(areas@))
                &&& final(all_areas)@ == old(all_areas)@
            },
        },
{
    if !segments_are_partitioned(&areas) {
        return Err(ConfigurationError::SegmentsNotPartitioned);
    }
    let ghost orig = areas_view(areas@);
    let ghost base = all_areas.len() as int;
    let ghost old_view = areas_view(all_areas@);
    let mut rest = areas;
    let mut idxs: Vec<TileAreaIndex> = Vec::new();
    proof {
        assert(orig.skip(0) =~= orig);
        assert(areas_view(all_areas@) =~= old_view + indexed(orig.take(0), base));
        assert(idxs@ =~= index_run(base, 0));
    }
    while rest.len() > 0
        invariant
            idxs.len() + rest.len() == orig.len(),
            areas_view(rest@) == orig.skip(idxs.len() as int),
            idxs@ == index_run(base, idxs.len() as nat),
            all_areas.len() == base + idxs.len(),
            old_view.len() == base,
            areas_view(all_areas@) == old_view + indexed(orig.take(idxs.len() as int), base),
        decreases rest.len(),
    {
        let ghost k = idxs.len() as int;
        let ghost rest_before = rest@;
        let ghost all_before = all_areas@;
        let mut a = rest.remove(0);
        let idx: usize = all_areas.len();
        a.self_idx = idx;
        idxs.push(idx);
        all_areas.push(a);
        proof {
            assert(areas_view(rest_before)[0] == orig.skip(k)[0]);
            assert(areas_view(rest@) =~= orig.skip(k + 1)) by {
                assert forall|i: int| 0 <= i < rest@.len() implies areas_view(rest@)[i]
                    == orig.skip(k + 1)[i] by {
                    assert(areas_view(rest_before)[i + 1] == orig.skip(k)[i + 1]);
                }
            }
            assert(idxs@ =~= index_run(base, (k + 1) as nat));
            assert(areas_view(all_areas@) =~= old_view + indexed(orig.take(k + 1), base)) by {
                assert forall|i: int| 0 <= i < all_areas@.len() implies areas_view(all_areas@)[i]
                    == (old_view + indexed(orig.take(k + 1), base))[i] by {
                    if i < all_before.len() {
                        assert(areas_view(all_before)[i] == (old_view + indexed(
                            orig.take(k),
                            base,
                        ))[i]);
                    } else {
                        assert(orig.take(k + 1)[k] == orig[k]);
                        assert(orig.skip(k)[0] == orig[k]);
                    }
                }
            }
        }
    }
    proof {
        assert(orig.take(orig.len() as int) =~= orig);
    }
    Ok(idxs)
}

/// A tile of a catalog.
#[derive(Debug, Clone)]
pub struct Tile {
    /// The indices of the tile's areas in the catalog's flat sequence.
    pub areas: Vec<TileAreaIndex>,
    pub tile_type: TileType,
}

/// A `Tile` as a mathematical value.
pub struct TileView {
    pub areas: Seq<TileAreaIndex>,
    pub tile_type: TileType,
}

impl View for Tile {
    type V = TileView;

    open spec fn view(&self) -> TileView {
        TileView { areas: self.areas@, tile_type: self.tile_type }
    }
}

/// Makes a tile of the given type from the given areas and enters the areas
/// at the end of `all_areas`. Fails, and enters nothing, if the areas do
/// not divide the twelve edge segments among them.
pub fn define_tile(tile_type: TileType, areas: Vec<TileArea>, all_areas: &mut Vec<TileArea>) -> (r:
    Result<Tile, ConfigurationError>)
    ensures
        match r {
            Ok(tile) => {
                &&& segments_partitioned(areas_view(areas@))
                &&& tile@.tile_type == tile_type
                &&& tile@.areas == index_run(old(all_areas).len() as int, areas.len() as nat)
                &&& areas_view(final(all_areas)@) == areas_view(old(all_areas)@) + indexed(
                    areas_view(areas@),
                    old(all_areas).len() as int,
                )
            },
            Err(e) => {
                &&& e == ConfigurationError::SegmentsNotPartitioned
                &&& !segments_partitioned(areas_view(areas@))
                &&& final(all_areas)@ == old(all_areas)@
            },
        },
{
    match fill_area_idxs(areas, all_areas) {
        Ok(idxs) => Ok(Tile { areas: idxs, tile_type }),
        Err(e) => Err(e),
    }
}

/// Makes a tile of the given type and enters its areas at the end of
/// `all_areas`. Fails, and enters nothing, if the shape of the type has not
/// been defined.
pub fn get_tile(tile_type: TileType, all_areas: &mut Vec<TileArea>) -> (r: Result<
    Tile,
    ConfigurationError,
>)
    ensures
        match r {
            Ok(tile) => {
                &&& tile_shape_spec(tile_type) is Some
                &&& tile@.tile_type == tile_type
                &&& tile@.areas == index_run(
                    old(all_areas).len() as int,
                    tile_shape_spec(tile_type).unwrap().len(),
                )
                &&& areas_view(final(all_areas)@) == areas_view(old(all_areas)@) + indexed(
                    tile_shape_spec(tile_type).unwrap(),
                    old(all_areas).len() as int,
                )
            },
            Err(e) => {
                &&& e == ConfigurationError::UndefinedShape
                &&& tile_shape_spec(tile_type) is None
                &&& final(all_areas)@ == old(all_areas)@
            },
        },
{
    match tile_shape(tile_type) {
        None => Err(ConfigurationError::UndefinedShape),
        Some(areas) => {
            proof {
                lemma_defined_shapes_partitioned(tile_type);
            }
            define_tile(tile_type, areas, all_areas)
        },
    }
}

} // verus!
