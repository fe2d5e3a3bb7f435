//! The catalog of all tiles of a game: every tile with its type, and the
//! areas of all tiles in one flat sequence.
use vstd::prelude::*;
use crate::tile_shapes::{lemma_defined_shapes_partitioned, tile_shape_spec};
use crate::tiles::{
    areas_view, covered, define_tile, get_tile, index_run, indexed, lemma_partition_by_segments,
    same_segments, segments_partitioned, ConfigurationError, Tile, TileArea, TileAreaIndex,
    TileAreaView, TileIndex, TileType, TileView,
};

verus! {

/// All tiles of a game and all their areas. Each tile's areas stand side by
/// side in `all_areas`, tile after tile.
#[derive(Debug, Clone)]
pub struct GameTileData {
    pub all_areas: Vec<TileArea>,
    pub all_tiles: Vec<Tile>,
}

/// A `GameTileData` as a mathematical value.
pub struct GameTileDataView {
    pub all_areas: Seq<TileAreaView>,
    pub all_tiles: Seq<TileView>,
}

/// The views of a sequence of tiles.
pub open spec fn tiles_view(tiles: Seq<Tile>) -> Seq<TileView> {
    Seq::new(tiles.len(), |k: int| tiles[k]@)
}

/// The catalog that consists of the given areas and tiles.
pub open spec fn catalog_view(all_areas: Seq<TileArea>, all_tiles: Seq<Tile>) -> GameTileDataView {
    GameTileDataView { all_areas: areas_view(all_areas), all_tiles: tiles_view(all_tiles) }
}

impl View for GameTileData {
    type V = GameTileDataView;

    open spec fn view(&self) -> GameTileDataView {
        catalog_view(self.all_areas@, self.all_tiles@)
    }
}

impl GameTileDataView {
    /// Index in `all_areas` at which the areas of tile `k` begin: where
    /// those of the tile before it end.
    pub open spec fn tile_start(self, k: int) -> int {
        if k <= 0 {
            0
        } else {
            self.all_tiles[k - 1].areas[0] + self.all_tiles[k - 1].areas.len()
        }
    }

    /// The areas of tile `k`, in the order of the tile's own list.
    pub open spec fn tile_areas(self, k: int) -> Seq<TileAreaView> {
        Seq::new(
            self.all_tiles[k].areas.len(),
            |i: int| self.all_areas[self.all_tiles[k].areas[i] as int],
        )
    }

    /// Tile `k` has at least one area, its areas stand side by side from
    /// `tile_start(k)` on, and they divide the twelve edge segments.
    pub open spec fn tile_wf(self, k: int) -> bool {
        &&& self.all_tiles[k].areas.len() > 0
        &&& self.all_tiles[k].areas == index_run(self.tile_start(k), self.all_tiles[k].areas.len())
        &&& self.tile_start(k) + self.all_tiles[k].areas.len() <= self.all_areas.len()
        &&& segments_partitioned(self.tile_areas(k))
    }

    /// The catalog is well formed: every tile is, the tiles' areas fill
    /// `all_areas` without a gap, and every area knows its own index.
    pub open spec fn wf(self) -> bool {
        &&& self.all_areas.len() <= usize::MAX
        &&& forall|k: int| 0 <= k < self.all_tiles.len() ==> #[trigger] self.tile_wf(k)
        &&& self.all_areas.len() == self.tile_start(self.all_tiles.len() as int)
        &&& forall|a: int|
            0 <= a < self.all_areas.len() ==> (#[trigger] self.all_areas[a]).self_idx == a
    }

    /// The types of the tiles, in order.
    pub open spec fn tile_types(self) -> Seq<TileType> {
        Seq::new(self.all_tiles.len(), |k: int| self.all_tiles[k].tile_type)
    }

    /// Tile `k` consists of the areas `shape`, entered at its place.
    pub open spec fn tile_is(self, k: int, shape: Seq<TileAreaView>) -> bool {
        self.tile_areas(k) == indexed(shape, self.tile_start(k))
    }

    /// Every tile has the shape that is defined for its type.
    pub open spec fn standard(self) -> bool {
        forall|k: int|
            0 <= k < self.all_tiles.len() ==> tile_shape_spec(
                (#[trigger] self.all_tiles[k]).tile_type,
            ) is Some && self.tile_is(k, tile_shape_spec(self.all_tiles[k].tile_type).unwrap())
    }

    /// The catalog with one more tile of the given type and areas.
    pub open spec fn with_tile(self, tile_type: TileType, shape: Seq<TileAreaView>)
        -> GameTileDataView {
        GameTileDataView {
            all_areas: self.all_areas + indexed(shape, self.all_areas.len() as int),
            all_tiles: self.all_tiles.push(
                TileView { areas: index_run(self.all_areas.len() as int, shape.len()), tile_type },
            ),
        }
    }
}

/// A tile that was there is untouched when another is added.
proof fn lemma_with_tile_keeps(
    c: GameTileDataView,
    tile_type: TileType,
    shape: Seq<TileAreaView>,
    k: int,
)
    requires
        c.wf(),
        0 <= k < c.all_tiles.len(),
    ensures
        c.with_tile(tile_type, shape).tile_start(k) == c.tile_start(k),
        c.with_tile(tile_type, shape).tile_areas(k) == c.tile_areas(k),
        c.with_tile(tile_type, shape).tile_wf(k),
{
    let n = c.with_tile(tile_type, shape);
    assert(c.tile_wf(k));
    if k > 0 {
        assert(c.tile_wf(k - 1));
        assert(n.all_tiles[k - 1] == c.all_tiles[k - 1]);
    }
    assert(n.all_tiles[k] == c.all_tiles[k]);
    assert(n.tile_areas(k) =~= c.tile_areas(k)) by {
        assert forall|i: int| 0 <= i < c.all_tiles[k].areas.len() implies n.tile_areas(k)[i]
            == c.tile_areas(k)[i] by {
            assert(c.all_tiles[k].areas[i] == index_run(
                c.tile_start(k),
                c.all_tiles[k].areas.len(),
            )[i]);
        }
    }
}

/// Adding a tile whose areas divide the twelve segments keeps a catalog
/// well formed and leaves the tiles that were there as they were.
pub proof fn lemma_with_tile(c: GameTileDataView, tile_type: TileType, shape: Seq<TileAreaView>)
    requires
        c.wf(),
        segments_partitioned(shape),
        c.all_areas.len() + shape.len() <= usize::MAX,
    ensures
        c.with_tile(tile_type, shape).wf(),
        c.with_tile(tile_type, shape).tile_is(c.all_tiles.len() as int, shape),
        c.with_tile(tile_type, shape).tile_types() == c.tile_types().push(tile_type),
        forall|k: int|
            0 <= k < c.all_tiles.len() ==> {
                &&& #[trigger] c.with_tile(tile_type, shape).tile_start(k) == c.tile_start(k)
                &&& c.with_tile(tile_type, shape).tile_areas(k) == c.tile_areas(k)
            },
{
    let n = c.with_tile(tile_type, shape);
    let last = c.all_tiles.len() as int;
    let base = c.all_areas.len() as int;
    assert(covered(shape, 0));
    assert(shape.len() > 0);
    assert(c.tile_start(last) == base);
    assert forall|k: int| 0 <= k < last implies n.tile_start(k) == c.tile_start(k)
        && n.tile_areas(k) == c.tile_areas(k) && #[trigger] n.tile_wf(k) by {
        lemma_with_tile_keeps(c, tile_type, shape, k);
    }
    assert forall|k: int| 0 <= k < last implies {
        &&& #[trigger] n.tile_start(k) == c.tile_start(k)
        &&& n.tile_areas(k) == c.tile_areas(k)
    } by {
        lemma_with_tile_keeps(c, tile_type, shape, k);
    }
    assert(n.tile_start(last) == base) by {
        if last > 0 {
            assert(c.tile_wf(last - 1));
            assert(n.all_tiles[last - 1] == c.all_tiles[last - 1]);
        }
    }
    assert(n.tile_areas(last) =~= indexed(shape, base)) by {
        assert forall|i: int| 0 <= i < shape.len() implies n.tile_areas(last)[i] == indexed(
            shape,
            base,
        )[i] by {
            assert(n.all_tiles[last].areas[i] == base + i);
        }
    }
    assert(same_segments(shape, indexed(shape, base)));
    lemma_partition_by_segments(shape, indexed(shape, base));
    assert(n.tile_wf(last));
    assert(n.tile_start(last + 1) == base + shape.len());
    assert forall|a: int| 0 <= a < n.all_areas.len() implies (#[trigger] n.all_areas[a]).self_idx
        == a by {
        if a < base {
            assert(c.all_areas[a].self_idx == a);
        } else {
            assert(n.all_areas[a] == indexed(shape, base)[a - base]);
        }
    }
    assert(n.tile_types() =~= c.tile_types().push(tile_type));
}

/// Adding a tile of the shape defined for its type keeps a catalog of
/// such tiles one.
pub proof fn lemma_with_tile_standard(c: GameTileDataView, tile_type: TileType)
    requires
        c.wf(),
        c.standard(),
        tile_shape_spec(tile_type) is Some,
        segments_partitioned(tile_shape_spec(tile_type).unwrap()),
        c.all_areas.len() + tile_shape_spec(tile_type).unwrap().len() <= usize::MAX,
    ensures
        c.with_tile(tile_type, tile_shape_spec(tile_type).unwrap()).standard(),
{
    let shape = tile_shape_spec(tile_type).unwrap();
    let n = c.with_tile(tile_type, shape);
    lemma_with_tile(c, tile_type, shape);
    assert forall|k: int| 0 <= k < n.all_tiles.len() implies tile_shape_spec(
        (#[trigger] n.all_tiles[k]).tile_type,
    ) is Some && n.tile_is(k, tile_shape_spec(n.all_tiles[k].tile_type).unwrap()) by {
        if k < c.all_tiles.len() {
            assert(n.all_tiles[k] == c.all_tiles[k]);
            assert(n.tile_start(k) == c.tile_start(k));
        }
    }
}

/// The tile types of a counting table written out: each type as often as
/// the table says, in the table's order.
pub open spec fn expand(table: Seq<(TileType, usize)>) -> Seq<TileType>
    decreases table.len(),
{
    if table.len() == 0 {
        Seq::empty()
    } else {
        expand(table.drop_last()) + Seq::new(table.last().1 as nat, |i: int| table.last().0)
    }
}

/// Every type that the table asks for at least once has a shape.
pub open spec fn all_defined(table: Seq<(TileType, usize)>) -> bool {
    forall|i: int|
        0 <= i < table.len() && (#[trigger] table[i]).1 > 0 ==> tile_shape_spec(table[i].0) is Some
}

/// The areas of every definition divide the twelve edge segments.
pub open spec fn all_partitioned(defs: Seq<(TileType, Vec<TileArea>)>) -> bool {
    forall|k: int| 0 <= k < defs.len() ==> segments_partitioned(areas_view((#[trigger] defs[k]).1@))
}

impl GameTileData {
    /// Builds the catalog of a game: for each entry of the counting table,
    /// in order, as many tiles of its type as it says. Fails if a type that
    /// is asked for has no shape.
    pub fn build(counting_table: &Vec<(TileType, usize)>) -> (r: Result<
        GameTileData,
        ConfigurationError,
    >)
        ensures
            match r {
                Ok(c) => {
                    &&& all_defined(counting_table@)
                    &&& c@.wf()
                    &&& c@.standard()
                    &&& c@.tile_types() == expand(counting_table@)
                },
                Err(e) => e == ConfigurationError::UndefinedShape && !all_defined(counting_table@),
            },
    {
        let mut all_areas: Vec<TileArea> = Vec::new();
        let mut all_tiles: Vec<Tile> = Vec::new();
        let mut e: usize = 0;
        proof {
            assert(counting_table@.take(0) =~= Seq::empty());
            assert(catalog_view(all_areas@, all_tiles@).tile_types() =~= expand(
                counting_table@.take(0),
            ));
        }
        while e < counting_table.len()
            invariant
                e <= counting_table.len(),
                catalog_view(all_areas@, all_tiles@).wf(),
                catalog_view(all_areas@, all_tiles@).standard(),
                catalog_view(all_areas@, all_tiles@).tile_types() == expand(
                    counting_table@.take(e as int),
                ),
                forall|i: int|
                    0 <= i < e && (#[trigger] counting_table@[i]).1 > 0 ==> tile_shape_spec(
                        counting_table@[i].0,
                    ) is Some,
            decreases counting_table.len() - e,
        {
            let tile_type: TileType = counting_table[e].0;
            let qty: usize = counting_table[e].1;
            let ghost done = expand(counting_table@.take(e as int));
            let mut c: usize = 0;
            proof {
                assert(done + Seq::new(0, |i: int| tile_type) =~= done);
            }
            while c < qty
                invariant
                    e < counting_table.len(),
                    c <= qty,
                    counting_table@[e as int] == (tile_type, qty),
                    catalog_view(all_areas@, all_tiles@).wf(),
                    catalog_view(all_areas@, all_tiles@).standard(),
                    catalog_view(all_areas@, all_tiles@).tile_types() == done + Seq::new(
                        c as nat,
                        |i: int| tile_type,
                    ),
                    c > 0 ==> tile_shape_spec(tile_type) is Some,
                decreases qty - c,
            {
                let ghost before = catalog_view(all_areas@, all_tiles@);
                match get_tile(tile_type, &mut all_areas) {
                    Err(err) => {
                        return Err(err);
                    },
                    Ok(tile) => {
                        all_tiles.push(tile);
                        proof {
                            let shape = tile_shape_spec(tile_type).unwrap();
                            lemma_defined_shapes_partitioned(tile_type);
                            assert(areas_view(all_areas@).len() == before.all_areas.len()
                            + shape.len());
                        assert(all_areas.len() == areas_view(all_areas@).len());
                            lemma_with_tile(before, tile_type, shape);
                            lemma_with_tile_standard(before, tile_type);
                            assert(catalog_view(all_areas@, all_tiles@).all_tiles
                                =~= before.with_tile(tile_type, shape).all_tiles);
                            assert(catalog_view(all_areas@, all_tiles@) == before.with_tile(
                                tile_type,
                                shape,
                            ));
                            assert(Seq::new(c as nat, |i: int| tile_type).push(tile_type)
                                =~= Seq::new((c + 1) as nat, |i: int| tile_type));
                            assert((done + Seq::new(c as nat, |i: int| tile_type)).push(tile_type)
                                =~= done + Seq::new((c + 1) as nat, |i: int| tile_type));
                        }
                    },
                }
                c += 1;
            }
            proof {
                let next = counting_table@.take(e + 1);
                assert(next.drop_last() =~= counting_table@.take(e as int));
                assert(next.last() == counting_table@[e as int]);
            }
            e += 1;
        }
        proof {
            assert(counting_table@.take(e as int) =~= counting_table@);
        }
        Ok(GameTileData { all_areas, all_tiles })
    }

    /// Builds a catalog with one tile for each definition, in order: a tile
    /// of the given type with the given areas. Fails if the areas of some
    /// definition do not divide the twelve edge segments among them.
    pub fn from_definitions(defs: Vec<(TileType, Vec<TileArea>)>) -> (r: Result<
        GameTileData,
        ConfigurationError,
    >)
        ensures
            match r {
                Ok(c) => {
                    &&& all_partitioned(defs@)
                    &&& c@.wf()
                    &&& c@.all_tiles.len() == defs.len()
                    &&& forall|k: int|
                        0 <= k < defs.len() ==> {
                            &&& (#[trigger] c@.all_tiles[k]).tile_type == defs@[k].0
                            &&& c@.tile_is(k, areas_view(defs@[k].1@))
                        }
                },
                Err(e) => e == ConfigurationError::SegmentsNotPartitioned && !all_partitioned(
                    defs@,
                ),
            },
    {
        let mut all_areas: Vec<TileArea> = Vec::new();
        let mut all_tiles: Vec<Tile> = Vec::new();
        let mut rest = defs;
        while rest.len() > 0
            invariant
                all_tiles.len() + rest.len() == defs.len(),
                rest@ == defs@.skip(all_tiles.len() as int),
                catalog_view(all_areas@, all_tiles@).wf(),
                forall|k: int|
                    0 <= k < all_tiles.len() ==> {
                        &&& (#[trigger] catalog_view(
                            all_areas@,
                            all_tiles@,
                        ).all_tiles[k]).tile_type == defs@[k].0
                        &&& catalog_view(all_areas@, all_tiles@).tile_is(
                            k,
                            areas_view(defs@[k].1@),
                        )
                    },
                forall|k: int|
                    0 <= k < all_tiles.len() ==> segments_partitioned(
                        areas_view((#[trigger] defs@[k]).1@),
                    ),
            decreases rest.len(),
        {
            let ghost before = catalog_view(all_areas@, all_tiles@);
            let ghost k0 = all_tiles.len() as int;
            let (tile_type, areas) = rest.remove(0);
            assert(defs@[k0] == (tile_type, areas));
            let ghost shape = areas_view(areas@);
            match define_tile(tile_type, areas, &mut all_areas) {
                Err(err) => {
                    return Err(err);
                },
                Ok(tile) => {
                    all_tiles.push(tile);
                    proof {
                        assert(areas_view(all_areas@).len() == before.all_areas.len()
                            + shape.len());
                        assert(all_areas.len() == areas_view(all_areas@).len());
                        lemma_with_tile(before, tile_type, shape);
                        let now = catalog_view(all_areas@, all_tiles@);
                        assert(now.all_tiles =~= before.with_tile(tile_type, shape).all_tiles);
                        assert(now == before.with_tile(tile_type, shape));
                        assert(rest@ =~= defs@.skip(k0 + 1));
                        assert forall|k: int| 0 <= k < all_tiles.len() implies {
                            &&& (#[trigger] now.all_tiles[k]).tile_type == defs@[k].0
                            &&& now.tile_is(k, areas_view(defs@[k].1@))
                        } by {
                            if k < k0 {
                                assert(now.all_tiles[k] == before.all_tiles[k]);
                                assert(now.tile_start(k) == before.tile_start(k));
                            }
                        }
                    }
                },
            }
        }
        Ok(GameTileData { all_areas, all_tiles })
    }

    /// The type of the tile at `tile_def_index`.
    pub fn tile_type(&self, tile_def_index: TileIndex) -> (r: TileType)
        requires
            tile_def_index < self@.all_tiles.len(),
        ensures
            r == self@.all_tiles[tile_def_index as int].tile_type,
    {
        self.all_tiles[tile_def_index].tile_type
    }

    /// The areas of the tile at `tile_def_index`.
    pub fn areas_of(&self, tile_def_index: TileIndex) -> (r: &[TileArea])
        requires
            self@.wf(),
            tile_def_index < self@.all_tiles.len(),
        ensures
            areas_view(r@) == self@.tile_areas(tile_def_index as int),
    {
        proof {
            assert(self@.tile_wf(tile_def_index as int));
        }
        let tile = &self.all_tiles[tile_def_index];
        let first: usize = tile.areas[0];
        assert(first == index_run(self@.tile_start(tile_def_index as int), tile.areas@.len())[0]);
        let r = vstd::slice::slice_subrange(
            self.all_areas.as_slice(),
            first,
            first + tile.areas.len(),
        );
        proof {
            assert(areas_view(r@) =~= self@.tile_areas(tile_def_index as int)) by {
                assert forall|i: int| 0 <= i < r@.len() implies areas_view(r@)[i]
                    == self@.tile_areas(tile_def_index as int)[i] by {
                    assert(tile.areas@[i] == index_run(
                        self@.tile_start(tile_def_index as int),
                        tile.areas@.len(),
                    )[i]);
                }
            }
        }
        r
    }

    /// How many areas the tile at `tile_def_index` has.
    pub fn area_count(&self, tile_def_index: TileIndex) -> (r: usize)
        requires
            tile_def_index < self@.all_tiles.len(),
        ensures
            r == self@.all_tiles[tile_def_index as int].areas.len(),
    {
        self.all_tiles[tile_def_index].areas.len()
    }
}

/// The index in the catalog's flat sequence of the area that is number
/// `relative_area_idx` among the areas of the tile at `tile_idx`.
pub fn get_absolute_area_from_relative_area(
    tile_idx: TileIndex,
    relative_area_idx: TileAreaIndex,
    tile_data: &GameTileData,
) -> (r: TileAreaIndex)
    requires
        tile_idx < tile_data@.all_tiles.len(),
        relative_area_idx < tile_data@.all_tiles[tile_idx as int].areas.len(),
    ensures
        r == tile_data@.all_tiles[tile_idx as int].areas[relative_area_idx as int],
        tile_data@.wf() ==> r == tile_data@.tile_start(tile_idx as int) + relative_area_idx && r
            < tile_data@.all_areas.len(),
{
    proof {
        if tile_data@.wf() {
            assert(tile_data@.tile_wf(tile_idx as int));
        }
    }
    tile_data.all_tiles[tile_idx].areas[relative_area_idx]
}

/// How many tiles of each type a game has.
pub open spec fn standard_counts() -> Seq<(TileType, usize)> {
    seq![
        (TileType::RFRF_02, 8usize),
        (TileType::FRRF_12, 9usize),
        (TileType::RRRF, 4usize),
        (TileType::RRRR, 1usize),
        (TileType::FFFF_C, 4usize),
        (TileType::FRFF_C, 2usize),
        (TileType::FFFT, 5usize),
        (TileType::RFRT_02, 4usize),
        (TileType::RRFT_01, 3usize),
        (TileType::FRRT_12, 3usize),
        (TileType::RRRT, 3usize),
        (TileType::FTFT, 3usize),
        (TileType::TFFT, 2usize),
        (TileType::TFTF_02, 1usize),
        (TileType::PFPF_02, 2usize),
        (TileType::TFFT_03, 3usize),
        (TileType::PFFP_03, 2usize),
        (TileType::TRRT_03_12, 3usize),
        (TileType::PRRP_03_12, 2usize),
        (TileType::TFTT_013, 3usize),
        (TileType::PFPP_013, 1usize),
        (TileType::TRTT_013, 1usize),
        (TileType::PRPP_013, 2usize),
        (TileType::PPPP_0123, 1usize),
    ]
}

/// The counting table of a game: each tile type with the number of tiles
/// of that type.
pub fn standard_counting_table() -> (r: Vec<(TileType, usize)>)
    ensures
        r@ == standard_counts(),
{
    let r: Vec<(TileType, usize)> = vec![
        (TileType::RFRF_02, 8),
        (TileType::FRRF_12, 9),
        (TileType::RRRF, 4),
        (TileType::RRRR, 1),
        (TileType::FFFF_C, 4),
        (TileType::FRFF_C, 2),
        (TileType::FFFT, 5),
        (TileType::RFRT_02, 4),
        (TileType::RRFT_01, 3),
        (TileType::FRRT_12, 3),
        (TileType::RRRT, 3),
        (TileType::FTFT, 3),
        (TileType::TFFT, 2),
        (TileType::TFTF_02, 1),
        (TileType::PFPF_02, 2),
        (TileType::TFFT_03, 3),
        (TileType::PFFP_03, 2),
        (TileType::TRRT_03_12, 3),
        (TileType::PRRP_03_12, 2),
        (TileType::TFTT_013, 3),
        (TileType::PFPP_013, 1),
        (TileType::TRTT_013, 1),
        (TileType::PRPP_013, 2),
        (TileType::PPPP_0123, 1),
    ];
    r
}

/// Every tile type of a game has a shape.
pub proof fn lemma_standard_counts_defined()
    ensures
        all_defined(standard_counts()),
{
}

/// A game has seventy-two tiles.
pub proof fn lemma_standard_counts_total()
    ensures
        expand(standard_counts()).len() == 72,
{
    reveal_with_fuel(expand, 25);
}

/// Builds the catalog of a game from the standard counting table.
pub fn create_tiles() -> (r: GameTileData)
    ensures
        r@.wf(),
        r@.standard(),
        r@.tile_types() == expand(standard_counts()),
        r@.all_tiles.len() == 72,
{
    let table = standard_counting_table();
    proof {
        lemma_standard_counts_defined();
        lemma_standard_counts_total();
    }
    let built = GameTileData::build(&table);
    built.unwrap()
}

/// The areas with `to` added to the areas that area `from` borders.
pub open spec fn add_connection_spec(areas: Seq<TileAreaView>, from: int, to: TileAreaIndex) -> Seq<
    TileAreaView,
> {
    areas.update(
        from,
        TileAreaView {
            area_type: areas[from].area_type,
            self_idx: areas[from].self_idx,
            edges: areas[from].edges,
            connected_areas: areas[from].connected_areas.push(to),
        },
    )
}

/// The areas after each pair of `conns`, in order, has been connected both
/// ways: for a pair `[a, b]`, area `offset + a` borders `offset + b` and
/// area `offset + b` borders `offset + a`.
pub open spec fn connect_all(
    areas: Seq<TileAreaView>,
    conns: Seq<[TileAreaIndex; 2]>,
    offset: int,
) -> Seq<TileAreaView>
    decreases conns.len(),
{
    if conns.len() == 0 {
        areas
    } else {
        let before = connect_all(areas, conns.drop_last(), offset);
        let a = offset + conns.last()@[0];
        let b = offset + conns.last()@[1];
        add_connection_spec(add_connection_spec(before, a, b as usize), b, a as usize)
    }
}

/// Adds `to` to the areas that area `from` borders.
fn add_connection(areas: &mut Vec<TileArea>, from: TileAreaIndex, to: TileAreaIndex)
    requires
        from < old(areas).len(),
    ensures
        areas_view(final(areas)@) == add_connection_spec(areas_view(old(areas)@), from as int, to),
        final(areas).len() == old(areas).len(),
{
    let mut area = areas.remove(from);
    area.connected_areas.push(to);
    areas.insert(from, area);
    proof {
        assert(areas_view(areas@) =~= add_connection_spec(
            areas_view(old(areas)@),
            from as int,
            to,
        ));
    }
}

/// Records which areas of a tile border each other. The pairs of `conns`
/// count from the tile's first area, which stands at `offset` in `areas`.
pub fn make_tile_area_connections(
    areas: &mut Vec<TileArea>,
    conns: Vec<[TileAreaIndex; 2]>,
    offset: TileAreaIndex,
)
    requires
        forall|c: int|
            0 <= c < conns.len() ==> offset + (#[trigger] conns@[c])@[0] < old(areas).len()
                && offset + conns@[c]@[1] < old(areas).len(),
    ensures
        areas_view(final(areas)@) == connect_all(
            areas_view(old(areas)@),
            conns@,
            offset as int,
        ),
        final(areas).len() == old(areas).len(),
{
    let mut c: usize = 0;
    proof {
        assert(conns@.take(0) =~= Seq::empty());
    }
    while c < conns.len()
        invariant
            c <= conns.len(),
            areas.len() == old(areas).len(),
            forall|d: int|
                0 <= d < conns.len() ==> offset + (#[trigger] conns@[d])@[0] < areas.len()
                    && offset + conns@[d]@[1] < areas.len(),
            areas_view(areas@) == connect_all(
                areas_view(old(areas)@),
                conns@.take(c as int),
                offset as int,
            ),
        decreases conns.len() - c,
    {
        let a: usize = offset + conns[c][0];
        let b: usize = offset + conns[c][1];
        add_connection(areas, a, b);
        add_connection(areas, b, a);
        proof {
            let next = conns@.take(c + 1);
            assert(next.drop_last() =~= conns@.take(c as int));
            assert(next.last() == conns@[c as int]);
        }
        c += 1;
    }
    proof {
        assert(conns@.take(c as int) =~= conns@);
    }
}

} // verus!
