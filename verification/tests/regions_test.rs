use rustcassonne::catalog::{create_tiles, GameTileData};
use rustcassonne::game_board::{IllegalPlacement, TileMatrixCoords};
use rustcassonne::game_logic::GameplayData;
use rustcassonne::region_merger::{compatible, owner_of_segment, RegionHandle, RegionMerger};
use rustcassonne::region_union::RegionUnion;
use rustcassonne::segments::TileDirection;
use rustcassonne::tiles::{AreaType, TileType};

fn at(x: i32, y: i32) -> TileMatrixCoords {
    TileMatrixCoords { x, y }
}

fn first_of(catalog: &GameTileData, tile_type: TileType) -> usize {
    catalog
        .all_tiles
        .iter()
        .position(|t| t.tile_type == tile_type)
        .unwrap()
}

fn started(catalog: &GameTileData) -> GameplayData {
    let mut game = GameplayData::new(catalog);
    game.initialize();
    game
}

#[test]
fn union_find_starts_with_every_node_alone() {
    let mut u = RegionUnion::new();
    assert_eq!(u.len(), 0);
    assert_eq!(u.add_node(), 0);
    assert_eq!(u.add_node(), 1);
    assert_eq!(u.add_node(), 2);
    assert_eq!(u.len(), 3);
    for x in 0..3 {
        assert_eq!(u.root(x), x);
        assert_eq!(u.find(x), x);
        assert_eq!(u.members(x), vec![x]);
    }
    assert!(!u.same_class(0, 1));
    assert!(u.same_class(2, 2));
}

#[test]
fn union_is_symmetric() {
    let mut left = RegionUnion::new();
    let mut right = RegionUnion::new();
    for _ in 0..4 {
        left.add_node();
        right.add_node();
    }
    left.union(1, 3);
    right.union(3, 1);
    for x in 0..4 {
        assert_eq!(left.find(x), right.find(x));
    }
    assert_eq!(left.find(3), 1);
    assert_eq!(left.find(0), 0);
    assert_eq!(left.find(2), 2);
}

#[test]
fn union_is_transitive() {
    let mut u = RegionUnion::new();
    for _ in 0..6 {
        u.add_node();
    }
    u.union(4, 2);
    u.union(2, 5);
    assert_eq!(u.find(4), u.find(5));
    assert_eq!(u.find(4), 2);
    assert!(u.same_class(4, 5));
    assert!(!u.same_class(4, 3));
    assert_eq!(u.members(5), vec![2, 4, 5]);
    u.union(5, 0);
    assert_eq!(u.find(4), 0);
    assert_eq!(u.members(4), vec![0, 2, 4, 5]);
    assert_eq!(u.members(1), vec![1]);
}

#[test]
fn union_of_a_class_with_itself_changes_nothing() {
    let mut u = RegionUnion::new();
    for _ in 0..3 {
        u.add_node();
    }
    u.union(0, 1);
    u.union(1, 0);
    u.union(2, 2);
    assert_eq!(u.members(0), vec![0, 1]);
    assert_eq!(u.members(2), vec![2]);
}

#[test]
fn find_shortens_links_without_changing_classes() {
    let mut u = RegionUnion::new();
    for _ in 0..5 {
        u.add_node();
    }
    u.union(3, 4);
    u.union(1, 3);
    u.union(0, 1);
    assert_eq!(u.root(4), 0);
    assert_eq!(u.find(4), 0);
    assert_eq!(u.parent[4], 0);
    assert_eq!(u.root(4), 0);
    assert_eq!(u.members(0), vec![0, 1, 3, 4]);
}

#[test]
fn kinds_that_join_across_an_edge() {
    assert!(compatible(AreaType::Road, AreaType::Road));
    assert!(compatible(AreaType::EndRoad, AreaType::Road));
    assert!(compatible(AreaType::Road, AreaType::EndRoad));
    assert!(compatible(AreaType::Town, AreaType::Town));
    assert!(compatible(AreaType::Town, AreaType::PennantTown));
    assert!(compatible(AreaType::PennantTown, AreaType::Town));
    assert!(compatible(AreaType::PennantTown, AreaType::PennantTown));
    assert!(compatible(AreaType::Farm, AreaType::Farm));
    assert!(compatible(AreaType::Water, AreaType::Water));
}

#[test]
fn kinds_that_do_not_join() {
    assert!(!compatible(AreaType::Farm, AreaType::Road));
    assert!(!compatible(AreaType::Road, AreaType::Farm));
    assert!(!compatible(AreaType::Town, AreaType::Farm));
    assert!(!compatible(AreaType::Town, AreaType::Road));
    assert!(!compatible(AreaType::EndRoad, AreaType::EndRoad));
    assert!(!compatible(AreaType::Cloister, AreaType::Cloister));
    assert!(!compatible(AreaType::RoadStopMarker, AreaType::Road));
    assert!(!compatible(AreaType::Unspecified, AreaType::Unspecified));
    assert!(!compatible(AreaType::Water, AreaType::Farm));
}

#[test]
fn owner_of_each_segment_of_the_road_through_tile() {
    let catalog = create_tiles();
    let areas = catalog.areas_of(0);
    let owners: Vec<usize> = (0..12).map(|s| owner_of_segment(areas, s)).collect();
    assert_eq!(owners, vec![0, 1, 2, 2, 2, 2, 2, 1, 0, 0, 0, 0]);
}

#[test]
fn new_merger_knows_no_tile() {
    let merger = RegionMerger::new();
    assert_eq!(merger.regions.len(), 0);
    assert!(merger.tile_first.is_empty());
    assert!(merger.tile_count.is_empty());
    assert!(merger.node_tile.is_empty());
}

#[test]
fn add_tile_makes_a_region_for_each_area() {
    let mut merger = RegionMerger::new();
    merger.add_tile(3);
    merger.add_tile(0);
    merger.add_tile(2);
    assert_eq!(merger.regions.len(), 5);
    assert_eq!(merger.tile_first, vec![0, 3, 3]);
    assert_eq!(merger.tile_count, vec![3, 0, 2]);
    assert_eq!(merger.node_tile, vec![0, 0, 0, 2, 2]);
    assert_eq!(merger.node(0, 2), 2);
    assert_eq!(merger.node(2, 1), 4);
    assert_eq!(merger.find_region(2, 1), RegionHandle { root: 4 });
    assert!(!merger.same_region(0, 0, 2, 0));
    assert_eq!(
        merger.connected_tile_areas(RegionHandle { root: 3 }),
        vec![(2, 0)]
    );
}

#[test]
fn first_tile_has_a_region_for_each_area() {
    let catalog = create_tiles();
    let mut game = started(&catalog);
    let t = game
        .place_tile(&catalog, at(0, 0), 0, TileDirection::North)
        .unwrap();
    assert_eq!(t, 0);
    assert_eq!(game.regions.regions.len(), 3);
    let a = game.find_region(0, 0);
    let b = game.find_region(0, 1);
    let c = game.find_region(0, 2);
    assert_eq!(a, RegionHandle { root: 0 });
    assert_eq!(b, RegionHandle { root: 1 });
    assert_eq!(c, RegionHandle { root: 2 });
    assert_eq!(game.regions.connected_tile_areas(b), vec![(0, 1)]);
}

#[test]
fn first_tile_opens_the_four_cells_round_the_origin() {
    let catalog = create_tiles();
    let mut game = started(&catalog);
    let road_through = first_of(&catalog, TileType::RFRF_02);
    game.place_tile(&catalog, at(0, 0), road_through, TileDirection::North)
        .unwrap();
    let mut open: Vec<(i32, i32)> = game
        .board
        .query_open_slots()
        .iter()
        .map(|c| (c.x, c.y))
        .collect();
    open.sort();
    assert_eq!(open, vec![(-1, 0), (0, -1), (0, 1), (1, 0)]);
}

#[test]
fn roads_that_meet_across_an_edge_are_one_region() {
    let catalog = create_tiles();
    let mut game = started(&catalog);
    // Turned once, the road of the first tile runs from top to bottom.
    game.place_tile(&catalog, at(0, 0), 0, TileDirection::East)
        .unwrap();
    // So does that of the second tile, whose bottom edge lies on the
    // first tile's top edge.
    let second = game
        .place_tile(&catalog, at(0, 1), 1, TileDirection::East)
        .unwrap();
    assert_eq!(second, 1);
    assert_eq!(game.find_region(0, 1), game.find_region(1, 1));
    assert_eq!(game.find_region(1, 1), RegionHandle { root: 1 });
    assert!(game.regions.same_region(0, 1, 1, 1));
    let road = game.find_region(1, 1);
    assert_eq!(
        game.regions.connected_tile_areas(road),
        vec![(0, 1), (1, 1)]
    );
    // The farms on either side of the road are joined too, each with its
    // own side.
    assert!(game.regions.same_region(0, 0, 1, 0));
    assert!(game.regions.same_region(0, 2, 1, 2));
    assert!(!game.regions.same_region(0, 0, 0, 2));
    assert!(!game.regions.same_region(0, 0, 0, 1));
}

#[test]
fn a_farm_edge_against_a_road_edge_joins_no_road() {
    let catalog = create_tiles();
    let mut game = started(&catalog);
    // Unturned, the first tile has farm along its top edge.
    game.place_tile(&catalog, at(0, 0), 0, TileDirection::North)
        .unwrap();
    // The second tile brings a road down to its bottom edge.
    game.place_tile(&catalog, at(0, 1), 1, TileDirection::East)
        .unwrap();
    assert_ne!(game.find_region(0, 1), game.find_region(1, 1));
    assert!(!game.regions.same_region(0, 1, 1, 1));
    assert!(!game.regions.same_region(0, 0, 1, 1));
    let road = game.find_region(1, 1);
    assert_eq!(game.regions.connected_tile_areas(road), vec![(1, 1)]);
    // The farm segments to the left and right of that road do touch farm.
    assert!(game.regions.same_region(0, 0, 1, 0));
    assert!(game.regions.same_region(0, 0, 1, 2));
}

#[test]
fn roads_side_by_side_run_on() {
    let catalog = create_tiles();
    let mut game = started(&catalog);
    game.place_tile(&catalog, at(0, 0), 0, TileDirection::North)
        .unwrap();
    game.place_tile(&catalog, at(1, 0), 1, TileDirection::North)
        .unwrap();
    game.place_tile(&catalog, at(-1, 0), 2, TileDirection::South)
        .unwrap();
    let road = game.find_region(0, 1);
    assert_eq!(game.find_region(1, 1), road);
    assert_eq!(game.find_region(2, 1), road);
    assert_eq!(
        game.regions.connected_tile_areas(road),
        vec![(0, 1), (1, 1), (2, 1)]
    );
    // Turned half round, the third tile has its bottom farm on top.
    assert!(game.regions.same_region(0, 0, 1, 0));
    assert!(game.regions.same_region(0, 0, 2, 2));
    assert!(game.regions.same_region(0, 2, 2, 0));
    assert!(!game.regions.same_region(0, 0, 2, 0));
}

#[test]
fn towns_join_with_and_without_pennant() {
    let catalog = create_tiles();
    let mut game = started(&catalog);
    let pennant_corner = first_of(&catalog, TileType::PFFP_03);
    let two_towns = first_of(&catalog, TileType::FTFT);
    let town_top = first_of(&catalog, TileType::FFFT);
    game.place_tile(&catalog, at(0, 0), pennant_corner, TileDirection::North)
        .unwrap();
    game.place_tile(&catalog, at(0, 1), two_towns, TileDirection::North)
        .unwrap();
    // Bottom town of the second tile against the pennant town.
    assert!(game.regions.same_region(0, 0, 1, 1));
    assert!(!game.regions.same_region(0, 0, 1, 2));
    assert!(!game.regions.same_region(0, 0, 1, 0));
    // A town turned to face west against the pennant town's right edge.
    game.place_tile(&catalog, at(1, 0), town_top, TileDirection::West)
        .unwrap();
    assert!(game.regions.same_region(0, 0, 2, 1));
    let town = game.find_region(2, 1);
    assert_eq!(
        game.regions.connected_tile_areas(town),
        vec![(0, 0), (1, 1), (2, 1)]
    );
}

#[test]
fn a_road_end_joins_a_road_but_not_another_road_end() {
    let catalog = create_tiles();
    let mut game = started(&catalog);
    let junction = first_of(&catalog, TileType::RRRF);
    game.place_tile(&catalog, at(0, 0), 0, TileDirection::North)
        .unwrap();
    game.place_tile(&catalog, at(1, 0), junction, TileDirection::North)
        .unwrap();
    // Left road end of the junction against the road's right end.
    assert!(game.regions.same_region(0, 1, 1, 5));
    assert!(!game.regions.same_region(0, 1, 1, 1));
    game.place_tile(&catalog, at(2, 0), junction + 1, TileDirection::North)
        .unwrap();
    // Right road end of the first junction against the left road end of
    // the second.
    assert!(!game.regions.same_region(1, 1, 2, 5));
}

#[test]
fn a_tile_between_two_regions_makes_them_one() {
    let catalog = create_tiles();
    let mut game = started(&catalog);
    game.place_tile(&catalog, at(0, 0), 0, TileDirection::North)
        .unwrap();
    game.place_tile(&catalog, at(1, 0), 1, TileDirection::North)
        .unwrap();
    game.place_tile(&catalog, at(1, 1), 2, TileDirection::North)
        .unwrap();
    assert!(!game.regions.same_region(0, 1, 2, 1));
    // The fourth tile lies against the first from above and against the
    // third from the left; its road joins the third tile's road only.
    game.place_tile(&catalog, at(0, 1), 3, TileDirection::North)
        .unwrap();
    assert!(game.regions.same_region(3, 1, 2, 1));
    assert!(!game.regions.same_region(3, 1, 0, 1));
    // Its bottom farm joins the top farm of the first tile, and with it
    // that of the second.
    assert!(game.regions.same_region(3, 2, 0, 0));
    assert!(game.regions.same_region(3, 2, 1, 0));
}

#[test]
fn illegal_placement_leaves_board_and_regions_alone() {
    let catalog = create_tiles();
    let mut game = started(&catalog);
    game.place_tile(&catalog, at(0, 0), 0, TileDirection::North)
        .unwrap();
    let open_before = game.board.query_open_slots();
    let nodes_before = game.regions.regions.len();
    let r = game.place_tile(&catalog, at(3, 3), 1, TileDirection::North);
    assert_eq!(r, Err(IllegalPlacement::NotOpen));
    let r = game.place_tile(&catalog, at(0, 0), 1, TileDirection::North);
    assert_eq!(r, Err(IllegalPlacement::Occupied));
    assert_eq!(game.board.query_open_slots(), open_before);
    assert_eq!(game.board.next_tile_index(), 1);
    assert_eq!(game.regions.regions.len(), nodes_before);
    assert_eq!(game.regions.tile_count, vec![3]);
    assert_eq!(game.board.tile_at(at(3, 3)), None);
}

#[test]
fn placing_without_initialize_fails() {
    let catalog = create_tiles();
    let mut game = GameplayData::new(&catalog);
    let r = game.place_tile(&catalog, at(0, 0), 0, TileDirection::North);
    assert_eq!(r, Err(IllegalPlacement::NotOpen));
}

#[test]
fn mega_area_names_the_areas_of_the_catalog() {
    let catalog = create_tiles();
    let mut game = started(&catalog);
    game.place_tile(&catalog, at(0, 0), 9, TileDirection::East)
        .unwrap();
    game.place_tile(&catalog, at(0, 1), 4, TileDirection::East)
        .unwrap();
    let farm = game.find_region(1, 0);
    let instances = game.regions.connected_tile_areas(farm);
    let mega = game.mega_area(&catalog, &instances);
    assert_eq!(instances.len(), mega.connected_areas.len());
    for (i, (tile, area)) in instances.iter().enumerate() {
        let def = game.board.placed_tile(*tile).unwrap().tile_def_index;
        assert_eq!(mega.connected_areas[i], catalog.all_tiles[def].areas[*area]);
    }
    // The first tile is a road bend of the catalog's second kind, whose
    // areas begin at 24 + 3; the second a road through, whose areas begin
    // at 12.
    let road = game.find_region(1, 1);
    let instances = game.regions.connected_tile_areas(road);
    assert_eq!(instances, vec![(0, 1), (1, 1)]);
    assert_eq!(
        game.mega_area(&catalog, &instances).connected_areas,
        vec![28, 13]
    );
    assert!(game
        .mega_area(&catalog, &Vec::new())
        .connected_areas
        .is_empty());
}

#[test]
fn new_game_has_every_tile_in_the_pile() {
    let catalog = create_tiles();
    let game = GameplayData::new(&catalog);
    let all: Vec<usize> = (0..72).collect();
    assert_eq!(game.unspawned_tiles, all);
    assert!(game.spawned_tiles.is_empty());
    assert!(game.free_placeholders.is_empty());
    assert!(game.board.query_open_slots().is_empty());
}

#[test]
fn draw_tile_moves_a_tile_from_the_pile() {
    let catalog = create_tiles();
    let mut game = GameplayData::new(&catalog);
    assert_eq!(game.draw_tile(5), 5);
    assert_eq!(game.draw_tile(5), 6);
    assert_eq!(game.draw_tile(0), 0);
    assert_eq!(game.spawned_tiles, vec![5, 6, 0]);
    assert_eq!(game.unspawned_tiles.len(), 69);
    assert_eq!(game.unspawned_tiles[0], 1);
    assert_eq!(game.unspawned_tiles[4], 7);
    assert_eq!(game.draw_tile(68), 71);
}

#[test]
fn spawn_tile_draws_every_tile_once() {
    let catalog = create_tiles();
    let mut game = GameplayData::new(&catalog);
    let mut drawn: Vec<usize> = Vec::new();
    for left in (0..72).rev() {
        let tile = game.spawn_tile().unwrap();
        assert!(tile < 72);
        assert!(!drawn.contains(&tile));
        drawn.push(tile);
        assert_eq!(game.unspawned_tiles.len(), left);
        assert!(!game.unspawned_tiles.contains(&tile));
        assert_eq!(game.spawned_tiles, drawn);
    }
    assert_eq!(game.spawn_tile(), None);
    assert_eq!(game.spawned_tiles.len(), 72);
    drawn.sort();
    let all: Vec<usize> = (0..72).collect();
    assert_eq!(drawn, all);
}

#[test]
fn spawn_tile_opens_the_origin_for_the_first_tile() {
    let catalog = create_tiles();
    let mut game = GameplayData::new(&catalog);
    let tile = game.spawn_tile().unwrap();
    assert_eq!(game.board.query_open_slots(), vec![at(0, 0)]);
    game.place_tile(&catalog, at(0, 0), tile, TileDirection::North)
        .unwrap();
    let open_before = game.board.query_open_slots();
    game.spawn_tile().unwrap();
    assert_eq!(game.board.query_open_slots(), open_before);
}

#[test]
fn spawn_tile_on_an_empty_pile_does_nothing() {
    let catalog = GameTileData::build(&Vec::new()).unwrap();
    let mut game = GameplayData::new(&catalog);
    assert_eq!(game.spawn_tile(), None);
    assert!(game.spawned_tiles.is_empty());
    assert!(game.board.query_open_slots().is_empty());
}

#[test]
fn placeholders_set_by_hand_are_apart_from_the_open_slots() {
    let catalog = create_tiles();
    let mut game = started(&catalog);
    assert!(game.add_placeholder(at(7, 7)));
    assert!(!game.add_placeholder(at(7, 7)));
    assert!(game.add_placeholder(at(0, 0)));
    assert_eq!(game.free_placeholders, vec![at(7, 7), at(0, 0)]);
    assert_eq!(game.board.query_open_slots(), vec![at(0, 0)]);
    let r = game.place_tile(&catalog, at(7, 7), 0, TileDirection::North);
    assert_eq!(r, Err(IllegalPlacement::NotOpen));
    game.place_tile(&catalog, at(0, 0), 0, TileDirection::North)
        .unwrap();
    assert_eq!(game.free_placeholders, vec![at(7, 7), at(0, 0)]);
    assert!(!game.board.is_open(at(7, 8)));
    assert!(game.remove_placeholder(at(7, 7)));
    assert!(!game.remove_placeholder(at(7, 7)));
    assert_eq!(game.free_placeholders, vec![at(0, 0)]);
    assert!(game.remove_placeholder(at(0, 0)));
    assert!(game.free_placeholders.is_empty());
    assert_eq!(game.board.query_open_slots().len(), 4);
    assert!(!game.remove_placeholder(at(0, 1)));
    assert!(game.board.is_open(at(0, 1)));
}

#[test]
fn links_name_every_node_that_is_not_a_root() {
    let mut u = RegionUnion::new();
    for _ in 0..6 {
        u.add_node();
    }
    assert!(u.links().is_empty());
    u.union(5, 3);
    u.union(1, 4);
    u.union(4, 5);
    assert_eq!(u.links(), vec![(3, 1), (4, 1), (5, 1)]);
    u.union(0, 2);
    assert_eq!(u.links(), vec![(2, 0), (3, 1), (4, 1), (5, 1)]);
}

#[test]
fn find_links_the_node_to_its_root() {
    let mut u = RegionUnion::new();
    for _ in 0..4 {
        u.add_node();
    }
    u.union(2, 3);
    u.union(1, 2);
    u.union(0, 1);
    assert_eq!(u.find(3), 0);
    assert_eq!(u.parent[3], 0);
    assert_eq!(u.find(2), 0);
    assert_eq!(u.parent[2], 0);
}

#[test]
fn merger_tells_which_areas_it_knows() {
    let mut merger = RegionMerger::new();
    assert!(!merger.knows_area(0, 0));
    merger.add_tile(2);
    assert!(merger.knows_area(0, 0));
    assert!(merger.knows_area(0, 1));
    assert!(!merger.knows_area(0, 2));
    assert!(!merger.knows_area(1, 0));
}

#[test]
fn regions_found_once_stay_found() {
    let catalog = create_tiles();
    let mut game = started(&catalog);
    game.place_tile(&catalog, at(0, 0), 0, TileDirection::North)
        .unwrap();
    game.place_tile(&catalog, at(1, 0), 1, TileDirection::North)
        .unwrap();
    assert!(game.regions.same_region(0, 1, 1, 1));
    game.place_tile(&catalog, at(0, 1), 22, TileDirection::North)
        .unwrap();
    game.place_tile(&catalog, at(0, -1), 71, TileDirection::North)
        .unwrap();
    assert!(game.regions.same_region(0, 1, 1, 1));
    assert!(game.regions.same_region(0, 0, 1, 0));
    // The cloister tile's farm lies on the first tile's top farm; the town
    // below touches farm and joins nothing.
    assert!(game.regions.same_region(2, 0, 0, 0));
    let town = game.find_region(3, 0);
    assert_eq!(game.regions.connected_tile_areas(town), vec![(3, 0)]);
    // The cloister is in the middle of its tile and touches nothing.
    let cloister = game.find_region(2, 1);
    assert_eq!(game.regions.connected_tile_areas(cloister), vec![(2, 1)]);
}
