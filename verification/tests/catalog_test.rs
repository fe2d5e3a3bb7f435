use rustcassonne::catalog::{
    create_tiles, get_absolute_area_from_relative_area, make_tile_area_connections,
    standard_counting_table, GameTileData,
};
use rustcassonne::players::{Meeple, Player, TeamColor, NUM_MEEPLES};
use rustcassonne::tile_shapes::tile_shape;
use rustcassonne::tiles::{
    create_area, define_tile, fill_area_idxs, get_tile, segments_are_partitioned, AreaType,
    ConfigurationError, TileArea, TileType,
};

fn road_through() -> Vec<TileArea> {
    vec![
        create_area(AreaType::Farm, vec![0, 8, 9, 10, 11]),
        create_area(AreaType::Road, vec![1, 7]),
        create_area(AreaType::Farm, vec![2, 3, 4, 5, 6]),
    ]
}

fn right_edge_owned_twice() -> Vec<TileArea> {
    vec![
        create_area(AreaType::Town, vec![0, 1, 2]),
        create_area(AreaType::Farm, vec![0, 1, 2, 3, 4, 5, 6, 7, 8, 9, 10, 11]),
    ]
}

#[test]
fn create_area_starts_without_index_or_connections() {
    let a = create_area(AreaType::Road, vec![1, 7]);
    assert_eq!(a.area_type, AreaType::Road);
    assert_eq!(a.self_idx, 0);
    assert_eq!(a.edges, vec![1, 7]);
    assert!(a.connected_areas.is_empty());
}

#[test]
fn standard_table_has_twenty_four_types_and_seventy_two_tiles() {
    let table = standard_counting_table();
    assert_eq!(table.len(), 24);
    assert_eq!(table[0], (TileType::RFRF_02, 8));
    assert_eq!(table[1], (TileType::FRRF_12, 9));
    assert_eq!(table[23], (TileType::PPPP_0123, 1));
    let total: usize = table.iter().map(|e| e.1).sum();
    assert_eq!(total, 72);
}

#[test]
fn create_tiles_builds_the_whole_game() {
    let catalog = create_tiles();
    assert_eq!(catalog.all_tiles.len(), 72);
    assert_eq!(catalog.all_areas.len(), 251);
    assert_eq!(catalog.all_tiles[0].tile_type, TileType::RFRF_02);
    assert_eq!(catalog.all_tiles[7].tile_type, TileType::RFRF_02);
    assert_eq!(catalog.all_tiles[8].tile_type, TileType::FRRF_12);
    assert_eq!(catalog.all_tiles[21].tile_type, TileType::RRRR);
    assert_eq!(catalog.all_tiles[71].tile_type, TileType::PPPP_0123);
    assert_eq!(catalog.all_tiles[0].areas, vec![0, 1, 2]);
    assert_eq!(catalog.all_tiles[1].areas, vec![3, 4, 5]);
    assert_eq!(catalog.all_tiles[21].areas, vec![79, 80, 81, 82, 83, 84, 85, 86, 87]);
    assert_eq!(catalog.all_tiles[71].areas, vec![250]);
}

#[test]
fn create_tiles_matches_build_on_the_standard_table() {
    let built = GameTileData::build(&standard_counting_table()).unwrap();
    let made = create_tiles();
    assert_eq!(built.all_tiles.len(), made.all_tiles.len());
    assert_eq!(built.all_areas.len(), made.all_areas.len());
    for k in 0..made.all_tiles.len() {
        assert_eq!(built.all_tiles[k].tile_type, made.all_tiles[k].tile_type);
        assert_eq!(built.all_tiles[k].areas, made.all_tiles[k].areas);
    }
}

#[test]
fn every_area_knows_its_own_index() {
    let catalog = create_tiles();
    for (i, area) in catalog.all_areas.iter().enumerate() {
        assert_eq!(area.self_idx, i);
    }
}

#[test]
fn the_areas_of_each_tile_stand_side_by_side() {
    let catalog = create_tiles();
    let mut next = 0;
    for tile in &catalog.all_tiles {
        assert!(!tile.areas.is_empty());
        for &a in &tile.areas {
            assert_eq!(a, next);
            next += 1;
        }
    }
    assert_eq!(next, catalog.all_areas.len());
}

#[test]
fn every_tile_of_the_game_divides_the_twelve_segments() {
    let catalog = create_tiles();
    for k in 0..catalog.all_tiles.len() {
        let mut seen: Vec<usize> = Vec::new();
        for area in catalog.areas_of(k) {
            seen.extend(&area.edges);
        }
        seen.sort();
        assert_eq!(seen, vec![0, 1, 2, 3, 4, 5, 6, 7, 8, 9, 10, 11]);
    }
}

#[test]
fn road_through_tile_has_the_road_on_segments_one_and_seven() {
    let catalog = create_tiles();
    let areas = catalog.areas_of(0);
    assert_eq!(areas.len(), 3);
    assert_eq!(areas[0].area_type, AreaType::Farm);
    assert_eq!(areas[0].edges, vec![0, 8, 9, 10, 11]);
    assert_eq!(areas[1].area_type, AreaType::Road);
    assert_eq!(areas[1].edges, vec![1, 7]);
    assert_eq!(areas[2].area_type, AreaType::Farm);
    assert_eq!(areas[2].edges, vec![2, 3, 4, 5, 6]);
}

#[test]
fn crossroads_has_four_road_ends_and_a_marker() {
    let areas = tile_shape(TileType::RRRR).unwrap();
    assert_eq!(areas.len(), 9);
    assert_eq!(areas[1].area_type, AreaType::EndRoad);
    assert_eq!(areas[1].edges, vec![1]);
    assert_eq!(areas[7].area_type, AreaType::EndRoad);
    assert_eq!(areas[7].edges, vec![10]);
    assert_eq!(areas[8].area_type, AreaType::RoadStopMarker);
    assert!(areas[8].edges.is_empty());
}

#[test]
fn cloister_owns_no_segment() {
    let areas = tile_shape(TileType::FFFF_C).unwrap();
    assert_eq!(areas.len(), 2);
    assert_eq!(areas[0].edges, vec![0, 1, 2, 3, 4, 5, 6, 7, 8, 9, 10, 11]);
    assert_eq!(areas[1].area_type, AreaType::Cloister);
    assert!(areas[1].edges.is_empty());
}

#[test]
fn pennant_variants_differ_only_in_the_town_kind() {
    let plain = tile_shape(TileType::TFFT_03).unwrap();
    let pennant = tile_shape(TileType::PFFP_03).unwrap();
    assert_eq!(plain.len(), pennant.len());
    assert_eq!(plain[0].area_type, AreaType::Town);
    assert_eq!(pennant[0].area_type, AreaType::PennantTown);
    for i in 0..plain.len() {
        assert_eq!(plain[i].edges, pennant[i].edges);
    }
}

#[test]
fn water_tiles_and_unspecified_have_no_shape() {
    for t in [
        TileType::Unspecified,
        TileType::FWFF,
        TileType::WFWF_02,
        TileType::FWWF_12,
        TileType::WRWF_02_C,
        TileType::WRWR_02_13,
        TileType::RWWR_03_12,
        TileType::WRWT_02,
        TileType::WTWT_02,
        TileType::TWWT_03,
    ] {
        assert!(tile_shape(t).is_none());
    }
}

#[test]
fn every_defined_shape_divides_the_twelve_segments() {
    let table = standard_counting_table();
    for (t, _) in table {
        let areas = tile_shape(t).unwrap();
        assert!(segments_are_partitioned(&areas));
    }
}

#[test]
fn partition_check_accepts_a_good_tile() {
    assert!(segments_are_partitioned(&road_through()));
}

#[test]
fn partition_check_refuses_a_segment_owned_twice() {
    assert!(!segments_are_partitioned(&right_edge_owned_twice()));
    let twice_in_one_area = vec![create_area(
        AreaType::Farm,
        vec![0, 1, 2, 3, 4, 5, 6, 7, 8, 9, 10, 11, 11],
    )];
    assert!(!segments_are_partitioned(&twice_in_one_area));
}

#[test]
fn partition_check_refuses_a_missing_segment() {
    let areas = vec![
        create_area(AreaType::Farm, vec![0, 1, 2, 3, 4, 5]),
        create_area(AreaType::Town, vec![6, 7, 8, 9, 10]),
    ];
    assert!(!segments_are_partitioned(&areas));
    let none: Vec<TileArea> = Vec::new();
    assert!(!segments_are_partitioned(&none));
}

#[test]
fn partition_check_refuses_a_segment_out_of_range() {
    let areas = vec![create_area(
        AreaType::Farm,
        vec![1, 2, 3, 4, 5, 6, 7, 8, 9, 10, 11, 12],
    )];
    assert!(!segments_are_partitioned(&areas));
}

#[test]
fn fill_area_idxs_enters_the_areas_with_their_indices() {
    let mut all_areas = vec![create_area(
        AreaType::PennantTown,
        vec![0, 1, 2, 3, 4, 5, 6, 7, 8, 9, 10, 11],
    )];
    let idxs = fill_area_idxs(road_through(), &mut all_areas).unwrap();
    assert_eq!(idxs, vec![1, 2, 3]);
    assert_eq!(all_areas.len(), 4);
    assert_eq!(all_areas[1].self_idx, 1);
    assert_eq!(all_areas[2].self_idx, 2);
    assert_eq!(all_areas[3].self_idx, 3);
    assert_eq!(all_areas[2].area_type, AreaType::Road);
    assert_eq!(all_areas[2].edges, vec![1, 7]);
    assert_eq!(all_areas[3].edges, vec![2, 3, 4, 5, 6]);
}

#[test]
fn fill_area_idxs_refuses_a_bad_tile_and_enters_nothing() {
    let mut all_areas: Vec<TileArea> = Vec::new();
    let r = fill_area_idxs(right_edge_owned_twice(), &mut all_areas);
    assert_eq!(r, Err(ConfigurationError::SegmentsNotPartitioned));
    assert!(all_areas.is_empty());
}

#[test]
fn define_tile_keeps_type_and_indices() {
    let mut all_areas: Vec<TileArea> = Vec::new();
    let tile = define_tile(TileType::RFRF_02, road_through(), &mut all_areas).unwrap();
    assert_eq!(tile.tile_type, TileType::RFRF_02);
    assert_eq!(tile.areas, vec![0, 1, 2]);
    assert_eq!(all_areas.len(), 3);
    let bad = define_tile(TileType::FWFF, right_edge_owned_twice(), &mut all_areas);
    assert!(matches!(bad, Err(ConfigurationError::SegmentsNotPartitioned)));
    assert_eq!(all_areas.len(), 3);
}

#[test]
fn get_tile_appends_the_shape_of_the_type() {
    let mut all_areas: Vec<TileArea> = Vec::new();
    let first = get_tile(TileType::FFFT, &mut all_areas).unwrap();
    let second = get_tile(TileType::TRRT_03_12, &mut all_areas).unwrap();
    assert_eq!(first.tile_type, TileType::FFFT);
    assert_eq!(first.areas, vec![0, 1]);
    assert_eq!(second.tile_type, TileType::TRRT_03_12);
    assert_eq!(second.areas, vec![2, 3, 4, 5]);
    assert_eq!(all_areas.len(), 6);
    assert_eq!(all_areas[1].area_type, AreaType::Town);
    assert_eq!(all_areas[1].edges, vec![9, 10, 11]);
    assert_eq!(all_areas[4].area_type, AreaType::Road);
    assert_eq!(all_areas[4].edges, vec![4, 7]);
    assert_eq!(all_areas[4].self_idx, 4);
}

#[test]
fn get_tile_fails_for_a_type_without_shape() {
    let mut all_areas: Vec<TileArea> = Vec::new();
    let r = get_tile(TileType::WTWT_02, &mut all_areas);
    assert!(matches!(r, Err(ConfigurationError::UndefinedShape)));
    assert!(all_areas.is_empty());
}

#[test]
fn build_follows_the_counting_table() {
    let table = vec![
        (TileType::FFFF_C, 2),
        (TileType::RRRR, 0),
        (TileType::PPPP_0123, 1),
    ];
    let catalog = GameTileData::build(&table).unwrap();
    assert_eq!(catalog.all_tiles.len(), 3);
    assert_eq!(catalog.all_areas.len(), 5);
    assert_eq!(catalog.tile_type(0), TileType::FFFF_C);
    assert_eq!(catalog.tile_type(1), TileType::FFFF_C);
    assert_eq!(catalog.tile_type(2), TileType::PPPP_0123);
    assert_eq!(catalog.all_tiles[1].areas, vec![2, 3]);
    assert_eq!(catalog.all_tiles[2].areas, vec![4]);
    assert_eq!(catalog.area_count(0), 2);
    assert_eq!(catalog.area_count(2), 1);
}

#[test]
fn build_of_an_empty_table_is_an_empty_catalog() {
    let catalog = GameTileData::build(&Vec::new()).unwrap();
    assert!(catalog.all_tiles.is_empty());
    assert!(catalog.all_areas.is_empty());
}

#[test]
fn build_fails_for_a_type_without_shape() {
    let table = vec![(TileType::RFRF_02, 1), (TileType::FWFF, 1)];
    let r = GameTileData::build(&table);
    assert!(matches!(r, Err(ConfigurationError::UndefinedShape)));
}

#[test]
fn build_does_not_mind_a_type_without_shape_that_is_not_asked_for() {
    let table = vec![(TileType::FWFF, 0), (TileType::RFRF_02, 1)];
    let catalog = GameTileData::build(&table).unwrap();
    assert_eq!(catalog.all_tiles.len(), 1);
}

#[test]
fn catalog_with_a_malformed_tile_is_refused() {
    let defs = vec![
        (TileType::RFRF_02, road_through()),
        (TileType::TFFT, right_edge_owned_twice()),
    ];
    let r = GameTileData::from_definitions(defs);
    assert!(matches!(r, Err(ConfigurationError::SegmentsNotPartitioned)));
}

#[test]
fn catalog_from_definitions_holds_one_tile_each() {
    let defs = vec![
        (TileType::RFRF_02, road_through()),
        (
            TileType::PPPP_0123,
            vec![create_area(
                AreaType::PennantTown,
                vec![0, 1, 2, 3, 4, 5, 6, 7, 8, 9, 10, 11],
            )],
        ),
    ];
    let catalog = GameTileData::from_definitions(defs).unwrap();
    assert_eq!(catalog.all_tiles.len(), 2);
    assert_eq!(catalog.all_tiles[0].areas, vec![0, 1, 2]);
    assert_eq!(catalog.all_tiles[1].areas, vec![3]);
    assert_eq!(catalog.tile_type(1), TileType::PPPP_0123);
    assert_eq!(catalog.all_areas[3].self_idx, 3);
    assert_eq!(catalog.areas_of(1).len(), 1);
    assert_eq!(catalog.areas_of(0)[1].edges, vec![1, 7]);
}

#[test]
fn absolute_area_counts_from_the_tiles_first_area() {
    let catalog = create_tiles();
    assert_eq!(get_absolute_area_from_relative_area(0, 0, &catalog), 0);
    assert_eq!(get_absolute_area_from_relative_area(0, 2, &catalog), 2);
    assert_eq!(get_absolute_area_from_relative_area(8, 1, &catalog), 25);
    assert_eq!(get_absolute_area_from_relative_area(21, 8, &catalog), 87);
    assert_eq!(get_absolute_area_from_relative_area(71, 0, &catalog), 250);
}

#[test]
fn area_connections_go_both_ways() {
    let mut areas = vec![
        create_area(AreaType::PennantTown, vec![0, 1, 2, 3, 4, 5, 6, 7, 8, 9, 10, 11]),
        create_area(AreaType::Town, vec![0, 1, 2, 6, 7, 8, 9, 10, 11]),
        create_area(AreaType::Farm, vec![3]),
        create_area(AreaType::EndRoad, vec![4]),
        create_area(AreaType::Farm, vec![5]),
    ];
    make_tile_area_connections(&mut areas, vec![[0, 1], [0, 3], [2, 2]], 1);
    assert!(areas[0].connected_areas.is_empty());
    assert_eq!(areas[1].connected_areas, vec![2, 4]);
    assert_eq!(areas[2].connected_areas, vec![1]);
    assert_eq!(areas[3].connected_areas, vec![3, 3]);
    assert_eq!(areas[4].connected_areas, vec![1]);
    assert_eq!(areas[1].edges, vec![0, 1, 2, 6, 7, 8, 9, 10, 11]);
    assert_eq!(areas.len(), 5);
}

#[test]
fn no_connections_change_nothing() {
    let mut areas = road_through();
    make_tile_area_connections(&mut areas, Vec::new(), 0);
    assert_eq!(areas.len(), 3);
    assert!(areas.iter().all(|a| a.connected_areas.is_empty()));
}

#[test]
fn players_hold_team_meeples_and_points() {
    let player = Player { team: TeamColor::Red, meeples: vec![0, 1, 2], points: 0 };
    assert_eq!(player.team, TeamColor::Red);
    assert_eq!(player.meeples.len(), 3);
    assert_eq!(player.points, 0);
    let meeple = Meeple { team: TeamColor::Blue };
    assert_eq!(meeple.team, TeamColor::Blue);
    assert_eq!(NUM_MEEPLES, 7);
}
