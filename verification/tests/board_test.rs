use rustcassonne::game_board::{
    position_of, BoardGrid, IllegalPlacement, PlacedTile, TileMatrixCoords,
};
use rustcassonne::segments::{all_directions, TileDirection};

fn at(x: i32, y: i32) -> TileMatrixCoords {
    TileMatrixCoords { x, y }
}

fn sorted(mut cells: Vec<TileMatrixCoords>) -> Vec<(i32, i32)> {
    let mut r: Vec<(i32, i32)> = cells.drain(..).map(|c| (c.x, c.y)).collect();
    r.sort();
    r
}

/// Holds the board against what it must be by a plain count over a window
/// round the origin.
fn check_board(board: &BoardGrid) {
    let open = board.query_open_slots();
    for (i, c) in open.iter().enumerate() {
        assert!(board.tile_at(*c).is_none());
        assert!(position_of(&open, *c) == Some(i));
    }
    for t in 0..board.next_tile_index() {
        let c = board.coordinate_of(t).unwrap();
        assert_eq!(board.tile_at(c), Some(t));
    }
    for x in -6..7 {
        for y in -6..7 {
            let c = at(x, y);
            if let Some(t) = board.tile_at(c) {
                assert_eq!(board.coordinate_of(t), Some(c));
            }
            let free = board.tile_at(c).is_none();
            let touches = all_directions()
                .iter()
                .any(|d| c.neighbor(*d).map_or(false, |n| board.tile_at(n).is_some()));
            if board.next_tile_index() > 0 {
                assert_eq!(board.is_open(c), free && touches);
            }
        }
    }
}

#[test]
fn new_board_is_empty_and_has_no_open_slot() {
    let board = BoardGrid::new();
    assert!(board.query_open_slots().is_empty());
    assert_eq!(board.next_tile_index(), 0);
    assert_eq!(board.tile_at(at(0, 0)), None);
    assert_eq!(board.coordinate_of(0), None);
    assert_eq!(board.placed_tile(0), None);
    assert!(!board.is_open(at(0, 0)));
}

#[test]
fn initialize_opens_the_origin() {
    let mut board = BoardGrid::new();
    board.initialize();
    assert_eq!(board.query_open_slots(), vec![at(0, 0)]);
    assert!(board.is_open(at(0, 0)));
    assert!(!board.is_open(at(0, 1)));
    assert_eq!(board.tile_at(at(0, 0)), None);
}

#[test]
fn initialize_twice_is_initialize_once() {
    let mut board = BoardGrid::new();
    board.initialize();
    board.initialize();
    assert_eq!(board.query_open_slots(), vec![at(0, 0)]);
}

#[test]
fn initialize_on_a_board_with_a_tile_changes_nothing() {
    let mut board = BoardGrid::new();
    board.initialize();
    board.place_tile(at(0, 0), 0, TileDirection::North).unwrap();
    let before = board.query_open_slots();
    board.initialize();
    assert_eq!(board.query_open_slots(), before);
    assert!(!board.is_open(at(0, 0)));
    assert_eq!(board.tile_at(at(0, 0)), Some(0));
}

#[test]
fn first_tile_opens_its_four_neighbours() {
    let mut board = BoardGrid::new();
    board.initialize();
    let t = board.place_tile(at(0, 0), 0, TileDirection::North);
    assert_eq!(t, Ok(0));
    assert_eq!(
        board.query_open_slots(),
        vec![at(0, 1), at(1, 0), at(0, -1), at(-1, 0)]
    );
    assert_eq!(
        sorted(board.query_open_slots()),
        vec![(-1, 0), (0, -1), (0, 1), (1, 0)]
    );
    assert_eq!(board.tile_at(at(0, 0)), Some(0));
    assert_eq!(board.coordinate_of(0), Some(at(0, 0)));
    check_board(&board);
}

#[test]
fn placing_records_tile_definition_and_rotation() {
    let mut board = BoardGrid::new();
    board.initialize();
    board.place_tile(at(0, 0), 17, TileDirection::West).unwrap();
    assert_eq!(
        board.placed_tile(0),
        Some(PlacedTile {
            tile_def_index: 17,
            coords: at(0, 0),
            rotation: TileDirection::West
        })
    );
    assert_eq!(board.placed_tile(1), None);
}

#[test]
fn placing_before_initialize_fails() {
    let mut board = BoardGrid::new();
    let r = board.place_tile(at(0, 0), 0, TileDirection::North);
    assert_eq!(r, Err(IllegalPlacement::NotOpen));
    assert!(board.query_open_slots().is_empty());
    assert_eq!(board.next_tile_index(), 0);
}

#[test]
fn placing_on_a_cell_that_is_not_open_fails_and_changes_nothing() {
    let mut board = BoardGrid::new();
    board.initialize();
    board.place_tile(at(0, 0), 0, TileDirection::North).unwrap();
    let open_before = board.query_open_slots();
    let r = board.place_tile(at(2, 0), 1, TileDirection::North);
    assert_eq!(r, Err(IllegalPlacement::NotOpen));
    let r = board.place_tile(at(1, 1), 1, TileDirection::North);
    assert_eq!(r, Err(IllegalPlacement::NotOpen));
    assert_eq!(board.query_open_slots(), open_before);
    assert_eq!(board.next_tile_index(), 1);
    assert_eq!(board.tile_at(at(2, 0)), None);
    assert_eq!(board.tile_at(at(1, 1)), None);
    assert_eq!(board.coordinate_of(1), None);
    check_board(&board);
}

#[test]
fn placing_on_an_occupied_cell_fails_and_changes_nothing() {
    let mut board = BoardGrid::new();
    board.initialize();
    board.place_tile(at(0, 0), 0, TileDirection::North).unwrap();
    let open_before = board.query_open_slots();
    let r = board.place_tile(at(0, 0), 1, TileDirection::East);
    assert_eq!(r, Err(IllegalPlacement::Occupied));
    assert_eq!(board.query_open_slots(), open_before);
    assert_eq!(board.next_tile_index(), 1);
    assert_eq!(board.tile_at(at(0, 0)), Some(0));
    assert_eq!(board.placed_tile(0).unwrap().tile_def_index, 0);
}

#[test]
fn a_cell_next_to_two_tiles_is_open_once() {
    let mut board = BoardGrid::new();
    board.initialize();
    board.place_tile(at(0, 0), 0, TileDirection::North).unwrap();
    board.place_tile(at(1, 0), 1, TileDirection::North).unwrap();
    board.place_tile(at(0, 1), 2, TileDirection::North).unwrap();
    let open = board.query_open_slots();
    assert_eq!(open.iter().filter(|c| **c == at(1, 1)).count(), 1);
    assert_eq!(
        sorted(open),
        vec![(-1, 0), (-1, 1), (0, -1), (0, 2), (1, -1), (1, 1), (2, 0)]
    );
    check_board(&board);
}

#[test]
fn second_tile_takes_its_cell_out_of_the_open_slots() {
    let mut board = BoardGrid::new();
    board.initialize();
    board.place_tile(at(0, 0), 0, TileDirection::North).unwrap();
    let t = board.place_tile(at(1, 0), 5, TileDirection::South).unwrap();
    assert_eq!(t, 1);
    assert!(!board.is_open(at(1, 0)));
    assert_eq!(
        sorted(board.query_open_slots()),
        vec![(-1, 0), (0, -1), (0, 1), (1, -1), (1, 1), (2, 0)]
    );
    assert_eq!(board.tile_at(at(1, 0)), Some(1));
    assert_eq!(board.coordinate_of(1), Some(at(1, 0)));
    assert_eq!(board.coordinate_of(0), Some(at(0, 0)));
}

#[test]
fn the_two_maps_stay_inverses_over_many_placements() {
    let mut board = BoardGrid::new();
    board.initialize();
    let path = [
        (0, 0),
        (0, 1),
        (1, 1),
        (1, 0),
        (1, -1),
        (0, -1),
        (-1, -1),
        (-1, 0),
        (-1, 1),
        (-1, 2),
        (0, 2),
        (5, 5),
        (0, 0),
        (2, 2),
        (1, 2),
        (2, 2),
    ];
    let mut placed = 0;
    for (i, (x, y)) in path.iter().enumerate() {
        let r = board.place_tile(at(*x, *y), i, TileDirection::from_steps(i));
        match r {
            Ok(t) => {
                assert_eq!(t, placed);
                placed += 1;
            }
            Err(_) => {}
        }
        check_board(&board);
    }
    assert_eq!(placed, 13);
    assert_eq!(board.next_tile_index(), 13);
    assert_eq!(board.tile_at(at(5, 5)), None);
    assert_eq!(board.tile_at(at(1, 2)), Some(11));
    assert_eq!(board.tile_at(at(2, 2)), Some(12));
}

#[test]
fn a_hole_in_the_middle_stays_open() {
    let mut board = BoardGrid::new();
    board.initialize();
    for (i, (x, y)) in [(0, 0), (1, 0), (2, 0), (2, 1), (2, 2), (1, 2), (0, 2), (0, 1)]
        .iter()
        .enumerate()
    {
        assert_eq!(board.place_tile(at(*x, *y), i, TileDirection::North), Ok(i));
    }
    assert!(board.is_open(at(1, 1)));
    assert_eq!(board.place_tile(at(1, 1), 8, TileDirection::North), Ok(8));
    assert!(!board.is_open(at(1, 1)));
    check_board(&board);
}

#[test]
fn neighbours_go_north_east_south_west() {
    let c = at(3, -4);
    assert_eq!(c.neighbor(TileDirection::North), Some(at(3, -3)));
    assert_eq!(c.neighbor(TileDirection::East), Some(at(4, -4)));
    assert_eq!(c.neighbor(TileDirection::South), Some(at(3, -5)));
    assert_eq!(c.neighbor(TileDirection::West), Some(at(2, -4)));
}

#[test]
fn there_is_no_neighbour_beyond_the_numbers() {
    assert_eq!(at(i32::MAX, 0).neighbor(TileDirection::East), None);
    assert_eq!(at(i32::MIN, 0).neighbor(TileDirection::West), None);
    assert_eq!(at(0, i32::MAX).neighbor(TileDirection::North), None);
    assert_eq!(at(0, i32::MIN).neighbor(TileDirection::South), None);
    assert_eq!(
        at(i32::MAX, i32::MAX).neighbor(TileDirection::West),
        Some(at(i32::MAX - 1, i32::MAX))
    );
}

#[test]
fn keys_put_the_two_coordinates_side_by_side() {
    assert_eq!(at(0, 0).key(), 0x8000_0000_8000_0000);
    assert_eq!(at(i32::MIN, i32::MIN).key(), 0);
    assert_eq!(at(i32::MAX, i32::MAX).key(), u64::MAX);
    assert_eq!(at(1, -1).key(), 0x8000_0001_7fff_ffff);
    assert_eq!(at(-1, 1).key(), 0x7fff_ffff_8000_0001);
    assert_ne!(at(1, 0).key(), at(0, 1).key());
}

#[test]
fn position_of_finds_a_cell_in_a_list() {
    let list = vec![at(1, 1), at(2, 2), at(3, 3)];
    assert_eq!(position_of(&list, at(2, 2)), Some(1));
    assert_eq!(position_of(&list, at(2, 3)), None);
    assert_eq!(position_of(&Vec::new(), at(0, 0)), None);
}

#[test]
fn neighbour_offsets() {
    assert_eq!(TileMatrixCoords::neighbor_offset(TileDirection::North), at(0, 1));
    assert_eq!(TileMatrixCoords::neighbor_offset(TileDirection::East), at(1, 0));
    assert_eq!(TileMatrixCoords::neighbor_offset(TileDirection::South), at(0, -1));
    assert_eq!(TileMatrixCoords::neighbor_offset(TileDirection::West), at(-1, 0));
}
