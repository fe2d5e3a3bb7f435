//! Rules and state engine of a Carcassonne-style tile-placement game:
//! the tile catalog, the board grid with its open slots, and the merging
//! of regions across adjacent tiles.
#![allow(non_camel_case_types)]

pub mod catalog;
pub mod game_board;
pub mod game_logic;
pub mod players;
pub mod region_merger;
pub mod region_union;
pub mod segments;
pub mod tile_shapes;
pub mod tiles;
