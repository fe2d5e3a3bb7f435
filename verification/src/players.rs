//! Players and their meeples.
use vstd::prelude::*;

verus! {

/// Index of a meeple.
pub type MeepleIndex = usize;

/// Number of meeples that each player starts with.
pub const NUM_MEEPLES: i32 = 7;

/// The colour of a player's team.
#[derive(Clone, Copy, Debug, PartialEq, Eq, Structural, Hash)]
pub enum TeamColor {
    Blue,
    Red,
}

/// A playing piece of one team.
#[derive(Clone, Copy, Debug, PartialEq, Eq, Structural)]
pub struct Meeple {
    pub team: TeamColor,
}

/// A player with the meeples in hand and the points scored.
#[derive(Debug, Clone)]
pub struct Player {
    pub team: TeamColor,
    pub meeples: Vec<MeepleIndex>,
    pub points: i32,
}

} // verus!
