//! Edge segments of a tile, quarter-turn rotation, and the pairing of
//! segments along the edge that two adjacent tiles share.
use vstd::prelude::*;

verus! {

/// One of the twelve segments round a tile's perimeter, numbered clockwise
/// from the segment just clockwise of the top-right corner: `0..3` on the
/// right edge, `3..6` on the bottom, `6..9` on the left, `9..12` on the top.
pub type EdgeNumber = usize;

/// Number of segments round a tile's perimeter.
pub const SEGMENT_COUNT: usize = 12;

/// Number of segments on one edge of a tile.
pub const SEGMENTS_PER_EDGE: usize = 3;

/// A cardinal direction. It names the neighbour of a cell, and also the
/// rotation of a placed tile: the direction in which the top edge of its
/// unrotated definition now points.
#[derive(Clone, Copy, Debug, PartialEq, Eq, Structural, Hash)]
pub enum TileDirection {
    North,
    East,
    South,
    West,
}

impl TileDirection {
    /// Clockwise quarter turns from `North`.
    pub open spec fn steps(self) -> int {
        match self {
            TileDirection::North => 0,
            TileDirection::East => 1,
            TileDirection::South => 2,
            TileDirection::West => 3,
        }
    }

    /// The direction that lies `n` clockwise quarter turns from `North`.
    pub open spec fn of_steps(n: int) -> TileDirection {
        if n % 4 == 0 {
            TileDirection::North
        } else if n % 4 == 1 {
            TileDirection::East
        } else if n % 4 == 2 {
            TileDirection::South
        } else {
            TileDirection::West
        }
    }

    /// The direction that points the other way.
    pub open spec fn opposite_spec(self) -> TileDirection {
        TileDirection::of_steps(self.steps() + 2)
    }

    /// First segment, in absolute numbering, of the edge that faces `self`.
    pub open spec fn edge_base(self) -> int {
        match self {
            TileDirection::East => 0,
            TileDirection::South => 3,
            TileDirection::West => 6,
            TileDirection::North => 9,
        }
    }

    /// Clockwise quarter turns from `North`, as a machine integer.
    pub fn rotation_steps(self) -> (r: usize)
        ensures
            r == self.steps(),
            r < 4,
    {
        match self {
            TileDirection::North => 0,
            TileDirection::East => 1,
            TileDirection::South => 2,
            TileDirection::West => 3,
        }
    }

    /// The direction `n` clockwise quarter turns from `North`; `n` may be
    /// any number, whole turns are dropped.
    pub fn from_steps(n: usize) -> (r: TileDirection)
        ensures
            r == TileDirection::of_steps(n as int),
    {
        let m: usize = n % 4;
        if m == 0 {
            TileDirection::North
        } else if m == 1 {
            TileDirection::East
        } else if m == 2 {
            TileDirection::South
        } else {
            TileDirection::West
        }
    }

    /// The direction that points the other way.
    pub fn opposite(self) -> (r: TileDirection)
        ensures
            r == self.opposite_spec(),
            r.opposite_spec() == self,
    {
        match self {
            TileDirection::North => TileDirection::South,
            TileDirection::East => TileDirection::West,
            TileDirection::South => TileDirection::North,
            TileDirection::West => TileDirection::East,
        }
    }
}

/// The four directions in the order in which neighbours are visited:
/// north first, then clockwise.
pub fn all_directions() -> (r: [TileDirection; 4])
    ensures
        r@ == seq![
            TileDirection::North,
            TileDirection::East,
            TileDirection::South,
            TileDirection::West,
        ],
{
    [TileDirection::North, TileDirection::East, TileDirection::South, TileDirection::West]
}

/// One clockwise quarter turn.
pub fn rotate_direction(dir: TileDirection) -> (r: TileDirection)
    ensures
        r == TileDirection::of_steps(dir.steps() + 1),
{
    match dir {
        TileDirection::North => TileDirection::East,
        TileDirection::East => TileDirection::South,
        TileDirection::South => TileDirection::West,
        TileDirection::West => TileDirection::North,
    }
}

/// Where segment `s` of an unrotated tile lies after `rotation_steps`
/// clockwise quarter turns: each turn moves the ring on by three.
pub open spec fn absolute_segment_spec(s: int, rotation_steps: int) -> int {
    (s + 3 * rotation_steps) % 12
}

/// The segment of the unrotated tile that lies at absolute position `a`
/// after `rotation_steps` clockwise quarter turns.
pub open spec fn relative_segment_spec(a: int, rotation_steps: int) -> int {
    (a + 12 - 3 * rotation_steps) % 12
}

/// Maps a segment of a tile's definition to its absolute position under
/// the given number of clockwise quarter turns.
pub fn absolute_segment(s: EdgeNumber, rotation_steps: usize) -> (r: EdgeNumber)
    requires
        s < 12,
        rotation_steps < 4,
    ensures
        r == absolute_segment_spec(s as int, rotation_steps as int),
        r < 12,
{
    (s + 3 * rotation_steps) % 12
}

/// Maps an absolute position back to the segment of the tile's definition
/// that lies there under the given number of clockwise quarter turns.
pub fn relative_segment(a: EdgeNumber, rotation_steps: usize) -> (r: EdgeNumber)
    requires
        a < 12,
        rotation_steps < 4,
    ensures
        r == relative_segment_spec(a as int, rotation_steps as int),
        r < 12,
        absolute_segment_spec(r as int, rotation_steps as int) == a,
{
    (a + 12 - 3 * rotation_steps) % 12
}

/// The absolute segment that lies `k` places from the corner, clockwise,
/// on the edge of a tile that faces `dir`.
pub open spec fn facing_segment_spec(dir: TileDirection, k: int) -> int {
    dir.edge_base() + k
}

/// The absolute segment on the neighbour in direction `dir` that touches
/// the segment `facing_segment_spec(dir, k)` of this tile. The shared edge
/// is seen mirrored from the other side, so the order is reversed.
pub open spec fn touching_segment_spec(dir: TileDirection, k: int) -> int {
    dir.opposite_spec().edge_base() + (2 - k)
}

/// The absolute segment `k` places along the edge facing `dir`.
pub fn facing_segment(dir: TileDirection, k: usize) -> (r: EdgeNumber)
    requires
        k < 3,
    ensures
        r == facing_segment_spec(dir, k as int),
        r < 12,
{
    let base: usize = match dir {
        TileDirection::East => 0,
        TileDirection::South => 3,
        TileDirection::West => 6,
        TileDirection::North => 9,
    };
    base + k
}

/// The absolute segment on the neighbour in direction `dir` that touches
/// this tile's segment `k` places along the edge facing `dir`.
pub fn touching_segment(dir: TileDirection, k: usize) -> (r: EdgeNumber)
    requires
        k < 3,
    ensures
        r == touching_segment_spec(dir, k as int),
        r < 12,
{
    let base: usize = match dir {
        TileDirection::East => 6,
        TileDirection::South => 9,
        TileDirection::West => 0,
        TileDirection::North => 3,
    };
    base + (2 - k)
}

/// What `absolute_segment_spec` is without the remainder: the ring is
/// passed at most once.
pub proof fn lemma_absolute_segment_value(s: int, a: int)
    requires
        0 <= s < 12,
        0 <= a < 4,
    ensures
        absolute_segment_spec(s, a) == if s + 3 * a < 12 {
            s + 3 * a
        } else {
            s + 3 * a - 12
        },
        0 <= absolute_segment_spec(s, a) < 12,
{
}

/// Turns add up modulo four.
pub proof fn lemma_rotation_composes(s: int, a: int, b: int)
    requires
        0 <= s < 12,
        0 <= a < 4,
        0 <= b < 4,
    ensures
        absolute_segment_spec(absolute_segment_spec(s, a), b) == absolute_segment_spec(
            s,
            (a + b) % 4,
        ),
{
    lemma_absolute_segment_value(s, a);
    lemma_absolute_segment_value(absolute_segment_spec(s, a), b);
    lemma_absolute_segment_value(s, (a + b) % 4);
}

/// Rotation is a group of order four acting on the ring of segments: no
/// turn leaves every segment in place, four equal turns bring every
/// segment back, and turning back undoes a turn.
pub proof fn lemma_rotation_group(s: int, a: int)
    requires
        0 <= s < 12,
        0 <= a < 4,
    ensures
        absolute_segment_spec(s, 0) == s,
        absolute_segment_spec(
            absolute_segment_spec(absolute_segment_spec(absolute_segment_spec(s, a), a), a),
            a,
        ) == s,
        relative_segment_spec(absolute_segment_spec(s, a), a) == s,
        absolute_segment_spec(relative_segment_spec(s, a), a) == s,
{
    let s1 = absolute_segment_spec(s, a);
    lemma_absolute_segment_value(s, a);
    let s2 = absolute_segment_spec(s1, a);
    lemma_absolute_segment_value(s1, a);
    let s3 = absolute_segment_spec(s2, a);
    lemma_absolute_segment_value(s2, a);
    lemma_absolute_segment_value(s3, a);
    lemma_absolute_segment_value(relative_segment_spec(s, a), a);
}

/// Touching is mutual: seen from the neighbour, whose direction back is the
/// opposite one, the pairing of segments is the same.
pub proof fn lemma_touching_symmetric(dir: TileDirection, k: int)
    requires
        0 <= k < 3,
    ensures
        touching_segment_spec(dir, k) == facing_segment_spec(dir.opposite_spec(), 2 - k),
        touching_segment_spec(dir.opposite_spec(), 2 - k) == facing_segment_spec(dir, k),
        dir.opposite_spec().opposite_spec() == dir,
{
}

} // verus!
