//! Positions in the world and the proximity rules between them.
use vstd::prelude::*;

use crate::config::{EXPLOSION_RANGE, THRESHOLD, TILE_SIZE};

verus! {

/// Largest coordinate, in absolute value, of a position handed to the game
/// rules (2^40 units).
pub const WORLD_LIMIT: i64 = 1099511627776;

/// Largest coordinate, in absolute value, that the proximity checks accept
/// (2^42 units): room for a few tile steps beyond `WORLD_LIMIT`.
pub const REACH_LIMIT: i64 = 4398046511104;

/// A point of the world: `x` to the right, `y` upwards, `z` the drawing layer.
#[derive(Clone, Copy, Debug, PartialEq, Eq, Structural)]
pub struct Pos {
    pub x: i64,
    pub y: i64,
    pub z: i64,
}

/// Every coordinate of `p` is at most `limit` in absolute value.
pub open spec fn pos_within(p: Pos, limit: int) -> bool {
    &&& -limit <= p.x <= limit
    &&& -limit <= p.y <= limit
    &&& -limit <= p.z <= limit
}

/// A position the game rules accept as input.
pub open spec fn in_world(p: Pos) -> bool {
    pos_within(p, WORLD_LIMIT as int)
}

/// A position the proximity checks accept.
pub open spec fn in_reach(p: Pos) -> bool {
    pos_within(p, REACH_LIMIT as int)
}

/// Every position of `s` is in the world.
pub open spec fn all_in_world(s: Seq<Pos>) -> bool {
    forall|i: int| 0 <= i < s.len() ==> in_world(#[trigger] s[i])
}

/// Every position of `s` is in reach.
pub open spec fn all_in_reach(s: Seq<Pos>) -> bool {
    forall|i: int| 0 <= i < s.len() ==> in_reach(#[trigger] s[i])
}

/// Absolute value.
pub open spec fn abs(a: int) -> int {
    if a < 0 {
        -a
    } else {
        a
    }
}

/// Square of the Euclidean distance between two positions, all three axes.
pub open spec fn dist_sq(a: Pos, b: Pos) -> int {
    (a.x - b.x) * (a.x - b.x) + (a.y - b.y) * (a.y - b.y) + (a.z - b.z) * (a.z - b.z)
}

/// Square of the Euclidean distance between two positions on the map plane.
pub open spec fn planar_dist_sq(a: Pos, b: Pos) -> int {
    (a.x - b.x) * (a.x - b.x) + (a.y - b.y) * (a.y - b.y)
}

/// The position with the given coordinates.
pub open spec fn point(x: int, y: int, z: int) -> Pos {
    Pos { x: x as i64, y: y as i64, z: z as i64 }
}

/// The position `p` moved by `(dx, dy, dz)`.
pub open spec fn shifted(p: Pos, dx: int, dy: int, dz: int) -> Pos {
    Pos { x: (p.x + dx) as i64, y: (p.y + dy) as i64, z: (p.z + dz) as i64 }
}

/// The ways in which two positions can be close to each other.
#[derive(Clone, Copy, Debug, PartialEq, Eq, Structural)]
pub enum Relation {
    /// Closer than a tile along both map axes.
    TileOverlap,
    /// Closer than a tile horizontally and at most a tile apart vertically:
    /// the second position stops the first from falling.
    FallBlock,
    /// Closer than a tile less the threshold along both map axes: the second
    /// position stops the player.
    PlayerBlock,
    /// Closer than a tile in space.
    Touch,
    /// Closer than a tile on the map plane.
    Pickup,
    /// Within the explosion radius in space.
    Blast,
    /// On the same spot of the map plane.
    SameSpot,
    /// Above the second position and close enough to rest on it: closer than
    /// a tile horizontally and at most a tile and the threshold apart vertically.
    RestsOn,
    /// On the same column and closer than the threshold vertically: the first
    /// position is in line to be pushed from the second.
    Aligned,
    /// Above the second position and closer than a tile along both map axes.
    Above,
}

/// Position `a` stands in relation `rel` to position `b`.
pub open spec fn related(rel: Relation, a: Pos, b: Pos) -> bool {
    match rel {
        Relation::TileOverlap => abs(a.x - b.x) < TILE_SIZE && abs(a.y - b.y) < TILE_SIZE,
        Relation::FallBlock => abs(a.x - b.x) < TILE_SIZE && abs(a.y - b.y) <= TILE_SIZE,
        Relation::PlayerBlock => abs(a.x - b.x) + THRESHOLD < TILE_SIZE && abs(a.y - b.y)
            + THRESHOLD < TILE_SIZE,
        Relation::Touch => dist_sq(a, b) < TILE_SIZE * TILE_SIZE,
        Relation::Pickup => planar_dist_sq(a, b) < TILE_SIZE * TILE_SIZE,
        Relation::Blast => dist_sq(a, b) <= (EXPLOSION_RANGE * TILE_SIZE) * (EXPLOSION_RANGE
            * TILE_SIZE),
        Relation::SameSpot => a.x == b.x && a.y == b.y,
        Relation::RestsOn => abs(a.x - b.x) < TILE_SIZE && abs(a.y - b.y) <= TILE_SIZE + THRESHOLD
            && a.y > b.y,
        Relation::Aligned => a.x == b.x && abs(a.y - b.y) < THRESHOLD,
        Relation::Above => abs(a.x - b.x) < TILE_SIZE && a.y > b.y && abs(a.y - b.y) < TILE_SIZE,
    }
}

/// Some position of `s` stands in relation `rel` to `p`.
pub open spec fn related_to_some(rel: Relation, p: Pos, s: Seq<Pos>) -> bool {
    exists|i: int| 0 <= i < s.len() && related(rel, p, #[trigger] s[i])
}

/// Some position of `s` other than the one at index `skip` stands in
/// relation `rel` to `p`.
pub open spec fn related_to_other(rel: Relation, p: Pos, s: Seq<Pos>, skip: int) -> bool {
    exists|j: int| 0 <= j < s.len() && j != skip && related(rel, p, #[trigger] s[j])
}

/// Absolute difference of two coordinates in reach.
pub fn abs_diff(a: i64, b: i64) -> (r: i64)
    requires
        -REACH_LIMIT <= a <= REACH_LIMIT,
        -REACH_LIMIT <= b <= REACH_LIMIT,
    ensures
        r == abs(a - b),
{
    if a < b {
        b - a
    } else {
        a - b
    }
}

/// Square of a coordinate difference.
fn square(d: i64) -> (r: i128)
    requires
        -2 * REACH_LIMIT <= d <= 2 * REACH_LIMIT,
    ensures
        r == d * d,
        0 <= r <= 77371252455336267181195264,
{
    let w: i128 = d as i128;
    assert(0 <= w * w <= 77371252455336267181195264) by (nonlinear_arith)
        requires
            -8796093022208 <= w <= 8796093022208,
    ;
    w * w
}

/// Square of the Euclidean distance between two positions in reach.
pub fn distance_squared(a: &Pos, b: &Pos) -> (r: i128)
    requires
        in_reach(*a),
        in_reach(*b),
    ensures
        r == dist_sq(*a, *b),
{
    square(a.x - b.x) + square(a.y - b.y) + square(a.z - b.z)
}

/// Square of the distance between two positions in reach, on the map plane.
pub fn planar_distance_squared(a: &Pos, b: &Pos) -> (r: i128)
    requires
        in_reach(*a),
        in_reach(*b),
    ensures
        r == planar_dist_sq(*a, *b),
{
    square(a.x - b.x) + square(a.y - b.y)
}

/// Whether `a` stands in relation `rel` to `b`.
pub fn is_related(rel: Relation, a: &Pos, b: &Pos) -> (r: bool)
    requires
        in_reach(*a),
        in_reach(*b),
    ensures
        r == related(rel, *a, *b),
{
    match rel {
        Relation::TileOverlap => abs_diff(a.x, b.x) < TILE_SIZE && abs_diff(a.y, b.y) < TILE_SIZE,
        Relation::FallBlock => abs_diff(a.x, b.x) < TILE_SIZE && abs_diff(a.y, b.y) <= TILE_SIZE,
        Relation::PlayerBlock => abs_diff(a.x, b.x) + THRESHOLD < TILE_SIZE && abs_diff(a.y, b.y)
            + THRESHOLD < TILE_SIZE,
        Relation::Touch => distance_squared(a, b) < (TILE_SIZE * TILE_SIZE) as i128,
        Relation::Pickup => planar_distance_squared(a, b) < (TILE_SIZE * TILE_SIZE) as i128,
        Relation::Blast => distance_squared(a, b) <= ((EXPLOSION_RANGE * TILE_SIZE) * (
        EXPLOSION_RANGE * TILE_SIZE)) as i128,
        Relation::SameSpot => a.x == b.x && a.y == b.y,
        Relation::RestsOn => abs_diff(a.x, b.x) < TILE_SIZE && abs_diff(a.y, b.y) <= TILE_SIZE
            + THRESHOLD && a.y > b.y,
        Relation::Aligned => a.x == b.x && abs_diff(a.y, b.y) < THRESHOLD,
        Relation::Above => abs_diff(a.x, b.x) < TILE_SIZE && a.y > b.y && abs_diff(a.y, b.y)
            < TILE_SIZE,
    }
}

/// Whether some position of `s` stands in relation `rel` to `p`.
pub fn some_related(rel: Relation, p: &Pos, s: &Vec<Pos>) -> (r: bool)
    requires
        in_reach(*p),
        all_in_reach(s@),
    ensures
        r == related_to_some(rel, *p, s@),
{
    let n: usize = s.len();
    let mut i: usize = 0;
    while i < n
        invariant
            n == s@.len(),
            i <= n,
            in_reach(*p),
            all_in_reach(s@),
            forall|j: int| 0 <= j < i ==> !related(rel, *p, #[trigger] s@[j]),
        decreases n - i,
    {
        if is_related(rel, p, &s[i]) {
            return true;
        }
        i = i + 1;
    }
    false
}

/// Positions in the world are in reach.
pub proof fn lemma_world_in_reach(s: Seq<Pos>)
    requires
        all_in_world(s),
    ensures
        all_in_reach(s),
{
    assert forall|i: int| 0 <= i < s.len() implies in_reach(#[trigger] s[i]) by {
        assert(in_world(s[i]));
    }
}

/// Whether some position of `s` other than the one at index `skip` stands in
/// relation `rel` to `p`.
pub fn other_related(rel: Relation, p: &Pos, s: &Vec<Pos>, skip: usize) -> (r: bool)
    requires
        in_reach(*p),
        all_in_reach(s@),
    ensures
        r == related_to_other(rel, *p, s@, skip as int),
{
    let n: usize = s.len();
    let mut j: usize = 0;
    while j < n
        invariant
            n == s@.len(),
            j <= n,
            in_reach(*p),
            all_in_reach(s@),
            forall|k: int| 0 <= k < j && k != skip ==> !related(rel, *p, #[trigger] s@[k]),
        decreases n - j,
    {
        if j != skip && is_related(rel, p, &s[j]) {
            return true;
        }
        j = j + 1;
    }
    false
}

/// The position `p` moved by `(dx, dy, dz)`.
pub fn shift(p: &Pos, dx: i64, dy: i64, dz: i64) -> (r: Pos)
    requires
        pos_within(*p, 2 * WORLD_LIMIT),
        -WORLD_LIMIT <= dx <= WORLD_LIMIT,
        -WORLD_LIMIT <= dy <= WORLD_LIMIT,
        -WORLD_LIMIT <= dz <= WORLD_LIMIT,
    ensures
        r == shifted(*p, dx as int, dy as int, dz as int),
        pos_within(r, 3 * WORLD_LIMIT),
        in_reach(r),
{
    Pos { x: p.x + dx, y: p.y + dy, z: p.z + dz }
}

} // verus!
