//! The plague pieces and the lone rock: placed near the top and falling
//! straight down until something stops them.
use vstd::prelude::*;

use crate::config::{FALLING_SPEED, TILE_SIZE};
use crate::geometry::{
    all_in_world, in_world, lemma_world_in_reach, related_to_some, shift, some_related, Pos,
    Relation,
};
use crate::movable::{fallen, lemma_nothing_beneath, lemma_some_is_other, nothing_beneath};
use crate::pieces::{Piece, PieceKind, Plague, Texture};

verus! {

/// A piece that falls straight down: it can be blown up and stops enemies.
pub open spec fn faller(texture: Texture, kind: PieceKind, x_tile: int) -> Piece {
    Piece {
        texture,
        position: Pos { x: (x_tile * TILE_SIZE) as i64, y: (3 * TILE_SIZE) as i64, z: 0 },
        kind,
        explodable: true,
        explosive: false,
        blocks_enemies: true,
        blocks_player: false,
    }
}

/// A falling piece on column `x_tile`, row 3.
fn make_faller(texture: Texture, kind: PieceKind, x_tile: i64) -> (p: Piece)
    requires
        0 <= x_tile <= 100,
    ensures
        p == faller(texture, kind, x_tile as int),
{
    Piece {
        texture,
        position: Pos { x: x_tile * TILE_SIZE, y: 3 * TILE_SIZE, z: 0 },
        kind,
        explodable: true,
        explosive: false,
        blocks_enemies: true,
        blocks_player: false,
    }
}

/// The left plague piece, on tile (13, 3).
#[allow(non_snake_case)]
pub fn spawn_plagueL() -> (p: Piece)
    ensures
        p == faller(Texture::PlagueL, PieceKind::Plague(Plague::L), 13),
{
    make_faller(Texture::PlagueL, PieceKind::Plague(Plague::L), 13)
}

/// The middle plague piece, on tile (15, 3).
#[allow(non_snake_case)]
pub fn spawn_plagueM() -> (p: Piece)
    ensures
        p == faller(Texture::PlagueM, PieceKind::Plague(Plague::M), 15),
{
    make_faller(Texture::PlagueM, PieceKind::Plague(Plague::M), 15)
}

/// The right plague piece, on tile (17, 3).
#[allow(non_snake_case)]
pub fn spawn_plagueR() -> (p: Piece)
    ensures
        p == faller(Texture::PlagueR, PieceKind::Plague(Plague::R), 17),
{
    make_faller(Texture::PlagueR, PieceKind::Plague(Plague::R), 17)
}

/// The lone rock, on tile (9, 3).
pub fn spawn_rock() -> (p: Piece)
    ensures
        p == faller(Texture::Rock, PieceKind::Rock, 9),
{
    make_faller(Texture::Rock, PieceKind::Rock, 9)
}

/// Where a piece at `p` is after one frame: one fall step down, unless an
/// obstacle stops it there.
pub open spec fn fall_or_stay(p: Pos, obstacles: Seq<Pos>) -> Pos {
    if related_to_some(Relation::FallBlock, fallen(p), obstacles) {
        p
    } else {
        fallen(p)
    }
}

/// A falling piece moves `FALLING_SPEED` straight down, on its layer, when
/// no obstacle is closer than a tile horizontally and at most a tile
/// vertically to the spot below; otherwise it stays where it is.
pub proof fn law_pieces_fall_unless_held(p: Pos, obstacles: Seq<Pos>)
    requires
        in_world(p),
    ensures
        nothing_beneath(p.x as int, p.y - FALLING_SPEED, obstacles, -1) ==> fall_or_stay(p, obstacles)
            == (Pos { x: p.x, y: (p.y - FALLING_SPEED) as i64, z: p.z }),
        !nothing_beneath(p.x as int, p.y - FALLING_SPEED, obstacles, -1) ==> fall_or_stay(
            p,
            obstacles,
        ) == p,
{
    lemma_some_is_other(Relation::FallBlock, fallen(p), obstacles);
    lemma_nothing_beneath(fallen(p), obstacles, -1);
}

/// One frame of falling for each piece of `pieces`.
fn fall_all(pieces: &Vec<Pos>, not_passable: &Vec<Pos>) -> (r: Vec<Pos>)
    requires
        all_in_world(pieces@),
        all_in_world(not_passable@),
    ensures
        r@.len() == pieces@.len(),
        forall|i: int|
            0 <= i < pieces@.len() ==> #[trigger] r@[i] == fall_or_stay(pieces@[i], not_passable@),
{
    proof {
        lemma_world_in_reach(not_passable@);
    }
    let n: usize = pieces.len();
    let mut r: Vec<Pos> = Vec::new();
    let mut i: usize = 0;
    while i < n
        invariant
            n == pieces@.len(),
            i <= n,
            r@.len() == i,
            all_in_world(pieces@),
            crate::geometry::all_in_reach(not_passable@),
            forall|j: int| 0 <= j < i ==> #[trigger] r@[j] == fall_or_stay(pieces@[j], not_passable@),
        decreases n - i,
    {
        let p = pieces[i];
        assert(in_world(pieces@[i as int]));
        let down = shift(&p, 0, -FALLING_SPEED, 0);
        if some_related(Relation::FallBlock, &down, not_passable) {
            r.push(p);
        } else {
            r.push(down);
        }
        i = i + 1;
    }
    r
}

/// One frame of the plague pieces falling; the result holds their new
/// positions, in order.
pub fn plague_movement(plagues: &Vec<Pos>, not_passable: &Vec<Pos>) -> (r: Vec<Pos>)
    requires
        all_in_world(plagues@),
        all_in_world(not_passable@),
    ensures
        r@.len() == plagues@.len(),
        forall|i: int|
            0 <= i < plagues@.len() ==> #[trigger] r@[i] == fall_or_stay(plagues@[i], not_passable@),
{
    fall_all(plagues, not_passable)
}

/// One frame of the rock falling; the result holds the new positions, in order.
pub fn rock_movement(rocks: &Vec<Pos>, not_passable: &Vec<Pos>) -> (r: Vec<Pos>)
    requires
        all_in_world(rocks@),
        all_in_world(not_passable@),
    ensures
        r@.len() == rocks@.len(),
        forall|i: int|
            0 <= i < rocks@.len() ==> #[trigger] r@[i] == fall_or_stay(rocks@[i], not_passable@),
{
    fall_all(rocks, not_passable)
}

} // verus!
