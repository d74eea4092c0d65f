//! Falling bombs and rocks: how they are placed and how they fall, pile up
//! and slide off each other.
use vstd::prelude::*;

use crate::config::{FALLING_SPEED, THRESHOLD, TILE_SIZE};
use crate::geometry::{
    all_in_world, in_world, lemma_world_in_reach, other_related, pos_within,
    related, related_to_other, related_to_some, shift, shifted, some_related, Pos, Relation,
    WORLD_LIMIT,
};
use crate::pieces::{MovableElement, Piece, PieceKind, Texture};

verus! {

/// A movable element at `position`: it can be blown up and blocks both the
/// player and the enemies.
pub open spec fn movable_piece(
    position: Pos,
    texture: Texture,
    element: MovableElement,
    explosive: bool,
) -> Piece {
    Piece {
        texture,
        position,
        kind: PieceKind::Movable(element),
        explodable: true,
        explosive,
        blocks_enemies: true,
        blocks_player: true,
    }
}

/// A movable element that does not hurt the player.
pub fn get_movable_element(position: Pos, texture: Texture, movable_element: MovableElement) -> (p:
    Piece)
    ensures
        p == movable_piece(position, texture, movable_element, false),
{
    Piece {
        texture,
        position,
        kind: PieceKind::Movable(movable_element),
        explodable: true,
        explosive: false,
        blocks_enemies: true,
        blocks_player: true,
    }
}

/// A movable element that also hurts the player.
pub fn get_explosive_movable_element(
    position: Pos,
    texture: Texture,
    movable_element: MovableElement,
) -> (p: Piece)
    ensures
        p == movable_piece(position, texture, movable_element, true),
{
    let piece = get_movable_element(position, texture, movable_element);
    Piece { explosive: true, ..piece }
}

/// The rock placed one tile inside the top-left corner of a window of the
/// given size (in world units).
pub fn spawn_rocks(window_width: i64, window_height: i64) -> (p: Piece)
    requires
        -WORLD_LIMIT <= window_width <= WORLD_LIMIT,
        -WORLD_LIMIT <= window_height <= WORLD_LIMIT,
    ensures
        p == movable_piece(
            Pos { x: (-window_width + TILE_SIZE) as i64, y: (window_height - TILE_SIZE) as i64, z: 0 },
            Texture::Rock,
            MovableElement::Rock,
            false,
        ),
{
    let position = Pos { x: -window_width + TILE_SIZE, y: window_height - TILE_SIZE, z: 0 };
    get_movable_element(position, Texture::Rock, MovableElement::Rock)
}

/// The falling bomb placed at tile (11, 3).
pub fn spawn_falling_bomb() -> (p: Piece)
    ensures
        p == movable_piece(
            Pos { x: (11 * TILE_SIZE) as i64, y: (3 * TILE_SIZE) as i64, z: 0 },
            Texture::BombFalling,
            MovableElement::FallingBomb,
            true,
        ),
{
    let position = Pos { x: 11 * TILE_SIZE, y: 3 * TILE_SIZE, z: 0 };
    get_explosive_movable_element(position, Texture::BombFalling, MovableElement::FallingBomb)
}

/// Where an element at `p` would be after falling for one frame.
pub open spec fn fallen(p: Pos) -> Pos {
    shifted(p, 0, -FALLING_SPEED, 0)
}

/// The element `i` cannot fall: an obstacle, or another element, is in the way
/// of its fallen position.
pub open spec fn fall_blocked(elements: Seq<Pos>, obstacles: Seq<Pos>, i: int) -> bool {
    ||| related_to_some(Relation::FallBlock, fallen(elements[i]), obstacles)
    ||| related_to_other(Relation::FallBlock, fallen(elements[i]), elements, i)
}

/// The element `i` rests on another element.
pub open spec fn is_stacked(elements: Seq<Pos>, i: int) -> bool {
    related_to_other(Relation::RestsOn, elements[i], elements, i)
}

/// Nothing, neither an obstacle nor an element, touches `side` or the spot a
/// tile below it.
pub open spec fn side_free(side: Pos, elements: Seq<Pos>, obstacles: Seq<Pos>) -> bool {
    let below = shifted(side, 0, -TILE_SIZE, 0);
    &&& !related_to_some(Relation::Touch, side, obstacles)
    &&& !related_to_some(Relation::Touch, below, obstacles)
    &&& !related_to_some(Relation::Touch, side, elements)
    &&& !related_to_some(Relation::Touch, below, elements)
}

/// Where the element `i` is after one frame: it falls if it can; otherwise,
/// if it rests on another element, it slides one tile to the left or, failing
/// that, to the right, where that side and the spot below it are free.
pub open spec fn movable_next(elements: Seq<Pos>, obstacles: Seq<Pos>, i: int) -> Pos {
    let p = elements[i];
    let left = shifted(p, -TILE_SIZE, 0, 0);
    let right = shifted(p, TILE_SIZE as int, 0, 0);
    if !fall_blocked(elements, obstacles, i) {
        fallen(p)
    } else if is_stacked(elements, i) && side_free(left, elements, obstacles) {
        left
    } else if is_stacked(elements, i) && side_free(right, elements, obstacles) {
        right
    } else {
        p
    }
}

/// `perm` is a permutation of the indices below `n`, with inverse `inv`.
pub open spec fn is_permutation(perm: Seq<int>, inv: Seq<int>, n: int) -> bool {
    &&& perm.len() == n
    &&& inv.len() == n
    &&& forall|i: int| 0 <= i < n ==> 0 <= #[trigger] perm[i] < n && inv[perm[i]] == i
    &&& forall|j: int| 0 <= j < n ==> 0 <= #[trigger] inv[j] < n && perm[inv[j]] == j
}

/// The elements of `s` in the order `perm` gives: element `i` is `s[perm[i]]`.
pub open spec fn permuted(s: Seq<Pos>, perm: Seq<int>) -> Seq<Pos> {
    Seq::new(perm.len(), |i: int| s[perm[i]])
}

proof fn lemma_some_permuted(rel: Relation, p: Pos, s: Seq<Pos>, perm: Seq<int>, inv: Seq<int>)
    requires
        is_permutation(perm, inv, s.len() as int),
    ensures
        related_to_some(rel, p, permuted(s, perm)) == related_to_some(rel, p, s),
{
    let t = permuted(s, perm);
    if related_to_some(rel, p, s) {
        let j = choose|j: int| 0 <= j < s.len() && related(rel, p, #[trigger] s[j]);
        assert(t[inv[j]] == s[j]);
    }
    if related_to_some(rel, p, t) {
        let i = choose|i: int| 0 <= i < t.len() && related(rel, p, #[trigger] t[i]);
        assert(t[i] == s[perm[i]]);
    }
}

proof fn lemma_other_permuted(
    rel: Relation,
    p: Pos,
    s: Seq<Pos>,
    perm: Seq<int>,
    inv: Seq<int>,
    i: int,
)
    requires
        is_permutation(perm, inv, s.len() as int),
        0 <= i < s.len(),
    ensures
        related_to_other(rel, p, permuted(s, perm), i) == related_to_other(rel, p, s, perm[i]),
{
    let t = permuted(s, perm);
    if related_to_other(rel, p, s, perm[i]) {
        let j = choose|j: int| 0 <= j < s.len() && j != perm[i] && related(rel, p, #[trigger] s[j]);
        assert(t[inv[j]] == s[j]);
        assert(inv[j] != i);
    }
    if related_to_other(rel, p, t, i) {
        let k = choose|k: int| 0 <= k < t.len() && k != i && related(rel, p, #[trigger] t[k]);
        assert(t[k] == s[perm[k]]);
        assert(perm[k] != perm[i]);
    }
}

/// Moving the elements does not depend on the order in which they are
/// handed in: with the elements reordered by a permutation, each element
/// moves to the same place as before.
pub proof fn law_movement_ignores_order(
    elements: Seq<Pos>,
    obstacles: Seq<Pos>,
    perm: Seq<int>,
    inv: Seq<int>,
)
    requires
        is_permutation(perm, inv, elements.len() as int),
    ensures
        forall|i: int|
            0 <= i < elements.len() ==> #[trigger] movable_next(permuted(elements, perm), obstacles, i)
                == movable_next(elements, obstacles, perm[i]),
{
    let t = permuted(elements, perm);
    assert forall|i: int| 0 <= i < elements.len() implies #[trigger] movable_next(t, obstacles, i)
        == movable_next(elements, obstacles, perm[i]) by {
        let p = elements[perm[i]];
        assert(t[i] == p);
        let left = shifted(p, -TILE_SIZE, 0, 0);
        let right = shifted(p, TILE_SIZE as int, 0, 0);
        lemma_other_permuted(Relation::FallBlock, fallen(p), elements, perm, inv, i);
        lemma_other_permuted(Relation::RestsOn, p, elements, perm, inv, i);
        lemma_some_permuted(Relation::Touch, left, elements, perm, inv);
        lemma_some_permuted(Relation::Touch, shifted(left, 0, -TILE_SIZE, 0), elements, perm, inv);
        lemma_some_permuted(Relation::Touch, right, elements, perm, inv);
        lemma_some_permuted(Relation::Touch, shifted(right, 0, -TILE_SIZE, 0), elements, perm, inv);
    }
}

/// No position of `s` is closer than a tile, in space, to `(x, y, z)`.
pub open spec fn untouched(x: int, y: int, z: int, s: Seq<Pos>) -> bool {
    forall|k: int|
        0 <= k < s.len() ==> (x - #[trigger] s[k].x) * (x - s[k].x) + (y - s[k].y) * (y - s[k].y) + (z
            - s[k].z) * (z - s[k].z) >= TILE_SIZE * TILE_SIZE
}

/// No position of `s` but the one at index `skip` is closer than a tile
/// horizontally and at most a tile vertically to `(x, y)`: nothing there
/// holds up an element falling to `(x, y)`.
pub open spec fn nothing_beneath(x: int, y: int, s: Seq<Pos>, skip: int) -> bool {
    forall|k: int|
        0 <= k < s.len() && k != skip ==> #[trigger] s[k].x - x >= TILE_SIZE || x - s[k].x
            >= TILE_SIZE || s[k].y - y > TILE_SIZE || y - s[k].y > TILE_SIZE
}

/// Some element of `s` other than the one at index `i` lies under it, close
/// enough for it to rest on: closer than a tile horizontally, and lower by at
/// most a tile and the threshold.
pub open spec fn rests_on_other(s: Seq<Pos>, i: int) -> bool {
    exists|j: int|
        0 <= j < s.len() && j != i && -TILE_SIZE < s[i].x - #[trigger] s[j].x < TILE_SIZE && 0 < s[i].y
            - s[j].y <= TILE_SIZE + THRESHOLD
}

pub(crate) proof fn lemma_untouched(side: Pos, s: Seq<Pos>)
    ensures
        !related_to_some(Relation::Touch, side, s) == untouched(side.x as int, side.y as int, side.z as int, s),
{
    if !related_to_some(Relation::Touch, side, s) {
        assert forall|k: int| 0 <= k < s.len() implies (side.x - #[trigger] s[k].x) * (side.x - s[k].x) + (
        side.y - s[k].y) * (side.y - s[k].y) + (side.z - s[k].z) * (side.z - s[k].z) >= TILE_SIZE
            * TILE_SIZE by {
            assert(!related(Relation::Touch, side, s[k]));
        }
    } else {
        let k = choose|k: int| 0 <= k < s.len() && related(Relation::Touch, side, #[trigger] s[k]);
        assert(!((side.x - s[k].x) * (side.x - s[k].x) + (side.y - s[k].y) * (side.y - s[k].y) + (side.z
            - s[k].z) * (side.z - s[k].z) >= TILE_SIZE * TILE_SIZE));
    }
}

pub(crate) proof fn lemma_nothing_beneath(q: Pos, s: Seq<Pos>, skip: int)
    ensures
        !related_to_other(Relation::FallBlock, q, s, skip) == nothing_beneath(q.x as int, q.y as int, s, skip),
{
    if related_to_other(Relation::FallBlock, q, s, skip) {
        let k = choose|k: int| 0 <= k < s.len() && k != skip && related(Relation::FallBlock, q, #[trigger] s[k]);
        assert(!(s[k].x - q.x >= TILE_SIZE || q.x - s[k].x >= TILE_SIZE || s[k].y - q.y > TILE_SIZE || q.y
            - s[k].y > TILE_SIZE));
    }
    if !nothing_beneath(q.x as int, q.y as int, s, skip) {
        let k = choose|k: int|
            0 <= k < s.len() && k != skip && !(#[trigger] s[k].x - q.x >= TILE_SIZE || q.x - s[k].x
                >= TILE_SIZE || s[k].y - q.y > TILE_SIZE || q.y - s[k].y > TILE_SIZE);
        assert(related(Relation::FallBlock, q, s[k]));
    }
}

pub(crate) proof fn lemma_some_is_other(rel: Relation, q: Pos, s: Seq<Pos>)
    ensures
        related_to_some(rel, q, s) == related_to_other(rel, q, s, -1),
{
    if related_to_some(rel, q, s) {
        let k = choose|k: int| 0 <= k < s.len() && related(rel, q, #[trigger] s[k]);
        assert(k != -1);
    }
}

/// How an element moves in a frame, in plain coordinates, judged from where
/// all elements and obstacles stood at the start of the frame:
/// - with nothing of either closer than a tile horizontally and at most a
///   tile vertically to the spot `FALLING_SPEED` lower, it falls there;
/// - it moves sideways only when it cannot fall and rests on another element,
///   by exactly one tile, to a spot that no element or obstacle touches and
///   above one that none touches either;
/// - when it cannot fall and rests on another element, it slides to the left
///   where that spot and the one below are untouched, and otherwise to the
///   right where those are; it goes right only when the spot on its left, or
///   the one below that, is touched.
pub proof fn law_elements_fall_and_slide(elements: Seq<Pos>, obstacles: Seq<Pos>, i: int)
    requires
        all_in_world(elements),
        all_in_world(obstacles),
        0 <= i < elements.len(),
    ensures
        ({
            let p = elements[i];
            let q = movable_next(elements, obstacles, i);
            let can_fall = nothing_beneath(p.x as int, p.y - FALLING_SPEED, obstacles, -1)
                && nothing_beneath(p.x as int, p.y - FALLING_SPEED, elements, i);
            &&& can_fall ==> q == (Pos { x: p.x, y: (p.y - FALLING_SPEED) as i64, z: p.z })
            &&& q.y != p.y ==> can_fall
            &&& q.x != p.x ==> {
                &&& !can_fall
                &&& rests_on_other(elements, i)
                &&& q.y == p.y && q.z == p.z
                &&& q.x == p.x - TILE_SIZE || q.x == p.x + TILE_SIZE
                &&& untouched(q.x as int, q.y as int, q.z as int, elements)
                &&& untouched(q.x as int, q.y as int, q.z as int, obstacles)
                &&& untouched(q.x as int, q.y - TILE_SIZE, q.z as int, elements)
                &&& untouched(q.x as int, q.y - TILE_SIZE, q.z as int, obstacles)
            }
            &&& (!can_fall && rests_on_other(elements, i) && untouched(
                p.x - TILE_SIZE,
                p.y as int,
                p.z as int,
                elements,
            ) && untouched(p.x - TILE_SIZE, p.y as int, p.z as int, obstacles) && untouched(
                p.x - TILE_SIZE,
                p.y - TILE_SIZE,
                p.z as int,
                elements,
            ) && untouched(p.x - TILE_SIZE, p.y - TILE_SIZE, p.z as int, obstacles)) ==> q == (Pos {
                x: (p.x - TILE_SIZE) as i64,
                y: p.y,
                z: p.z,
            })
            &&& (!can_fall && rests_on_other(elements, i) && untouched(
                p.x + TILE_SIZE,
                p.y as int,
                p.z as int,
                elements,
            ) && untouched(p.x + TILE_SIZE, p.y as int, p.z as int, obstacles) && untouched(
                p.x + TILE_SIZE,
                p.y - TILE_SIZE,
                p.z as int,
                elements,
            ) && untouched(p.x + TILE_SIZE, p.y - TILE_SIZE, p.z as int, obstacles)) ==> (q.x
                == p.x - TILE_SIZE || q.x == p.x + TILE_SIZE)
            &&& q.x > p.x ==> !(untouched(p.x - TILE_SIZE, p.y as int, p.z as int, elements)
                && untouched(p.x - TILE_SIZE, p.y as int, p.z as int, obstacles) && untouched(
                p.x - TILE_SIZE,
                p.y - TILE_SIZE,
                p.z as int,
                elements,
            ) && untouched(p.x - TILE_SIZE, p.y - TILE_SIZE, p.z as int, obstacles))
        }),
{
    let p = elements[i];
    assert(in_world(p));
    let down = fallen(p);
    let left = shifted(p, -TILE_SIZE, 0, 0);
    let right = shifted(p, TILE_SIZE as int, 0, 0);
    lemma_some_is_other(Relation::FallBlock, down, obstacles);
    lemma_nothing_beneath(down, obstacles, -1);
    lemma_nothing_beneath(down, elements, i);
    lemma_untouched(left, elements);
    lemma_untouched(left, obstacles);
    lemma_untouched(shifted(left, 0, -TILE_SIZE, 0), elements);
    lemma_untouched(shifted(left, 0, -TILE_SIZE, 0), obstacles);
    lemma_untouched(right, elements);
    lemma_untouched(right, obstacles);
    lemma_untouched(shifted(right, 0, -TILE_SIZE, 0), elements);
    lemma_untouched(shifted(right, 0, -TILE_SIZE, 0), obstacles);
    if rests_on_other(elements, i) {
        let j = choose|j: int|
            0 <= j < elements.len() && j != i && -TILE_SIZE < elements[i].x - #[trigger] elements[j].x
                < TILE_SIZE && 0 < elements[i].y - elements[j].y <= TILE_SIZE + THRESHOLD;
        assert(related(Relation::RestsOn, p, elements[j]));
    }
    if is_stacked(elements, i) {
        let j = choose|j: int| 0 <= j < elements.len() && j != i && related(Relation::RestsOn, p, #[trigger] elements[j]);
        assert(-TILE_SIZE < elements[i].x - elements[j].x < TILE_SIZE && 0 < elements[i].y - elements[j].y
            <= TILE_SIZE + THRESHOLD);
    }
}

/// Whether `side` and the spot below it are free.
fn is_side_free(side: &Pos, elements: &Vec<Pos>, obstacles: &Vec<Pos>) -> (r: bool)
    requires
        pos_within(*side, 2 * WORLD_LIMIT),
        all_in_world(elements@),
        all_in_world(obstacles@),
    ensures
        r == side_free(*side, elements@, obstacles@),
{
    proof {
        lemma_world_in_reach(elements@);
        lemma_world_in_reach(obstacles@);
    }
    let below = shift(side, 0, -TILE_SIZE, 0);
    !some_related(Relation::Touch, side, obstacles) && !some_related(
        Relation::Touch,
        &below,
        obstacles,
    ) && !some_related(Relation::Touch, side, elements) && !some_related(
        Relation::Touch,
        &below,
        elements,
    )
}

/// Where the element `i` is after one frame.
fn next_position(elements: &Vec<Pos>, obstacles: &Vec<Pos>, i: usize) -> (r: Pos)
    requires
        i < elements@.len(),
        all_in_world(elements@),
        all_in_world(obstacles@),
    ensures
        r == movable_next(elements@, obstacles@, i as int),
{
    proof {
        lemma_world_in_reach(elements@);
        lemma_world_in_reach(obstacles@);
    }
    let p = elements[i];
    assert(in_world(p));
    let down = shift(&p, 0, -FALLING_SPEED, 0);
    if !some_related(Relation::FallBlock, &down, obstacles) && !other_related(
        Relation::FallBlock,
        &down,
        elements,
        i,
    ) {
        return down;
    }
    if !other_related(Relation::RestsOn, &p, elements, i) {
        return p;
    }
    let left = shift(&p, -TILE_SIZE, 0, 0);
    if is_side_free(&left, elements, obstacles) {
        return left;
    }
    let right = shift(&p, TILE_SIZE, 0, 0);
    if is_side_free(&right, elements, obstacles) {
        return right;
    }
    p
}

/// One frame of movement of all movable elements, given the obstacles that
/// stop them. Every element is moved by looking at where all of them stood at
/// the start of the frame. The result holds the new positions, in order.
pub fn moveable_elements_movement(elements: &Vec<Pos>, obstacles: &Vec<Pos>) -> (r: Vec<Pos>)
    requires
        all_in_world(elements@),
        all_in_world(obstacles@),
    ensures
        r@.len() == elements@.len(),
        forall|i: int|
            0 <= i < elements@.len() ==> #[trigger] r@[i] == movable_next(elements@, obstacles@, i),
        forall|i: int|
            0 <= i < elements@.len() ==> {
                let p = #[trigger] elements@[i];
                ||| r@[i] == fallen(p)
                ||| r@[i] == shifted(p, -TILE_SIZE, 0, 0)
                ||| r@[i] == shifted(p, TILE_SIZE as int, 0, 0)
                ||| r@[i] == p
            },
{
    let n: usize = elements.len();
    let mut result: Vec<Pos> = Vec::new();
    let mut i: usize = 0;
    while i < n
        invariant
            n == elements@.len(),
            i <= n,
            result@.len() == i,
            all_in_world(elements@),
            all_in_world(obstacles@),
            forall|j: int|
                0 <= j < i ==> #[trigger] result@[j] == movable_next(elements@, obstacles@, j),
        decreases n - i,
    {
        let next = next_position(elements, obstacles, i);
        result.push(next);
        i = i + 1;
    }
    result
}

} // verus!
