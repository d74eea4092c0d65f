//! Enemies: where they appear, how they walk, and how falling elements crush them.
use vstd::prelude::*;

use crate::config::{
    LAYER_CREATURES,
    ENEMY_SPEED, NANOS_PER_SECOND, TILE_SIZE, WINDOW_HEIGHT, WINDOW_WIDTH,
};
use crate::geometry::{
    all_in_world, in_world, is_related, lemma_world_in_reach, related, related_to_some, shift,
    shifted, some_related, Pos, Relation, WORLD_LIMIT,
};
use crate::pieces::{Direction, Piece, PieceKind, Texture};
use crate::player::ColisionDebounce;
use crate::random::random_in_range;
use crate::tiles::{
    draw_indices, lemma_spawnable_in_world, spawnable, spawnable_tiles, tile_in_world, tiles_in_world,
};
use crate::timer::GameTimer;

verus! {

/// An enemy's own state.
#[derive(Clone, Copy, Debug, PartialEq, Eq, Structural)]
pub struct Enemy {
    pub num: i32,
    pub direction: Direction,
}

/// The direction at index `index` of the list right, up, left, down.
pub open spec fn direction_at(index: int) -> Direction {
    if index == 0 {
        Direction::Right
    } else if index == 1 {
        Direction::Up
    } else if index == 2 {
        Direction::Left
    } else {
        Direction::Down
    }
}

/// The direction at index `index` of the list right, up, left, down.
pub fn enemy_direction(index: i64) -> (d: Direction)
    requires
        0 <= index <= 3,
    ensures
        d == direction_at(index as int),
{
    if index == 0 {
        Direction::Right
    } else if index == 1 {
        Direction::Up
    } else if index == 2 {
        Direction::Left
    } else {
        Direction::Down
    }
}

/// The two areas, in tiles as (left, bottom, width, height), in each of which
/// one wandering enemy appears.
pub open spec fn enemy_areas() -> Seq<(int, int, int, int)> {
    seq![(5, 5, 8, 6), (15, 10, 10, 5)]
}

/// A wandering enemy at `position`: it walks right and can be blown up.
pub open spec fn wandering_enemy(position: Pos) -> Piece {
    Piece {
        texture: Texture::Enemy,
        position,
        kind: PieceKind::Enemy(Direction::Right),
        explodable: true,
        explosive: false,
        blocks_enemies: false,
        blocks_player: false,
    }
}

/// The point `(dx, dy)` units into the area whose bottom-left tile is
/// `(left, bottom)`, in world units relative to the centre of the field, on
/// the creatures' layer.
pub open spec fn area_point(left: int, bottom: int, dx: int, dy: int) -> Pos {
    Pos {
        x: (left * TILE_SIZE + dx - WINDOW_WIDTH / 2) as i64,
        y: (bottom * TILE_SIZE + dy - WINDOW_HEIGHT / 2) as i64,
        z: LAYER_CREATURES,
    }
}

/// The area of `enemy_areas` at index `k`.
fn enemy_area(k: usize) -> (r: (i64, i64, i64, i64))
    requires
        k < 2,
    ensures
        (r.0 as int, r.1 as int, r.2 as int, r.3 as int) == enemy_areas()[k as int],
{
    if k == 0 {
        (5, 5, 8, 6)
    } else {
        (15, 10, 10, 5)
    }
}

/// The wandering enemies for the given offsets, one per area of
/// `enemy_areas`: enemy `k` stands `offsets[k]` units into area `k`.
pub fn wandering_enemies_at(offsets: &Vec<(i64, i64)>) -> (r: Vec<Piece>)
    requires
        offsets@.len() == 2,
        forall|k: int|
            0 <= k < 2 ==> -WORLD_LIMIT <= #[trigger] offsets@[k].0 <= WORLD_LIMIT && -WORLD_LIMIT
                <= offsets@[k].1 <= WORLD_LIMIT,
    ensures
        r@.len() == 2,
        forall|k: int|
            0 <= k < 2 ==> #[trigger] r@[k] == wandering_enemy(
                area_point(enemy_areas()[k].0, enemy_areas()[k].1, offsets@[k].0 as int, offsets@[k].1 as int),
            ),
{
    let mut r: Vec<Piece> = Vec::new();
    let mut k: usize = 0;
    while k < 2
        invariant
            k <= 2,
            r@.len() == k,
            offsets@.len() == 2,
            forall|j: int|
                0 <= j < 2 ==> -WORLD_LIMIT <= #[trigger] offsets@[j].0 <= WORLD_LIMIT && -WORLD_LIMIT
                    <= offsets@[j].1 <= WORLD_LIMIT,
            forall|j: int|
                0 <= j < k ==> #[trigger] r@[j] == wandering_enemy(
                    area_point(enemy_areas()[j].0, enemy_areas()[j].1, offsets@[j].0 as int, offsets@[j].1 as int),
                ),
        decreases 2 - k,
    {
        let (left, bottom, _, _) = enemy_area(k);
        let (dx, dy) = offsets[k];
        let position = Pos {
            x: left * TILE_SIZE + dx - WINDOW_WIDTH / 2,
            y: bottom * TILE_SIZE + dy - WINDOW_HEIGHT / 2,
            z: LAYER_CREATURES,
        };
        r.push(
            Piece {
                texture: Texture::Enemy,
                position,
                kind: PieceKind::Enemy(Direction::Right),
                explodable: true,
                explosive: false,
                blocks_enemies: false,
                blocks_player: false,
            },
        );
        k = k + 1;
    }
    r
}

/// `p` is a wandering enemy at some point of area `k` of `enemy_areas`.
pub open spec fn is_wandering_enemy_in(p: Piece, k: int) -> bool {
    exists|dx: int, dy: int|
        0 <= dx < enemy_areas()[k].2 * TILE_SIZE && 0 <= dy < enemy_areas()[k].3 * TILE_SIZE && p
            == wandering_enemy(#[trigger] area_point(enemy_areas()[k].0, enemy_areas()[k].1, dx, dy))
}

/// The two wandering enemies, one at a random point of each area of
/// `enemy_areas`, on the creatures' layer: the offsets are drawn and
/// `wandering_enemies_at` places the enemies.
pub fn spawn_enemies() -> (r: Vec<Piece>)
    ensures
        r@.len() == 2,
        forall|k: int| 0 <= k < 2 ==> is_wandering_enemy_in(#[trigger] r@[k], k),
{
    let mut offsets: Vec<(i64, i64)> = Vec::new();
    let mut k: usize = 0;
    while k < 2
        invariant
            k <= 2,
            offsets@.len() == k,
            forall|j: int|
                0 <= j < k ==> 0 <= #[trigger] offsets@[j].0 < enemy_areas()[j].2 * TILE_SIZE && 0
                    <= offsets@[j].1 < enemy_areas()[j].3 * TILE_SIZE,
        decreases 2 - k,
    {
        let (_, _, width, height) = enemy_area(k);
        let dx = random_in_range(0, width * TILE_SIZE);
        let dy = random_in_range(0, height * TILE_SIZE);
        offsets.push((dx, dy));
        k = k + 1;
    }
    let r = wandering_enemies_at(&offsets);
    assert forall|k: int| 0 <= k < 2 implies is_wandering_enemy_in(#[trigger] r@[k], k) by {
        assert(0 <= offsets@[k].0 < enemy_areas()[k].2 * TILE_SIZE);
        assert(r@[k] == wandering_enemy(
            area_point(enemy_areas()[k].0, enemy_areas()[k].1, offsets@[k].0 as int, offsets@[k].1 as int),
        ));
    }
    r
}

/// A guarding enemy on tile `(x, y)`: it walks down, blocks the player, can
/// be blown up and hurts the player.
pub open spec fn guarding_enemy(x: int, y: int) -> Piece {
    Piece {
        texture: Texture::Enemy,
        position: Pos { x: (x * TILE_SIZE) as i64, y: (y * TILE_SIZE) as i64, z: LAYER_CREATURES },
        kind: PieceKind::Enemy(Direction::Down),
        explodable: true,
        explosive: true,
        blocks_enemies: false,
        blocks_player: true,
    }
}

/// `p` is a guarding enemy on a tile where enemies may be placed.
pub open spec fn is_guarding_enemy(p: Piece) -> bool {
    exists|x: int, y: int| spawnable(x, y) && p == #[trigger] guarding_enemy(x, y)
}

/// The guarding enemies on the picked tiles: enemy `k` stands on
/// `tiles[picks[k]]`.
pub fn guarding_enemies_at(tiles: &Vec<(i64, i64)>, picks: &Vec<usize>) -> (r: Vec<Piece>)
    requires
        tiles_in_world(tiles@),
        forall|k: int| 0 <= k < picks@.len() ==> #[trigger] picks@[k] < tiles@.len(),
    ensures
        r@.len() == picks@.len(),
        forall|k: int|
            0 <= k < picks@.len() ==> #[trigger] r@[k] == guarding_enemy(
                tiles@[picks@[k] as int].0 as int,
                tiles@[picks@[k] as int].1 as int,
            ),
{
    let n: usize = picks.len();
    let mut r: Vec<Piece> = Vec::new();
    let mut i: usize = 0;
    while i < n
        invariant
            n == picks@.len(),
            i <= n,
            r@.len() == i,
            tiles_in_world(tiles@),
            forall|k: int| 0 <= k < picks@.len() ==> #[trigger] picks@[k] < tiles@.len(),
            forall|k: int|
                0 <= k < i ==> #[trigger] r@[k] == guarding_enemy(
                    tiles@[picks@[k] as int].0 as int,
                    tiles@[picks@[k] as int].1 as int,
                ),
        decreases n - i,
    {
        let (x, y) = tiles[picks[i]];
        assert(tile_in_world(tiles@[picks@[i as int] as int].0, tiles@[picks@[i as int] as int].1));
        r.push(
            Piece {
                texture: Texture::Enemy,
                position: Pos { x: x * TILE_SIZE, y: y * TILE_SIZE, z: LAYER_CREATURES },
                kind: PieceKind::Enemy(Direction::Down),
                explodable: true,
                explosive: true,
                blocks_enemies: false,
                blocks_player: true,
            },
        );
        i = i + 1;
    }
    r
}

/// How many guarding enemies are placed.
pub const GUARDING_ENEMIES: usize = 500;

/// The guarding enemies: five hundred, each on a tile drawn at random among
/// the tiles of the field outside the safe zone. The tiles are drawn and
/// `guarding_enemies_at` places the enemies.
pub fn spawn_enemy() -> (r: Vec<Piece>)
    ensures
        r@.len() == GUARDING_ENEMIES,
        forall|k: int| 0 <= k < r@.len() ==> is_guarding_enemy(#[trigger] r@[k]),
{
    let tiles = spawnable_tiles();
    proof {
        lemma_spawnable_in_world(tiles@);
    }
    let picks = draw_indices(tiles.len(), GUARDING_ENEMIES);
    let r = guarding_enemies_at(&tiles, &picks);
    assert forall|k: int| 0 <= k < r@.len() implies is_guarding_enemy(#[trigger] r@[k]) by {
        let t = tiles@[picks@[k] as int];
        assert(spawnable(t.0 as int, t.1 as int));
        assert(r@[k] == guarding_enemy(t.0 as int, t.1 as int));
    }
    r
}

/// How far an enemy walks in `delta` nanoseconds, in world units, rounded
/// to the nearest unit.
pub open spec fn enemy_stride(delta: u64) -> int {
    (delta * ENEMY_SPEED + NANOS_PER_SECOND / 2) / (NANOS_PER_SECOND as int)
}

/// Where an enemy at `p` walking in direction `d` would be after `stride`.
pub open spec fn walked(p: Pos, d: Direction, stride: int) -> Pos {
    shifted(p, d.dx() * stride, d.dy() * stride, 0)
}

/// Where an enemy at `p` walking in direction `d` for `stride` units is
/// headed, in plain coordinates: right is towards +x, up towards +y, left
/// towards -x, down towards -y.
pub open spec fn heading(p: Pos, d: Direction, stride: int) -> (int, int) {
    match d {
        Direction::Right => (p.x + stride, p.y as int),
        Direction::Up => (p.x as int, p.y + stride),
        Direction::Left => (p.x - stride, p.y as int),
        Direction::Down => (p.x as int, p.y - stride),
    }
}

/// No position of `s` is closer than a tile to `(x, y)` along both map axes.
pub open spec fn clear_of(x: int, y: int, s: Seq<Pos>) -> bool {
    forall|k: int|
        0 <= k < s.len() ==> #[trigger] s[k].x - x >= TILE_SIZE || x - s[k].x >= TILE_SIZE || s[k].y
            - y >= TILE_SIZE || y - s[k].y >= TILE_SIZE
}

/// An enemy walks along its own direction: `stride` units towards +x when
/// it faces right, +y up, -x left and -y down, on its layer; and what stops
/// it there is an obstacle closer than a tile to that spot along both axes.
pub proof fn law_enemy_walks_its_direction(p: Pos, d: Direction, stride: int, obstacles: Seq<Pos>)
    requires
        in_world(p),
        0 <= stride <= WORLD_LIMIT,
    ensures
        walked(p, d, stride) == (Pos {
            x: heading(p, d, stride).0 as i64,
            y: heading(p, d, stride).1 as i64,
            z: p.z,
        }),
        walked(p, d, stride).x == heading(p, d, stride).0,
        walked(p, d, stride).y == heading(p, d, stride).1,
        related_to_some(Relation::TileOverlap, walked(p, d, stride), obstacles) == !clear_of(
            heading(p, d, stride).0,
            heading(p, d, stride).1,
            obstacles,
        ),
{
    let q = walked(p, d, stride);
    let (x, y) = heading(p, d, stride);
    assert(q.x == x && q.y == y);
    if related_to_some(Relation::TileOverlap, q, obstacles) {
        let k = choose|k: int| 0 <= k < obstacles.len() && related(Relation::TileOverlap, q, #[trigger] obstacles[k]);
        assert(!(obstacles[k].x - x >= TILE_SIZE || x - obstacles[k].x >= TILE_SIZE || obstacles[k].y
            - y >= TILE_SIZE || y - obstacles[k].y >= TILE_SIZE));
    }
    if !clear_of(x, y, obstacles) {
        let k = choose|k: int|
            0 <= k < obstacles.len() && !(#[trigger] obstacles[k].x - x >= TILE_SIZE || x - obstacles[k].x >= TILE_SIZE
                || obstacles[k].y - y >= TILE_SIZE || y - obstacles[k].y >= TILE_SIZE);
        assert(related(Relation::TileOverlap, q, obstacles[k]));
    }
}

/// One frame of enemy movement. An enemy walks `enemy_stride(delta)` in its
/// direction unless it would then be closer than a tile, along both axes, to
/// an obstacle; in that case it stays and turns to a direction drawn at
/// random.
pub fn enemy_movement(enemies: &mut Vec<(Pos, Enemy)>, not_walkable: &Vec<Pos>, delta: u64)
    requires
        forall|i: int| 0 <= i < old(enemies)@.len() ==> in_world(#[trigger] old(enemies)@[i].0),
        all_in_world(not_walkable@),
        enemy_stride(delta) <= WORLD_LIMIT,
    ensures
        final(enemies)@.len() == old(enemies)@.len(),
        forall|i: int|
            0 <= i < old(enemies)@.len() ==> {
                let (p, e) = #[trigger] old(enemies)@[i];
                let next = walked(p, e.direction, enemy_stride(delta));
                if !related_to_some(Relation::TileOverlap, next, not_walkable@) {
                    final(enemies)@[i] == (next, e)
                } else {
                    final(enemies)@[i].0 == p && final(enemies)@[i].1.num == e.num
                }
            },
        forall|i: int|
            0 <= i < old(enemies)@.len() ==> #[trigger] final(enemies)@[i].0.z == old(enemies)@[i].0.z,
        forall|i: int|
            0 <= i < old(enemies)@.len() && #[trigger] final(enemies)@[i].0 != old(enemies)@[i].0
                ==> !related_to_some(Relation::TileOverlap, final(enemies)@[i].0, not_walkable@),
        forall|i: int|
            0 <= i < old(enemies)@.len() ==> {
                let (p, e) = #[trigger] old(enemies)@[i];
                let stride = (delta * ENEMY_SPEED + NANOS_PER_SECOND / 2) / (NANOS_PER_SECOND as int);
                let (x, y) = heading(p, e.direction, stride);
                &&& clear_of(x, y, not_walkable@) ==> final(enemies)@[i] == (
                    Pos { x: x as i64, y: y as i64, z: p.z },
                    e,
                )
                &&& !clear_of(x, y, not_walkable@) ==> final(enemies)@[i].0 == p
                    && final(enemies)@[i].1.num == e.num
            },
{
    proof {
        lemma_world_in_reach(not_walkable@);
    }
    let stride: i64 = ((delta as u128 * ENEMY_SPEED as u128 + (NANOS_PER_SECOND / 2) as u128)
        / NANOS_PER_SECOND as u128) as i64;
    let ghost start = enemies@;
    let n: usize = enemies.len();
    let mut i: usize = 0;
    while i < n
        invariant
            n == start.len(),
            enemies@.len() == n,
            i <= n,
            stride == enemy_stride(delta),
            0 <= stride <= WORLD_LIMIT,
            forall|j: int| 0 <= j < n ==> in_world(#[trigger] start[j].0),
            all_in_world(not_walkable@),
            crate::geometry::all_in_reach(not_walkable@),
            forall|j: int| i <= j < n ==> #[trigger] enemies@[j] == start[j],
            forall|j: int|
                0 <= j < i ==> {
                    let (p, e) = #[trigger] start[j];
                    let next = walked(p, e.direction, enemy_stride(delta));
                    if !related_to_some(Relation::TileOverlap, next, not_walkable@) {
                        enemies@[j] == (next, e)
                    } else {
                        enemies@[j].0 == p && enemies@[j].1.num == e.num
                    }
                },
        decreases n - i,
    {
        let (p, e) = enemies[i];
        assert(in_world(start[i as int].0));
        let (sx, sy): (i64, i64) = match e.direction {
            Direction::Right => (stride, 0),
            Direction::Up => (0, stride),
            Direction::Left => (-stride, 0),
            Direction::Down => (0, -stride),
        };
        assert(sx == e.direction.dx() * stride && sy == e.direction.dy() * stride);
        let next = shift(&p, sx, sy, 0);
        if !some_related(Relation::TileOverlap, &next, not_walkable) {
            enemies.set(i, (next, e));
        } else {
            let turned = Enemy { num: e.num, direction: enemy_direction(random_in_range(0, 4)) };
            enemies.set(i, (p, turned));
        }
        i = i + 1;
    }
    proof {
        assert forall|i: int| 0 <= i < start.len() implies {
            let (p, e) = #[trigger] start[i];
            let stride = (delta * ENEMY_SPEED + NANOS_PER_SECOND / 2) / (NANOS_PER_SECOND as int);
            let (x, y) = heading(p, e.direction, stride);
            &&& clear_of(x, y, not_walkable@) ==> enemies@[i] == (
                Pos { x: x as i64, y: y as i64, z: p.z },
                e,
            )
            &&& !clear_of(x, y, not_walkable@) ==> enemies@[i].0 == p && enemies@[i].1.num == e.num
        } by {
            let (p, e) = start[i];
            assert(in_world(start[i].0));
            law_enemy_walks_its_direction(p, e.direction, enemy_stride(delta), not_walkable@);
        }
    }
}

/// The debounce and the crushed enemies after the falling element at `f`
/// has been checked against the first `k` enemies, starting from debounce
/// `t`: each check ticks the debounce by `delta`; when it has finished and
/// `f` is just above the enemy, the enemy is crushed and the debounce starts
/// over.
pub open spec fn crush_row(t: GameTimer, f: Pos, enemies: Seq<Pos>, delta: u64, k: nat) -> (
    GameTimer,
    Seq<usize>,
)
    decreases k,
{
    if k == 0 {
        (t, Seq::empty())
    } else {
        let (t0, hits) = crush_row(t, f, enemies, delta, (k - 1) as nat);
        let t1 = t0.after_tick(delta);
        if t1.finished && related(Relation::Above, f, enemies[k - 1]) {
            (t1.after_reset(), hits.push((k - 1) as usize))
        } else {
            (t1, hits)
        }
    }
}

/// The debounce and the crushed enemies after the first `n` falling elements
/// have each been checked against all enemies, in order.
pub open spec fn crush_all(
    t: GameTimer,
    falling: Seq<Pos>,
    enemies: Seq<Pos>,
    delta: u64,
    n: nat,
) -> (GameTimer, Seq<usize>)
    decreases n,
{
    if n == 0 {
        (t, Seq::empty())
    } else {
        let (t0, h0) = crush_all(t, falling, enemies, delta, (n - 1) as nat);
        let (t1, h1) = crush_row(t0, falling[n - 1], enemies, delta, enemies.len());
        (t1, h0 + h1)
    }
}

/// Enemy `e` exists and some falling element is just above it: closer than
/// a tile horizontally, and higher by less than a tile.
pub open spec fn lies_under_falling(falling: Seq<Pos>, enemies: Seq<Pos>, e: usize) -> bool {
    &&& e < enemies.len()
    &&& exists|fi: int|
        0 <= fi < falling.len() && -TILE_SIZE < #[trigger] falling[fi].x - enemies[e as int].x
            < TILE_SIZE && 0 < falling[fi].y - enemies[e as int].y < TILE_SIZE
}

/// Every enemy crushed while checking one falling element lies just under it.
proof fn lemma_row_crushes_under(t: GameTimer, f: Pos, enemies: Seq<Pos>, delta: u64, k: nat)
    requires
        k <= enemies.len() <= usize::MAX,
    ensures
        forall|j: int|
            0 <= j < crush_row(t, f, enemies, delta, k).1.len() ==> {
                let e = #[trigger] crush_row(t, f, enemies, delta, k).1[j];
                e < k && related(Relation::Above, f, enemies[e as int])
            },
    decreases k,
{
    if k > 0 {
        lemma_row_crushes_under(t, f, enemies, delta, (k - 1) as nat);
        let (t0, hits) = crush_row(t, f, enemies, delta, (k - 1) as nat);
        let row = crush_row(t, f, enemies, delta, k).1;
        assert forall|j: int| 0 <= j < row.len() implies {
            let e = #[trigger] row[j];
            e < k && related(Relation::Above, f, enemies[e as int])
        } by {
            let t1 = t0.after_tick(delta);
            let cond = t1.finished && related(Relation::Above, f, enemies[k - 1]);
            assert(row == if cond {
                hits.push((k - 1) as usize)
            } else {
                hits
            });
            if j < hits.len() {
                assert(row[j] == hits[j]);
                assert(hits[j] < k - 1 && related(Relation::Above, f, enemies[hits[j] as int]));
            } else {
                assert(cond);
                assert(row[j] == (k - 1) as usize);
            }
        }
    }
}

/// Every enemy crushed in a frame lies just under some falling element.
pub proof fn law_crushed_lie_under(
    t: GameTimer,
    falling: Seq<Pos>,
    enemies: Seq<Pos>,
    delta: u64,
    n: nat,
)
    requires
        n <= falling.len(),
        enemies.len() <= usize::MAX,
    ensures
        forall|j: int|
            0 <= j < crush_all(t, falling, enemies, delta, n).1.len() ==> lies_under_falling(
                falling,
                enemies,
                #[trigger] crush_all(t, falling, enemies, delta, n).1[j],
            ),
    decreases n,
{
    if n > 0 {
        law_crushed_lie_under(t, falling, enemies, delta, (n - 1) as nat);
        let (t0, h0) = crush_all(t, falling, enemies, delta, (n - 1) as nat);
        let f = falling[n - 1];
        lemma_row_crushes_under(t0, f, enemies, delta, enemies.len());
        let h1 = crush_row(t0, f, enemies, delta, enemies.len()).1;
        let all = crush_all(t, falling, enemies, delta, n).1;
        assert(all == h0 + h1);
        assert forall|j: int| 0 <= j < all.len() implies lies_under_falling(
            falling,
            enemies,
            #[trigger] all[j],
        ) by {
            if j < h0.len() {
                assert(all[j] == h0[j]);
                assert(lies_under_falling(falling, enemies, h0[j]));
            } else {
                assert(all[j] == h1[j - h0.len()]);
                assert(related(Relation::Above, falling[n - 1], enemies[all[j] as int]));
            }
        }
    }
}

/// After `c` crushes, with the debounce at `t`, debounce ticks adding up to
/// `budget` have passed since the first crush: every crush after the first
/// needed a full debounce duration of ticks.
pub open spec fn crushes_spaced(c: int, t: GameTimer, budget: int) -> bool {
    c >= 1 ==> {
        &&& (c - 1) * t.duration + t.elapsed <= budget
        &&& (!t.repeating && t.finished) ==> t.elapsed >= t.duration
    }
}

/// What one tick does to a debounce: its duration stays, its elapsed time
/// grows by at most the tick, and it finishes only once the elapsed time
/// reaches the duration.
proof fn lemma_tick_bounds(t: GameTimer, delta: u64)
    requires
        (!t.repeating && t.finished) ==> t.elapsed >= t.duration,
    ensures
        t.after_tick(delta).duration == t.duration,
        t.after_tick(delta).repeating == t.repeating,
        t.after_tick(delta).elapsed <= t.elapsed + delta,
        t.after_tick(delta).finished ==> t.duration <= t.elapsed + delta,
        (!t.repeating && t.after_tick(delta).finished) ==> t.after_tick(delta).elapsed
            >= t.duration,
{
    if !(!t.repeating && t.finished) {
        let total: int = t.elapsed + delta;
        let e = ticked_elapsed_value(t, delta);
        if total >= t.duration && t.repeating && t.duration != 0 {
            assert(total % (t.duration as int) <= total) by (nonlinear_arith)
                requires
                    total >= 0,
                    t.duration > 0,
            ;
            assert(total % (t.duration as int) < t.duration) by (nonlinear_arith)
                requires
                    t.duration > 0,
            ;
        }
        assert(0 <= e <= total && e <= u64::MAX);
    }
}

/// The elapsed time `tick(delta)` computes for `t`, before it is stored.
spec fn ticked_elapsed_value(t: GameTimer, delta: u64) -> int {
    crate::timer::ticked_elapsed(t.duration, t.elapsed, t.repeating, delta)
}

proof fn lemma_row_spaced(
    c: int,
    t: GameTimer,
    f: Pos,
    enemies: Seq<Pos>,
    delta: u64,
    k: nat,
    budget: int,
)
    requires
        c >= 0,
        budget >= 0,
        crushes_spaced(c, t, budget),
    ensures
        crush_row(t, f, enemies, delta, k).0.duration == t.duration,
        crushes_spaced(
            c + crush_row(t, f, enemies, delta, k).1.len(),
            crush_row(t, f, enemies, delta, k).0,
            budget + k * delta,
        ),
    decreases k,
{
    if k > 0 {
        lemma_row_spaced(c, t, f, enemies, delta, (k - 1) as nat, budget);
        let (t0, hits) = crush_row(t, f, enemies, delta, (k - 1) as nat);
        let c0 = c + hits.len();
        let b0 = budget + (k - 1) * delta;
        assert(budget + k * delta == b0 + delta) by (nonlinear_arith)
            requires
                b0 == budget + (k - 1) * delta,
        ;
        assert(b0 >= 0) by (nonlinear_arith)
            requires
                b0 == budget + (k - 1) * delta,
                budget >= 0,
                k >= 1,
        ;
        let t1 = t0.after_tick(delta);
        if c0 >= 1 {
            lemma_tick_bounds(t0, delta);
        } else {
            if !(!t0.repeating && t0.finished) {
                lemma_tick_bounds(t0, delta);
            }
        }
        let d: int = t0.duration as int;
        let (t2, h2) = crush_row(t, f, enemies, delta, k);
        if t1.finished && related(Relation::Above, f, enemies[k - 1]) {
            assert(t2 == t1.after_reset() && h2 == hits.push((k - 1) as usize));
            if c0 >= 1 {
                assert((c0 + 1 - 1) * d == (c0 - 1) * d + d) by (nonlinear_arith);
                assert((c0 - 1) * d + t0.elapsed <= b0);
                assert(d <= t0.elapsed + delta);
            } else {
                assert((c0 + 1 - 1) * d == 0) by (nonlinear_arith)
                    requires
                        c0 == 0,
                ;
            }
            assert(crushes_spaced(c0 + 1, t2, b0 + delta));
        } else {
            assert(t2 == t1 && h2 == hits);
            if c0 >= 1 {
                assert(t1.elapsed <= t0.elapsed + delta);
            }
            assert(crushes_spaced(c0, t2, b0 + delta));
        }
    } else {
        assert(budget + k * delta == budget) by (nonlinear_arith)
            requires
                k == 0,
        ;
    }
}

/// Within one frame, every crush after the first needs the debounce to run
/// its whole duration again: with `n` falling elements each checked against
/// every enemy, the debounce ticks `n * enemies.len()` times by `delta`, and
/// the crushes after the first take at least one duration of those ticks
/// each. A frame whose ticks add up to less than the duration crushes at most
/// one enemy.
pub proof fn law_crushes_are_spaced(
    t: GameTimer,
    falling: Seq<Pos>,
    enemies: Seq<Pos>,
    delta: u64,
    n: nat,
)
    requires
        n <= falling.len(),
    ensures
        crush_all(t, falling, enemies, delta, n).0.duration == t.duration,
        crush_all(t, falling, enemies, delta, n).1.len() >= 1 ==> (crush_all(
            t,
            falling,
            enemies,
            delta,
            n,
        ).1.len() - 1) * t.duration <= n * enemies.len() * delta,
        n * enemies.len() * delta < t.duration ==> crush_all(t, falling, enemies, delta, n).1.len()
            <= 1,
{
    lemma_all_spaced(t, falling, enemies, delta, n);
    let c = crush_all(t, falling, enemies, delta, n).1.len();
    let t2 = crush_all(t, falling, enemies, delta, n).0;
    let b = n * enemies.len() * delta;
    if c >= 1 {
        assert((c - 1) * t.duration <= b);
        if b < t.duration {
            assert(c <= 1) by (nonlinear_arith)
                requires
                    (c - 1) * t.duration <= b,
                    b < t.duration,
                    c >= 1,
            ;
        }
    }
}

proof fn lemma_all_spaced(t: GameTimer, falling: Seq<Pos>, enemies: Seq<Pos>, delta: u64, n: nat)
    requires
        n <= falling.len(),
    ensures
        crush_all(t, falling, enemies, delta, n).0.duration == t.duration,
        crushes_spaced(
            crush_all(t, falling, enemies, delta, n).1.len() as int,
            crush_all(t, falling, enemies, delta, n).0,
            n * enemies.len() * delta,
        ),
    decreases n,
{
    if n > 0 {
        lemma_all_spaced(t, falling, enemies, delta, (n - 1) as nat);
        let (t0, h0) = crush_all(t, falling, enemies, delta, (n - 1) as nat);
        let m: nat = enemies.len();
        let b0: int = (n - 1) * m * delta;
        assert(b0 >= 0) by (nonlinear_arith)
            requires
                b0 == (n - 1) * m * delta,
                n >= 1,
        ;
        lemma_row_spaced(h0.len() as int, t0, falling[n - 1], enemies, delta, m, b0);
        assert(b0 + m * delta == n * m * delta) by (nonlinear_arith)
            requires
                b0 == (n - 1) * m * delta,
        ;
    }
}

/// One frame of falling elements crushing enemies: every falling element is
/// checked against every enemy, in order, as `crush_all` says. The result
/// lists the crushed enemies, in the order they were crushed; each leaves a
/// planted bomb on a fuse of zero (see `spawn_planted_bomb`).
pub fn enemy_hit_moveable_element(
    falling: &Vec<Pos>,
    enemies: &Vec<Pos>,
    collision_debounce: &mut ColisionDebounce,
    delta: u64,
) -> (r: Vec<usize>)
    requires
        all_in_world(falling@),
        all_in_world(enemies@),
    ensures
        crush_all(
            old(collision_debounce).timer,
            falling@,
            enemies@,
            delta,
            falling@.len(),
        ) == (final(collision_debounce).timer, r@),
        forall|j: int| 0 <= j < r@.len() ==> lies_under_falling(falling@, enemies@, #[trigger] r@[j]),
        r@.len() >= 1 ==> (r@.len() - 1) * old(collision_debounce).timer.duration <= falling@.len()
            * enemies@.len() * delta,
        final(collision_debounce).timer.duration == old(collision_debounce).timer.duration,
{
    proof {
        lemma_world_in_reach(enemies@);
    }
    let ghost t_start = collision_debounce.timer;
    let n: usize = falling.len();
    let m: usize = enemies.len();
    let mut hits: Vec<usize> = Vec::new();
    let mut i: usize = 0;
    while i < n
        invariant
            n == falling@.len(),
            m == enemies@.len(),
            i <= n,
            all_in_world(falling@),
            all_in_world(enemies@),
            crate::geometry::all_in_reach(enemies@),
            crush_all(t_start, falling@, enemies@, delta, i as nat) == (
                collision_debounce.timer,
                hits@,
            ),
        decreases n - i,
    {
        let f = falling[i];
        assert(in_world(falling@[i as int]));
        let ghost t_row = collision_debounce.timer;
        let ghost hits_row = hits@;
        let mut j: usize = 0;
        while j < m
            invariant
                m == enemies@.len(),
                j <= m,
                in_world(f),
                crate::geometry::all_in_reach(enemies@),
                crush_row(t_row, f, enemies@, delta, j as nat).0 == collision_debounce.timer,
                hits_row + crush_row(t_row, f, enemies@, delta, j as nat).1 == hits@,
            decreases m - j,
        {
            let ghost before = hits@;
            collision_debounce.timer.tick(delta);
            if collision_debounce.timer.is_finished() && is_related(Relation::Above, &f, &enemies[j]) {
                hits.push(j);
                collision_debounce.timer.reset();
                proof {
                    let row = crush_row(t_row, f, enemies@, delta, j as nat).1;
                    assert(hits_row + row.push(j) == (hits_row + row).push(j));
                }
            }
            j = j + 1;
        }
        proof {
            let row = crush_row(t_row, f, enemies@, delta, m as nat);
            assert(crush_all(t_start, falling@, enemies@, delta, (i + 1) as nat) == (
                row.0,
                hits_row + row.1,
            ));
        }
        i = i + 1;
    }
    proof {
        law_crushed_lie_under(t_start, falling@, enemies@, delta, n as nat);
        law_crushes_are_spaced(t_start, falling@, enemies@, delta, n as nat);
        let all = crush_all(t_start, falling@, enemies@, delta, n as nat).1;
        assert(all == hits@);
        assert forall|j: int| 0 <= j < hits@.len() implies lies_under_falling(
            falling@,
            enemies@,
            #[trigger] hits@[j],
        ) by {
            assert(lies_under_falling(falling@, enemies@, all[j]));
        }
    }
    hits
}

} // verus!
