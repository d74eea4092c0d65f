//! The player: placement, steps on the tile grid, digging, collecting bombs,
//! getting hit by enemies and pushing movable elements.
use vstd::prelude::*;

use crate::config::{
    LAYER_PLAYER,
    COLLISION_DEBOUNCE_NANOS, PLAYER_MOVE_COOLDOWN_NANOS, PLAYER_STARTING_TILE_X,
    PLAYER_STARTING_TILE_Y, PUSH_COOLDOWN_NANOS, THRESHOLD, TILE_SIZE,
};
use crate::explosion::PlantedBomb;
use crate::geometry::{
    all_in_reach, all_in_world, in_reach, in_world, is_related, lemma_world_in_reach, related,
    related_to_some, shift, shifted, some_related, Pos, Relation,
};
use crate::movable::{lemma_untouched, untouched};
use crate::pieces::{Piece, PieceKind, Texture};
use crate::selection::{lemma_selects_same_test, related_indices, selects};
use crate::timer::{lemma_once_finishes_at_duration, ticked_by, total, GameTimer};

verus! {

/// The keys held down during a frame.
#[derive(Clone, Copy, Debug, PartialEq, Eq, Structural)]
pub struct KeyState {
    /// W
    pub up: bool,
    /// S
    pub down: bool,
    /// A
    pub left: bool,
    /// D
    pub right: bool,
    /// Space
    pub plant: bool,
}

/// The time of the player's last step, in nanoseconds since the game started.
#[derive(Clone, Copy, Debug, PartialEq, Eq, Structural)]
pub struct PlayerMoveCooldown {
    pub last_move_time: u64,
}

/// The debounce between two hits on the player.
#[derive(Clone, Copy, Debug, PartialEq, Eq, Structural)]
pub struct ColisionDebounce {
    pub timer: GameTimer,
}

/// The repeating cooldown between two pushes.
#[derive(Clone, Copy, Debug, PartialEq, Eq, Structural)]
pub struct PushCooldownTimer(pub GameTimer);

impl Default for PushCooldownTimer {
    fn default() -> (r: Self)
        ensures
            r == PushCooldownTimer(
                GameTimer {
                    duration: PUSH_COOLDOWN_NANOS,
                    elapsed: 0,
                    finished: false,
                    repeating: true,
                },
            ),
    {
        PushCooldownTimer(GameTimer::repeating(PUSH_COOLDOWN_NANOS))
    }
}

/// The hit debounce at the start of the game: a one-shot timer of ten seconds.
pub fn setup_collision() -> (r: ColisionDebounce)
    ensures
        r == (ColisionDebounce {
            timer: GameTimer {
                duration: COLLISION_DEBOUNCE_NANOS,
                elapsed: 0,
                finished: false,
                repeating: false,
            },
        }),
{
    ColisionDebounce { timer: GameTimer::once(COLLISION_DEBOUNCE_NANOS) }
}

/// The player's starting position, on its start tile, drawn on the player's layer.
pub open spec fn player_start() -> Pos {
    Pos {
        x: (PLAYER_STARTING_TILE_X * TILE_SIZE) as i64,
        y: (PLAYER_STARTING_TILE_Y * TILE_SIZE) as i64,
        z: LAYER_PLAYER,
    }
}

/// The player as placed at the start: it can be blown up and blocks enemies.
pub fn spawn_player() -> (p: Piece)
    ensures
        p == (Piece {
            texture: Texture::Player,
            position: player_start(),
            kind: PieceKind::Player,
            explodable: true,
            explosive: false,
            blocks_enemies: true,
            blocks_player: false,
        }),
{
    Piece {
        texture: Texture::Player,
        position: Pos {
            x: PLAYER_STARTING_TILE_X * TILE_SIZE,
            y: PLAYER_STARTING_TILE_Y * TILE_SIZE,
            z: LAYER_PLAYER,
        },
        kind: PieceKind::Player,
        explodable: true,
        explosive: false,
        blocks_enemies: true,
        blocks_player: false,
    }
}

/// The dirt tiles the player digs away: those on the player's spot of the
/// map. Without a player nothing is dug.
pub fn player_dig_dirt(player: Option<Pos>, dirt: &Vec<Pos>) -> (r: Vec<usize>)
    requires
        player matches Some(p) ==> in_world(p),
        all_in_world(dirt@),
    ensures
        player is None ==> r@.len() == 0,
        player matches Some(p) ==> selects(
            r@,
            dirt@.len() as int,
            |j: int| related(Relation::SameSpot, p, dirt@[j]),
        ),
        player matches Some(p) ==> selects(
            r@,
            dirt@.len() as int,
            |j: int| dirt@[j].x == p.x && dirt@[j].y == p.y,
        ),
{
    proof {
        lemma_world_in_reach(dirt@);
    }
    match player {
        Some(p) => {
            let r = related_indices(Relation::SameSpot, &p, dirt);
            proof {
                lemma_selects_same_test(
                    r@,
                    dirt@.len() as int,
                    |j: int| related(Relation::SameSpot, p, dirt@[j]),
                    |j: int| dirt@[j].x == p.x && dirt@[j].y == p.y,
                );
            }
            r
        },
        None => Vec::new(),
    }
}

/// Whether an enemy at `enemy_transform` is close enough to hit the player at
/// `player_transform`: closer than a tile along both map axes.
pub fn is_within_hit_range(player_transform: &Pos, enemy_transform: &Pos) -> (r: bool)
    requires
        in_world(*player_transform),
        in_world(*enemy_transform),
    ensures
        r == related(Relation::TileOverlap, *enemy_transform, *player_transform),
{
    is_related(Relation::TileOverlap, enemy_transform, player_transform)
}

/// The planted bomb, with a fuse of zero, that an enemy at `enemy_transform`
/// leaves when it hits: on the enemy's spot, on the ground layer (0).
pub fn spawn_planted_bomb(enemy_transform: &Pos) -> (b: PlantedBomb)
    ensures
        b == (PlantedBomb {
            position: Pos { x: enemy_transform.x, y: enemy_transform.y, z: 0 },
            fuse: GameTimer { duration: 0, elapsed: 0, finished: false, repeating: false },
        }),
{
    PlantedBomb {
        position: Pos { x: enemy_transform.x, y: enemy_transform.y, z: 0 },
        fuse: GameTimer::once(0),
    }
}

/// One frame of enemies hitting the player. With a player, the debounce is
/// ticked by `delta`; once it has finished, every enemy within hit range hits
/// (the result lists them, in order) and a hit resets the debounce.
pub fn player_hit_enemy(
    player: Option<Pos>,
    enemies: &Vec<Pos>,
    collision_debounce: &mut ColisionDebounce,
    delta: u64,
) -> (r: Vec<usize>)
    requires
        player matches Some(p) ==> in_world(p),
        all_in_world(enemies@),
    ensures
        player is None ==> r@.len() == 0 && *final(collision_debounce) == *old(collision_debounce),
        player matches Some(p) ==> {
            let ticked = old(collision_debounce).timer.after_tick(delta);
            &&& !ticked.finished ==> r@.len() == 0
            &&& ticked.finished ==> selects(
                r@,
                enemies@.len() as int,
                |j: int| related(Relation::TileOverlap, enemies@[j], p),
            )
            &&& final(collision_debounce).timer == if r@.len() > 0 {
                ticked.after_reset()
            } else {
                ticked
            }
        },
        player matches Some(p) ==> forall|k: int|
            0 <= k < r@.len() ==> r@[k] < enemies@.len() && -TILE_SIZE < #[trigger] enemies@[r@[k] as int].x
                - p.x < TILE_SIZE && -TILE_SIZE < enemies@[r@[k] as int].y - p.y < TILE_SIZE,
        player matches Some(p) ==> (old(collision_debounce).timer.after_tick(delta).finished
            ==> forall|j: int|
            0 <= j < enemies@.len() && -TILE_SIZE < #[trigger] enemies@[j].x - p.x < TILE_SIZE
                && -TILE_SIZE < enemies@[j].y - p.y < TILE_SIZE ==> r@.contains(j as usize)),
{
    proof {
        lemma_world_in_reach(enemies@);
    }
    match player {
        None => Vec::new(),
        Some(p) => {
            collision_debounce.timer.tick(delta);
            if !collision_debounce.timer.is_finished() {
                return Vec::new();
            }
            let hits = related_indices(Relation::TileOverlap, &p, enemies);
            assert((|j: int| related(Relation::TileOverlap, p, enemies@[j])) == (|j: int|
                related(Relation::TileOverlap, enemies@[j], p)));
            if hits.len() > 0 {
                collision_debounce.timer.reset();
            }
            proof {
                let pred = |j: int| related(Relation::TileOverlap, enemies@[j], p);
                assert forall|k: int| 0 <= k < hits@.len() implies hits@[k] < enemies@.len()
                    && -TILE_SIZE < #[trigger] enemies@[hits@[k] as int].x - p.x < TILE_SIZE
                    && -TILE_SIZE < enemies@[hits@[k] as int].y - p.y < TILE_SIZE by {
                    assert(pred(hits@[k] as int));
                }
                assert forall|j: int|
                    0 <= j < enemies@.len() && -TILE_SIZE < #[trigger] enemies@[j].x - p.x < TILE_SIZE
                        && -TILE_SIZE < enemies@[j].y - p.y < TILE_SIZE implies hits@.contains(
                    j as usize,
                ) by {
                    assert(pred(j));
                }
            }
            hits
        },
    }
}

impl ColisionDebounce {
    /// A hit debounce as the game keeps it: a one-shot timer of the hit
    /// debounce time in a reachable state.
    pub open spec fn wf(self) -> bool {
        &&& self.timer.duration == COLLISION_DEBOUNCE_NANOS
        &&& !self.timer.repeating
        &&& self.timer.wf()
    }
}

/// Once an enemy has hit the player, the next hit comes only after the
/// debounce has been ticked, in the frames since, by at least the hit
/// debounce time. A hit needs the debounce to have finished in that frame's
/// tick and restarts it; `delta` is the tick of the frame of the first hit,
/// `later` the ticks of the following frames up to and including the next hit.
pub proof fn law_hits_are_spaced(debounce: ColisionDebounce, delta: u64, later: Seq<u64>)
    requires
        debounce.wf(),
        debounce.timer.after_tick(delta).finished,
        later.len() > 0,
        ticked_by(debounce.timer.after_tick(delta).after_reset(), later).finished,
    ensures
        total(later) >= COLLISION_DEBOUNCE_NANOS,
{
    lemma_once_finishes_at_duration(debounce.timer.after_tick(delta).after_reset(), later);
}

/// Whether a bomb at `bomb_transform` is close enough to be picked up by the
/// player at `player_transform`: closer than a tile on the map plane.
pub fn is_within_pickup_range(player_transform: &Pos, bomb_transform: &Pos) -> (r: bool)
    requires
        in_world(*player_transform),
        in_world(*bomb_transform),
    ensures
        r == related(Relation::Pickup, *player_transform, *bomb_transform),
{
    is_related(Relation::Pickup, player_transform, bomb_transform)
}

/// The number of bombs the player carries.
#[derive(Clone, Copy, Debug, PartialEq, Eq, Structural)]
pub struct BombCount {
    pub value: u32,
}

impl Default for BombCount {
    fn default() -> (r: Self)
        ensures
            r.value == 0,
    {
        BombCount { value: 0 }
    }
}

/// The number of bombs of `bombs` within pickup range of the player at `p`.
pub open spec fn pickup_count(p: Pos, bombs: Seq<Pos>) -> nat
    decreases bombs.len(),
{
    if bombs.len() == 0 {
        0
    } else {
        pickup_count(p, bombs.drop_last()) + if related(Relation::Pickup, p, bombs.last()) {
            1nat
        } else {
            0nat
        }
    }
}

/// A prefix of `bombs` holds no more bombs within pickup range than `bombs`.
proof fn lemma_pickup_count_prefix(p: Pos, bombs: Seq<Pos>, i: int)
    requires
        0 <= i <= bombs.len(),
    ensures
        pickup_count(p, bombs.take(i)) <= pickup_count(p, bombs),
    decreases bombs.len() - i,
{
    if i == bombs.len() {
        assert(bombs.take(i) == bombs);
    } else {
        lemma_pickup_count_prefix(p, bombs, i + 1);
        assert(bombs.take(i + 1).drop_last() == bombs.take(i));
    }
}

/// One frame of bomb collecting: the player picks up every bomb within
/// pickup range (the result lists them, in order) and carries one more bomb
/// for each. Without a player nothing happens. The count must have room for
/// the bombs picked up, as adding past `u32::MAX` panics.
pub fn player_collect_bomb(player: Option<Pos>, bombs: &Vec<Pos>, bomb_count: &mut BombCount) -> (r:
    Vec<usize>)
    requires
        player matches Some(p) ==> in_world(p) && old(bomb_count).value + pickup_count(p, bombs@)
            <= u32::MAX,
        all_in_world(bombs@),
    ensures
        player is None ==> r@.len() == 0,
        player matches Some(p) ==> selects(
            r@,
            bombs@.len() as int,
            |j: int| related(Relation::Pickup, p, bombs@[j]),
        ),
        player matches Some(p) ==> r@.len() == pickup_count(p, bombs@),
        player matches Some(p) ==> selects(
            r@,
            bombs@.len() as int,
            |j: int|
                (p.x - bombs@[j].x) * (p.x - bombs@[j].x) + (p.y - bombs@[j].y) * (p.y - bombs@[j].y)
                    < TILE_SIZE * TILE_SIZE,
        ),
        final(bomb_count).value == old(bomb_count).value + r@.len(),
{
    proof {
        lemma_world_in_reach(bombs@);
    }
    let p = match player {
        None => {
            return Vec::new();
        },
        Some(p) => p,
    };
    let ghost start = bomb_count.value;
    let ghost pred = |j: int| related(Relation::Pickup, p, bombs@[j]);
    let n: usize = bombs.len();
    let mut picked: Vec<usize> = Vec::new();
    let mut i: usize = 0;
    while i < n
        invariant
            n == bombs@.len(),
            i <= n,
            in_world(p),
            all_in_world(bombs@),
            pred == (|j: int| related(Relation::Pickup, p, bombs@[j])),
            start + pickup_count(p, bombs@) <= u32::MAX,
            bomb_count.value == start + picked@.len(),
            picked@.len() == pickup_count(p, bombs@.take(i as int)),
            forall|k: int| 0 <= k < picked@.len() ==> #[trigger] picked@[k] < i && pred(picked@[k] as int),
            forall|k: int, l: int|
                0 <= k < l < picked@.len() ==> #[trigger] picked@[k] < #[trigger] picked@[l],
            forall|j: int| 0 <= j < i && #[trigger] pred(j) ==> picked@.contains(j as usize),
        decreases n - i,
    {
        proof {
            assert(bombs@.take(i + 1).drop_last() == bombs@.take(i as int));
            assert(bombs@.take(i + 1).last() == bombs@[i as int]);
            lemma_pickup_count_prefix(p, bombs@, i + 1);
        }
        if is_within_pickup_range(&p, &bombs[i]) {
            let ghost old_picked = picked@;
            bomb_count.value = bomb_count.value + 1;
            picked.push(i);
            assert forall|j: int| 0 <= j < i + 1 && #[trigger] pred(j) implies picked@.contains(
                j as usize,
            ) by {
                if j < i {
                    assert(old_picked.contains(j as usize));
                    let k = choose|k: int| 0 <= k < old_picked.len() && old_picked[k] == j as usize;
                    assert(picked@[k] == j as usize);
                } else {
                    assert(picked@[picked@.len() - 1] == j as usize);
                }
            }
        } else {
            assert forall|j: int| 0 <= j < i + 1 && #[trigger] pred(j) implies picked@.contains(
                j as usize,
            ) by {
                if j == i {
                    assert(pred(i as int) == related(Relation::Pickup, p, bombs@[i as int]));
                }
            }
        }
        i = i + 1;
    }
    assert(bombs@.take(n as int) == bombs@);
    proof {
        lemma_selects_same_test(
            picked@,
            n as int,
            pred,
            |j: int|
                (p.x - bombs@[j].x) * (p.x - bombs@[j].x) + (p.y - bombs@[j].y) * (p.y - bombs@[j].y)
                    < TILE_SIZE * TILE_SIZE,
        );
    }
    picked
}

/// The step the held keys ask for, in tiles: D wins over A, A over S, S over W.
pub open spec fn input_direction(keys: KeyState) -> (int, int) {
    if keys.right {
        (1, 0)
    } else if keys.left {
        (-1, 0)
    } else if keys.down {
        (0, -1)
    } else if keys.up {
        (0, 1)
    } else {
        (0, 0)
    }
}

/// The step the held keys ask for, in tiles.
pub fn get_direction_from_input(keyboard_input: &KeyState) -> (r: (i64, i64))
    ensures
        (r.0 as int, r.1 as int) == input_direction(*keyboard_input),
{
    let mut direction: (i64, i64) = (0, 0);
    if keyboard_input.up {
        direction = (0, 1);
    }
    if keyboard_input.down {
        direction = (0, -1);
    }
    if keyboard_input.left {
        direction = (-1, 0);
    }
    if keyboard_input.right {
        direction = (1, 0);
    }
    direction
}

/// Whether some obstacle stops the player from standing at `new_position`.
pub fn is_position_blocked(new_position: &Pos, not_walkable: &Vec<Pos>) -> (r: bool)
    requires
        in_reach(*new_position),
        all_in_world(not_walkable@),
    ensures
        r == related_to_some(Relation::PlayerBlock, *new_position, not_walkable@),
{
    proof {
        lemma_world_in_reach(not_walkable@);
    }
    some_related(Relation::PlayerBlock, new_position, not_walkable)
}

/// Where the keys would take the player standing at `p`.
pub open spec fn step_target(p: Pos, keys: KeyState) -> Pos {
    shifted(p, input_direction(keys).0 * TILE_SIZE, input_direction(keys).1 * TILE_SIZE, 0)
}

/// Where the player at `p` steps to at time `now`, having last stepped at
/// `last`: nowhere while the cooldown runs, without a direction key, or when
/// an obstacle stands on the target tile.
pub open spec fn player_step(
    p: Pos,
    keys: KeyState,
    obstacles: Seq<Pos>,
    now: u64,
    last: u64,
) -> Option<Pos> {
    if now - last < PLAYER_MOVE_COOLDOWN_NANOS {
        None
    } else if input_direction(keys) == (0int, 0int) {
        None
    } else if related_to_some(Relation::PlayerBlock, step_target(p, keys), obstacles) {
        None
    } else {
        Some(step_target(p, keys))
    }
}

/// Two steps of the player are at least the step cooldown apart: a step at
/// `first_time` records that time, and a later step at `second_time` needs
/// the cooldown to have passed since.
pub proof fn law_steps_are_spaced(
    p1: Pos,
    keys1: KeyState,
    obstacles1: Seq<Pos>,
    first_time: u64,
    last: u64,
    p2: Pos,
    keys2: KeyState,
    obstacles2: Seq<Pos>,
    second_time: u64,
)
    requires
        first_time >= last,
        second_time >= first_time,
        player_step(p1, keys1, obstacles1, first_time, last) is Some,
        player_step(p2, keys2, obstacles2, second_time, first_time) is Some,
    ensures
        second_time - first_time >= PLAYER_MOVE_COOLDOWN_NANOS,
{
}

/// A step of the player goes exactly one tile up, down, left or right, on
/// its layer, to a spot no obstacle blocks.
pub proof fn law_step_is_one_tile(
    p: Pos,
    keys: KeyState,
    obstacles: Seq<Pos>,
    now: u64,
    last: u64,
)
    requires
        in_world(p),
        player_step(p, keys, obstacles, now, last) is Some,
    ensures
        ({
            let q = player_step(p, keys, obstacles, now, last)->0;
            &&& q.z == p.z
            &&& (q.x == p.x + TILE_SIZE || q.x == p.x - TILE_SIZE) && q.y == p.y || q.x == p.x && (
            q.y == p.y + TILE_SIZE || q.y == p.y - TILE_SIZE)
            &&& !related_to_some(Relation::PlayerBlock, q, obstacles)
        }),
{
    let d = input_direction(keys);
    assert(d == (1int, 0int) || d == (-1int, 0int) || d == (0int, 1int) || d == (0int, -1int));
}

/// No position of `s` stops the player from standing at `(x, y)`: each is at
/// least a tile less the threshold away from it along one map axis.
pub open spec fn open_for_player(x: int, y: int, s: Seq<Pos>) -> bool {
    forall|k: int|
        0 <= k < s.len() ==> #[trigger] s[k].x - x >= TILE_SIZE - THRESHOLD || x - s[k].x >= TILE_SIZE
            - THRESHOLD || s[k].y - y >= TILE_SIZE - THRESHOLD || y - s[k].y >= TILE_SIZE - THRESHOLD
}

/// The player steps exactly when the step cooldown has passed since the last
/// step, a direction key is held, and the target tile is open: D steps a tile
/// towards +x, else A towards -x, else S towards -y, else W towards +y, on the
/// player's layer; the target is open when every obstacle is at least a tile
/// less the threshold away from it along one map axis.
pub proof fn law_player_steps_to_open_tiles(
    p: Pos,
    keys: KeyState,
    obstacles: Seq<Pos>,
    now: u64,
    last: u64,
)
    requires
        in_world(p),
        now >= last,
    ensures
        ({
            let (dx, dy): (int, int) = if keys.right {
                (TILE_SIZE as int, 0)
            } else if keys.left {
                (-TILE_SIZE, 0)
            } else if keys.down {
                (0, -TILE_SIZE)
            } else if keys.up {
                (0, TILE_SIZE as int)
            } else {
                (0, 0)
            };
            let x = p.x + dx;
            let y = p.y + dy;
            let steps = now - last >= PLAYER_MOVE_COOLDOWN_NANOS && (keys.right || keys.left
                || keys.down || keys.up) && open_for_player(x, y, obstacles);
            &&& steps ==> player_step(p, keys, obstacles, now, last) == Some(
                Pos { x: x as i64, y: y as i64, z: p.z },
            )
            &&& !steps ==> player_step(p, keys, obstacles, now, last) is None
        }),
{
    let q = step_target(p, keys);
    if related_to_some(Relation::PlayerBlock, q, obstacles) {
        let k = choose|k: int| 0 <= k < obstacles.len() && related(Relation::PlayerBlock, q, #[trigger] obstacles[k]);
        assert(!(obstacles[k].x - q.x >= TILE_SIZE - THRESHOLD || q.x - obstacles[k].x >= TILE_SIZE
            - THRESHOLD || obstacles[k].y - q.y >= TILE_SIZE - THRESHOLD || q.y - obstacles[k].y
            >= TILE_SIZE - THRESHOLD));
    }
    if !open_for_player(q.x as int, q.y as int, obstacles) {
        let k = choose|k: int|
            0 <= k < obstacles.len() && !(#[trigger] obstacles[k].x - q.x >= TILE_SIZE - THRESHOLD || q.x
                - obstacles[k].x >= TILE_SIZE - THRESHOLD || obstacles[k].y - q.y >= TILE_SIZE
                - THRESHOLD || q.y - obstacles[k].y >= TILE_SIZE - THRESHOLD);
        assert(related(Relation::PlayerBlock, q, obstacles[k]));
    }
}

/// One frame of player movement at time `now` (nanoseconds since the start).
/// The result is the player's new position when it steps; a step records
/// `now` as the time of the last step.
pub fn player_movement(
    player: Option<Pos>,
    keyboard_input: &KeyState,
    not_walkable: &Vec<Pos>,
    now: u64,
    move_cooldown: &mut PlayerMoveCooldown,
) -> (r: Option<Pos>)
    requires
        player matches Some(p) ==> in_world(p) && now >= old(move_cooldown).last_move_time,
        all_in_world(not_walkable@),
    ensures
        player is None ==> r is None,
        player matches Some(p) ==> r == player_step(
            p,
            *keyboard_input,
            not_walkable@,
            now,
            old(move_cooldown).last_move_time,
        ),
        final(move_cooldown).last_move_time == if r is Some {
            now
        } else {
            old(move_cooldown).last_move_time
        },
{
    match player {
        None => None,
        Some(p) => {
            if now - move_cooldown.last_move_time < PLAYER_MOVE_COOLDOWN_NANOS {
                return None;
            }
            let direction = get_direction_from_input(keyboard_input);
            if direction.0 == 0 && direction.1 == 0 {
                return None;
            }
            let new_position = shift(&p, direction.0 * TILE_SIZE, direction.1 * TILE_SIZE, 0);
            if is_position_blocked(&new_position, not_walkable) {
                return None;
            }
            move_cooldown.last_move_time = now;
            Some(new_position)
        },
    }
}

/// The horizontal push the held keys ask for: A wins over D.
pub open spec fn push_direction(keys: KeyState) -> int {
    if keys.left {
        -1
    } else if keys.right {
        1
    } else {
        0
    }
}

/// The horizontal push the held keys ask for: -1, 1 or 0.
pub fn get_push_direction(input: &KeyState) -> (r: i64)
    ensures
        r == push_direction(*input),
{
    if input.left {
        -1
    } else if input.right {
        1
    } else {
        0
    }
}

/// Whether the movable element at `movable_position` is in line to be pushed
/// from `player_position`.
pub fn is_colliding_with_player(player_position: &Pos, movable_position: &Pos) -> (r: bool)
    requires
        in_reach(*player_position),
        in_reach(*movable_position),
    ensures
        r == related(Relation::Aligned, *movable_position, *player_position),
{
    is_related(Relation::Aligned, movable_position, player_position)
}

/// Whether some obstacle touches `new_position`.
pub fn is_colliding_with_obstacles(new_position: &Pos, obstacles: &Vec<Pos>) -> (r: bool)
    requires
        in_reach(*new_position),
        all_in_world(obstacles@),
    ensures
        r == related_to_some(Relation::Touch, *new_position, obstacles@),
{
    proof {
        lemma_world_in_reach(obstacles@);
    }
    some_related(Relation::Touch, new_position, obstacles)
}

/// What a push does.
#[derive(Clone, Copy, Debug, PartialEq, Eq, Structural)]
pub enum PushOutcome {
    /// Nothing is pushed.
    Idle,
    /// The movable element `index` moves to `to`.
    Pushed { index: usize, to: Pos },
    /// The movable element `index` is in line but an obstacle stops it.
    Blocked { index: usize },
}

/// One frame of pushing. The repeating cooldown is ticked by `delta`; when it
/// finished and the player pushes left or right, the first movable element in
/// line with the tile next to the player on that side is pushed one tile
/// further, unless an obstacle touches the spot it would move to.
pub fn player_push_system(
    player: Option<Pos>,
    input: &KeyState,
    movables: &Vec<Pos>,
    obstacles: &Vec<Pos>,
    cooldown_timer: &mut PushCooldownTimer,
    delta: u64,
) -> (r: PushOutcome)
    requires
        player matches Some(p) ==> in_world(p),
        all_in_world(movables@),
        all_in_world(obstacles@),
    ensures
        final(cooldown_timer).0 == old(cooldown_timer).0.after_tick(delta),
        ({
            let d = push_direction(*input);
            let ready = final(cooldown_timer).0.finished && player is Some && d != 0;
            let target = shifted(player->0, d * TILE_SIZE, 0, 0);
            &&& r is Idle <==> (!ready || forall|i: int|
                0 <= i < movables@.len() ==> !related(
                    Relation::Aligned,
                    #[trigger] movables@[i],
                    target,
                ))
            &&& !(r is Idle) ==> ready
            &&& r matches PushOutcome::Pushed { index, to } ==> {
                &&& index < movables@.len()
                &&& related(Relation::Aligned, movables@[index as int], target)
                &&& forall|j: int|
                    0 <= j < index ==> !related(Relation::Aligned, #[trigger] movables@[j], target)
                &&& to == shifted(movables@[index as int], d * TILE_SIZE, 0, 0)
                &&& !related_to_some(Relation::Touch, to, obstacles@)
            }
            &&& r matches PushOutcome::Blocked { index } ==> {
                &&& index < movables@.len()
                &&& related(Relation::Aligned, movables@[index as int], target)
                &&& forall|j: int|
                    0 <= j < index ==> !related(Relation::Aligned, #[trigger] movables@[j], target)
                &&& related_to_some(
                    Relation::Touch,
                    shifted(movables@[index as int], d * TILE_SIZE, 0, 0),
                    obstacles@,
                )
            }
        }),
        ({
            let p = player->0;
            let step: int = if input.left {
                -TILE_SIZE
            } else {
                TILE_SIZE as int
            };
            let in_line = |m: Pos| m.x == p.x + step && -THRESHOLD < m.y - p.y < THRESHOLD;
            &&& r matches PushOutcome::Pushed { index, to } ==> {
                &&& player is Some && (input.left || input.right)
                &&& index < movables@.len()
                &&& in_line(movables@[index as int])
                &&& to == (Pos {
                    x: (movables@[index as int].x + step) as i64,
                    y: movables@[index as int].y,
                    z: movables@[index as int].z,
                })
                &&& untouched(to.x as int, to.y as int, to.z as int, obstacles@)
            }
            &&& r matches PushOutcome::Blocked { index } ==> {
                &&& player is Some && (input.left || input.right)
                &&& index < movables@.len()
                &&& in_line(movables@[index as int])
                &&& !untouched(
                    movables@[index as int].x + step,
                    movables@[index as int].y as int,
                    movables@[index as int].z as int,
                    obstacles@,
                )
            }
            &&& (final(cooldown_timer).0.finished && player is Some && (input.left || input.right)
                && exists|i: int| 0 <= i < movables@.len() && in_line(#[trigger] movables@[i]))
                ==> !(r is Idle)
        }),
{
    proof {
        lemma_world_in_reach(movables@);
        lemma_world_in_reach(obstacles@);
    }
    cooldown_timer.0.tick(delta);
    if !cooldown_timer.0.is_finished() {
        return PushOutcome::Idle;
    }
    let p = match player {
        Some(p) => p,
        None => {
            return PushOutcome::Idle;
        },
    };
    let d = get_push_direction(input);
    if d == 0 {
        return PushOutcome::Idle;
    }
    let target = shift(&p, d * TILE_SIZE, 0, 0);
    let n: usize = movables.len();
    let mut i: usize = 0;
    #[verifier::loop_isolation(false)]
    while i < n
        invariant
            n == movables@.len(),
            i <= n,
            all_in_reach(movables@),
            all_in_world(movables@),
            all_in_world(obstacles@),
            d == 1 || d == -1,
            in_reach(target),
            forall|j: int| 0 <= j < i ==> !related(Relation::Aligned, #[trigger] movables@[j], target),
        decreases n - i,
    {
        if is_colliding_with_player(&target, &movables[i]) {
            assert(in_world(movables@[i as int]));
            let to = shift(&movables[i], d * TILE_SIZE, 0, 0);
            if !is_colliding_with_obstacles(&to, obstacles) {
                return PushOutcome::Pushed { index: i, to };
            } else {
                return PushOutcome::Blocked { index: i };
            }
        }
        i = i + 1;
    }
    PushOutcome::Idle
}

} // verus!
