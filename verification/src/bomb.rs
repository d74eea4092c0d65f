//! Bombs: where they lie at the start, and planting them.
use vstd::prelude::*;

use crate::config::{BOMB_DEBOUNCE_NANOS, BOMB_TIMER_NANOS, TILE_SIZE, WINDOW_HEIGHT_TILES, WINDOW_WIDTH_TILES};
use crate::explosion::PlantedBomb;
use crate::geometry::{Pos, WORLD_LIMIT};
use crate::pieces::{Piece, PieceKind, Texture};
use crate::player::{BombCount, KeyState};
use crate::random::random_in_range;
use crate::tiles::{inside_field, tile_in_world, tiles_in_world};
use crate::timer::{lemma_once_finishes_at_duration, ticked_by, total, GameTimer};

verus! {

/// The debounce between two planted bombs.
#[derive(Clone, Copy, Debug, PartialEq, Eq, Structural)]
pub struct BombDebounce {
    pub timer: GameTimer,
}

/// The planting debounce at the start of the game: a one-shot timer of half a second.
pub fn setup_bomb() -> (r: BombDebounce)
    ensures
        r == (BombDebounce {
            timer: GameTimer {
                duration: BOMB_DEBOUNCE_NANOS,
                elapsed: 0,
                finished: false,
                repeating: false,
            },
        }),
{
    BombDebounce { timer: GameTimer::once(BOMB_DEBOUNCE_NANOS) }
}

/// The sound played when a bomb is planted.
#[derive(Clone, Copy, Debug, PartialEq, Eq, Structural)]
pub enum BombSound {
    /// "audio/run.ogg"
    Run,
    /// "audio/explosion_soon.ogg"
    ExplosionSoon,
}

/// The sound for a draw of 0 or 1: `Run` for 0, `ExplosionSoon` otherwise.
pub fn bomb_sound(random_number: i64) -> (s: BombSound)
    ensures
        s == if random_number == 0 {
            BombSound::Run
        } else {
            BombSound::ExplosionSoon
        },
{
    if random_number == 0 {
        BombSound::Run
    } else {
        BombSound::ExplosionSoon
    }
}

/// A bomb planted under the player at `p`: on its spot, on the ground layer (0), with the
/// full fuse.
pub open spec fn planted_under(p: Pos) -> PlantedBomb {
    PlantedBomb {
        position: Pos { x: p.x, y: p.y, z: 0 },
        fuse: GameTimer { duration: BOMB_TIMER_NANOS, elapsed: 0, finished: false, repeating: false },
    }
}

/// Whether a bomb is planted this frame.
pub open spec fn plants(
    keys: KeyState,
    player: Option<Pos>,
    bomb_count: BombCount,
    debounce: BombDebounce,
    delta: u64,
) -> bool {
    &&& keys.plant
    &&& bomb_count.value > 0
    &&& debounce.timer.after_tick(delta).finished
    &&& player is Some
}

impl BombDebounce {
    /// A planting debounce as the game keeps it: a one-shot timer of the
    /// planting debounce time in a reachable state.
    pub open spec fn wf(self) -> bool {
        &&& self.timer.duration == BOMB_DEBOUNCE_NANOS
        &&& !self.timer.repeating
        &&& self.timer.wf()
    }
}

/// Once a bomb has been planted, the next one is planted only after the
/// frames since then have lasted, together, at least the planting debounce
/// time. `debounce`, `keys`, `player`, `count` and `delta` describe the frame
/// of the first planting; `later` holds the lengths of the following frames,
/// up to and including the frame of the next planting.
pub proof fn law_planting_is_spaced(
    debounce: BombDebounce,
    keys: KeyState,
    player: Option<Pos>,
    count: BombCount,
    delta: u64,
    later: Seq<u64>,
    later_keys: KeyState,
    later_player: Option<Pos>,
    later_count: BombCount,
)
    requires
        debounce.wf(),
        plants(keys, player, count, debounce, delta),
        later.len() > 0,
        plants(
            later_keys,
            later_player,
            later_count,
            BombDebounce {
                timer: ticked_by(debounce.timer.after_tick(delta).after_reset(), later.drop_last()),
            },
            later.last(),
        ),
    ensures
        total(later) >= BOMB_DEBOUNCE_NANOS,
{
    let restarted = debounce.timer.after_tick(delta).after_reset();
    assert(ticked_by(restarted, later) == ticked_by(restarted, later.drop_last()).after_tick(
        later.last(),
    ));
    lemma_once_finishes_at_duration(restarted, later);
}

/// One frame of bomb planting. The debounce is ticked by `delta`; when space
/// is held, the player carries a bomb and the debounce has finished, a bomb
/// is planted under the player: it is returned with the sound to play, the
/// player carries one bomb less and the debounce starts over.
pub fn plant_bomb_system(
    keyboard_input: &KeyState,
    player: Option<Pos>,
    bomb_count: &mut BombCount,
    bomb_debounce: &mut BombDebounce,
    delta: u64,
) -> (r: Option<(PlantedBomb, BombSound)>)
    ensures
        ({
            let ticked = old(bomb_debounce).timer.after_tick(delta);
            if plants(*keyboard_input, player, *old(bomb_count), *old(bomb_debounce), delta) {
                &&& r matches Some((bomb, _)) && bomb == planted_under(player->0)
                &&& final(bomb_count).value == old(bomb_count).value - 1
                &&& final(bomb_debounce).timer == ticked.after_reset()
            } else {
                &&& r is None
                &&& *final(bomb_count) == *old(bomb_count)
                &&& final(bomb_debounce).timer == ticked
            }
        }),
{
    bomb_debounce.timer.tick(delta);
    if keyboard_input.plant && bomb_count.value > 0 && bomb_debounce.timer.is_finished() {
        if let Some(p) = player {
            let bomb = PlantedBomb {
                position: Pos { x: p.x, y: p.y, z: 0 },
                fuse: GameTimer::once(BOMB_TIMER_NANOS),
            };
            bomb_count.value = bomb_count.value - 1;
            let sound = bomb_sound(random_in_range(0, 2));
            bomb_debounce.timer.reset();
            return Some((bomb, sound));
        }
    }
    None
}

/// A bomb lying on tile `(x, y)`, to be collected.
pub open spec fn bomb_piece(x: int, y: int) -> Piece {
    Piece {
        texture: Texture::Bomb,
        position: Pos { x: (x * TILE_SIZE) as i64, y: (y * TILE_SIZE) as i64, z: 0 },
        kind: PieceKind::Bomb,
        explodable: false,
        explosive: false,
        blocks_enemies: false,
        blocks_player: false,
    }
}

/// A bomb lying on tile `(x, y)`, to be collected.
pub fn spawn_bomb(x: i64, y: i64) -> (p: Piece)
    requires
        tile_in_world(x, y),
    ensures
        p == bomb_piece(x as int, y as int),
{
    Piece {
        texture: Texture::Bomb,
        position: Pos { x: x * TILE_SIZE, y: y * TILE_SIZE, z: 0 },
        kind: PieceKind::Bomb,
        explodable: false,
        explosive: false,
        blocks_enemies: false,
        blocks_player: false,
    }
}

/// The eight tiles around the start tile, in the order they are filled.
pub open spec fn around_start() -> Seq<(int, int)> {
    seq![(1, 0), (0, 1), (1, 1), (-1, 0), (0, -1), (-1, -1), (1, -1), (-1, 1)]
}

/// How many bombs are scattered at random.
pub const RANDOM_BOMBS: usize = 1000;

/// The bombs on the given tiles: bomb `k` lies on `tiles[k]`.
pub fn bombs_at(tiles: &Vec<(i64, i64)>) -> (r: Vec<Piece>)
    requires
        tiles_in_world(tiles@),
    ensures
        r@.len() == tiles@.len(),
        forall|k: int|
            0 <= k < tiles@.len() ==> #[trigger] r@[k] == bomb_piece(tiles@[k].0 as int, tiles@[k].1 as int),
{
    let n: usize = tiles.len();
    let mut r: Vec<Piece> = Vec::new();
    let mut i: usize = 0;
    while i < n
        invariant
            n == tiles@.len(),
            i <= n,
            r@.len() == i,
            tiles_in_world(tiles@),
            forall|k: int| 0 <= k < i ==> #[trigger] r@[k] == bomb_piece(tiles@[k].0 as int, tiles@[k].1 as int),
        decreases n - i,
    {
        let (x, y) = tiles[i];
        assert(tile_in_world(tiles@[i as int].0, tiles@[i as int].1));
        r.push(spawn_bomb(x, y));
        i = i + 1;
    }
    r
}

/// `p` is a bomb on a tile strictly inside the playing field.
pub open spec fn is_field_bomb(p: Piece) -> bool {
    exists|x: int, y: int| inside_field(x, y) && p == #[trigger] bomb_piece(x, y)
}

/// The bombs lying on the map at the start: one on each of the eight tiles
/// around the start tile, then a thousand on tiles drawn at random inside the
/// playing field. The tiles are drawn and `bombs_at` places the bombs.
pub fn spawn_bombs() -> (r: Vec<Piece>)
    ensures
        r@.len() == 8 + RANDOM_BOMBS,
        forall|k: int| 0 <= k < 8 ==> #[trigger] r@[k] == bomb_piece(around_start()[k].0, around_start()[k].1),
        forall|k: int| 8 <= k < r@.len() ==> is_field_bomb(#[trigger] r@[k]),
{
    let mut tiles: Vec<(i64, i64)> = vec![(1, 0), (0, 1), (1, 1), (-1, 0), (0, -1), (-1, -1), (1, -1), (-1, 1)];
    let mut i: usize = 0;
    while i < RANDOM_BOMBS
        invariant
            i <= RANDOM_BOMBS,
            tiles@.len() == 8 + i,
            forall|k: int|
                0 <= k < 8 ==> #[trigger] tiles@[k] == (around_start()[k].0 as i64, around_start()[k].1 as i64),
            forall|k: int| 8 <= k < tiles@.len() ==> inside_field(#[trigger] tiles@[k].0 as int, tiles@[k].1 as int),
        decreases RANDOM_BOMBS - i,
    {
        let x = random_in_range(-WINDOW_WIDTH_TILES + 1, WINDOW_WIDTH_TILES);
        let y = random_in_range(-WINDOW_HEIGHT_TILES + 1, WINDOW_HEIGHT_TILES);
        tiles.push((x, y));
        i = i + 1;
    }
    assert(tiles_in_world(tiles@)) by {
        assert forall|k: int| 0 <= k < tiles@.len() implies tile_in_world(#[trigger] tiles@[k].0, tiles@[k].1) by {
            if k < 8 {
                assert(tiles@[k] == (around_start()[k].0 as i64, around_start()[k].1 as i64));
            } else {
                assert(inside_field(tiles@[k].0 as int, tiles@[k].1 as int));
            }
        }
    }
    let r = bombs_at(&tiles);
    assert forall|k: int| 8 <= k < r@.len() implies is_field_bomb(#[trigger] r@[k]) by {
        assert(inside_field(tiles@[k].0 as int, tiles@[k].1 as int));
        assert(r@[k] == bomb_piece(tiles@[k].0 as int, tiles@[k].1 as int));
    }
    assert forall|k: int| 0 <= k < 8 implies #[trigger] r@[k] == bomb_piece(around_start()[k].0, around_start()[k].1) by {
        assert(tiles@[k] == (around_start()[k].0 as i64, around_start()[k].1 as i64));
        assert(r@[k] == bomb_piece(tiles@[k].0 as int, tiles@[k].1 as int));
    }
    r
}

} // verus!
