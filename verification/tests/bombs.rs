use kretes::bomb::{bomb_sound, bombs_at, plant_bomb_system, setup_bomb, spawn_bomb, spawn_bombs, BombSound};
use kretes::config::{LAYER_CREATURES, BOMB_DEBOUNCE_NANOS, BOMB_TIMER_NANOS, TILE_SIZE, WINDOW_HEIGHT_TILES, WINDOW_WIDTH_TILES};
use kretes::explosion::{
    chained_bomb, explodable_fuse, explodable_lifetime_system, explosion_visual,
    explosive_lifetime_system, remove_explosion_sprite, Lifetime, PlantedBomb,
};
use kretes::geometry::Pos;
use kretes::pieces::{PieceKind, Texture};
use kretes::player::{BombCount, KeyState};
use kretes::timer::GameTimer;

fn p(x: i64, y: i64) -> Pos {
    Pos { x, y, z: 0 }
}

fn space() -> KeyState {
    KeyState { up: false, down: false, left: false, right: false, plant: true }
}

#[test]
fn planting_needs_space_a_bomb_and_the_debounce() {
    let mut count = BombCount { value: 1 };
    let mut debounce = setup_bomb();
    assert!(plant_bomb_system(&space(), Some(p(8, 9)), &mut count, &mut debounce, 1).is_none());
    assert_eq!(count.value, 1);
    let planted = plant_bomb_system(&space(), Some(p(8, 9)), &mut count, &mut debounce, BOMB_DEBOUNCE_NANOS);
    let (bomb, _) = planted.expect("a bomb is planted");
    assert_eq!(bomb.position, p(8, 9));
    assert_eq!(bomb.fuse, GameTimer::once(BOMB_TIMER_NANOS));
    assert_eq!(count.value, 0);
    assert_eq!(debounce.timer.elapsed, 0);
    assert!(plant_bomb_system(&space(), Some(p(8, 9)), &mut count, &mut debounce, BOMB_DEBOUNCE_NANOS).is_none());
}

#[test]
fn planting_without_player_or_key_does_nothing() {
    let mut count = BombCount { value: 3 };
    let mut debounce = setup_bomb();
    assert!(plant_bomb_system(&space(), None, &mut count, &mut debounce, BOMB_DEBOUNCE_NANOS).is_none());
    let idle = KeyState { up: false, down: false, left: false, right: false, plant: false };
    assert!(plant_bomb_system(&idle, Some(p(0, 0)), &mut count, &mut debounce, BOMB_DEBOUNCE_NANOS).is_none());
    assert_eq!(count.value, 3);
}

#[test]
fn sounds() {
    assert_eq!(bomb_sound(0), BombSound::Run);
    assert_eq!(bomb_sound(1), BombSound::ExplosionSoon);
}

#[test]
fn bombs_lie_around_the_start_and_inside_the_field() {
    let bombs = spawn_bombs();
    assert_eq!(bombs.len(), 1008);
    assert_eq!(bombs[0].position, p(TILE_SIZE, 0));
    assert_eq!(bombs[5].position, p(-TILE_SIZE, -TILE_SIZE));
    assert_eq!(bombs[7].position, p(-TILE_SIZE, TILE_SIZE));
    for b in &bombs {
        assert_eq!(b.kind, PieceKind::Bomb);
        assert_eq!(b.texture, Texture::Bomb);
        assert_eq!(b.position.x % TILE_SIZE, 0);
        assert!(b.position.x.abs() < WINDOW_WIDTH_TILES * TILE_SIZE);
        assert!(b.position.y.abs() < WINDOW_HEIGHT_TILES * TILE_SIZE);
    }
    assert_eq!(spawn_bomb(-2, 3).position, p(-2 * TILE_SIZE, 3 * TILE_SIZE));
}

#[test]
fn a_bomb_goes_off_when_its_fuse_ends() {
    let mut planted = vec![
        PlantedBomb { position: p(0, 0), fuse: GameTimer::once(100) },
        PlantedBomb { position: p(50 * TILE_SIZE, 0), fuse: GameTimer::once(1000) },
    ];
    let entities = vec![p(0, 0), p(TILE_SIZE, 0), p(TILE_SIZE, TILE_SIZE), Pos { x: 0, y: TILE_SIZE, z: 3 }];
    let explodables = vec![p(2 * TILE_SIZE, 0), p(0, -TILE_SIZE)];
    let bombs = vec![p(-TILE_SIZE, 0)];
    let r = explosive_lifetime_system(&mut planted, &entities, &explodables, &bombs, 100);
    assert_eq!(r.len(), 1);
    assert_eq!(r[0].bomb, 0);
    assert_eq!(r[0].hit, vec![0, 1]);
    assert_eq!(r[0].armed, vec![1]);
    assert_eq!(r[0].chained, vec![0]);
    assert!(planted[0].fuse.finished);
    assert_eq!(planted[1].fuse.elapsed, 100);
}

#[test]
fn explosion_pieces() {
    let v = explosion_visual(&Pos { x: 3, y: 4, z: 9 });
    assert_eq!(v.position, Pos { x: 3, y: 4, z: LAYER_CREATURES });
    assert!(!v.lifetime.timer.finished);
    assert_eq!(explodable_fuse().timer.duration, 200_000_003);
    let c = chained_bomb(&Pos { x: 1, y: 2, z: 3 });
    assert_eq!(c.position, Pos { x: 1, y: 2, z: 3 });
    assert_eq!(c.fuse.duration, 300_000_012);
}

#[test]
fn lifetimes_expire() {
    let mut lifetimes = vec![
        Lifetime { timer: GameTimer::once(10) },
        Lifetime { timer: GameTimer::once(100) },
        Lifetime { timer: GameTimer::once(0) },
    ];
    assert_eq!(explodable_lifetime_system(&mut lifetimes, 10), vec![0, 2]);
    assert_eq!(lifetimes[1].timer.elapsed, 10);
    assert_eq!(remove_explosion_sprite(&mut lifetimes, 90), vec![0, 1, 2]);
}

#[test]
fn bombs_lie_on_the_given_tiles() {
    let r = bombs_at(&vec![(3, -4), (-1, 2)]);
    assert_eq!(r[0].position, p(3 * TILE_SIZE, -4 * TILE_SIZE));
    assert_eq!(r[1].position, p(-TILE_SIZE, 2 * TILE_SIZE));
}
