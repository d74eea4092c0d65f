use kretes::config::{LAYER_CREATURES, INITIAL_SAFE_ZONE_TILE_DISTANCE, TILE_SIZE, WINDOW_HEIGHT, WINDOW_WIDTH, WINDOW_WIDTH_TILES};
use kretes::enemy::{
    enemy_direction, enemy_hit_moveable_element, enemy_movement, guarding_enemies_at, spawn_enemies,
    spawn_enemy, wandering_enemies_at, Enemy,
};
use kretes::geometry::Pos;
use kretes::pieces::{Direction, PieceKind};
use kretes::player::setup_collision;
use kretes::config::{COLLISION_DEBOUNCE_NANOS, ENEMY_SPEED};

fn p(x: i64, y: i64) -> Pos {
    Pos { x, y, z: 0 }
}

#[test]
fn directions_in_order() {
    assert_eq!(enemy_direction(0), Direction::Right);
    assert_eq!(enemy_direction(1), Direction::Up);
    assert_eq!(enemy_direction(2), Direction::Left);
    assert_eq!(enemy_direction(3), Direction::Down);
}

#[test]
fn guarding_enemies_keep_out_of_the_safe_zone() {
    let enemies = spawn_enemy();
    assert_eq!(enemies.len(), 500);
    for e in &enemies {
        assert_eq!(e.kind, PieceKind::Enemy(Direction::Down));
        assert!(e.explosive && e.explodable && e.blocks_player);
        let (x, y) = (e.position.x / TILE_SIZE, e.position.y / TILE_SIZE);
        assert_eq!(e.position.x % TILE_SIZE, 0);
        assert!(x * x + y * y >= INITIAL_SAFE_ZONE_TILE_DISTANCE * INITIAL_SAFE_ZONE_TILE_DISTANCE);
        assert!(x.abs() < WINDOW_WIDTH_TILES && y.abs() < WINDOW_WIDTH_TILES);
        assert_eq!(e.position.z, LAYER_CREATURES);
    }
}

#[test]
fn wandering_enemies_appear_in_their_areas() {
    let enemies = spawn_enemies();
    assert_eq!(enemies.len(), 2);
    let first = enemies[0].position;
    assert!(first.x >= 5 * TILE_SIZE - WINDOW_WIDTH / 2 && first.x < 13 * TILE_SIZE - WINDOW_WIDTH / 2);
    assert!(first.y >= 5 * TILE_SIZE - WINDOW_HEIGHT / 2 && first.y < 11 * TILE_SIZE - WINDOW_HEIGHT / 2);
    let second = enemies[1].position;
    assert!(second.x >= 15 * TILE_SIZE - WINDOW_WIDTH / 2 && second.x < 25 * TILE_SIZE - WINDOW_WIDTH / 2);
    assert!(second.y >= 10 * TILE_SIZE - WINDOW_HEIGHT / 2 && second.y < 15 * TILE_SIZE - WINDOW_HEIGHT / 2);
    assert_eq!(enemies[0].kind, PieceKind::Enemy(Direction::Right));
}

#[test]
fn enemies_walk_or_turn() {
    let mut enemies = vec![
        (p(0, 0), Enemy { num: 0, direction: Direction::Right }),
        (p(0, 10 * TILE_SIZE), Enemy { num: 7, direction: Direction::Down }),
    ];
    let obstacles = vec![p(0, 9 * TILE_SIZE)];
    // one second: 50 pixels
    enemy_movement(&mut enemies, &obstacles, 1_000_000_000);
    assert_eq!(enemies[0], (p(ENEMY_SPEED, 0), Enemy { num: 0, direction: Direction::Right }));
    assert_eq!(enemies[1].0, p(0, 10 * TILE_SIZE));
    assert_eq!(enemies[1].1.num, 7);
}

#[test]
fn falling_elements_crush_enemies_below_them() {
    let falling = vec![p(0, TILE_SIZE - 1)];
    let enemies = vec![p(0, 0), p(0, 2 * TILE_SIZE)];
    let mut debounce = setup_collision();
    assert!(enemy_hit_moveable_element(&falling, &enemies, &mut debounce, 1).is_empty());
    assert_eq!(debounce.timer.elapsed, 2);
    let crushed = enemy_hit_moveable_element(&falling, &enemies, &mut debounce, COLLISION_DEBOUNCE_NANOS);
    assert_eq!(crushed, vec![0]);
    assert_eq!(debounce.timer.elapsed, COLLISION_DEBOUNCE_NANOS);
    assert!(debounce.timer.finished);
}

#[test]
fn enemy_stride_is_rounded_to_the_nearest_unit() {
    // 10 ns at 50 px/s is half a unit: rounded up
    let mut enemies = vec![(p(0, 0), Enemy { num: 0, direction: Direction::Up })];
    enemy_movement(&mut enemies, &vec![], 10);
    assert_eq!(enemies[0].0, p(0, 1));
    // 9 ns is less than half a unit
    let mut enemies = vec![(p(0, 0), Enemy { num: 0, direction: Direction::Left })];
    enemy_movement(&mut enemies, &vec![], 9);
    assert_eq!(enemies[0].0, p(0, 0));
    // a frame at 60 fps: 50/60 px
    let mut enemies = vec![(p(0, 0), Enemy { num: 0, direction: Direction::Right })];
    enemy_movement(&mut enemies, &vec![], 16_666_667);
    assert_eq!(enemies[0].0, p(833_333, 0));
}

#[test]
fn guarding_enemies_stand_on_the_picked_tiles() {
    let tiles = vec![(5, -7), (-10, 3)];
    let r = guarding_enemies_at(&tiles, &vec![1, 0, 1]);
    assert_eq!(r.len(), 3);
    assert_eq!(r[0].position, Pos { x: -10 * TILE_SIZE, y: 3 * TILE_SIZE, z: LAYER_CREATURES });
    assert_eq!(r[1].position, Pos { x: 5 * TILE_SIZE, y: -7 * TILE_SIZE, z: LAYER_CREATURES });
    assert_eq!(r[2].kind, PieceKind::Enemy(Direction::Down));
}

#[test]
fn wandering_enemies_stand_at_the_offsets() {
    let r = wandering_enemies_at(&vec![(1, 2), (30, 40)]);
    assert_eq!(r[0].position, Pos { x: 5 * TILE_SIZE + 1 - WINDOW_WIDTH / 2, y: 5 * TILE_SIZE + 2 - WINDOW_HEIGHT / 2, z: LAYER_CREATURES });
    assert_eq!(r[1].position, Pos { x: 15 * TILE_SIZE + 30 - WINDOW_WIDTH / 2, y: 10 * TILE_SIZE + 40 - WINDOW_HEIGHT / 2, z: LAYER_CREATURES });
}
