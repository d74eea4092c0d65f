use kretes::config::{LAYER_PLAYER, BOMB_TIMER_NANOS, COLLISION_DEBOUNCE_NANOS, PLAYER_MOVE_COOLDOWN_NANOS, PUSH_COOLDOWN_NANOS, THRESHOLD, TILE_SIZE};
use kretes::geometry::Pos;
use kretes::player::{
    get_direction_from_input, get_push_direction, is_colliding_with_obstacles,
    is_colliding_with_player, is_position_blocked, is_within_hit_range, is_within_pickup_range,
    player_collect_bomb, player_dig_dirt, player_hit_enemy, player_movement, player_push_system,
    setup_collision, spawn_planted_bomb, spawn_player, BombCount, KeyState, PlayerMoveCooldown,
    PushCooldownTimer, PushOutcome,
};
use kretes::pieces::PieceKind;

fn p(x: i64, y: i64) -> Pos {
    Pos { x, y, z: 0 }
}

fn keys(up: bool, down: bool, left: bool, right: bool) -> KeyState {
    KeyState { up, down, left, right, plant: false }
}

#[test]
fn player_starts_on_the_start_tile() {
    let player = spawn_player();
    assert_eq!(player.position, Pos { x: 0, y: 0, z: LAYER_PLAYER });
    assert_eq!(player.kind, PieceKind::Player);
    assert!(player.explodable && player.blocks_enemies && !player.blocks_player);
}

#[test]
fn direction_keys_have_an_order() {
    assert_eq!(get_direction_from_input(&keys(false, false, false, false)), (0, 0));
    assert_eq!(get_direction_from_input(&keys(true, false, false, false)), (0, 1));
    assert_eq!(get_direction_from_input(&keys(true, true, false, false)), (0, -1));
    assert_eq!(get_direction_from_input(&keys(true, true, true, false)), (-1, 0));
    assert_eq!(get_direction_from_input(&keys(true, true, true, true)), (1, 0));
}

#[test]
fn player_steps_one_tile() {
    let mut cooldown = PlayerMoveCooldown { last_move_time: 0 };
    let now = PLAYER_MOVE_COOLDOWN_NANOS;
    let r = player_movement(Some(p(0, 0)), &keys(true, false, false, false), &vec![], now, &mut cooldown);
    assert_eq!(r, Some(p(0, TILE_SIZE)));
    assert_eq!(cooldown.last_move_time, now);
}

#[test]
fn player_waits_for_the_cooldown() {
    let mut cooldown = PlayerMoveCooldown { last_move_time: 1000 };
    let now = 1000 + PLAYER_MOVE_COOLDOWN_NANOS - 1;
    let r = player_movement(Some(p(0, 0)), &keys(false, false, false, true), &vec![], now, &mut cooldown);
    assert_eq!(r, None);
    assert_eq!(cooldown.last_move_time, 1000);
}

#[test]
fn player_is_stopped_by_obstacles() {
    let mut cooldown = PlayerMoveCooldown { last_move_time: 0 };
    let obstacles = vec![p(TILE_SIZE, 0)];
    assert!(is_position_blocked(&p(TILE_SIZE, 0), &obstacles));
    assert!(!is_position_blocked(&p(TILE_SIZE, TILE_SIZE - THRESHOLD), &obstacles));
    let r = player_movement(Some(p(0, 0)), &keys(false, false, false, true), &obstacles, PLAYER_MOVE_COOLDOWN_NANOS, &mut cooldown);
    assert_eq!(r, None);
    assert_eq!(cooldown.last_move_time, 0);
}

#[test]
fn no_player_no_step() {
    let mut cooldown = PlayerMoveCooldown { last_move_time: 0 };
    assert_eq!(player_movement(None, &keys(true, false, false, false), &vec![], 5_000_000_000, &mut cooldown), None);
}

#[test]
fn digging_removes_dirt_on_the_players_spot() {
    let dirt = vec![p(0, 0), p(TILE_SIZE, 0), Pos { x: 0, y: 0, z: 7 }];
    assert_eq!(player_dig_dirt(Some(p(0, 0)), &dirt), vec![0, 2]);
    assert_eq!(player_dig_dirt(None, &dirt), Vec::<usize>::new());
}

#[test]
fn collecting_bombs_counts_them() {
    let bombs = vec![p(10, 10), p(5 * TILE_SIZE, 0), p(-TILE_SIZE + 1, 0)];
    let mut count = BombCount { value: 2 };
    let picked = player_collect_bomb(Some(p(0, 0)), &bombs, &mut count);
    assert_eq!(picked, vec![0, 2]);
    assert_eq!(count.value, 4);
    assert!(is_within_pickup_range(&p(0, 0), &p(TILE_SIZE - 1, 0)));
    assert!(!is_within_pickup_range(&p(0, 0), &p(TILE_SIZE, 0)));
    let mut full = BombCount { value: u32::MAX };
    let far = vec![p(5 * TILE_SIZE, 0), p(0, 7 * TILE_SIZE)];
    assert!(player_collect_bomb(Some(p(0, 0)), &far, &mut full).is_empty());
    assert_eq!(full.value, u32::MAX);
    assert!(player_collect_bomb(None, &bombs, &mut full).is_empty());
    let default = BombCount::default();
    assert_eq!(default.value, 0);
}

#[test]
fn enemies_hit_once_the_debounce_has_run() {
    let enemies = vec![p(10, 0), p(3 * TILE_SIZE, 0), p(0, -TILE_SIZE + 1)];
    let mut debounce = setup_collision();
    let early = player_hit_enemy(Some(p(0, 0)), &enemies, &mut debounce, 1000);
    assert!(early.is_empty());
    assert_eq!(debounce.timer.elapsed, 1000);
    let hits = player_hit_enemy(Some(p(0, 0)), &enemies, &mut debounce, COLLISION_DEBOUNCE_NANOS);
    assert_eq!(hits, vec![0, 2]);
    assert_eq!(debounce.timer.elapsed, 0);
    assert!(!debounce.timer.finished);
    assert!(is_within_hit_range(&p(0, 0), &p(TILE_SIZE - 1, TILE_SIZE - 1)));
    assert!(!is_within_hit_range(&p(0, 0), &p(TILE_SIZE, 0)));
}

#[test]
fn a_hit_leaves_a_planted_bomb() {
    let bomb = spawn_planted_bomb(&Pos { x: 4, y: 5, z: 2 });
    assert_eq!(bomb.position, Pos { x: 4, y: 5, z: 0 });
    assert_eq!(bomb.fuse.duration, 0);
    assert!(BOMB_TIMER_NANOS > 0);
}

#[test]
fn push_direction_prefers_left() {
    assert_eq!(get_push_direction(&keys(false, false, true, true)), -1);
    assert_eq!(get_push_direction(&keys(false, false, false, true)), 1);
    assert_eq!(get_push_direction(&keys(true, true, false, false)), 0);
}

#[test]
fn collision_helpers() {
    assert!(is_colliding_with_player(&p(0, 0), &p(0, THRESHOLD - 1)));
    assert!(!is_colliding_with_player(&p(0, 0), &p(1, 0)));
    assert!(is_colliding_with_obstacles(&p(0, 0), &vec![p(TILE_SIZE - 1, 0)]));
    assert!(!is_colliding_with_obstacles(&p(0, 0), &vec![p(TILE_SIZE, 0)]));
}

#[test]
fn pushing_moves_the_element_one_tile() {
    let mut cooldown = PushCooldownTimer::default();
    let movables = vec![p(5 * TILE_SIZE, 0), p(TILE_SIZE, 0)];
    let r = player_push_system(Some(p(0, 0)), &keys(false, false, false, true), &movables, &vec![], &mut cooldown, PUSH_COOLDOWN_NANOS);
    assert_eq!(r, PushOutcome::Pushed { index: 1, to: p(2 * TILE_SIZE, 0) });
}

#[test]
fn pushing_against_an_obstacle_is_blocked() {
    let mut cooldown = PushCooldownTimer::default();
    let movables = vec![p(-TILE_SIZE, 0)];
    let obstacles = vec![p(-2 * TILE_SIZE, 0)];
    let r = player_push_system(Some(p(0, 0)), &keys(false, false, true, false), &movables, &obstacles, &mut cooldown, PUSH_COOLDOWN_NANOS);
    assert_eq!(r, PushOutcome::Blocked { index: 0 });
}

#[test]
fn pushing_waits_for_the_cooldown() {
    let mut cooldown = PushCooldownTimer::default();
    let movables = vec![p(TILE_SIZE, 0)];
    let r = player_push_system(Some(p(0, 0)), &keys(false, false, false, true), &movables, &vec![], &mut cooldown, 1);
    assert_eq!(r, PushOutcome::Idle);
    assert_eq!(cooldown.0.elapsed, 1);
}

#[test]
fn timings_follow_f32_seconds() {
    assert_eq!(PLAYER_MOVE_COOLDOWN_NANOS, 200_000_003);
    assert_eq!(PUSH_COOLDOWN_NANOS, 230_000_004);
}
