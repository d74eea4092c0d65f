use kretes::config::{BOMB_DEBOUNCE_NANOS, COLLISION_DEBOUNCE_NANOS, PUSH_COOLDOWN_NANOS};
use kretes::bomb::setup_bomb;
use kretes::player::{setup_collision, PushCooldownTimer};
use kretes::timer::GameTimer;

#[test]
fn once_timer_counts_up_then_finishes() {
    let mut t = GameTimer::once(1000);
    t.tick(400);
    assert_eq!(t.elapsed, 400);
    assert!(!t.is_finished());
    t.tick(599);
    assert_eq!(t.elapsed, 999);
    assert!(!t.is_finished());
    t.tick(1);
    assert_eq!(t.elapsed, 1000);
    assert!(t.is_finished());
}

#[test]
fn once_timer_stops_at_its_duration() {
    let mut t = GameTimer::once(1000);
    t.tick(5000);
    assert_eq!(t.elapsed, 1000);
    assert!(t.is_finished());
    t.tick(7);
    assert_eq!(t.elapsed, 1000);
    assert!(t.is_finished());
}

#[test]
fn zero_length_timer_finishes_on_first_tick() {
    let mut t = GameTimer::once(0);
    assert!(!t.is_finished());
    t.tick(0);
    assert!(t.is_finished());
}

#[test]
fn repeating_timer_wraps() {
    let mut t = GameTimer::repeating(100);
    t.tick(250);
    assert_eq!(t.elapsed, 50);
    assert!(t.is_finished());
    t.tick(20);
    assert_eq!(t.elapsed, 70);
    assert!(!t.is_finished());
}

#[test]
fn reset_starts_over() {
    let mut t = GameTimer::once(10);
    t.tick(10);
    assert!(t.is_finished());
    t.reset();
    assert_eq!(t.elapsed, 0);
    assert!(!t.is_finished());
}

#[test]
fn ticks_add_up_for_one_shot_timers() {
    let mut a = GameTimer::once(1000);
    a.tick(300);
    a.tick(500);
    let mut b = GameTimer::once(1000);
    b.tick(800);
    assert_eq!(a, b);
}

#[test]
fn starting_timers() {
    assert_eq!(setup_bomb().timer, GameTimer::once(BOMB_DEBOUNCE_NANOS));
    assert_eq!(setup_collision().timer, GameTimer::once(COLLISION_DEBOUNCE_NANOS));
    let push = PushCooldownTimer::default();
    assert_eq!(push.0, GameTimer::repeating(PUSH_COOLDOWN_NANOS));
    assert!(push.0.repeating);
}
