use kretes::config::{FALLING_SPEED, TILE_SIZE};
use kretes::falling::{plague_movement, rock_movement, spawn_plagueL, spawn_plagueM, spawn_plagueR, spawn_rock};
use kretes::geometry::Pos;
use kretes::movable::{
    get_explosive_movable_element, get_movable_element, moveable_elements_movement,
    spawn_falling_bomb, spawn_rocks,
};
use kretes::pieces::{MovableElement, PieceKind, Plague, Texture};

fn p(x: i64, y: i64) -> Pos {
    Pos { x, y, z: 0 }
}

#[test]
fn rock_is_placed_in_the_top_left_corner() {
    let rock = spawn_rocks(160000, 120000);
    assert_eq!(rock.position, Pos { x: -160000 + TILE_SIZE, y: 120000 - TILE_SIZE, z: 0 });
    assert_eq!(rock.kind, PieceKind::Movable(MovableElement::Rock));
    assert_eq!(rock.texture, Texture::Rock);
    assert!(rock.explodable && rock.blocks_enemies && rock.blocks_player && !rock.explosive);
}

#[test]
fn falling_bomb_is_placed_and_explosive() {
    let bomb = spawn_falling_bomb();
    assert_eq!(bomb.position, Pos { x: 11 * TILE_SIZE, y: 3 * TILE_SIZE, z: 0 });
    assert_eq!(bomb.kind, PieceKind::Movable(MovableElement::FallingBomb));
    assert_eq!(bomb.texture, Texture::BombFalling);
    assert!(bomb.explosive && bomb.explodable);
}

#[test]
fn movable_element_builders() {
    let a = get_movable_element(p(1, 2), Texture::Rock, MovableElement::Rock);
    let b = get_explosive_movable_element(p(1, 2), Texture::Rock, MovableElement::Rock);
    assert!(!a.explosive);
    assert!(b.explosive);
    assert_eq!(a.position, b.position);
}

#[test]
fn free_element_falls() {
    let elements = vec![p(0, 10000)];
    let r = moveable_elements_movement(&elements, &vec![]);
    assert_eq!(r, vec![p(0, 10000 - FALLING_SPEED)]);
}

#[test]
fn element_on_obstacle_stays() {
    let elements = vec![p(0, TILE_SIZE)];
    let obstacles = vec![p(0, 0)];
    let r = moveable_elements_movement(&elements, &obstacles);
    assert_eq!(r, vec![p(0, TILE_SIZE)]);
}

#[test]
fn stacked_element_slides_left() {
    let elements = vec![p(0, TILE_SIZE), p(0, 0)];
    let obstacles = vec![p(0, -TILE_SIZE)];
    let r = moveable_elements_movement(&elements, &obstacles);
    assert_eq!(r[0], p(-TILE_SIZE, TILE_SIZE));
    assert_eq!(r[1], p(0, 0));
}

#[test]
fn stacked_element_slides_right_when_left_is_taken() {
    let elements = vec![p(0, TILE_SIZE), p(0, 0)];
    let obstacles = vec![p(0, -TILE_SIZE), p(-TILE_SIZE, TILE_SIZE)];
    let r = moveable_elements_movement(&elements, &obstacles);
    assert_eq!(r[0], p(TILE_SIZE, TILE_SIZE));
}

#[test]
fn stacked_element_boxed_in_stays() {
    let elements = vec![p(0, TILE_SIZE), p(0, 0)];
    let obstacles = vec![p(0, -TILE_SIZE), p(-TILE_SIZE, 0), p(TILE_SIZE, 0)];
    let r = moveable_elements_movement(&elements, &obstacles);
    assert_eq!(r[0], p(0, TILE_SIZE));
}

#[test]
fn plagues_and_rock_are_placed() {
    let l = spawn_plagueL();
    let m = spawn_plagueM();
    let rr = spawn_plagueR();
    let rock = spawn_rock();
    assert_eq!(l.position, p(13 * TILE_SIZE, 3 * TILE_SIZE));
    assert_eq!(m.position, p(15 * TILE_SIZE, 3 * TILE_SIZE));
    assert_eq!(rr.position, p(17 * TILE_SIZE, 3 * TILE_SIZE));
    assert_eq!(rock.position, p(9 * TILE_SIZE, 3 * TILE_SIZE));
    assert_eq!(l.kind, PieceKind::Plague(Plague::L));
    assert_eq!(rock.kind, PieceKind::Rock);
}

#[test]
fn plague_and_rock_fall_until_blocked() {
    let pieces = vec![p(0, 5 * TILE_SIZE), p(0, TILE_SIZE)];
    let obstacles = vec![p(0, 0)];
    assert_eq!(plague_movement(&pieces, &obstacles), vec![p(0, 5 * TILE_SIZE - FALLING_SPEED), p(0, TILE_SIZE)]);
    assert_eq!(rock_movement(&pieces, &obstacles), vec![p(0, 5 * TILE_SIZE - FALLING_SPEED), p(0, TILE_SIZE)]);
}

#[test]
fn reordering_elements_reorders_the_result() {
    let a = vec![p(0, TILE_SIZE), p(0, 0), p(5 * TILE_SIZE, 7 * TILE_SIZE)];
    let b = vec![a[2], a[0], a[1]];
    let obstacles = vec![p(0, -TILE_SIZE)];
    let ra = moveable_elements_movement(&a, &obstacles);
    let rb = moveable_elements_movement(&b, &obstacles);
    assert_eq!(rb, vec![ra[2], ra[0], ra[1]]);
}
