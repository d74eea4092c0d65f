use kretes::config::{LAYER_BACKGROUND, LAYER_BORDER, LAYER_SCENERY, TILE_SIZE, WINDOW_HEIGHT, WINDOW_WIDTH};
use kretes::geometry::Pos;
use kretes::level::{
    create_solid_wall_sprite, create_wall_sprite, random_walls_at, set_background, spawn_dirt, spawn_exit,
    spawn_full_dirt_rectangles, spawn_random_walls, spawn_solid_walls, spawn_wall_rectangles,
    spawn_walls,
};
use kretes::pieces::{PieceKind, Texture};
use kretes::tiles::{is_in_safe_zone, rectangle_cells, spawnable_tiles};

#[test]
fn rectangle_cells_in_order() {
    assert_eq!(rectangle_cells(2, 3, false), vec![(0, 0), (0, 1), (0, 2), (1, 0), (1, 1), (1, 2)]);
    assert_eq!(rectangle_cells(3, 3, true).len(), 8);
    assert!(!rectangle_cells(3, 3, true).contains(&(1, 1)));
}

#[test]
fn safe_zone() {
    assert!(is_in_safe_zone(0, 0));
    assert!(is_in_safe_zone(2, 2));
    assert!(!is_in_safe_zone(3, 0));
    let tiles = spawnable_tiles();
    assert_eq!(tiles.len(), 79 * 79 - 25);
    assert!(!tiles.contains(&(1, 1)));
    assert!(tiles.contains(&(-39, 39)));
}

#[test]
fn wall_rectangles() {
    let rects = spawn_wall_rectangles();
    assert_eq!(rects.len(), 4);
    assert_eq!(rects[0].len(), 10);
    assert_eq!(rects[1].len(), 10);
    assert_eq!(rects[2].len(), 10);
    assert_eq!(rects[3].len(), 11);
    assert_eq!(rects[0][0].position, Pos { x: 35 * TILE_SIZE - WINDOW_WIDTH, y: 35 * TILE_SIZE - WINDOW_HEIGHT, z: LAYER_SCENERY });
    assert_eq!(rects[2][0].position.x, 45 * TILE_SIZE - WINDOW_WIDTH);
    assert_eq!(rects[3][10].position, Pos { x: 45 * TILE_SIZE - WINDOW_WIDTH, y: 45 * TILE_SIZE - WINDOW_HEIGHT, z: LAYER_SCENERY });
    assert_eq!(rects[0][0], create_wall_sprite(rects[0][0].position));
}

#[test]
fn dirt() {
    let d = spawn_dirt();
    assert_eq!(d.len(), 11);
    assert_eq!(d[0].position, Pos { x: 23 * TILE_SIZE, y: -17 * TILE_SIZE, z: 0 });
    assert_eq!(d[9].position, Pos { x: 25 * TILE_SIZE, y: -13 * TILE_SIZE, z: 0 });
    assert_eq!(d[10].position, Pos { x: 24 * TILE_SIZE, y: -13 * TILE_SIZE, z: 0 });
    assert_eq!(d[0].kind, PieceKind::Dirt);
    let rects = spawn_full_dirt_rectangles(2 * WINDOW_WIDTH, 2 * WINDOW_HEIGHT);
    assert_eq!(rects[0].len(), 48);
    assert_eq!(rects[1].len(), 50);
    assert_eq!(rects[0][0].position, Pos { x: 25 * TILE_SIZE - 2 * WINDOW_WIDTH, y: 25 * TILE_SIZE - 2 * WINDOW_HEIGHT, z: 0 });
    assert_eq!(rects[0][7].position.x, 26 * TILE_SIZE - 2 * WINDOW_WIDTH);
}

#[test]
fn solid_walls_and_walls() {
    let s = spawn_solid_walls();
    assert_eq!(s.len(), 324);
    assert_eq!(s[0].position, Pos { x: -WINDOW_WIDTH, y: WINDOW_HEIGHT, z: LAYER_BORDER });
    assert_eq!(s[1].position, Pos { x: -WINDOW_WIDTH, y: -WINDOW_HEIGHT, z: LAYER_BORDER });
    assert_eq!(s[161].position, Pos { x: WINDOW_WIDTH, y: -WINDOW_HEIGHT, z: LAYER_BORDER });
    assert_eq!(s[323].position, Pos { x: WINDOW_WIDTH, y: WINDOW_HEIGHT, z: LAYER_BORDER });
    assert!(!s[0].explodable);
    assert_eq!(s[0], create_solid_wall_sprite(s[0].position));
    let w = spawn_walls();
    assert_eq!(w.len(), 20);
    assert_eq!(w[19].position, Pos { x: 19 * TILE_SIZE + WINDOW_WIDTH / 2, y: WINDOW_HEIGHT / 2, z: 0 });
    let r = spawn_random_walls();
    assert_eq!(r.len(), 3000);
    for wall in &r {
        let (x, y) = (wall.position.x / TILE_SIZE, wall.position.y / TILE_SIZE);
        assert!(x * x + y * y >= 9);
        assert_eq!(wall.texture, Texture::Wall);
    }
}

#[test]
fn exit_and_background() {
    let e = spawn_exit();
    assert_eq!(e.position, Pos { x: 17 * TILE_SIZE, y: 17 * TILE_SIZE, z: LAYER_SCENERY });
    assert_eq!(e.texture, Texture::Gate);
    let b = set_background();
    assert_eq!(b.len(), 6400);
    assert_eq!(b[0].position, Pos { x: -WINDOW_WIDTH, y: -WINDOW_HEIGHT, z: LAYER_BACKGROUND });
    assert_eq!(b[6399].position, Pos { x: WINDOW_WIDTH - TILE_SIZE, y: WINDOW_HEIGHT - TILE_SIZE, z: LAYER_BACKGROUND });
    assert_eq!(Texture::Gate.path(), "textures/gate.png");
}

#[test]
fn random_walls_stand_on_the_picked_tiles() {
    let tiles = vec![(4, -9), (-2, 6)];
    let r = random_walls_at(&tiles, &vec![0, 1, 0]);
    assert_eq!(r.len(), 3);
    assert_eq!(r[0].position, Pos { x: 4 * TILE_SIZE, y: -9 * TILE_SIZE, z: LAYER_SCENERY });
    assert_eq!(r[1].position, Pos { x: -2 * TILE_SIZE, y: 6 * TILE_SIZE, z: LAYER_SCENERY });
    assert_eq!(r[2], r[0]);
}

#[test]
fn a_larger_window_shifts_the_dirt() {
    let small = spawn_full_dirt_rectangles(WINDOW_WIDTH, WINDOW_HEIGHT);
    let large = spawn_full_dirt_rectangles(WINDOW_WIDTH + 7, WINDOW_HEIGHT + 11);
    for (a, b) in small.iter().zip(&large) {
        assert_eq!(a.len(), b.len());
        for (pa, pb) in a.iter().zip(b) {
            assert_eq!(pb.position, Pos { x: pa.position.x - 7, y: pa.position.y - 11, z: pa.position.z });
            assert_eq!(pa.texture, pb.texture);
        }
    }
}
