//! The level's fixed scenery: walls, solid walls, dirt, the exit and the
//! background, and the walls scattered at random.
use vstd::prelude::*;

use crate::config::{
    LAYER_BACKGROUND, LAYER_BORDER, LAYER_SCENERY,
    TILE_SIZE, WINDOW_HEIGHT, WINDOW_HEIGHT_TILES, WINDOW_WIDTH, WINDOW_WIDTH_TILES,
};
use crate::geometry::{point, shifted, Pos, WORLD_LIMIT};
use crate::pieces::{Piece, PieceKind, Texture};
use crate::tiles::{
    draw_indices, lemma_cells_unique, lemma_spawnable_in_world, lists_cells, rectangle_cells, spawnable, spawnable_tiles,
    tile_in_world, tiles_in_world,
};

verus! {

/// A wall at `position`: it can be blown up and blocks the player and the enemies.
pub open spec fn wall_at(position: Pos) -> Piece {
    Piece {
        texture: Texture::Wall,
        position,
        kind: PieceKind::Plain,
        explodable: true,
        explosive: false,
        blocks_enemies: true,
        blocks_player: true,
    }
}

/// A solid wall at `position`: it blocks the player and the enemies and
/// withstands explosions.
pub open spec fn solid_wall_at(position: Pos) -> Piece {
    Piece {
        texture: Texture::SolidWall,
        position,
        kind: PieceKind::Plain,
        explodable: false,
        explosive: false,
        blocks_enemies: true,
        blocks_player: true,
    }
}

/// A dirt tile at `position`: it can be dug or blown up and stops enemies.
pub open spec fn dirt_at(position: Pos) -> Piece {
    Piece {
        texture: Texture::Dirt,
        position,
        kind: PieceKind::Dirt,
        explodable: true,
        explosive: false,
        blocks_enemies: true,
        blocks_player: false,
    }
}

/// A wall at `position`.
pub fn create_wall_sprite(position: Pos) -> (p: Piece)
    ensures
        p == wall_at(position),
{
    Piece {
        texture: Texture::Wall,
        position,
        kind: PieceKind::Plain,
        explodable: true,
        explosive: false,
        blocks_enemies: true,
        blocks_player: true,
    }
}

/// A solid wall at `position`.
pub fn create_solid_wall_sprite(position: Pos) -> (p: Piece)
    ensures
        p == solid_wall_at(position),
{
    Piece {
        texture: Texture::SolidWall,
        position,
        kind: PieceKind::Plain,
        explodable: false,
        explosive: false,
        blocks_enemies: true,
        blocks_player: true,
    }
}

/// A dirt tile at `position`.
fn create_dirt(position: Pos) -> (p: Piece)
    ensures
        p == dirt_at(position),
{
    Piece {
        texture: Texture::Dirt,
        position,
        kind: PieceKind::Dirt,
        explodable: true,
        explosive: false,
        blocks_enemies: true,
        blocks_player: false,
    }
}

/// How the cells of a rectangle become pieces.
#[derive(Clone, Copy, Debug, PartialEq, Eq, Structural)]
pub enum Layout {
    /// Walls on the scenery layer, the rectangle's bottom-left cell on tile `(left, bottom)`
    /// counted from the bottom-left corner of the field.
    Walls { left: i64, bottom: i64 },
    /// Dirt on the ground layer (0), the rectangle's bottom-left cell on tile
    /// `(left + 20, bottom + 20)` counted from the point `(-window_width,
    /// -window_height)`.
    Dirt { left: i64, bottom: i64, window_width: i64, window_height: i64 },
    /// Empty background tiles on the background layer, from the bottom-left corner of the field.
    Background,
}

/// The piece laid on cell `c`.
pub open spec fn layout_piece(layout: Layout, c: (i64, i64)) -> Piece {
    match layout {
        Layout::Walls { left, bottom } => wall_at(
            Pos {
                x: (left * TILE_SIZE + c.0 * TILE_SIZE - WINDOW_WIDTH) as i64,
                y: (bottom * TILE_SIZE + c.1 * TILE_SIZE - WINDOW_HEIGHT) as i64,
                z: LAYER_SCENERY,
            },
        ),
        Layout::Dirt { left, bottom, window_width, window_height } => dirt_at(
            Pos {
                x: (left * TILE_SIZE + c.0 * TILE_SIZE - window_width + 20 * TILE_SIZE) as i64,
                y: (bottom * TILE_SIZE + c.1 * TILE_SIZE - window_height + 20 * TILE_SIZE) as i64,
                z: 0,
            },
        ),
        Layout::Background => Piece {
            texture: Texture::Empty,
            position: Pos {
                x: (c.0 * TILE_SIZE - WINDOW_WIDTH) as i64,
                y: (c.1 * TILE_SIZE - WINDOW_HEIGHT) as i64,
                z: LAYER_BACKGROUND,
            },
            kind: PieceKind::Plain,
            explodable: false,
            explosive: false,
            blocks_enemies: false,
            blocks_player: false,
        },
    }
}

/// Coordinates small enough for every layout.
pub open spec fn layout_ok(layout: Layout) -> bool {
    match layout {
        Layout::Walls { left, bottom } => 0 <= left <= 1000 && 0 <= bottom <= 1000,
        Layout::Dirt { left, bottom, window_width, window_height } => {
            &&& 0 <= left <= 1000
            &&& 0 <= bottom <= 1000
            &&& -WORLD_LIMIT <= window_width <= WORLD_LIMIT
            &&& -WORLD_LIMIT <= window_height <= WORLD_LIMIT
        },
        Layout::Background => true,
    }
}

/// The piece `layout` lays on cell `c`.
fn place(layout: Layout, c: (i64, i64)) -> (p: Piece)
    requires
        layout_ok(layout),
        0 <= c.0 <= 1000,
        0 <= c.1 <= 1000,
    ensures
        p == layout_piece(layout, c),
{
    match layout {
        Layout::Walls { left, bottom } => create_wall_sprite(
            Pos {
                x: left * TILE_SIZE + c.0 * TILE_SIZE - WINDOW_WIDTH,
                y: bottom * TILE_SIZE + c.1 * TILE_SIZE - WINDOW_HEIGHT,
                z: LAYER_SCENERY,
            },
        ),
        Layout::Dirt { left, bottom, window_width, window_height } => create_dirt(
            Pos {
                x: left * TILE_SIZE + c.0 * TILE_SIZE - window_width + 20 * TILE_SIZE,
                y: bottom * TILE_SIZE + c.1 * TILE_SIZE - window_height + 20 * TILE_SIZE,
                z: 0,
            },
        ),
        Layout::Background => Piece {
            texture: Texture::Empty,
            position: Pos { x: c.0 * TILE_SIZE - WINDOW_WIDTH, y: c.1 * TILE_SIZE - WINDOW_HEIGHT, z: LAYER_BACKGROUND },
            kind: PieceKind::Plain,
            explodable: false,
            explosive: false,
            blocks_enemies: false,
            blocks_player: false,
        },
    }
}

/// `pieces` are the pieces `layout` lays on the kept cells of a rectangle of
/// `w` by `h` cells, column by column and bottom to top.
pub open spec fn lays_out(
    pieces: Seq<Piece>,
    layout: Layout,
    w: int,
    h: int,
    border_only: bool,
) -> bool {
    exists|cells: Seq<(i64, i64)>|
        #![trigger lists_cells(cells, w, h, border_only)]
        {
            &&& lists_cells(cells, w, h, border_only)
            &&& pieces.len() == cells.len()
            &&& forall|k: int| 0 <= k < cells.len() ==> #[trigger] pieces[k] == layout_piece(layout, cells[k])
        }
}

/// The pieces `layout` lays on the kept cells of a rectangle of `w` by `h`
/// cells.
pub fn lay_out(layout: Layout, w: i64, h: i64, border_only: bool) -> (r: Vec<Piece>)
    requires
        layout_ok(layout),
        0 <= w <= 1000,
        0 <= h <= 1000,
    ensures
        lays_out(r@, layout, w as int, h as int, border_only),
{
    let cells = rectangle_cells(w, h, border_only);
    let n: usize = cells.len();
    let mut r: Vec<Piece> = Vec::new();
    let mut k: usize = 0;
    while k < n
        invariant
            n == cells@.len(),
            k <= n,
            r@.len() == k,
            0 <= w <= 1000,
            0 <= h <= 1000,
            layout_ok(layout),
            lists_cells(cells@, w as int, h as int, border_only),
            forall|j: int| 0 <= j < k ==> #[trigger] r@[j] == layout_piece(layout, cells@[j]),
        decreases n - k,
    {
        let c = cells[k];
        assert(crate::tiles::kept_cell(cells@[k as int], w as int, h as int, border_only));
        r.push(place(layout, c));
        k = k + 1;
    }
    assert(lists_cells(cells@, w as int, h as int, border_only));
    r
}

/// The walls of the four rectangles, as (left, bottom, width, height) in
/// tiles from the bottom-left corner of the field; only their borders are
/// built.
pub open spec fn wall_rectangles() -> Seq<(int, int, int, int)> {
    seq![
        (35, 35, 1, WINDOW_HEIGHT_TILES / 4),
        (35, 35, WINDOW_WIDTH_TILES / 4, 1),
        (35 + WINDOW_WIDTH_TILES / 4, 35, 1, WINDOW_HEIGHT_TILES / 4),
        (35, 35 + WINDOW_HEIGHT_TILES / 4, WINDOW_WIDTH_TILES / 4 + 1, 1),
    ]
}

/// The walls of the four wall rectangles, one list per rectangle.
pub fn spawn_wall_rectangles() -> (r: Vec<Vec<Piece>>)
    ensures
        r@.len() == 4,
        forall|k: int|
            0 <= k < 4 ==> lays_out(
                #[trigger] r@[k]@,
                Layout::Walls {
                    left: wall_rectangles()[k].0 as i64,
                    bottom: wall_rectangles()[k].1 as i64,
                },
                wall_rectangles()[k].2,
                wall_rectangles()[k].3,
                true,
            ),
{
    let mut r: Vec<Vec<Piece>> = Vec::new();
    r.push(lay_out(Layout::Walls { left: 35, bottom: 35 }, 1, WINDOW_HEIGHT_TILES / 4, true));
    r.push(lay_out(Layout::Walls { left: 35, bottom: 35 }, WINDOW_WIDTH_TILES / 4, 1, true));
    r.push(
        lay_out(
            Layout::Walls { left: 35 + WINDOW_WIDTH_TILES / 4, bottom: 35 },
            1,
            WINDOW_HEIGHT_TILES / 4,
            true,
        ),
    );
    r.push(
        lay_out(
            Layout::Walls { left: 35, bottom: 35 + WINDOW_HEIGHT_TILES / 4 },
            WINDOW_WIDTH_TILES / 4 + 1,
            1,
            true,
        ),
    );
    r
}

/// The two dirt rectangles, as (left, bottom, width, height) in tiles.
pub open spec fn dirt_rectangles() -> Seq<(int, int, int, int)> {
    seq![(5, 5, 8, 6), (15, 10, 10, 5)]
}

/// The full dirt rectangles for a window of the given size (in world units),
/// one list per rectangle.
pub fn spawn_full_dirt_rectangles(window_width: i64, window_height: i64) -> (r: Vec<Vec<Piece>>)
    requires
        -WORLD_LIMIT <= window_width <= WORLD_LIMIT,
        -WORLD_LIMIT <= window_height <= WORLD_LIMIT,
    ensures
        r@.len() == 2,
        forall|k: int|
            0 <= k < 2 ==> lays_out(
                #[trigger] r@[k]@,
                Layout::Dirt {
                    left: dirt_rectangles()[k].0 as i64,
                    bottom: dirt_rectangles()[k].1 as i64,
                    window_width,
                    window_height,
                },
                dirt_rectangles()[k].2,
                dirt_rectangles()[k].3,
                false,
            ),
{
    let mut r: Vec<Vec<Piece>> = Vec::new();
    r.push(lay_out(Layout::Dirt { left: 5, bottom: 5, window_width, window_height }, 8, 6, false));
    r.push(
        lay_out(Layout::Dirt { left: 15, bottom: 10, window_width, window_height }, 10, 5, false),
    );
    r
}

/// A window larger by `(window_width2 - window_width, window_height2 -
/// window_height)` lays the same dirt pieces of a rectangle, in the same
/// order, each moved by minus that difference.
pub proof fn law_dirt_follows_window(
    a: Seq<Piece>,
    b: Seq<Piece>,
    left: i64,
    bottom: i64,
    window_width: i64,
    window_height: i64,
    window_width2: i64,
    window_height2: i64,
    w: int,
    h: int,
)
    requires
        layout_ok(Layout::Dirt { left, bottom, window_width, window_height }),
        layout_ok(
            Layout::Dirt { left, bottom, window_width: window_width2, window_height: window_height2 },
        ),
        0 <= w <= 1000,
        0 <= h <= 1000,
        lays_out(a, Layout::Dirt { left, bottom, window_width, window_height }, w, h, false),
        lays_out(
            b,
            Layout::Dirt { left, bottom, window_width: window_width2, window_height: window_height2 },
            w,
            h,
            false,
        ),
    ensures
        a.len() == b.len(),
        forall|k: int|
            0 <= k < a.len() ==> #[trigger] b[k] == (Piece {
                position: shifted(
                    a[k].position,
                    window_width - window_width2,
                    window_height - window_height2,
                    0,
                ),
                ..a[k]
            }),
{
    let la = Layout::Dirt { left, bottom, window_width, window_height };
    let lb = Layout::Dirt { left, bottom, window_width: window_width2, window_height: window_height2 };
    let ca = choose|cells: Seq<(i64, i64)>|
        #![trigger lists_cells(cells, w, h, false)]
        {
            &&& lists_cells(cells, w, h, false)
            &&& a.len() == cells.len()
            &&& forall|k: int| 0 <= k < cells.len() ==> #[trigger] a[k] == layout_piece(la, cells[k])
        };
    let cb = choose|cells: Seq<(i64, i64)>|
        #![trigger lists_cells(cells, w, h, false)]
        {
            &&& lists_cells(cells, w, h, false)
            &&& b.len() == cells.len()
            &&& forall|k: int| 0 <= k < cells.len() ==> #[trigger] b[k] == layout_piece(lb, cells[k])
        };
    lemma_cells_unique(ca, cb, w, h, false);
    assert forall|k: int| 0 <= k < a.len() implies #[trigger] b[k] == (Piece {
        position: shifted(a[k].position, window_width - window_width2, window_height - window_height2, 0),
        ..a[k]
    }) by {
        assert(crate::tiles::kept_cell(ca[k], w, h, false));
        assert(a[k] == layout_piece(la, ca[k]));
        assert(b[k] == layout_piece(lb, ca[k]));
    }
}

/// The background: an empty tile on every tile of the field, 80 by 80 tiles
/// from its bottom-left corner.
pub fn set_background() -> (r: Vec<Piece>)
    ensures
        lays_out(r@, Layout::Background, 2 * WINDOW_WIDTH_TILES, 2 * WINDOW_HEIGHT_TILES, false),
{
    lay_out(Layout::Background, 2 * WINDOW_WIDTH_TILES, 2 * WINDOW_HEIGHT_TILES, false)
}

/// The two dirt towers, five tiles high on columns 23 and 25 from row -17,
/// and the dirt tile bridging their tops on column 24: left tower bottom to
/// top, right tower bottom to top, then the bridge.
pub fn spawn_dirt() -> (r: Vec<Piece>)
    ensures
        r@.len() == 11,
        forall|i: int|
            0 <= i < 5 ==> #[trigger] r@[i] == dirt_at(
                point(23 * TILE_SIZE, -17 * TILE_SIZE + i * TILE_SIZE, 0),
            ),
        forall|i: int|
            0 <= i < 5 ==> #[trigger] r@[5 + i] == dirt_at(
                point(25 * TILE_SIZE, -17 * TILE_SIZE + i * TILE_SIZE, 0),
            ),
        r@[10] == dirt_at(point(24 * TILE_SIZE, -13 * TILE_SIZE, 0)),
{
    let left_tower_base_x: i64 = 23 * TILE_SIZE;
    let right_tower_base_x: i64 = 25 * TILE_SIZE;
    let tower_base_y: i64 = -17 * TILE_SIZE;
    let tower_height: i64 = 5;
    let mut r: Vec<Piece> = Vec::new();
    let mut i: i64 = 0;
    while i < tower_height
        invariant
            0 <= i <= tower_height == 5,
            left_tower_base_x == 23 * TILE_SIZE,
            tower_base_y == -17 * TILE_SIZE,
            r@.len() == i,
            forall|j: int|
                0 <= j < i ==> #[trigger] r@[j] == dirt_at(
                    point(23 * TILE_SIZE, -17 * TILE_SIZE + j * TILE_SIZE, 0),
                ),
        decreases tower_height - i,
    {
        r.push(create_dirt(Pos { x: left_tower_base_x, y: tower_base_y + i * TILE_SIZE, z: 0 }));
        i = i + 1;
    }
    let mut i: i64 = 0;
    while i < tower_height
        invariant
            0 <= i <= tower_height == 5,
            right_tower_base_x == 25 * TILE_SIZE,
            tower_base_y == -17 * TILE_SIZE,
            r@.len() == 5 + i,
            forall|j: int|
                0 <= j < 5 ==> #[trigger] r@[j] == dirt_at(
                    point(23 * TILE_SIZE, -17 * TILE_SIZE + j * TILE_SIZE, 0),
                ),
            forall|j: int|
                0 <= j < i ==> #[trigger] r@[5 + j] == dirt_at(
                    point(25 * TILE_SIZE, -17 * TILE_SIZE + j * TILE_SIZE, 0),
                ),
        decreases tower_height - i,
    {
        r.push(create_dirt(Pos { x: right_tower_base_x, y: tower_base_y + i * TILE_SIZE, z: 0 }));
        assert(r@[5 + i] == dirt_at(
            point(25 * TILE_SIZE, -17 * TILE_SIZE + i * TILE_SIZE, 0),
        ));
        i = i + 1;
    }
    let middle_block_y: i64 = tower_base_y + (tower_height - 1) * TILE_SIZE;
    let middle_block_x: i64 = (left_tower_base_x + right_tower_base_x) / 2;
    r.push(create_dirt(Pos { x: middle_block_x, y: middle_block_y, z: 0 }));
    r
}

/// The solid walls around the field: along the top and bottom edges, column
/// by column from the left corner (top before bottom); then along the left
/// and right edges, row by row from the bottom corner (left before right).
/// Corners appear twice, as they do when the edges are built one by one.
pub fn spawn_solid_walls() -> (r: Vec<Piece>)
    ensures
        r@.len() == 4 * 81,
        forall|k: int|
            0 <= k < 81 ==> {
                &&& #[trigger] r@[2 * k] == solid_wall_at(
                    Pos { x: (-WINDOW_WIDTH + k * TILE_SIZE) as i64, y: WINDOW_HEIGHT, z: LAYER_BORDER },
                )
                &&& r@[2 * k + 1] == solid_wall_at(
                    point(-WINDOW_WIDTH + k * TILE_SIZE, -WINDOW_HEIGHT, LAYER_BORDER as int),
                )
                &&& r@[162 + 2 * k] == solid_wall_at(
                    point(-WINDOW_WIDTH, -WINDOW_HEIGHT + k * TILE_SIZE, LAYER_BORDER as int),
                )
                &&& r@[163 + 2 * k] == solid_wall_at(
                    Pos { x: WINDOW_WIDTH, y: (-WINDOW_HEIGHT + k * TILE_SIZE) as i64, z: LAYER_BORDER },
                )
            },
{
    let mut r: Vec<Piece> = Vec::new();
    let mut k: i64 = 0;
    while k < 81
        invariant
            0 <= k <= 81,
            r@.len() == 2 * k,
            forall|j: int|
                0 <= j < k ==> {
                    &&& #[trigger] r@[2 * j] == solid_wall_at(
                        Pos { x: (-WINDOW_WIDTH + j * TILE_SIZE) as i64, y: WINDOW_HEIGHT, z: LAYER_BORDER },
                    )
                    &&& r@[2 * j + 1] == solid_wall_at(
                        point(-WINDOW_WIDTH + j * TILE_SIZE, -WINDOW_HEIGHT, LAYER_BORDER as int),
                    )
                },
        decreases 81 - k,
    {
        let x: i64 = -WINDOW_WIDTH + k * TILE_SIZE;
        r.push(create_solid_wall_sprite(Pos { x, y: WINDOW_HEIGHT, z: LAYER_BORDER }));
        r.push(create_solid_wall_sprite(Pos { x, y: -WINDOW_HEIGHT, z: LAYER_BORDER }));
        k = k + 1;
    }
    let mut k: i64 = 0;
    while k < 81
        invariant
            0 <= k <= 81,
            r@.len() == 162 + 2 * k,
            forall|j: int|
                0 <= j < 81 ==> {
                    &&& #[trigger] r@[2 * j] == solid_wall_at(
                        Pos { x: (-WINDOW_WIDTH + j * TILE_SIZE) as i64, y: WINDOW_HEIGHT, z: LAYER_BORDER },
                    )
                    &&& r@[2 * j + 1] == solid_wall_at(
                        point(-WINDOW_WIDTH + j * TILE_SIZE, -WINDOW_HEIGHT, LAYER_BORDER as int),
                    )
                },
            forall|j: int|
                0 <= j < k ==> {
                    &&& #[trigger] r@[162 + 2 * j] == solid_wall_at(
                        point(-WINDOW_WIDTH, -WINDOW_HEIGHT + j * TILE_SIZE, LAYER_BORDER as int),
                    )
                    &&& r@[163 + 2 * j] == solid_wall_at(
                        Pos { x: WINDOW_WIDTH, y: (-WINDOW_HEIGHT + j * TILE_SIZE) as i64, z: LAYER_BORDER },
                    )
                },
        decreases 81 - k,
    {
        let y: i64 = -WINDOW_HEIGHT + k * TILE_SIZE;
        r.push(create_solid_wall_sprite(Pos { x: -WINDOW_WIDTH, y, z: LAYER_BORDER }));
        r.push(create_solid_wall_sprite(Pos { x: WINDOW_WIDTH, y, z: LAYER_BORDER }));
        k = k + 1;
    }
    r
}

/// The row of twenty walls starting at the centre-right of the field's upper
/// half: wall `k` at `(k * TILE_SIZE + WINDOW_WIDTH / 2, WINDOW_HEIGHT / 2)`, on the ground layer (0).
pub fn spawn_walls() -> (r: Vec<Piece>)
    ensures
        r@.len() == 20,
        forall|k: int|
            0 <= k < 20 ==> #[trigger] r@[k] == wall_at(
                point(k * TILE_SIZE + WINDOW_WIDTH / 2, WINDOW_HEIGHT / 2, 0),
            ),
{
    let num_walls: i64 = 20;
    let mut r: Vec<Piece> = Vec::new();
    let mut x: i64 = 0;
    while x < num_walls
        invariant
            0 <= x <= num_walls == 20,
            r@.len() == x,
            forall|k: int|
                0 <= k < x ==> #[trigger] r@[k] == wall_at(
                    point(k * TILE_SIZE + WINDOW_WIDTH / 2, WINDOW_HEIGHT / 2, 0),
                ),
        decreases num_walls - x,
    {
        r.push(
            create_wall_sprite(
                Pos { x: TILE_SIZE * x + WINDOW_WIDTH / 2, y: WINDOW_HEIGHT / 2, z: 0 },
            ),
        );
        x = x + 1;
    }
    r
}

/// `p` is a wall on a tile where walls may be placed, on the scenery layer.
pub open spec fn is_random_wall(p: Piece) -> bool {
    exists|x: int, y: int| spawnable(x, y) && p == #[trigger] wall_on_tile(x, y)
}

/// The wall on tile `(x, y)`, on the scenery layer.
pub open spec fn wall_on_tile(x: int, y: int) -> Piece {
    wall_at(Pos { x: (x * TILE_SIZE) as i64, y: (y * TILE_SIZE) as i64, z: LAYER_SCENERY })
}

/// The walls on the picked tiles: wall `k` stands on `tiles[picks[k]]`.
pub fn random_walls_at(tiles: &Vec<(i64, i64)>, picks: &Vec<usize>) -> (r: Vec<Piece>)
    requires
        tiles_in_world(tiles@),
        forall|k: int| 0 <= k < picks@.len() ==> #[trigger] picks@[k] < tiles@.len(),
    ensures
        r@.len() == picks@.len(),
        forall|k: int|
            0 <= k < picks@.len() ==> #[trigger] r@[k] == wall_on_tile(
                tiles@[picks@[k] as int].0 as int,
                tiles@[picks@[k] as int].1 as int,
            ),
{
    let n: usize = picks.len();
    let mut r: Vec<Piece> = Vec::new();
    let mut i: usize = 0;
    while i < n
        invariant
            n == picks@.len(),
            i <= n,
            r@.len() == i,
            tiles_in_world(tiles@),
            forall|k: int| 0 <= k < picks@.len() ==> #[trigger] picks@[k] < tiles@.len(),
            forall|k: int|
                0 <= k < i ==> #[trigger] r@[k] == wall_on_tile(
                    tiles@[picks@[k] as int].0 as int,
                    tiles@[picks@[k] as int].1 as int,
                ),
        decreases n - i,
    {
        let (x, y) = tiles[picks[i]];
        assert(tile_in_world(tiles@[picks@[i as int] as int].0, tiles@[picks@[i as int] as int].1));
        r.push(create_wall_sprite(Pos { x: x * TILE_SIZE, y: y * TILE_SIZE, z: LAYER_SCENERY }));
        i = i + 1;
    }
    r
}

/// How many walls are scattered at random.
pub const RANDOM_WALLS: usize = 3000;

/// Three thousand walls, each on a tile drawn at random among the tiles of
/// the field outside the safe zone. The tiles are drawn and
/// `random_walls_at` places the walls.
pub fn spawn_random_walls() -> (r: Vec<Piece>)
    ensures
        r@.len() == RANDOM_WALLS,
        forall|k: int| 0 <= k < r@.len() ==> is_random_wall(#[trigger] r@[k]),
{
    let tiles = spawnable_tiles();
    proof {
        lemma_spawnable_in_world(tiles@);
    }
    let picks = draw_indices(tiles.len(), RANDOM_WALLS);
    let r = random_walls_at(&tiles, &picks);
    assert forall|k: int| 0 <= k < r@.len() implies is_random_wall(#[trigger] r@[k]) by {
        let t = tiles@[picks@[k] as int];
        assert(spawnable(t.0 as int, t.1 as int));
        assert(r@[k] == wall_on_tile(t.0 as int, t.1 as int));
    }
    r
}

/// The exit gate on tile (17, 17), on the scenery layer; it stops enemies.
pub fn spawn_exit() -> (p: Piece)
    ensures
        p == (Piece {
            texture: Texture::Gate,
            position: point(17 * TILE_SIZE, 17 * TILE_SIZE, LAYER_SCENERY as int),
            kind: PieceKind::Plain,
            explodable: false,
            explosive: false,
            blocks_enemies: true,
            blocks_player: false,
        }),
{
    Piece {
        texture: Texture::Gate,
        position: Pos { x: 17 * TILE_SIZE, y: 17 * TILE_SIZE, z: LAYER_SCENERY },
        kind: PieceKind::Plain,
        explodable: false,
        explosive: false,
        blocks_enemies: true,
        blocks_player: false,
    }
}

} // verus!
