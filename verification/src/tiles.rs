//! Tiles of the playing field and the safe zone around the start tile.
use vstd::prelude::*;

use crate::config::{
    TILE_SIZE,
    INITIAL_SAFE_ZONE_TILE_DISTANCE, PLAYER_STARTING_TILE_X, PLAYER_STARTING_TILE_Y,
    WINDOW_HEIGHT_TILES, WINDOW_WIDTH_TILES,
};
use crate::geometry::WORLD_LIMIT;
use crate::random::random_in_range;

verus! {

/// A tile strictly inside the playing field.
pub open spec fn inside_field(x: int, y: int) -> bool {
    &&& -WINDOW_WIDTH_TILES < x < WINDOW_WIDTH_TILES
    &&& -WINDOW_HEIGHT_TILES < y < WINDOW_HEIGHT_TILES
}

/// A tile closer to the start tile than the safe-zone radius.
pub open spec fn in_safe_zone(x: int, y: int) -> bool {
    (x - PLAYER_STARTING_TILE_X) * (x - PLAYER_STARTING_TILE_X) + (y - PLAYER_STARTING_TILE_Y) * (y
        - PLAYER_STARTING_TILE_Y) < INITIAL_SAFE_ZONE_TILE_DISTANCE * INITIAL_SAFE_ZONE_TILE_DISTANCE
}

/// A tile where walls and enemies may be placed at the start.
pub open spec fn spawnable(x: int, y: int) -> bool {
    inside_field(x, y) && !in_safe_zone(x, y)
}

/// Whether a tile of the playing field lies in the safe zone.
pub fn is_in_safe_zone(x: i64, y: i64) -> (r: bool)
    requires
        inside_field(x as int, y as int),
    ensures
        r == in_safe_zone(x as int, y as int),
{
    let dx: i64 = x - PLAYER_STARTING_TILE_X;
    let dy: i64 = y - PLAYER_STARTING_TILE_Y;
    assert(0 <= dx * dx <= 10000 && 0 <= dy * dy <= 10000) by (nonlinear_arith)
        requires
            -100 <= dx <= 100,
            -100 <= dy <= 100,
    ;
    dx * dx + dy * dy < INITIAL_SAFE_ZONE_TILE_DISTANCE * INITIAL_SAFE_ZONE_TILE_DISTANCE
}

/// Every tile where walls and enemies may be placed, each once, column by
/// column and bottom to top.
pub fn spawnable_tiles() -> (r: Vec<(i64, i64)>)
    ensures
        r@.len() > 0,
        r@.len() <= 6241,
        forall|k: int, l: int| 0 <= k < l < r@.len() ==> cell_before(#[trigger] r@[k], #[trigger] r@[l]),
        forall|k: int| 0 <= k < r@.len() ==> spawnable(#[trigger] r@[k].0 as int, r@[k].1 as int),
        forall|x: int, y: int| spawnable(x, y) ==> r@.contains((x as i64, y as i64)),
{
    let mut r: Vec<(i64, i64)> = Vec::new();
    let mut x: i64 = -WINDOW_WIDTH_TILES + 1;
    while x < WINDOW_WIDTH_TILES
        invariant
            -WINDOW_WIDTH_TILES + 1 <= x <= WINDOW_WIDTH_TILES,
            r@.len() <= (x + WINDOW_WIDTH_TILES - 1) * 79,
            x > -WINDOW_WIDTH_TILES + 1 ==> r@.len() > 0,
            forall|k: int| 0 <= k < r@.len() ==> spawnable(#[trigger] r@[k].0 as int, r@[k].1 as int),
            forall|k: int| 0 <= k < r@.len() ==> #[trigger] r@[k].0 < x,
            forall|k: int, l: int| 0 <= k < l < r@.len() ==> cell_before(#[trigger] r@[k], #[trigger] r@[l]),
            forall|a: int, b: int| spawnable(a, b) && a < x ==> r@.contains((a as i64, b as i64)),
        decreases WINDOW_WIDTH_TILES - x,
    {
        let mut y: i64 = -WINDOW_HEIGHT_TILES + 1;
        let ghost row_start = r@.len();
        while y < WINDOW_HEIGHT_TILES
            invariant
                -WINDOW_WIDTH_TILES + 1 <= x < WINDOW_WIDTH_TILES,
                -WINDOW_HEIGHT_TILES + 1 <= y <= WINDOW_HEIGHT_TILES,
                row_start <= (x + WINDOW_WIDTH_TILES - 1) * 79,
                r@.len() <= row_start + (y + WINDOW_HEIGHT_TILES - 1),
                x > -WINDOW_WIDTH_TILES + 1 ==> r@.len() > 0,
                x == -WINDOW_WIDTH_TILES + 1 && y > -WINDOW_HEIGHT_TILES + 1 ==> r@.len() > 0,
                forall|k: int| 0 <= k < r@.len() ==> spawnable(#[trigger] r@[k].0 as int, r@[k].1 as int),
                forall|k: int| 0 <= k < r@.len() ==> cell_before(#[trigger] r@[k], (x, y)),
                forall|k: int, l: int| 0 <= k < l < r@.len() ==> cell_before(#[trigger] r@[k], #[trigger] r@[l]),
                forall|a: int, b: int| spawnable(a, b) && a < x ==> r@.contains((a as i64, b as i64)),
                forall|b: int| spawnable(x as int, b) && b < y ==> r@.contains((x, b as i64)),
            decreases WINDOW_HEIGHT_TILES - y,
        {
            if !is_in_safe_zone(x, y) {
                let ghost old_r = r@;
                r.push((x, y));
                assert forall|a: int, b: int| spawnable(a, b) && a < x implies r@.contains(
                    (a as i64, b as i64),
                ) by {
                    let k = choose|k: int| 0 <= k < old_r.len() && old_r[k] == (a as i64, b as i64);
                    assert(r@[k] == (a as i64, b as i64));
                }
                assert forall|b: int| spawnable(x as int, b) && b < y + 1 implies r@.contains(
                    (x, b as i64),
                ) by {
                    if b < y {
                        let k = choose|k: int| 0 <= k < old_r.len() && old_r[k] == (x, b as i64);
                        assert(r@[k] == (x, b as i64));
                    } else {
                        assert(r@[r@.len() - 1] == (x, b as i64));
                    }
                }
            } else {
                assert(!in_safe_zone(-39, -39)) by (nonlinear_arith);
                assert(x != -WINDOW_WIDTH_TILES + 1 || y != -WINDOW_HEIGHT_TILES + 1);
            }
            y = y + 1;
        }
        x = x + 1;
    }
    r
}

/// A tile whose world position fits the world.
pub open spec fn tile_in_world(x: i64, y: i64) -> bool {
    &&& -WORLD_LIMIT <= x * TILE_SIZE <= WORLD_LIMIT
    &&& -WORLD_LIMIT <= y * TILE_SIZE <= WORLD_LIMIT
}

/// Every tile of `tiles` fits the world.
pub open spec fn tiles_in_world(tiles: Seq<(i64, i64)>) -> bool {
    forall|k: int| 0 <= k < tiles.len() ==> tile_in_world(#[trigger] tiles[k].0, tiles[k].1)
}

/// Tiles where walls and enemies may be placed fit the world.
pub proof fn lemma_spawnable_in_world(tiles: Seq<(i64, i64)>)
    requires
        forall|k: int| 0 <= k < tiles.len() ==> spawnable(#[trigger] tiles[k].0 as int, tiles[k].1 as int),
    ensures
        tiles_in_world(tiles),
{
    assert forall|k: int| 0 <= k < tiles.len() implies tile_in_world(#[trigger] tiles[k].0, tiles[k].1) by {
        assert(spawnable(tiles[k].0 as int, tiles[k].1 as int));
    }
}

/// `count` indices below `n`, each drawn at random.
pub fn draw_indices(n: usize, count: usize) -> (r: Vec<usize>)
    requires
        0 < n <= i64::MAX,
    ensures
        r@.len() == count,
        forall|k: int| 0 <= k < r@.len() ==> #[trigger] r@[k] < n,
{
    let mut r: Vec<usize> = Vec::new();
    let mut i: usize = 0;
    while i < count
        invariant
            0 < n <= i64::MAX,
            i <= count,
            r@.len() == i,
            forall|k: int| 0 <= k < r@.len() ==> #[trigger] r@[k] < n,
        decreases count - i,
    {
        let k = random_in_range(0, n as i64);
        r.push(k as usize);
        i = i + 1;
    }
    r
}

/// Cell `c` lies on the border of a rectangle of `w` by `h` cells.
pub open spec fn on_border(c: (i64, i64), w: int, h: int) -> bool {
    c.0 == 0 || c.0 == w - 1 || c.1 == 0 || c.1 == h - 1
}

/// Cell `a` comes before cell `b`: column by column, bottom to top.
pub open spec fn cell_before(a: (i64, i64), b: (i64, i64)) -> bool {
    a.0 < b.0 || (a.0 == b.0 && a.1 < b.1)
}

/// A cell the rectangle of `w` by `h` cells keeps: any cell, or only those on
/// the border.
pub open spec fn kept_cell(c: (i64, i64), w: int, h: int, border_only: bool) -> bool {
    &&& 0 <= c.0 < w
    &&& 0 <= c.1 < h
    &&& border_only ==> on_border(c, w, h)
}

/// `cells` lists the kept cells of a rectangle of `w` by `h` cells, each once,
/// column by column and bottom to top.
pub open spec fn lists_cells(cells: Seq<(i64, i64)>, w: int, h: int, border_only: bool) -> bool {
    &&& forall|k: int| 0 <= k < cells.len() ==> kept_cell(#[trigger] cells[k], w, h, border_only)
    &&& forall|k: int, l: int|
        0 <= k < l < cells.len() ==> cell_before(#[trigger] cells[k], #[trigger] cells[l])
    &&& forall|c: (i64, i64)| kept_cell(c, w, h, border_only) ==> #[trigger] cells.contains(c)
}

/// Each cell of `s` comes before the next.
pub open spec fn cells_sorted(s: Seq<(i64, i64)>) -> bool {
    forall|k: int, l: int| 0 <= k < l < s.len() ==> cell_before(#[trigger] s[k], #[trigger] s[l])
}

/// Two sorted lists of cells with the same members are equal.
proof fn lemma_sorted_same_members(a: Seq<(i64, i64)>, b: Seq<(i64, i64)>)
    requires
        cells_sorted(a),
        cells_sorted(b),
        forall|c: (i64, i64)| a.contains(c) <==> b.contains(c),
    ensures
        a == b,
    decreases a.len() + b.len(),
{
    if a.len() == 0 {
        if b.len() > 0 {
            assert(b.contains(b[0]));
        }
    } else if b.len() == 0 {
        assert(a.contains(a[0]));
    } else {
        let la = a.last();
        let lb = b.last();
        assert(a.contains(la));
        assert(b.contains(lb));
        let kb = choose|k: int| 0 <= k < b.len() && b[k] == la;
        let ka = choose|k: int| 0 <= k < a.len() && a[k] == lb;
        if la != lb {
            assert(kb < b.len() - 1);
            assert(ka < a.len() - 1);
            assert(cell_before(b[kb], b[b.len() - 1]));
            assert(cell_before(a[ka], a[a.len() - 1]));
        }
        let a2 = a.drop_last();
        let b2 = b.drop_last();
        assert forall|c: (i64, i64)| a2.contains(c) <==> b2.contains(c) by {
            if a2.contains(c) {
                let k = choose|k: int| 0 <= k < a2.len() && a2[k] == c;
                assert(cell_before(a[k], a[a.len() - 1]));
                assert(a.contains(c));
                let j = choose|j: int| 0 <= j < b.len() && b[j] == c;
                assert(j != b.len() - 1);
                assert(b2[j] == c);
            }
            if b2.contains(c) {
                let k = choose|k: int| 0 <= k < b2.len() && b2[k] == c;
                assert(cell_before(b[k], b[b.len() - 1]));
                assert(b.contains(c));
                let j = choose|j: int| 0 <= j < a.len() && a[j] == c;
                assert(j != a.len() - 1);
                assert(a2[j] == c);
            }
        }
        lemma_sorted_same_members(a2, b2);
        assert(a == a2.push(la));
        assert(b == b2.push(lb));
    }
}

/// Two lists of the kept cells of the same rectangle are equal: the list is
/// fixed by the rectangle.
pub proof fn lemma_cells_unique(
    a: Seq<(i64, i64)>,
    b: Seq<(i64, i64)>,
    w: int,
    h: int,
    border_only: bool,
)
    requires
        lists_cells(a, w, h, border_only),
        lists_cells(b, w, h, border_only),
    ensures
        a == b,
{
    assert forall|c: (i64, i64)| a.contains(c) <==> b.contains(c) by {
        if a.contains(c) {
            let k = choose|k: int| 0 <= k < a.len() && a[k] == c;
            assert(kept_cell(a[k], w, h, border_only));
        }
        if b.contains(c) {
            let k = choose|k: int| 0 <= k < b.len() && b[k] == c;
            assert(kept_cell(b[k], w, h, border_only));
        }
    }
    lemma_sorted_same_members(a, b);
}

/// The kept cells of a rectangle of `w` by `h` cells, column by column and
/// bottom to top.
pub fn rectangle_cells(w: i64, h: i64, border_only: bool) -> (r: Vec<(i64, i64)>)
    requires
        0 <= w <= 1000,
        0 <= h <= 1000,
    ensures
        lists_cells(r@, w as int, h as int, border_only),
{
    let mut r: Vec<(i64, i64)> = Vec::new();
    let mut x: i64 = 0;
    while x < w
        invariant
            0 <= x <= w <= 1000,
            0 <= h <= 1000,
            forall|k: int| 0 <= k < r@.len() ==> kept_cell(#[trigger] r@[k], w as int, h as int, border_only),
            forall|k: int| 0 <= k < r@.len() ==> #[trigger] r@[k].0 < x,
            forall|k: int, l: int|
                0 <= k < l < r@.len() ==> cell_before(#[trigger] r@[k], #[trigger] r@[l]),
            forall|c: (i64, i64)|
                kept_cell(c, w as int, h as int, border_only) && c.0 < x ==> #[trigger] r@.contains(c),
        decreases w - x,
    {
        let mut y: i64 = 0;
        while y < h
            invariant
                0 <= x < w <= 1000,
                0 <= y <= h <= 1000,
                forall|k: int| 0 <= k < r@.len() ==> kept_cell(#[trigger] r@[k], w as int, h as int, border_only),
                forall|k: int| 0 <= k < r@.len() ==> cell_before(#[trigger] r@[k], (x, y)),
                forall|k: int, l: int|
                    0 <= k < l < r@.len() ==> cell_before(#[trigger] r@[k], #[trigger] r@[l]),
                forall|c: (i64, i64)|
                    kept_cell(c, w as int, h as int, border_only) && (c.0 < x || (c.0 == x && c.1 < y))
                        ==> #[trigger] r@.contains(c),
            decreases h - y,
        {
            if !border_only || x == 0 || x == w - 1 || y == 0 || y == h - 1 {
                let ghost old_r = r@;
                r.push((x, y));
                assert forall|c: (i64, i64)|
                    kept_cell(c, w as int, h as int, border_only) && (c.0 < x || (c.0 == x && c.1 < y
                        + 1)) implies #[trigger] r@.contains(c) by {
                    if c.0 < x || (c.0 == x && c.1 < y) {
                        assert(old_r.contains(c));
                        let k = choose|k: int| 0 <= k < old_r.len() && old_r[k] == c;
                        assert(r@[k] == c);
                    } else {
                        assert(r@[r@.len() - 1] == c);
                    }
                }
            }
            y = y + 1;
        }
        x = x + 1;
    }
    r
}

} // verus!
