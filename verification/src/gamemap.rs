//! The tile grid: tile flags, grid well-formedness, and the carving
//! operations the dungeon generator uses to open rooms and corridors.

use vstd::prelude::*;
use crate::consts::{MAP_WIDTH, MAP_HEIGHT};
use crate::geom::Rect;

verus! {

/// One grid cell: whether it blocks movement, whether the player has
/// explored it, and whether it blocks sight.
#[derive(Clone, Copy, PartialEq, Eq, Structural, Debug)]
pub struct Tile {
    pub blocked: bool,
    pub explored: bool,
    pub block_sight: bool,
}

/// The dungeon grid, indexed as `map[x][y]`.
pub type Grid = Vec<Vec<Tile>>;

/// The mathematical value of a grid: a sequence of columns.
pub open spec fn grid_view(m: Grid) -> Seq<Seq<Tile>> {
    m@.map_values(|row: Vec<Tile>| row@)
}

/// Whether `(x, y)` lies on the grid.
pub open spec fn in_map(x: int, y: int) -> bool {
    0 <= x < MAP_WIDTH && 0 <= y < MAP_HEIGHT
}

/// Whether `(x, y)` lies on the outermost ring of the grid.
pub open spec fn on_border(x: int, y: int) -> bool {
    x == 0 || x == MAP_WIDTH - 1 || y == 0 || y == MAP_HEIGHT - 1
}

/// The grid has exactly `MAP_WIDTH` columns of `MAP_HEIGHT` tiles each.
pub open spec fn map_dims_ok(m: Seq<Seq<Tile>>) -> bool {
    &&& m.len() == MAP_WIDTH
    &&& forall|x: int| 0 <= x < m.len() ==> (#[trigger] m[x]).len() == MAP_HEIGHT
}

/// The outermost ring of tiles is never carved, so entities can never
/// stand on it or step off the grid.
pub open spec fn border_blocked(m: Seq<Seq<Tile>>) -> bool {
    forall|x: int, y: int| in_map(x, y) && on_border(x, y) ==> (#[trigger] m[x][y]).blocked
}

/// Well-formedness of the grid.
pub open spec fn map_wf(m: Seq<Seq<Tile>>) -> bool {
    map_dims_ok(m) && border_blocked(m)
}

/// A tile can be walked on.
pub open spec fn walkable(m: Seq<Seq<Tile>>, x: int, y: int) -> bool {
    in_map(x, y) && !m[x][y].blocked
}

/// The carved form of a tile: open to movement and sight, with its
/// explored flag kept.
pub open spec fn carved(t: Tile) -> Tile {
    Tile { blocked: false, block_sight: false, explored: t.explored }
}

/// The strict interior of a room rectangle; its one-tile frame is kept solid.
pub open spec fn room_interior(room: Rect, x: int, y: int) -> bool {
    room.x1 < x < room.x2 && room.y1 < y < room.y2
}

/// A cell of the horizontal corridor from `x1` to `x2` at row `y`
/// (endpoints included, in either order).
pub open spec fn h_tunnel_cell(x1: int, x2: int, y: int, cx: int, cy: int) -> bool {
    cy == y && (if x1 <= x2 {
        x1 <= cx <= x2
    } else {
        x2 <= cx <= x1
    })
}

/// A cell of the vertical corridor from `y1` to `y2` at column `x`
/// (endpoints included, in either order).
pub open spec fn v_tunnel_cell(y1: int, y2: int, x: int, cx: int, cy: int) -> bool {
    cx == x && (if y1 <= y2 {
        y1 <= cy <= y2
    } else {
        y2 <= cy <= y1
    })
}

/// Writes one tile of the grid.
pub fn set_tile(map: &mut Grid, x: usize, y: usize, t: Tile)
    requires
        map_dims_ok(grid_view(*old(map))),
        x < MAP_WIDTH,
        y < MAP_HEIGHT,
    ensures
        grid_view(*final(map)) == grid_view(*old(map)).update(
            x as int,
            grid_view(*old(map))[x as int].update(y as int, t),
        ),
{
    let ghost g0 = grid_view(*old(map));
    assert(g0[x as int] == map@[x as int]@);
    map[x][y] = t;
    proof {
        let g1 = grid_view(*map);
        assert forall|i: int| 0 <= i < g1.len() implies #[trigger] g1[i] == g0.update(
            x as int,
            g0[x as int].update(y as int, t),
        )[i] by {
            assert(g1[i] == map@[i]@);
            assert(g0[i] == old(map)@[i]@);
        }
        assert(g1 =~= g0.update(x as int, g0[x as int].update(y as int, t)));
    }
}

/// Reads one tile of the grid.
pub fn get_tile(map: &Grid, x: usize, y: usize) -> (t: Tile)
    requires
        map_dims_ok(grid_view(*map)),
        x < MAP_WIDTH,
        y < MAP_HEIGHT,
    ensures
        t == grid_view(*map)[x as int][y as int],
{
    proof {
        assert(grid_view(*map)[x as int] == map@[x as int]@);
    }
    map[x][y]
}

/// A fresh grid of solid, unexplored, sight-blocking tiles.
pub fn blocked_map() -> (m: Grid)
    ensures
        map_wf(grid_view(m)),
        forall|x: int, y: int|
            in_map(x, y) ==> #[trigger] grid_view(m)[x][y] == (Tile {
                blocked: true,
                explored: false,
                block_sight: true,
            }),
{
    let mut m: Grid = Vec::new();
    while m.len() < MAP_WIDTH as usize
        invariant
            m@.len() <= MAP_WIDTH,
            forall|x: int| 0 <= x < m@.len() ==> (#[trigger] m@[x])@.len() == MAP_HEIGHT,
            forall|x: int, y: int|
                0 <= x < m@.len() && 0 <= y < MAP_HEIGHT ==> #[trigger] m@[x]@[y] == (Tile {
                    blocked: true,
                    explored: false,
                    block_sight: true,
                }),
        decreases MAP_WIDTH - m@.len(),
    {
        let mut col: Vec<Tile> = Vec::new();
        while col.len() < MAP_HEIGHT as usize
            invariant
                col@.len() <= MAP_HEIGHT,
                forall|y: int|
                    0 <= y < col@.len() ==> #[trigger] col@[y] == (Tile {
                        blocked: true,
                        explored: false,
                        block_sight: true,
                    }),
            decreases MAP_HEIGHT - col@.len(),
        {
            col.push(Tile { blocked: true, explored: false, block_sight: true });
        }
        m.push(col);
    }
    assert forall|x: int, y: int| in_map(x, y) implies #[trigger] grid_view(m)[x][y] == (Tile {
        blocked: true,
        explored: false,
        block_sight: true,
    }) by {
        assert(grid_view(m)[x] == m@[x]@);
    }
    assert forall|x: int| 0 <= x < grid_view(m).len() implies (#[trigger] grid_view(m)[x]).len()
        == MAP_HEIGHT by {
        assert(grid_view(m)[x] == m@[x]@);
    }
    m
}

/// Carves the strict interior of `room`: every interior tile becomes
/// walkable and sight-open; all other tiles are untouched.
pub fn create_room(room: Rect, map: &mut Grid)
    requires
        map_dims_ok(grid_view(*old(map))),
        0 <= room.x1 <= room.x2 < MAP_WIDTH,
        0 <= room.y1 <= room.y2 < MAP_HEIGHT,
    ensures
        map_dims_ok(grid_view(*final(map))),
        forall|x: int, y: int|
            in_map(x, y) ==> #[trigger] grid_view(*final(map))[x][y] == (if room_interior(
                room,
                x,
                y,
            ) {
                carved(grid_view(*old(map))[x][y])
            } else {
                grid_view(*old(map))[x][y]
            }),
{
    let ghost m0 = grid_view(*old(map));
    let mut x = room.x1 + 1;
    while x < room.x2
        invariant
            room.x1 < x,
            x <= room.x2 || x == room.x1 + 1,
            0 <= room.x1 <= room.x2 < MAP_WIDTH,
            0 <= room.y1 <= room.y2 < MAP_HEIGHT,
            map_dims_ok(m0),
            map_dims_ok(grid_view(*map)),
            forall|i: int, j: int|
                in_map(i, j) ==> #[trigger] grid_view(*map)[i][j] == (if room_interior(room, i, j)
                    && i < x {
                    carved(m0[i][j])
                } else {
                    m0[i][j]
                }),
        decreases room.x2 - x,
    {
        let mut y = room.y1 + 1;
        while y < room.y2
            invariant
                room.x1 < x < room.x2,
                room.y1 < y,
                y <= room.y2 || y == room.y1 + 1,
                0 <= room.x1 <= room.x2 < MAP_WIDTH,
                0 <= room.y1 <= room.y2 < MAP_HEIGHT,
                map_dims_ok(m0),
                map_dims_ok(grid_view(*map)),
                forall|i: int, j: int|
                    in_map(i, j) ==> #[trigger] grid_view(*map)[i][j] == (if room_interior(
                        room,
                        i,
                        j,
                    ) && (i < x || (i == x && j < y)) {
                        carved(m0[i][j])
                    } else {
                        m0[i][j]
                    }),
            decreases room.y2 - y,
        {
            let t = get_tile(map, x as usize, y as usize);
            set_tile(
                map,
                x as usize,
                y as usize,
                Tile { blocked: false, block_sight: false, explored: t.explored },
            );
            y = y + 1;
        }
        x = x + 1;
    }
}

/// Carves a horizontal corridor at row `y` covering every column
/// between `x1` and `x2`, endpoints included; all other tiles are
/// untouched.
pub fn create_h_tunnel(x1: i32, x2: i32, y: i32, map: &mut Grid)
    requires
        map_dims_ok(grid_view(*old(map))),
        0 <= x1 < MAP_WIDTH,
        0 <= x2 < MAP_WIDTH,
        0 <= y < MAP_HEIGHT,
    ensures
        map_dims_ok(grid_view(*final(map))),
        forall|i: int, j: int|
            in_map(i, j) ==> #[trigger] grid_view(*final(map))[i][j] == (if h_tunnel_cell(
                x1 as int,
                x2 as int,
                y as int,
                i,
                j,
            ) {
                carved(grid_view(*old(map))[i][j])
            } else {
                grid_view(*old(map))[i][j]
            }),
{
    let ghost m0 = grid_view(*old(map));
    let lo = if x1 < x2 { x1 } else { x2 };
    let hi = if x1 < x2 { x2 } else { x1 };
    let mut x = lo;
    while x <= hi
        invariant
            lo <= x <= hi + 1,
            0 <= lo <= hi < MAP_WIDTH,
            0 <= y < MAP_HEIGHT,
            forall|i: int, j: int|
                h_tunnel_cell(x1 as int, x2 as int, y as int, i, j) <==> (j == y && lo <= i <= hi),
            map_dims_ok(m0),
            map_dims_ok(grid_view(*map)),
            forall|i: int, j: int|
                in_map(i, j) ==> #[trigger] grid_view(*map)[i][j] == (if j == y && lo <= i < x {
                    carved(m0[i][j])
                } else {
                    m0[i][j]
                }),
        decreases hi + 1 - x,
    {
        let t = get_tile(map, x as usize, y as usize);
        set_tile(
            map,
            x as usize,
            y as usize,
            Tile { blocked: false, block_sight: false, explored: t.explored },
        );
        x = x + 1;
    }
}

/// Carves a vertical corridor at column `x` covering every row between
/// `y1` and `y2`, endpoints included; all other tiles are untouched.
pub fn create_v_tunnel(y1: i32, y2: i32, x: i32, map: &mut Grid)
    requires
        map_dims_ok(grid_view(*old(map))),
        0 <= y1 < MAP_HEIGHT,
        0 <= y2 < MAP_HEIGHT,
        0 <= x < MAP_WIDTH,
    ensures
        map_dims_ok(grid_view(*final(map))),
        forall|i: int, j: int|
            in_map(i, j) ==> #[trigger] grid_view(*final(map))[i][j] == (if v_tunnel_cell(
                y1 as int,
                y2 as int,
                x as int,
                i,
                j,
            ) {
                carved(grid_view(*old(map))[i][j])
            } else {
                grid_view(*old(map))[i][j]
            }),
{
    let ghost m0 = grid_view(*old(map));
    let lo = if y1 < y2 { y1 } else { y2 };
    let hi = if y1 < y2 { y2 } else { y1 };
    let mut y = lo;
    while y <= hi
        invariant
            lo <= y <= hi + 1,
            0 <= lo <= hi < MAP_HEIGHT,
            0 <= x < MAP_WIDTH,
            forall|i: int, j: int|
                v_tunnel_cell(y1 as int, y2 as int, x as int, i, j) <==> (i == x && lo <= j <= hi),
            map_dims_ok(m0),
            map_dims_ok(grid_view(*map)),
            forall|i: int, j: int|
                in_map(i, j) ==> #[trigger] grid_view(*map)[i][j] == (if i == x && lo <= j < y {
                    carved(m0[i][j])
                } else {
                    m0[i][j]
                }),
        decreases hi + 1 - y,
    {
        let t = get_tile(map, x as usize, y as usize);
        set_tile(
            map,
            x as usize,
            y as usize,
            Tile { blocked: false, block_sight: false, explored: t.explored },
        );
        y = y + 1;
    }
}


/// Checks grid well-formedness on an untrusted snapshot: the exact
/// dimensions and a solid border ring. A `true` answer guarantees
/// [`map_wf`].
pub fn check_map(map: &Grid) -> (r: bool)
    ensures
        r ==> map_wf(grid_view(*map)),
{
    if map.len() != MAP_WIDTH as usize {
        return false;
    }
    let mut x: usize = 0;
    while x < MAP_WIDTH as usize
        invariant
            map@.len() == MAP_WIDTH,
            0 <= x <= MAP_WIDTH,
            forall|i: int| 0 <= i < x ==> (#[trigger] grid_view(*map)[i]).len() == MAP_HEIGHT,
        decreases MAP_WIDTH - x,
    {
        proof {
            assert(grid_view(*map)[x as int] == map@[x as int]@);
        }
        if map[x].len() != MAP_HEIGHT as usize {
            return false;
        }
        x = x + 1;
    }
    proof {
        assert(map_dims_ok(grid_view(*map)));
    }
    let mut x: usize = 0;
    while x < MAP_WIDTH as usize
        invariant
            map_dims_ok(grid_view(*map)),
            0 <= x <= MAP_WIDTH,
            forall|i: int| 0 <= i < x ==> (#[trigger] grid_view(*map)[i][0]).blocked,
            forall|i: int|
                0 <= i < x ==> (#[trigger] grid_view(*map)[i][MAP_HEIGHT - 1]).blocked,
        decreases MAP_WIDTH - x,
    {
        let top = get_tile(map, x, 0);
        let bottom = get_tile(map, x, (MAP_HEIGHT - 1) as usize);
        if !top.blocked || !bottom.blocked {
            return false;
        }
        proof {
            assert(grid_view(*map)[x as int][0].blocked);
            assert(grid_view(*map)[x as int][MAP_HEIGHT - 1].blocked);
        }
        x = x + 1;
    }
    let mut y: usize = 0;
    while y < MAP_HEIGHT as usize
        invariant
            map_dims_ok(grid_view(*map)),
            0 <= y <= MAP_HEIGHT,
            forall|i: int| 0 <= i < MAP_WIDTH ==> (#[trigger] grid_view(*map)[i][0]).blocked,
            forall|i: int|
                0 <= i < MAP_WIDTH ==> (#[trigger] grid_view(*map)[i][MAP_HEIGHT - 1]).blocked,
            forall|j: int| 0 <= j < y ==> (#[trigger] grid_view(*map)[0][j]).blocked,
            forall|j: int|
                0 <= j < y ==> (#[trigger] grid_view(*map)[MAP_WIDTH - 1][j]).blocked,
        decreases MAP_HEIGHT - y,
    {
        let left = get_tile(map, 0, y);
        let right = get_tile(map, (MAP_WIDTH - 1) as usize, y);
        if !left.blocked || !right.blocked {
            return false;
        }
        proof {
            assert(grid_view(*map)[0][y as int].blocked);
            assert(grid_view(*map)[MAP_WIDTH - 1][y as int].blocked);
        }
        y = y + 1;
    }
    proof {
        assert forall|cx: int, cy: int|
            in_map(cx, cy) && on_border(cx, cy) implies (#[trigger] grid_view(
            *map,
        )[cx][cy]).blocked by {
            if cy == 0 {
                assert(grid_view(*map)[cx][0].blocked);
            } else if cy == MAP_HEIGHT - 1 {
                assert(grid_view(*map)[cx][MAP_HEIGHT - 1].blocked);
            } else if cx == 0 {
                assert(grid_view(*map)[0][cy].blocked);
            } else {
                assert(grid_view(*map)[MAP_WIDTH - 1][cy].blocked);
            }
        }
    }
    true
}

} // verus!