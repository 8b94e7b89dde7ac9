//! The visibility oracle's answer, as plain data: one boolean per grid
//! cell. Computing the field of view is a collaborator's job; the
//! engine only reads the answer.

use vstd::prelude::*;
use crate::consts::{MAP_WIDTH, MAP_HEIGHT};
use crate::gamemap::in_map;

verus! {

/// A visibility grid, indexed as `visible[x][y]`.
pub struct Fov {
    pub visible: Vec<Vec<bool>>,
}

/// The mathematical value of a visibility grid.
pub open spec fn fov_view(f: Fov) -> Seq<Seq<bool>> {
    f.visible@.map_values(|col: Vec<bool>| col@)
}

impl Fov {
    /// The grid covers the whole map.
    pub open spec fn wf(self) -> bool {
        &&& fov_view(self).len() == MAP_WIDTH
        &&& forall|x: int|
            0 <= x < fov_view(self).len() ==> (#[trigger] fov_view(self)[x]).len() == MAP_HEIGHT
    }

    /// A field of view in which nothing is visible.
    pub fn new() -> (f: Fov)
        ensures
            f.wf(),
            forall|x: int, y: int| in_map(x, y) ==> !(#[trigger] fov_view(f)[x][y]),
    {
        let mut cols: Vec<Vec<bool>> = Vec::new();
        while cols.len() < MAP_WIDTH as usize
            invariant
                cols@.len() <= MAP_WIDTH,
                forall|x: int| 0 <= x < cols@.len() ==> (#[trigger] cols@[x])@.len() == MAP_HEIGHT,
                forall|x: int, y: int|
                    0 <= x < cols@.len() && 0 <= y < MAP_HEIGHT ==> !(#[trigger] cols@[x]@[y]),
            decreases MAP_WIDTH - cols@.len(),
        {
            let mut col: Vec<bool> = Vec::new();
            while col.len() < MAP_HEIGHT as usize
                invariant
                    col@.len() <= MAP_HEIGHT,
                    forall|y: int| 0 <= y < col@.len() ==> !(#[trigger] col@[y]),
                decreases MAP_HEIGHT - col@.len(),
            {
                col.push(false);
            }
            cols.push(col);
        }
        let f = Fov { visible: cols };
        proof {
            assert forall|x: int| 0 <= x < fov_view(f).len() implies (#[trigger] fov_view(f)[x]).len()
                == MAP_HEIGHT by {
                assert(fov_view(f)[x] == f.visible@[x]@);
            }
            assert forall|x: int, y: int| in_map(x, y) implies !(#[trigger] fov_view(f)[x][y]) by {
                assert(fov_view(f)[x] == f.visible@[x]@);
            }
        }
        f
    }

    /// Marks one cell's visibility.
    pub fn set(&mut self, x: usize, y: usize, v: bool)
        requires
            old(self).wf(),
            x < MAP_WIDTH,
            y < MAP_HEIGHT,
        ensures
            final(self).wf(),
            fov_view(*final(self)) == fov_view(*old(self)).update(
                x as int,
                fov_view(*old(self))[x as int].update(y as int, v),
            ),
    {
        proof {
            assert(fov_view(*self)[x as int] == self.visible@[x as int]@);
        }
        self.visible[x][y] = v;
        proof {
            let f0 = *old(self);
            let f1 = *self;
            assert forall|i: int| 0 <= i < fov_view(f1).len() implies #[trigger] fov_view(f1)[i]
                == fov_view(f0).update(
                x as int,
                fov_view(f0)[x as int].update(y as int, v),
            )[i] by {
                assert(fov_view(f1)[i] == f1.visible@[i]@);
                assert(fov_view(f0)[i] == f0.visible@[i]@);
            }
            assert(fov_view(f1) =~= fov_view(f0).update(
                x as int,
                fov_view(f0)[x as int].update(y as int, v),
            ));
            assert forall|i: int| 0 <= i < fov_view(f1).len() implies (#[trigger] fov_view(
                f1,
            )[i]).len() == MAP_HEIGHT by {}
        }
    }

    /// Whether the cell `(x, y)` is currently visible.
    pub fn is_in_fov(&self, x: i32, y: i32) -> (r: bool)
        requires
            self.wf(),
            in_map(x as int, y as int),
        ensures
            r == fov_view(*self)[x as int][y as int],
    {
        proof {
            assert(fov_view(*self)[x as int] == self.visible@[x as int]@);
        }
        self.visible[x as usize][y as usize]
    }
}

/// Marks every currently visible tile as explored. Exploration is a
/// side effect of recomputing the field of view, and of nothing else.
pub fn mark_explored(game: &mut crate::game::Game, fov: &Fov)
    requires
        old(game)@.wf(),
        fov.wf(),
    ensures
        final(game)@.wf(),
        final(game)@ == (crate::game::GameV {
            map: final(game)@.map,
            ..old(game)@
        }),
        forall|x: int, y: int|
            in_map(x, y) ==> #[trigger] final(game)@.map[x][y] == (crate::gamemap::Tile {
                explored: old(game)@.map[x][y].explored || fov_view(*fov)[x][y],
                ..old(game)@.map[x][y]
            }),
{
    let ghost g0 = old(game)@;
    let ghost fv = fov_view(*fov);
    let mut x: usize = 0;
    while x < MAP_WIDTH as usize
        invariant
            fov.wf(),
            fv == fov_view(*fov),
            0 <= x <= MAP_WIDTH,
            crate::gamemap::map_dims_ok(game@.map),
            game@ == (crate::game::GameV { map: game@.map, ..g0 }),
            crate::gamemap::map_dims_ok(g0.map),
            forall|i: int, j: int|
                in_map(i, j) ==> #[trigger] game@.map[i][j] == (crate::gamemap::Tile {
                    explored: g0.map[i][j].explored || (i < x && fv[i][j]),
                    ..g0.map[i][j]
                }),
        decreases MAP_WIDTH - x,
    {
        let mut y: usize = 0;
        while y < MAP_HEIGHT as usize
            invariant
                fov.wf(),
                fv == fov_view(*fov),
                0 <= x < MAP_WIDTH,
                0 <= y <= MAP_HEIGHT,
                crate::gamemap::map_dims_ok(game@.map),
                game@ == (crate::game::GameV { map: game@.map, ..g0 }),
                crate::gamemap::map_dims_ok(g0.map),
                forall|i: int, j: int|
                    in_map(i, j) ==> #[trigger] game@.map[i][j] == (crate::gamemap::Tile {
                        explored: g0.map[i][j].explored || ((i < x || (i == x && j < y)) && fv[i][j]),
                        ..g0.map[i][j]
                    }),
            decreases MAP_HEIGHT - y,
        {
            if fov.is_in_fov(x as i32, y as i32) {
                let t = crate::gamemap::get_tile(&game.map, x, y);
                crate::gamemap::set_tile(
                    &mut game.map,
                    x,
                    y,
                    crate::gamemap::Tile { explored: true, ..t },
                );
            }
            y = y + 1;
        }
        x = x + 1;
    }
    proof {
        let gf = game@;
        assert forall|i: int| 0 <= i < gf.objects.len() implies gf.entity_ok(i) by {
            assert(g0.entity_ok(i));
        }
        assert(crate::game::xp_potential(gf) == crate::game::xp_potential(g0));
        assert(crate::gamemap::border_blocked(gf.map)) by {
            assert forall|i: int, j: int|
                in_map(i, j) && crate::gamemap::on_border(i, j) implies (
            #[trigger] gf.map[i][j]).blocked by {
                assert(g0.map[i][j].blocked);
                assert(gf.map[i][j] == (crate::gamemap::Tile {
                    explored: g0.map[i][j].explored || fv[i][j],
                    ..g0.map[i][j]
                }));
            }
        }
        assert(gf.wf());
    }
}

} // verus!
