//! Walkable connectivity on the tile grid: paths of orthogonally
//! adjacent walkable cells, and the lemmas the dungeon generator uses
//! to show that generated levels are traversable.

use vstd::prelude::*;
use crate::gamemap::{Tile, walkable};

verus! {

/// Two cells are one orthogonal step apart.
pub open spec fn step_adjacent(a: (int, int), b: (int, int)) -> bool {
    ||| (a.0 == b.0 && (b.1 == a.1 + 1 || b.1 == a.1 - 1))
    ||| (a.1 == b.1 && (b.0 == a.0 + 1 || b.0 == a.0 - 1))
}

/// A non-empty sequence of walkable cells, each one step from the next.
pub open spec fn is_path(m: Seq<Seq<Tile>>, p: Seq<(int, int)>) -> bool {
    &&& p.len() >= 1
    &&& forall|i: int| 0 <= i < p.len() ==> walkable(m, (#[trigger] p[i]).0, p[i].1)
    &&& forall|i: int| 0 <= i < p.len() - 1 ==> step_adjacent(#[trigger] p[i], p[i + 1])
}

/// A walkable path leads from `a` to `b`.
pub open spec fn connected(m: Seq<Seq<Tile>>, a: (int, int), b: (int, int)) -> bool {
    exists|p: Seq<(int, int)>| is_path(m, p) && p.first() == a && p.last() == b
}

/// A walkable cell is connected to itself.
pub proof fn lemma_connected_refl(m: Seq<Seq<Tile>>, a: (int, int))
    requires
        walkable(m, a.0, a.1),
    ensures
        connected(m, a, a),
{
    let p = seq![a];
    assert(is_path(m, p));
    assert(p.first() == a && p.last() == a);
}

/// Connectivity is transitive: paths concatenate.
pub proof fn lemma_connected_trans(m: Seq<Seq<Tile>>, a: (int, int), b: (int, int), c: (int, int))
    requires
        connected(m, a, b),
        connected(m, b, c),
    ensures
        connected(m, a, c),
{
    let p1 = choose|p: Seq<(int, int)>| is_path(m, p) && p.first() == a && p.last() == b;
    let p2 = choose|p: Seq<(int, int)>| is_path(m, p) && p.first() == b && p.last() == c;
    let p = p1 + p2.drop_first();
    assert forall|i: int| 0 <= i < p.len() implies walkable(m, (#[trigger] p[i]).0, p[i].1) by {
        if i < p1.len() {
            assert(p[i] == p1[i]);
        } else {
            assert(p[i] == p2[i - p1.len() + 1]);
        }
    }
    assert forall|i: int| 0 <= i < p.len() - 1 implies step_adjacent(#[trigger] p[i], p[i + 1]) by {
        if i + 1 < p1.len() {
            assert(p[i] == p1[i] && p[i + 1] == p1[i + 1]);
        } else if i + 1 == p1.len() {
            // the junction: p1 ends at b, which is p2's first cell
            assert(p[i] == p1[p1.len() - 1]);
            assert(p[i + 1] == p2[1]);
            assert(step_adjacent(p2[0], p2[1]));
        } else {
            assert(p[i] == p2[i - p1.len() + 1]);
            assert(p[i + 1] == p2[i - p1.len() + 2]);
        }
    }
    if p2.len() == 1 {
        assert(b == c);
        assert(p =~= p1);
    } else {
        assert(p.last() == p2.last());
    }
    assert(is_path(m, p) && p.first() == a && p.last() == c);
}

/// Carving never closes a path: a path on a grid stays a path on any
/// grid whose walkable cells include the old ones.
pub proof fn lemma_connected_mono(
    m1: Seq<Seq<Tile>>,
    m2: Seq<Seq<Tile>>,
    a: (int, int),
    b: (int, int),
)
    requires
        connected(m1, a, b),
        forall|x: int, y: int| #[trigger] walkable(m1, x, y) ==> walkable(m2, x, y),
    ensures
        connected(m2, a, b),
{
    let p = choose|p: Seq<(int, int)>| is_path(m1, p) && p.first() == a && p.last() == b;
    assert forall|i: int| 0 <= i < p.len() implies walkable(m2, (#[trigger] p[i]).0, p[i].1) by {
        assert(walkable(m1, p[i].0, p[i].1));
    }
    assert(is_path(m2, p) && p.first() == a && p.last() == b);
}

/// A run of walkable cells along a row is a path.
pub proof fn lemma_h_line_connected(m: Seq<Seq<Tile>>, x_lo: int, x_hi: int, y: int)
    requires
        x_lo <= x_hi,
        forall|x: int| x_lo <= x <= x_hi ==> #[trigger] walkable(m, x, y),
    ensures
        connected(m, (x_lo, y), (x_hi, y)),
{
    let p = Seq::new((x_hi - x_lo + 1) as nat, |i: int| (x_lo + i, y));
    assert forall|i: int| 0 <= i < p.len() implies walkable(m, (#[trigger] p[i]).0, p[i].1) by {
        assert(walkable(m, x_lo + i, y));
    }
    assert(p.first() == (x_lo, y));
    assert(p.last() == (x_hi, y));
    assert(is_path(m, p));
}

/// A run of walkable cells along a column is a path.
pub proof fn lemma_v_line_connected(m: Seq<Seq<Tile>>, y_lo: int, y_hi: int, x: int)
    requires
        y_lo <= y_hi,
        forall|y: int| y_lo <= y <= y_hi ==> #[trigger] walkable(m, x, y),
    ensures
        connected(m, (x, y_lo), (x, y_hi)),
{
    let p = Seq::new((y_hi - y_lo + 1) as nat, |i: int| (x, y_lo + i));
    assert forall|i: int| 0 <= i < p.len() implies walkable(m, (#[trigger] p[i]).0, p[i].1) by {
        assert(walkable(m, x, y_lo + i));
    }
    assert(p.first() == (x, y_lo));
    assert(p.last() == (x, y_hi));
    assert(is_path(m, p));
}

/// Connectivity is symmetric: a path walks both ways.
pub proof fn lemma_connected_sym(m: Seq<Seq<Tile>>, a: (int, int), b: (int, int))
    requires
        connected(m, a, b),
    ensures
        connected(m, b, a),
{
    let p = choose|p: Seq<(int, int)>| is_path(m, p) && p.first() == a && p.last() == b;
    let q = p.reverse();
    assert forall|i: int| 0 <= i < q.len() implies walkable(m, (#[trigger] q[i]).0, q[i].1) by {
        assert(q[i] == p[p.len() - 1 - i]);
    }
    assert forall|i: int| 0 <= i < q.len() - 1 implies step_adjacent(#[trigger] q[i], q[i + 1]) by {
        assert(q[i] == p[p.len() - 1 - i]);
        assert(q[i + 1] == p[p.len() - 2 - i]);
        assert(step_adjacent(p[p.len() - 2 - i], p[p.len() - 1 - i]));
    }
    assert(q.first() == b && q.last() == a);
    assert(is_path(m, q));
}

/// Consecutively connected waypoints connect end to end.
pub proof fn lemma_connected_chain(m: Seq<Seq<Tile>>, pts: Seq<(int, int)>)
    requires
        pts.len() >= 1,
        walkable(m, pts.first().0, pts.first().1),
        forall|i: int| 0 <= i < pts.len() - 1 ==> connected(m, #[trigger] pts[i], pts[i + 1]),
    ensures
        connected(m, pts.first(), pts.last()),
    decreases pts.len(),
{
    if pts.len() == 1 {
        lemma_connected_refl(m, pts.first());
    } else {
        let init = pts.drop_last();
        assert(init.first() == pts.first());
        assert forall|i: int| 0 <= i < init.len() - 1 implies connected(
            m,
            #[trigger] init[i],
            init[i + 1],
        ) by {
            assert(init[i] == pts[i] && init[i + 1] == pts[i + 1]);
        }
        lemma_connected_chain(m, init);
        assert(connected(m, pts[pts.len() - 2], pts[pts.len() - 1]));
        lemma_connected_trans(m, pts.first(), init.last(), pts.last());
    }
}

} // verus!
