//! Reachability over floor tiles.  A path is a sequence of in-map floor
//! tiles in which consecutive tiles share an edge; two tiles are connected
//! when such a path joins them.  The map generator proves that the centre of
//! every room it accepts is connected to the centre of the first room.

use vstd::prelude::*;
use crate::map::{GameMap, min_int, max_int};

verus! {

/// True when `a` and `b` are orthogonal neighbours on the grid.
pub open spec fn adj4(a: (int, int), b: (int, int)) -> bool {
    ||| (a.0 == b.0 && (a.1 == b.1 + 1 || a.1 == b.1 - 1))
    ||| (a.1 == b.1 && (a.0 == b.0 + 1 || a.0 == b.0 - 1))
}

/// A walk over floor tiles: non-empty, every tile is floor, and
/// consecutive tiles are orthogonal neighbours.
pub open spec fn is_floor_path(m: GameMap, p: Seq<(int, int)>) -> bool {
    &&& p.len() >= 1
    &&& forall|i: int| 0 <= i < p.len() ==> m.is_floor((#[trigger] p[i]).0, p[i].1)
    &&& forall|i: int| 0 <= i < p.len() - 1 ==> adj4(#[trigger] p[i], p[i + 1])
}

/// Two tiles are connected when a floor path leads from one to the other.
pub open spec fn connected(m: GameMap, a: (int, int), b: (int, int)) -> bool {
    exists|p: Seq<(int, int)>| is_floor_path(m, p) && p.first() == a && p.last() == b
}

/// A floor tile is connected to itself.
pub proof fn lemma_connected_refl(m: GameMap, a: (int, int))
    requires
        m.is_floor(a.0, a.1),
    ensures
        connected(m, a, a),
{
    let p = seq![a];
    assert(is_floor_path(m, p) && p.first() == a && p.last() == a);
}

/// A connection can be extended by one neighbouring floor tile.
pub proof fn lemma_connected_step(m: GameMap, a: (int, int), b: (int, int), c: (int, int))
    requires
        connected(m, a, b),
        adj4(b, c),
        m.is_floor(c.0, c.1),
    ensures
        connected(m, a, c),
{
    let p = choose|p: Seq<(int, int)>| is_floor_path(m, p) && p.first() == a && p.last() == b;
    let q = p.push(c);
    assert forall|i: int| 0 <= i < q.len() implies m.is_floor((#[trigger] q[i]).0, q[i].1) by {
        if i < p.len() {
            assert(q[i] == p[i]);
        }
    }
    assert forall|i: int| 0 <= i < q.len() - 1 implies adj4(#[trigger] q[i], q[i + 1]) by {
        if i < p.len() - 1 {
            assert(q[i] == p[i] && q[i + 1] == p[i + 1]);
        } else {
            assert(q[i] == p.last() && q[i + 1] == c);
        }
    }
    assert(is_floor_path(m, q) && q.first() == a && q.last() == c);
}

/// Connectivity is transitive.
pub proof fn lemma_connected_trans(m: GameMap, a: (int, int), b: (int, int), c: (int, int))
    requires
        connected(m, a, b),
        connected(m, b, c),
    ensures
        connected(m, a, c),
{
    let p = choose|p: Seq<(int, int)>| is_floor_path(m, p) && p.first() == a && p.last() == b;
    let q = choose|q: Seq<(int, int)>| is_floor_path(m, q) && q.first() == b && q.last() == c;
    let r = p + q.drop_first();
    if q.len() == 1 {
        assert(r =~= p);
        assert(is_floor_path(m, r) && r.first() == a && r.last() == c);
    } else {
        assert forall|i: int| 0 <= i < r.len() implies m.is_floor((#[trigger] r[i]).0, r[i].1) by {
            if i < p.len() {
                assert(r[i] == p[i]);
            } else {
                assert(r[i] == q[i - p.len() + 1]);
            }
        }
        assert forall|i: int| 0 <= i < r.len() - 1 implies adj4(#[trigger] r[i], r[i + 1]) by {
            if i < p.len() - 1 {
                assert(r[i] == p[i] && r[i + 1] == p[i + 1]);
            } else if i == p.len() - 1 {
                assert(r[i] == p.last() && r[i + 1] == q[1]);
                assert(adj4(q[0], q[1]));
            } else {
                assert(r[i] == q[i - p.len() + 1] && r[i + 1] == q[i - p.len() + 2]);
            }
        }
        assert(r.last() == q.last());
        assert(is_floor_path(m, r) && r.first() == a && r.last() == c);
    }
}

/// Adding floor tiles never severs a connection: a path through `m1` is
/// still a path through any map `m2` whose floor is a superset.
pub proof fn lemma_connected_monotone(m1: GameMap, m2: GameMap, a: (int, int), b: (int, int))
    requires
        connected(m1, a, b),
        forall|x: int, y: int| m1.is_floor(x, y) ==> m2.is_floor(x, y),
    ensures
        connected(m2, a, b),
{
    let p = choose|p: Seq<(int, int)>| is_floor_path(m1, p) && p.first() == a && p.last() == b;
    assert forall|i: int| 0 <= i < p.len() implies m2.is_floor((#[trigger] p[i]).0, p[i].1) by {
        assert(m1.is_floor(p[i].0, p[i].1));
    }
    assert(is_floor_path(m2, p) && p.first() == a && p.last() == b);
}

/// A fully-floor horizontal run connects its two end tiles, whichever
/// order they are given in.
pub proof fn lemma_horizontal_connected(m: GameMap, x1: int, x2: int, y: int)
    requires
        forall|x: int| min_int(x1, x2) <= x <= max_int(x1, x2) ==> m.is_floor(x, y),
    ensures
        connected(m, (x1, y), (x2, y)),
    decreases
        if x1 < x2 { x2 - x1 } else { x1 - x2 },
{
    if x1 == x2 {
        lemma_connected_refl(m, (x1, y));
    } else if x1 < x2 {
        lemma_horizontal_connected(m, x1, x2 - 1, y);
        lemma_connected_step(m, (x1, y), (x2 - 1, y), (x2, y));
    } else {
        lemma_horizontal_connected(m, x1, x2 + 1, y);
        lemma_connected_step(m, (x1, y), (x2 + 1, y), (x2, y));
    }
}

/// A fully-floor vertical run connects its two end tiles, whichever order
/// they are given in.
pub proof fn lemma_vertical_connected(m: GameMap, y1: int, y2: int, x: int)
    requires
        forall|y: int| min_int(y1, y2) <= y <= max_int(y1, y2) ==> m.is_floor(x, y),
    ensures
        connected(m, (x, y1), (x, y2)),
    decreases
        if y1 < y2 { y2 - y1 } else { y1 - y2 },
{
    if y1 == y2 {
        lemma_connected_refl(m, (x, y1));
    } else if y1 < y2 {
        lemma_vertical_connected(m, y1, y2 - 1, x);
        lemma_connected_step(m, (x, y1), (x, y2 - 1), (x, y2));
    } else {
        lemma_vertical_connected(m, y1, y2 + 1, x);
        lemma_connected_step(m, (x, y1), (x, y2 + 1), (x, y2));
    }
}

} // verus!
