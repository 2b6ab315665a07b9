//! Reachability over floor tiles: a tile is reachable from another when
//! a path of orthogonally adjacent floor tiles connects them. The
//! dungeon generator maintains this between every pair of room centers.

use vstd::prelude::*;
use crate::map::GameMap;

verus! {

/// One orthogonal step between two tiles.
pub open spec fn adjacent_step(a: (int, int), b: (int, int)) -> bool {
    ||| (a.0 == b.0 && (a.1 == b.1 + 1 || a.1 + 1 == b.1))
    ||| (a.1 == b.1 && (a.0 == b.0 + 1 || a.0 + 1 == b.0))
}

/// A non-empty sequence of floor tiles, each orthogonally adjacent to
/// the next.
pub open spec fn floor_path(m: GameMap, path: Seq<(int, int)>) -> bool {
    &&& path.len() >= 1
    &&& forall|i: int| 0 <= i < path.len() ==> m.is_floor((#[trigger] path[i]).0, path[i].1)
    &&& forall|i: int| 0 <= i < path.len() - 1 ==> adjacent_step(#[trigger] path[i], path[i + 1])
}

/// A floor-only path leads from `a` to `b`.
pub open spec fn reachable(m: GameMap, a: (int, int), b: (int, int)) -> bool {
    exists|path: Seq<(int, int)>|
        floor_path(m, path) && (#[trigger] path.first()) == a && path.last() == b
}

/// A floor tile is reachable from itself.
pub proof fn lemma_reach_self(m: GameMap, a: (int, int))
    requires
        m.is_floor(a.0, a.1),
    ensures
        reachable(m, a, a),
{
    let path = seq![a];
    assert(floor_path(m, path) && path.first() == a && path.last() == a);
}

/// Reachability extends along one adjacent floor tile.
pub proof fn lemma_reach_step(m: GameMap, a: (int, int), b: (int, int), c: (int, int))
    requires
        reachable(m, a, b),
        adjacent_step(b, c),
        m.is_floor(c.0, c.1),
    ensures
        reachable(m, a, c),
{
    let path = choose|path: Seq<(int, int)>|
        floor_path(m, path) && (#[trigger] path.first()) == a && path.last() == b;
    let path2 = path.push(c);
    assert forall|i: int| 0 <= i < path2.len() - 1 implies adjacent_step(
        #[trigger] path2[i],
        path2[i + 1],
    ) by {
        if i < path.len() - 1 {
            assert(path2[i] == path[i] && path2[i + 1] == path[i + 1]);
            assert(adjacent_step(path[i], path[i + 1]));
        } else {
            assert(path2[i] == path.last() && path2[i + 1] == c);
        }
    }
    assert forall|i: int| 0 <= i < path2.len() implies m.is_floor(
        (#[trigger] path2[i]).0,
        path2[i].1,
    ) by {
        if i < path.len() {
            assert(path2[i] == path[i]);
        } else {
            assert(path2[i] == c);
        }
    }
    assert(floor_path(m, path2) && path2.first() == a && path2.last() == c);
}

/// Reachability is transitive.
pub proof fn lemma_reach_trans(m: GameMap, a: (int, int), b: (int, int), c: (int, int))
    requires
        reachable(m, a, b),
        reachable(m, b, c),
    ensures
        reachable(m, a, c),
{
    let p2 = choose|p2: Seq<(int, int)>|
        floor_path(m, p2) && (#[trigger] p2.first()) == b && p2.last() == c;
    lemma_reach_along(m, a, p2, p2.len() - 1);
    assert(p2[p2.len() - 1] == c);
}

/// Every prefix endpoint of a floor path starting at a tile reachable
/// from `a` is itself reachable from `a`.
proof fn lemma_reach_along(m: GameMap, a: (int, int), p: Seq<(int, int)>, k: int)
    requires
        floor_path(m, p),
        reachable(m, a, p.first()),
        0 <= k < p.len(),
    ensures
        reachable(m, a, p[k]),
    decreases k,
{
    if k == 0 {
        assert(p[0] == p.first());
    } else {
        lemma_reach_along(m, a, p, k - 1);
        assert(adjacent_step(p[k - 1], p[k]));
        lemma_reach_step(m, a, p[k - 1], p[k]);
    }
}

/// Reachability is symmetric: the path runs backwards just as well.
pub proof fn lemma_reach_sym(m: GameMap, a: (int, int), b: (int, int))
    requires
        reachable(m, a, b),
    ensures
        reachable(m, b, a),
{
    let path = choose|path: Seq<(int, int)>|
        floor_path(m, path) && (#[trigger] path.first()) == a && path.last() == b;
    let n = path.len() as int;
    let rev = Seq::new(path.len(), |i: int| path[n - 1 - i]);
    assert forall|i: int| 0 <= i < rev.len() - 1 implies adjacent_step(
        #[trigger] rev[i],
        rev[i + 1],
    ) by {
        assert(rev[i] == path[n - 1 - i] && rev[i + 1] == path[n - 2 - i]);
        assert(adjacent_step(path[n - 2 - i], path[n - 1 - i]));
    }
    assert forall|i: int| 0 <= i < rev.len() implies m.is_floor(
        (#[trigger] rev[i]).0,
        rev[i].1,
    ) by {
        assert(rev[i] == path[n - 1 - i]);
    }
    assert(floor_path(m, rev) && rev.first() == b && rev.last() == a);
}

/// Carving can only add floor, so every path survives it.
pub proof fn lemma_reach_monotone(m1: GameMap, m2: GameMap, a: (int, int), b: (int, int))
    requires
        reachable(m1, a, b),
        forall|x: int, y: int| m1.is_floor(x, y) ==> m2.is_floor(x, y),
    ensures
        reachable(m2, a, b),
{
    let path = choose|path: Seq<(int, int)>|
        floor_path(m1, path) && (#[trigger] path.first()) == a && path.last() == b;
    assert forall|i: int| 0 <= i < path.len() implies m2.is_floor(
        (#[trigger] path[i]).0,
        path[i].1,
    ) by {
        assert(m1.is_floor(path[i].0, path[i].1));
    }
    assert(floor_path(m2, path) && path.first() == a && path.last() == b);
}

/// A run of floor tiles in one row is a path: the two ends reach each
/// other.
pub proof fn lemma_reach_row(m: GameMap, lo: int, hi: int, y: int)
    requires
        lo <= hi,
        forall|x: int| lo <= x <= hi ==> #[trigger] m.is_floor(x, y),
    ensures
        reachable(m, (lo, y), (hi, y)),
    decreases hi - lo,
{
    if lo == hi {
        lemma_reach_self(m, (lo, y));
    } else {
        lemma_reach_row(m, lo, hi - 1, y);
        lemma_reach_step(m, (lo, y), (hi - 1, y), (hi, y));
    }
}

/// A run of floor tiles in one column is a path.
pub proof fn lemma_reach_column(m: GameMap, lo: int, hi: int, x: int)
    requires
        lo <= hi,
        forall|y: int| lo <= y <= hi ==> #[trigger] m.is_floor(x, y),
    ensures
        reachable(m, (x, lo), (x, hi)),
    decreases hi - lo,
{
    if lo == hi {
        lemma_reach_self(m, (x, lo));
    } else {
        lemma_reach_column(m, lo, hi - 1, x);
        lemma_reach_step(m, (x, lo), (x, hi - 1), (x, hi));
    }
}

/// The two ends of a floor run in a row reach each other, whichever
/// order they come in.
pub proof fn lemma_reach_row_ends(m: GameMap, x1: int, x2: int, y: int)
    requires
        forall|x: int|
            vstd::math::min(x1, x2) <= x <= vstd::math::max(x1, x2) ==> #[trigger] m.is_floor(x, y),
    ensures
        reachable(m, (x1, y), (x2, y)),
{
    if x1 <= x2 {
        lemma_reach_row(m, x1, x2, y);
    } else {
        lemma_reach_row(m, x2, x1, y);
        lemma_reach_sym(m, (x2, y), (x1, y));
    }
}

/// The two ends of a floor run in a column reach each other.
pub proof fn lemma_reach_col_ends(m: GameMap, y1: int, y2: int, x: int)
    requires
        forall|y: int|
            vstd::math::min(y1, y2) <= y <= vstd::math::max(y1, y2) ==> #[trigger] m.is_floor(x, y),
    ensures
        reachable(m, (x, y1), (x, y2)),
{
    if y1 <= y2 {
        lemma_reach_column(m, y1, y2, x);
    } else {
        lemma_reach_column(m, y2, y1, x);
        lemma_reach_sym(m, (x, y2), (x, y1));
    }
}

} // verus!
