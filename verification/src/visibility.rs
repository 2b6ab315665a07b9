//! The visibility system: a ray-based field of view over the map's
//! wall/floor tiles. A tile is visible from an origin when it is in
//! bounds, within the sight range (Chebyshev distance), and the stepped
//! line toward it crosses no wall; walls block, floors transmit, and the
//! target tile itself may be a wall (walls can be seen).
//!
//! On open floor the relation is symmetric: the line between two floor
//! tiles crosses no wall in either direction, and the distance is the
//! same both ways.

use vstd::prelude::*;
use crate::components::{Position, Viewshed};
use crate::map::{GameMap, TileType};
use crate::world::World;

verus! {

/// The magnitude of `x`.
pub open spec fn abs_i(x: int) -> int {
    if x < 0 {
        -x
    } else {
        x
    }
}

/// Chebyshev (grid) distance between two tiles.
pub open spec fn cheb_dist(ax: int, ay: int, bx: int, by: int) -> int {
    vstd::math::max(abs_i(ax - bx), abs_i(ay - by))
}

/// One step of each coordinate toward the target.
pub open spec fn step_toward(c: int, t: int) -> int {
    if c < t {
        c + 1
    } else if c > t {
        c - 1
    } else {
        c
    }
}

/// A tile that sight cannot pass through: out of bounds or a wall.
pub open spec fn blocks_sight(m: GameMap, x: int, y: int) -> bool {
    !m.in_bounds(x, y) || m.tiles[m.idx_of(x, y)] == TileType::Wall
}

/// Whether the stepped line from `(cx, cy)` to `(tx, ty)` reaches the
/// target without crossing a wall strictly between the endpoints.
pub open spec fn sight_clear_from(m: GameMap, cx: int, cy: int, tx: int, ty: int) -> bool
    decreases cheb_dist(cx, cy, tx, ty),
{
    if cx == tx && cy == ty {
        true
    } else {
        let nx = step_toward(cx, tx);
        let ny = step_toward(cy, ty);
        if nx == tx && ny == ty {
            true
        } else {
            !blocks_sight(m, nx, ny) && sight_clear_from(m, nx, ny, tx, ty)
        }
    }
}

/// Tile `(tx, ty)` is visible from `(ox, oy)` at sight range `range`.
pub open spec fn tile_visible(m: GameMap, ox: int, oy: int, tx: int, ty: int, range: int) -> bool {
    &&& m.in_bounds(tx, ty)
    &&& cheb_dist(ox, oy, tx, ty) <= range
    &&& sight_clear_from(m, ox, oy, tx, ty)
}

/// Sight depends only on the tile grid, not on the fog-of-war or
/// occupancy arrays.
pub proof fn lemma_sight_same_tiles(m1: GameMap, m2: GameMap, cx: int, cy: int, tx: int, ty: int)
    requires
        m1.tiles == m2.tiles,
        m1.width == m2.width,
        m1.height == m2.height,
    ensures
        sight_clear_from(m1, cx, cy, tx, ty) == sight_clear_from(m2, cx, cy, tx, ty),
    decreases cheb_dist(cx, cy, tx, ty),
{
    if cx == tx && cy == ty {
    } else {
        let nx = step_toward(cx, tx);
        let ny = step_toward(cy, ty);
        if nx == tx && ny == ty {
        } else {
            lemma_sight_same_tiles(m1, m2, nx, ny, tx, ty);
        }
    }
}

/// Visibility depends only on the tile grid.
pub proof fn lemma_visible_same_tiles(
    m1: GameMap,
    m2: GameMap,
    ox: int,
    oy: int,
    tx: int,
    ty: int,
    range: int,
)
    requires
        m1.tiles == m2.tiles,
        m1.width == m2.width,
        m1.height == m2.height,
    ensures
        tile_visible(m1, ox, oy, tx, ty, range) == tile_visible(m2, ox, oy, tx, ty, range),
{
    lemma_sight_same_tiles(m1, m2, ox, oy, tx, ty);
}

/// Executable walk of the stepped sight line.
fn sight_clear_exec(m: &GameMap, cx: i32, cy: i32, tx: i32, ty: i32) -> (r: bool)
    requires
        m.wf(),
        -1000 <= cx <= 1000,
        -1000 <= cy <= 1000,
        -1000 <= tx <= 1000,
        -1000 <= ty <= 1000,
    ensures
        r == sight_clear_from(*m, cx as int, cy as int, tx as int, ty as int),
    decreases cheb_dist(cx as int, cy as int, tx as int, ty as int),
{
    if cx == tx && cy == ty {
        true
    } else {
        let nx = if cx < tx {
            cx + 1
        } else if cx > tx {
            cx - 1
        } else {
            cx
        };
        let ny = if cy < ty {
            cy + 1
        } else if cy > ty {
            cy - 1
        } else {
            cy
        };
        if nx == tx && ny == ty {
            true
        } else {
            let open_here = if nx >= 0 && ny >= 0 && nx < m.width && ny < m.height {
                let idx = m.xy_idx(nx, ny);
                match m.tiles[idx] {
                    TileType::Wall => false,
                    TileType::Floor => true,
                }
            } else {
                false
            };
            if open_here {
                sight_clear_exec(m, nx, ny, tx, ty)
            } else {
                false
            }
        }
    }
}

/// Whether `t` is visible from `(ox, oy)`, as a predicate on a tile
/// coordinate pair.
pub open spec fn pair_visible(m: GameMap, ox: int, oy: int, t: (i32, i32), range: int) -> bool {
    tile_visible(m, ox, oy, t.0 as int, t.1 as int, range)
}

/// The set of tiles visible from `(ox, oy)` at the given range: a tile
/// pair is in the result exactly when it is visible.
pub fn field_of_view(m: &GameMap, ox: i32, oy: i32, range: i32) -> (r: Vec<(i32, i32)>)
    requires
        m.wf(),
        m.in_bounds(ox as int, oy as int),
        0 <= range <= 100,
    ensures
        forall|t: (i32, i32)| #[trigger]
            r@.contains(t) <==> pair_visible(*m, ox as int, oy as int, t, range as int),
{
    let mut r: Vec<(i32, i32)> = Vec::new();
    let mut dy: i32 = -range;
    while dy <= range
        invariant
            m.wf(),
            m.in_bounds(ox as int, oy as int),
            0 <= range <= 100,
            -range <= dy <= range + 1,
            forall|t: (i32, i32)| #[trigger]
                r@.contains(t) ==> pair_visible(*m, ox as int, oy as int, t, range as int),
            forall|t: (i32, i32)|
                pair_visible(*m, ox as int, oy as int, t, range as int) && t.1 < oy + dy ==> #[trigger] r@.contains(t),
        decreases range + 1 - dy,
    {
        let y = oy + dy;
        let mut dx: i32 = -range;
        while dx <= range
            invariant
                m.wf(),
                m.in_bounds(ox as int, oy as int),
                0 <= range <= 100,
                -range <= dy <= range,
                -range <= dx <= range + 1,
                y == oy + dy,
                forall|t: (i32, i32)| #[trigger]
                    r@.contains(t) ==> pair_visible(*m, ox as int, oy as int, t, range as int),
                forall|t: (i32, i32)|
                    pair_visible(*m, ox as int, oy as int, t, range as int) && t.1 < y ==> #[trigger] r@.contains(t),
                forall|t: (i32, i32)|
                    pair_visible(*m, ox as int, oy as int, t, range as int) && t.1 == y && t.0 < ox
                        + dx ==> #[trigger] r@.contains(t),
            decreases range + 1 - dx,
        {
            let x = ox + dx;
            let ghost r0 = r@;
            let mut pushed = false;
            if x >= 0 && y >= 0 && x < m.width && y < m.height {
                if sight_clear_exec(m, ox, oy, x, y) {
                    r.push((x, y));
                    pushed = true;
                    proof {
                        assert(abs_i(x as int - ox as int) == abs_i(dx as int) <= range);
                        assert(abs_i(y as int - oy as int) == abs_i(dy as int) <= range);
                        assert(pair_visible(*m, ox as int, oy as int, (x, y), range as int));
                    }
                }
            }
            proof {
                assert forall|t: (i32, i32)| #[trigger] r@.contains(t) implies pair_visible(
                    *m,
                    ox as int,
                    oy as int,
                    t,
                    range as int,
                ) by {
                    if !r0.contains(t) {
                        let k = choose|k: int| 0 <= k < r@.len() && r@[k] == t;
                        assert(k == r0.len() && r@[k] == (x, y));
                    }
                }
                assert forall|t: (i32, i32)|
                    pair_visible(*m, ox as int, oy as int, t, range as int) && t.1 < y implies #[
                trigger] r@.contains(t) by {
                    assert(r0.contains(t));
                    let kk = choose|kk: int| 0 <= kk < r0.len() && r0[kk] == t;
                    assert(r@[kk] == t);
                }
                assert forall|t: (i32, i32)|
                    pair_visible(*m, ox as int, oy as int, t, range as int) && t.1 == y && t.0 < ox
                        + dx + 1 implies #[trigger] r@.contains(t) by {
                    if t.0 < ox + dx {
                        assert(r0.contains(t));
                        let k = choose|k: int| 0 <= k < r0.len() && r0[k] == t;
                        assert(r@[k] == t);
                    } else {
                        assert(t.0 == x && t.1 == y);
                        assert(m.in_bounds(x as int, y as int));
                        assert(pushed);
                        assert(r@[r0.len() as int] == (x, y));
                    }
                }
            }
            dx = dx + 1;
        }
        proof {
            assert forall|t: (i32, i32)|
                pair_visible(*m, ox as int, oy as int, t, range as int) && t.1 < y + 1 implies #[
            trigger] r@.contains(t) by {
                if t.1 == y {
                    assert(abs_i(ox as int - t.0 as int) <= cheb_dist(
                        ox as int,
                        oy as int,
                        t.0 as int,
                        t.1 as int,
                    ));
                    assert(t.0 < ox + dx);
                }
            }
            assert(forall|t: (i32, i32)|
                pair_visible(*m, ox as int, oy as int, t, range as int) && t.1 < oy + dy + 1
                    ==> #[trigger] r@.contains(t));
        }
        dy = dy + 1;
    }
    proof {
        assert forall|t: (i32, i32)|
            pair_visible(*m, ox as int, oy as int, t, range as int) implies #[trigger] r@.contains(
            t,
        ) by {
            assert(abs_i(t.1 as int - oy as int) <= range);
            assert(t.1 < oy + dy);
        }
    }
    r
}

/// Every in-bounds tile is open floor.
pub open spec fn all_open(m: GameMap) -> bool {
    forall|x: int, y: int| m.in_bounds(x, y) ==> !blocks_sight(m, x, y)
}

/// On a map of open floor the stepped line never meets a wall, as long
/// as both endpoints are in bounds (every step stays between them).
pub proof fn lemma_sight_clear_on_open(m: GameMap, cx: int, cy: int, tx: int, ty: int)
    requires
        m.wf(),
        all_open(m),
        m.in_bounds(cx, cy),
        m.in_bounds(tx, ty),
    ensures
        sight_clear_from(m, cx, cy, tx, ty),
    decreases cheb_dist(cx, cy, tx, ty),
{
    if cx == tx && cy == ty {
    } else {
        let nx = step_toward(cx, tx);
        let ny = step_toward(cy, ty);
        if nx == tx && ny == ty {
        } else {
            assert(m.in_bounds(nx, ny));
            lemma_sight_clear_on_open(m, nx, ny, tx, ty);
        }
    }
}

/// Field of view is symmetric on open floor: if tile B is visible from
/// tile A at some range, then A is visible from B at the same range.
/// (Through walls this need not hold; the premise rules walls out.)
pub proof fn lemma_fov_symmetric_open(m: GameMap, ax: int, ay: int, bx: int, by: int, range: int)
    requires
        m.wf(),
        all_open(m),
        m.in_bounds(ax, ay),
        m.in_bounds(bx, by),
    ensures
        tile_visible(m, ax, ay, bx, by, range) <==> tile_visible(m, bx, by, ax, ay, range),
{
    lemma_sight_clear_on_open(m, ax, ay, bx, by);
    lemma_sight_clear_on_open(m, bx, by, ax, ay);
    assert(cheb_dist(ax, ay, bx, by) == cheb_dist(bx, by, ax, ay));
}

/// What one recomputed viewshed promises: exactly the visible tiles
/// from `p` at range `range` over the tile grid of `m`, marked clean.
pub open spec fn viewshed_fresh(v2: Viewshed, m: GameMap, p: Position, range: i32) -> bool {
    &&& v2.range == range
    &&& !v2.dirty
    &&& forall|t: (i32, i32)| #[trigger]
        v2.visible_tiles@.contains(t) <==> pair_visible(m, p.x as int, p.y as int, t, range as int)
}

/// Every live, positioned, dirty-sighted entity's viewshed has been
/// recomputed exactly (per `viewshed_fresh` over the old tile grid);
/// every other slot is untouched.
pub open spec fn viewsheds_recomputed(
    m_old: GameMap,
    alive: Seq<bool>,
    positions: Seq<Option<Position>>,
    vs_old: Seq<Option<Viewshed>>,
    vs_new: Seq<Option<Viewshed>>,
) -> bool {
    &&& vs_new.len() == alive.len()
    &&& forall|e: int|
        0 <= e < alive.len() ==> match #[trigger] vs_old[e] {
            Some(v) => {
                if alive[e] && positions[e] is Some && v.dirty {
                    match vs_new[e] {
                        Some(v2) => viewshed_fresh(v2, m_old, positions[e]->Some_0, v.range),
                        None => false,
                    }
                } else {
                    vs_new[e] == vs_old[e]
                }
            },
            None => vs_new[e] is None,
        }
}

/// The whole effect of one visibility pass, as a relation between the
/// world before and after: viewsheds recomputed, the map's fog-of-war
/// arrays tracking the player's fresh view, everything else untouched.
pub open spec fn vis_step(w0: World, w1: World) -> bool {
    &&& w1.alive == w0.alive
    &&& w1.pending_destroy == w0.pending_destroy
    &&& w1.positions == w0.positions
    &&& w1.renderables == w0.renderables
    &&& w1.players == w0.players
    &&& w1.monsters == w0.monsters
    &&& w1.items == w0.items
    &&& w1.blocks_tile == w0.blocks_tile
    &&& w1.names == w0.names
    &&& w1.combat_stats == w0.combat_stats
    &&& w1.healing_potions == w0.healing_potions
    &&& w1.wants_melee == w0.wants_melee
    &&& w1.suffer_damage == w0.suffer_damage
    &&& w1.in_backpack == w0.in_backpack
    &&& w1.wants_pickup == w0.wants_pickup
    &&& w1.rng == w0.rng
    &&& w1.log == w0.log
    &&& w1.player_entity == w0.player_entity
    &&& w1.map.width == w0.map.width
    &&& w1.map.height == w0.map.height
    &&& w1.map.tiles == w0.map.tiles
    &&& w1.map.rooms == w0.map.rooms
    &&& w1.map.blocked == w0.map.blocked
    &&& w1.map.tile_content == w0.map.tile_content
    &&& viewsheds_recomputed(w0.map, w0.alive@, w0.positions@, w0.viewsheds@, w1.viewsheds@)
    &&& player_maps_updated(w0.map, w1.map, w0.alive@, w0.positions@, w0.viewsheds@, w0.player_entity)
}

/// A visible tile is always revealed: the fog-of-war never shows a
/// tile at full brightness that has not been seen.
pub open spec fn visible_within_revealed(m: GameMap) -> bool {
    forall|x: int, y: int|
        m.in_bounds(x, y) && (#[trigger] m.visible_tiles[m.idx_of(x, y)])
            ==> m.revealed_tiles[m.idx_of(x, y)]
}

/// Between passes the map's `visible` array agrees with the player's
/// viewshed: whenever that viewshed is clean (not awaiting
/// recomputation), `visible` holds exactly its tiles.
pub open spec fn fog_matches_player(w: World) -> bool {
    match w.player_entity {
        Some(p) => {
            if (p as int) < w.viewsheds.len() && (w.viewsheds[p as int] matches Some(v)
                && !v.dirty) {
                forall|x: int, y: int|
                    w.map.in_bounds(x, y) ==> ((#[trigger] w.map.visible_tiles[w.map.idx_of(x, y)])
                        == w.viewsheds[p as int]->Some_0.visible_tiles@.contains(
                        (x as i32, y as i32),
                    ))
            } else {
                true
            }
        },
        None => true,
    }
}

/// The cross-turn fog-of-war invariant: only the player's view drives
/// the `visible` array, and everything visible has been revealed.
pub open spec fn fog_consistent(w: World) -> bool {
    visible_within_revealed(w.map) && fog_matches_player(w)
}

/// Fog consistency survives any step that leaves the fog arrays alone
/// and either keeps the player's viewshed, clears it, or only marks it
/// dirty.
pub proof fn lemma_fog_carryover(w0: World, w1: World)
    requires
        fog_consistent(w0),
        w1.map.visible_tiles == w0.map.visible_tiles,
        w1.map.revealed_tiles == w0.map.revealed_tiles,
        w1.map.width == w0.map.width,
        w1.map.height == w0.map.height,
        w1.player_entity == w0.player_entity,
        w1.viewsheds.len() == w0.viewsheds.len(),
        match w0.player_entity {
            Some(p) => (p as int) < w0.viewsheds.len() ==> (w1.viewsheds[p as int]
                == w0.viewsheds[p as int] || w1.viewsheds[p as int] is None || (w1.viewsheds[p
                as int] matches Some(v) && v.dirty)),
            None => true,
        },
    ensures
        fog_consistent(w1),
{
    assert forall|x: int, y: int|
        w1.map.in_bounds(x, y) && (#[trigger] w1.map.visible_tiles[w1.map.idx_of(x, y)]) implies
        w1.map.revealed_tiles[w1.map.idx_of(x, y)] by {
        assert(w0.map.idx_of(x, y) == w1.map.idx_of(x, y));
        assert(w0.map.in_bounds(x, y));
        assert(w0.map.visible_tiles[w0.map.idx_of(x, y)]);
    }
    match w0.player_entity {
        None => {},
        Some(p) => {
            if (p as int) < w1.viewsheds.len() && (w1.viewsheds[p as int] matches Some(v)
                && !v.dirty) {
                assert(w1.viewsheds[p as int] == w0.viewsheds[p as int]);
                assert forall|x: int, y: int| w1.map.in_bounds(x, y) implies ((
                #[trigger] w1.map.visible_tiles[w1.map.idx_of(x, y)]) == w1.viewsheds[p
                    as int]->Some_0.visible_tiles@.contains((x as i32, y as i32))) by {
                    assert(w0.map.idx_of(x, y) == w1.map.idx_of(x, y));
                    assert(w0.map.in_bounds(x, y));
                    assert(w0.map.visible_tiles[w0.map.idx_of(x, y)] == w0.viewsheds[p
                        as int]->Some_0.visible_tiles@.contains((x as i32, y as i32)));
                }
            }
        },
    }
}

/// One pass of the visibility system. Every live entity with a position
/// and a dirty viewshed has its visible-tile set recomputed from the
/// map; clean viewsheds are skipped. For the player the map's `visible`
/// array is set to exactly the player's view and every seen tile is
/// added to `revealed` (which accumulates across the run).
pub fn visibility_system(
    map: &mut GameMap,
    alive: &Vec<bool>,
    positions: &Vec<Option<Position>>,
    viewsheds: &mut Vec<Option<Viewshed>>,
    player: Option<usize>,
)
    requires
        old(map).wf(),
        positions.len() == alive.len(),
        old(viewsheds).len() == alive.len(),
        forall|e: int|
            0 <= e < alive.len() ==> match #[trigger] positions@[e] {
                Some(p) => old(map).in_bounds(p.x as int, p.y as int),
                None => true,
            },
        forall|e: int|
            0 <= e < alive.len() ==> match #[trigger] old(viewsheds)@[e] {
                Some(v) => 0 <= v.range <= 100,
                None => true,
            },
        match player {
            Some(p) => p < alive.len(),
            None => true,
        },
    ensures
        final(map).wf(),
        final(viewsheds).len() == alive.len(),
        final(map).width == old(map).width,
        final(map).height == old(map).height,
        final(map).tiles == old(map).tiles,
        final(map).rooms == old(map).rooms,
        final(map).blocked == old(map).blocked,
        final(map).tile_content == old(map).tile_content,
        viewsheds_recomputed(*old(map), alive@, positions@, old(viewsheds)@, final(viewsheds)@),
        player_maps_updated(*old(map), *final(map), alive@, positions@, old(viewsheds)@, player),
{
    let n = alive.len();
    let mut e: usize = 0;
    while e < n
        invariant
            old(map).wf(),
            n == alive.len(),
            positions.len() == n,
            viewsheds.len() == n,
            old(viewsheds).len() == n,
            e <= n,
            map.wf(),
            map.width == old(map).width,
            map.height == old(map).height,
            map.tiles == old(map).tiles,
            map.rooms == old(map).rooms,
            map.blocked == old(map).blocked,
            map.tile_content == old(map).tile_content,
            forall|e2: int|
                0 <= e2 < n ==> match #[trigger] positions@[e2] {
                    Some(p) => old(map).in_bounds(p.x as int, p.y as int),
                    None => true,
                },
            forall|e2: int|
                0 <= e2 < n ==> match #[trigger] old(viewsheds)@[e2] {
                    Some(v) => 0 <= v.range <= 100,
                    None => true,
                },
            match player {
                Some(p) => p < n,
                None => true,
            },
            forall|e2: int|
                0 <= e2 < n ==> match #[trigger] old(viewsheds)@[e2] {
                    Some(v) => {
                        if e2 < e && alive@[e2] && positions@[e2] is Some && v.dirty {
                            match viewsheds@[e2] {
                                Some(v2) => viewshed_fresh(
                                    v2,
                                    *old(map),
                                    positions@[e2]->Some_0,
                                    v.range,
                                ),
                                None => false,
                            }
                        } else {
                            viewsheds@[e2] == old(viewsheds)@[e2]
                        }
                    },
                    None => viewsheds@[e2] is None,
                },
            player_processed(*old(map), *map, alive@, positions@, old(viewsheds)@, player, e as int),
        decreases n - e,
    {
        let process = alive[e] && positions[e].is_some() && match &viewsheds[e] {
            Some(v) => v.dirty,
            None => false,
        };
        if process {
            let p = positions[e].unwrap();
            let range = match &viewsheds[e] {
                Some(v) => v.range,
                None => 0,
            };
            proof {
                assert(viewsheds@[e as int] == old(viewsheds)@[e as int]);
                assert(match old(viewsheds)@[e as int] {
                    Some(v) => 0 <= v.range <= 100,
                    None => true,
                });
                assert(0 <= range <= 100);
                assert(old(map).in_bounds(p.x as int, p.y as int));
            }
            let tiles = field_of_view(map, p.x, p.y, range);
            proof {
                assert forall|t: (i32, i32)| #[trigger] tiles@.contains(t) <==> pair_visible(
                    *old(map),
                    p.x as int,
                    p.y as int,
                    t,
                    range as int,
                ) by {
                    lemma_visible_same_tiles(
                        *map,
                        *old(map),
                        p.x as int,
                        p.y as int,
                        t.0 as int,
                        t.1 as int,
                        range as int,
                    );
                }
            }
            let is_player = match player {
                Some(pl) => pl == e,
                None => false,
            };
            if is_player {
                let count = map.tiles.len();
                let mut i: usize = 0;
                while i < count
                    invariant
                        count == map.tiles.len(),
                        i <= count,
                        map.wf(),
                        map.width == old(map).width,
                        map.height == old(map).height,
                        map.tiles == old(map).tiles,
                        map.rooms == old(map).rooms,
                        map.blocked == old(map).blocked,
                        map.tile_content == old(map).tile_content,
                        map.revealed_tiles == old(map).revealed_tiles,
                        forall|j: int| 0 <= j < i ==> !(#[trigger] map.visible_tiles[j]),
                    decreases count - i,
                {
                    map.visible_tiles[i] = false;
                    i = i + 1;
                }
                proof {
                    assert forall|x: int, y: int| map.in_bounds(x, y) implies !(
                    #[trigger] map.visible_tiles[map.idx_of(x, y)]) by {
                        map.lemma_idx_bounds(x, y);
                    }
                }
                let mut k: usize = 0;
                while k < tiles.len()
                    invariant
                        map.wf(),
                        map.width == old(map).width,
                        map.height == old(map).height,
                        map.tiles == old(map).tiles,
                        map.rooms == old(map).rooms,
                        map.blocked == old(map).blocked,
                        map.tile_content == old(map).tile_content,
                        k <= tiles.len(),
                        old(map).wf(),
                        fov_origin_ok(*old(map), p, range),
                        forall|t: (i32, i32)| #[trigger] tiles@.contains(t) <==> pair_visible(
                            *old(map),
                            p.x as int,
                            p.y as int,
                            t,
                            range as int,
                        ),
                        forall|x: int, y: int|
                            map.in_bounds(x, y) ==> ((#[trigger] map.visible_tiles[map.idx_of(x, y)])
                                <==> exists|k2: int|
                                0 <= k2 < k && tiles@[k2] == (x as i32, y as i32)),
                        forall|x: int, y: int|
                            map.in_bounds(x, y) ==> ((#[trigger] map.revealed_tiles[map.idx_of(x, y)])
                                <==> (old(map).revealed_tiles[map.idx_of(x, y)] || exists|k2: int|
                                0 <= k2 < k && tiles@[k2] == (x as i32, y as i32))),
                    decreases tiles.len() - k,
                {
                    let (tx, ty) = tiles[k];
                    proof {
                        assert(tiles@.contains((tx, ty)));
                        assert(pair_visible(*old(map), p.x as int, p.y as int, (tx, ty), range as int));
                    }
                    let ghost m_pre = *map;
                    let idx = map.xy_idx(tx, ty);
                    map.visible_tiles[idx] = true;
                    map.revealed_tiles[idx] = true;
                    proof {
                        assert forall|x: int, y: int| map.in_bounds(x, y) implies ((
                        #[trigger] map.visible_tiles[map.idx_of(x, y)]) <==> exists|k2: int|
                            0 <= k2 < k + 1 && tiles@[k2] == (x as i32, y as i32)) by {
                            map.lemma_idx_bounds(x, y);
                            assert(m_pre.idx_of(x, y) == map.idx_of(x, y));
                            assert(m_pre.in_bounds(x, y));
                            if x == tx as int && y == ty as int {
                                assert(tiles@[k as int] == (x as i32, y as i32));
                            } else {
                                if map.idx_of(x, y) == idx as int {
                                    map.lemma_idx_injective(x, y, tx as int, ty as int);
                                }
                                assert(map.visible_tiles[map.idx_of(x, y)] == m_pre.visible_tiles[m_pre.idx_of(x, y)]);
                                if map.visible_tiles[map.idx_of(x, y)] {
                                    let k2 = choose|k2: int|
                                        0 <= k2 < k && tiles@[k2] == (x as i32, y as i32);
                                    assert(0 <= k2 < k + 1 && tiles@[k2] == (x as i32, y as i32));
                                }
                                if exists|k2: int|
                                    0 <= k2 < k + 1 && tiles@[k2] == (x as i32, y as i32) {
                                    let k2 = choose|k2: int|
                                        0 <= k2 < k + 1 && tiles@[k2] == (x as i32, y as i32);
                                    assert(k2 != k);
                                }
                            }
                        }
                        assert forall|x: int, y: int| map.in_bounds(x, y) implies ((
                        #[trigger] map.revealed_tiles[map.idx_of(x, y)]) <==> (old(map).revealed_tiles[map.idx_of(x, y)] || exists|k2: int|
                            0 <= k2 < k + 1 && tiles@[k2] == (x as i32, y as i32))) by {
                            map.lemma_idx_bounds(x, y);
                            assert(m_pre.idx_of(x, y) == map.idx_of(x, y));
                            assert(m_pre.in_bounds(x, y));
                            if x == tx as int && y == ty as int {
                                assert(tiles@[k as int] == (x as i32, y as i32));
                            } else {
                                if map.idx_of(x, y) == idx as int {
                                    map.lemma_idx_injective(x, y, tx as int, ty as int);
                                }
                                assert(map.revealed_tiles[map.idx_of(x, y)] == m_pre.revealed_tiles[m_pre.idx_of(x, y)]);
                                if exists|k2: int|
                                    0 <= k2 < k + 1 && tiles@[k2] == (x as i32, y as i32) {
                                    let k2 = choose|k2: int|
                                        0 <= k2 < k + 1 && tiles@[k2] == (x as i32, y as i32);
                                    assert(k2 != k);
                                }
                            }
                        }
                    }
                    k = k + 1;
                }
                proof {
                    assert forall|x: int, y: int| map.in_bounds(x, y) implies ((
                    #[trigger] map.visible_tiles[map.idx_of(x, y)]) == tile_visible(
                        *old(map),
                        p.x as int,
                        p.y as int,
                        x,
                        y,
                        range as int,
                    )) by {
                        if map.visible_tiles[map.idx_of(x, y)] {
                            let k2 = choose|k2: int|
                                0 <= k2 < tiles@.len() && tiles@[k2] == (x as i32, y as i32);
                            assert(tiles@.contains((x as i32, y as i32)));
                        }
                        if tile_visible(*old(map), p.x as int, p.y as int, x, y, range as int) {
                            assert(pair_visible(
                                *old(map),
                                p.x as int,
                                p.y as int,
                                (x as i32, y as i32),
                                range as int,
                            ));
                            assert(tiles@.contains((x as i32, y as i32)));
                            let k2 = choose|k2: int|
                                0 <= k2 < tiles@.len() && tiles@[k2] == (x as i32, y as i32);
                        }
                    }
                    assert forall|x: int, y: int| map.in_bounds(x, y) implies ((
                    #[trigger] map.revealed_tiles[map.idx_of(x, y)]) == (old(map).revealed_tiles[map.idx_of(x, y)] || tile_visible(
                        *old(map),
                        p.x as int,
                        p.y as int,
                        x,
                        y,
                        range as int,
                    ))) by {
                        if map.revealed_tiles[map.idx_of(x, y)] && !old(map).revealed_tiles[map.idx_of(x, y)] {
                            let k2 = choose|k2: int|
                                0 <= k2 < tiles@.len() && tiles@[k2] == (x as i32, y as i32);
                            assert(tiles@.contains((x as i32, y as i32)));
                        }
                        if tile_visible(*old(map), p.x as int, p.y as int, x, y, range as int) {
                            assert(pair_visible(
                                *old(map),
                                p.x as int,
                                p.y as int,
                                (x as i32, y as i32),
                                range as int,
                            ));
                            assert(tiles@.contains((x as i32, y as i32)));
                            let k2 = choose|k2: int|
                                0 <= k2 < tiles@.len() && tiles@[k2] == (x as i32, y as i32);
                        }
                    }
                }
            }
            viewsheds[e] = Some(Viewshed { visible_tiles: tiles, range, dirty: false });
        }
        e = e + 1;
    }
}

/// A viewshed origin the system can compute from: an in-bounds tile
/// and a sight range within the supported bound.
pub open spec fn fov_origin_ok(m: GameMap, p: Position, range: i32) -> bool {
    m.in_bounds(p.x as int, p.y as int) && 0 <= range <= 100
}

/// The player's sight has been folded into the map's fog-of-war arrays:
/// `visible` holds exactly the player's fresh view and `revealed`
/// accumulates it; without a live, positioned, dirty-sighted player the
/// arrays are untouched.
pub open spec fn player_maps_updated(
    m_old: GameMap,
    m_new: GameMap,
    alive: Seq<bool>,
    positions: Seq<Option<Position>>,
    viewsheds_old: Seq<Option<Viewshed>>,
    player: Option<usize>,
) -> bool {
    match player {
        Some(p) => {
            if alive[p as int] && positions[p as int] is Some && (viewsheds_old[p as int] matches
                Some(v) && v.dirty) {
                let pp = positions[p as int]->Some_0;
                let rng = viewsheds_old[p as int]->Some_0.range as int;
                forall|x: int, y: int|
                    m_new.in_bounds(x, y) ==> ((#[trigger] m_new.visible_tiles[m_new.idx_of(x, y)])
                        == tile_visible(m_old, pp.x as int, pp.y as int, x, y, rng)
                        && m_new.revealed_tiles[m_new.idx_of(x, y)] == (
                    m_old.revealed_tiles[m_new.idx_of(x, y)] || tile_visible(
                        m_old,
                        pp.x as int,
                        pp.y as int,
                        x,
                        y,
                        rng,
                    )))
            } else {
                m_new.visible_tiles == m_old.visible_tiles && m_new.revealed_tiles
                    == m_old.revealed_tiles
            }
        },
        None => m_new.visible_tiles == m_old.visible_tiles && m_new.revealed_tiles
            == m_old.revealed_tiles,
    }
}

/// `player_maps_updated`, restricted to players already processed by
/// the scan (entity indices below `e`).
pub open spec fn player_processed(
    m_old: GameMap,
    m_new: GameMap,
    alive: Seq<bool>,
    positions: Seq<Option<Position>>,
    viewsheds_old: Seq<Option<Viewshed>>,
    player: Option<usize>,
    e: int,
) -> bool {
    match player {
        Some(p) => {
            if (p as int) < e {
                player_maps_updated(m_old, m_new, alive, positions, viewsheds_old, player)
            } else {
                m_new.visible_tiles == m_old.visible_tiles && m_new.revealed_tiles
                    == m_old.revealed_tiles
            }
        },
        None => m_new.visible_tiles == m_old.visible_tiles && m_new.revealed_tiles
            == m_old.revealed_tiles,
    }
}

} // verus!
