//! The monster AI system. Each monster decides afresh every turn from
//! what its viewshed holds: if the player's tile is not in it, the
//! monster idles; if the player is adjacent (grid distance at most 1) it
//! emits a melee intent; otherwise it takes the first in-bounds,
//! unblocked step toward the player (diagonal, then horizontal, then
//! vertical) and marks its viewshed dirty so sight is recomputed. The
//! whole pass is pinned down by the entity-order fold `ai_after`.
//!
//! The `blocked` array it consults is the indexing system's product from
//! the previous pipeline position; a monster that moves updates the
//! array for the tiles it leaves and enters, so later monsters in the
//! same pass see it.
//!
//! Two deliberate behaviors, kept rather than silently fixed: the step
//! is greedy, not a shortest-path search, so a monster can stall at a
//! concave wall that pathfinding would walk around; and monsters carry
//! no blocking tag (the spawner attaches none), so the occupancy index
//! marks only walls and monsters may share a tile.

use vstd::prelude::*;
use crate::components::{Position, Viewshed, WantsToMelee};
use crate::map::GameMap;
use crate::visibility::cheb_dist;
use crate::world::World;

verus! {

/// Entity `e` is a live monster with sight, a position, and an intent
/// slot: the entities this system acts for.
pub open spec fn ai_subject(
    alive: Seq<bool>,
    monsters: Seq<bool>,
    viewsheds: Seq<Option<Viewshed>>,
    positions: Seq<Option<Position>>,
    e: int,
) -> bool {
    &&& 0 <= e < alive.len()
    &&& alive[e]
    &&& monsters[e]
    &&& viewsheds[e] is Some
    &&& positions[e] is Some
}

/// The unit step of `c` toward `t`: 1, -1 or 0.
pub open spec fn sign_toward(c: int, t: int) -> int {
    if c < t {
        1
    } else if c > t {
        -1
    } else {
        0
    }
}

/// Where one step toward the player lands from `p0`, consulting the
/// blocked array `blk`: the diagonal candidate first, then the
/// horizontal, then the vertical; the first in-bounds unblocked one is
/// taken, else the monster stays where it is.
pub open spec fn step_result(m: GameMap, blk: Seq<bool>, p0: Position, sx: int, sy: int) -> Position {
    let c1x = p0.x + sx;
    let c1y = p0.y + sy;
    let c2x = p0.x + sx;
    let c2y = p0.y as int;
    let c3x = p0.x as int;
    let c3y = p0.y + sy;
    if !(sx == 0 && sy == 0) && m.in_bounds(c1x, c1y) && !blk[m.idx_of(c1x, c1y)] {
        Position { x: c1x as i32, y: c1y as i32 }
    } else if sx != 0 && m.in_bounds(c2x, c2y) && !blk[m.idx_of(c2x, c2y)] {
        Position { x: c2x as i32, y: c2y as i32 }
    } else if sy != 0 && m.in_bounds(c3x, c3y) && !blk[m.idx_of(c3x, c3y)] {
        Position { x: c3x as i32, y: c3y as i32 }
    } else {
        p0
    }
}

/// The cumulative effect of the AI pass on the first `upto` entities,
/// given a live player at `(px, py)`: the viewsheds, positions, melee
/// intents, and blocked array after each monster in entity order has
/// idled (player unseen), attacked (adjacent), or stepped toward the
/// player per `step_result` over the evolving blocked array.
pub open spec fn ai_after(
    m: GameMap,
    alive: Seq<bool>,
    monsters: Seq<bool>,
    vs0: Seq<Option<Viewshed>>,
    ps0: Seq<Option<Position>>,
    wm0: Seq<Option<WantsToMelee>>,
    blk0: Seq<bool>,
    pl: usize,
    px: i32,
    py: i32,
    upto: int,
) -> (Seq<Option<Viewshed>>, Seq<Option<Position>>, Seq<Option<WantsToMelee>>, Seq<bool>)
    decreases upto,
{
    if upto <= 0 {
        (vs0, ps0, wm0, blk0)
    } else {
        let prev = ai_after(m, alive, monsters, vs0, ps0, wm0, blk0, pl, px, py, upto - 1);
        let e = upto - 1;
        if e == pl as int || !ai_subject(alive, monsters, vs0, ps0, e) {
            prev
        } else {
            let v = vs0[e]->Some_0;
            let p0 = ps0[e]->Some_0;
            if !v.visible_tiles@.contains((px, py)) {
                prev
            } else if cheb_dist(p0.x as int, p0.y as int, px as int, py as int) <= 1 {
                (prev.0, prev.1, prev.2.update(e, Some(WantsToMelee { target: pl })), prev.3)
            } else {
                let sx = sign_toward(p0.x as int, px as int);
                let sy = sign_toward(p0.y as int, py as int);
                let p1 = step_result(m, prev.3, p0, sx, sy);
                if p1 == p0 {
                    prev
                } else {
                    (
                        prev.0.update(
                            e,
                            Some(
                                Viewshed {
                                    visible_tiles: v.visible_tiles,
                                    range: v.range,
                                    dirty: true,
                                },
                            ),
                        ),
                        prev.1.update(e, Some(p1)),
                        prev.2,
                        prev.3.update(m.idx_of(p0.x as int, p0.y as int), false).update(
                            m.idx_of(p1.x as int, p1.y as int),
                            true,
                        ),
                    )
                }
            }
        }
    }
}

/// The whole effect of one AI pass, as a relation between the world
/// before and after: with a live, positioned player the tables equal
/// the `ai_after` fold over every entity; without one, nothing changes.
pub open spec fn ai_step(w0: World, w1: World) -> bool {
    &&& w1.alive == w0.alive
    &&& w1.pending_destroy == w0.pending_destroy
    &&& w1.renderables == w0.renderables
    &&& w1.players == w0.players
    &&& w1.monsters == w0.monsters
    &&& w1.items == w0.items
    &&& w1.blocks_tile == w0.blocks_tile
    &&& w1.names == w0.names
    &&& w1.combat_stats == w0.combat_stats
    &&& w1.healing_potions == w0.healing_potions
    &&& w1.suffer_damage == w0.suffer_damage
    &&& w1.in_backpack == w0.in_backpack
    &&& w1.wants_pickup == w0.wants_pickup
    &&& w1.rng == w0.rng
    &&& w1.log == w0.log
    &&& w1.player_entity == w0.player_entity
    &&& w1.map.width == w0.map.width
    &&& w1.map.height == w0.map.height
    &&& w1.map.tiles == w0.map.tiles
    &&& w1.map.rooms == w0.map.rooms
    &&& w1.map.revealed_tiles == w0.map.revealed_tiles
    &&& w1.map.visible_tiles == w0.map.visible_tiles
    &&& w1.map.tile_content == w0.map.tile_content
    &&& match w0.player_entity {
        Some(pl) => {
            if (pl as int) < w0.n() && w0.alive[pl as int] && w0.positions[pl as int] is Some {
                let px = w0.positions[pl as int]->Some_0.x;
                let py = w0.positions[pl as int]->Some_0.y;
                let res = ai_after(
                    w0.map,
                    w0.alive@,
                    w0.monsters@,
                    w0.viewsheds@,
                    w0.positions@,
                    w0.wants_melee@,
                    w0.map.blocked@,
                    pl,
                    px,
                    py,
                    w0.n(),
                );
                &&& w1.viewsheds@ == res.0
                &&& w1.positions@ == res.1
                &&& w1.wants_melee@ == res.2
                &&& w1.map.blocked@ == res.3
            } else {
                w1.viewsheds@ == w0.viewsheds@ && w1.positions@ == w0.positions@
                    && w1.wants_melee@ == w0.wants_melee@ && w1.map.blocked@ == w0.map.blocked@
            }
        },
        None => w1.viewsheds@ == w0.viewsheds@ && w1.positions@ == w0.positions@
            && w1.wants_melee@ == w0.wants_melee@ && w1.map.blocked@ == w0.map.blocked@,
    }
}

/// One pass of the monster AI.
pub fn monster_ai_system(
    map: &mut GameMap,
    alive: &Vec<bool>,
    monsters: &Vec<bool>,
    viewsheds: &mut Vec<Option<Viewshed>>,
    positions: &mut Vec<Option<Position>>,
    wants_melee: &mut Vec<Option<WantsToMelee>>,
    player: Option<usize>,
)
    requires
        old(map).wf(),
        monsters.len() == alive.len(),
        old(viewsheds).len() == alive.len(),
        old(positions).len() == alive.len(),
        old(wants_melee).len() == alive.len(),
        forall|e: int|
            0 <= e < alive.len() ==> match #[trigger] old(positions)@[e] {
                Some(p) => old(map).in_bounds(p.x as int, p.y as int),
                None => true,
            },
        forall|e: int|
            0 <= e < alive.len() ==> match #[trigger] old(viewsheds)@[e] {
                Some(v) => 0 <= v.range <= 100,
                None => true,
            },
        forall|e: int|
            0 <= e < alive.len() ==> match #[trigger] old(wants_melee)@[e] {
                Some(w) => (w.target as int) < alive.len(),
                None => true,
            },
        match player {
            Some(p) => p < alive.len(),
            None => true,
        },
    ensures
        final(map).wf(),
        final(viewsheds).len() == alive.len(),
        final(positions).len() == alive.len(),
        final(wants_melee).len() == alive.len(),
        final(map).width == old(map).width,
        final(map).height == old(map).height,
        final(map).tiles == old(map).tiles,
        final(map).rooms == old(map).rooms,
        final(map).revealed_tiles == old(map).revealed_tiles,
        final(map).visible_tiles == old(map).visible_tiles,
        final(map).tile_content == old(map).tile_content,
        // Positions stay in bounds; intent targets stay valid; ranges keep their bounds.
        forall|e: int|
            0 <= e < alive.len() ==> match #[trigger] final(positions)@[e] {
                Some(p) => final(map).in_bounds(p.x as int, p.y as int),
                None => true,
            },
        forall|e: int|
            0 <= e < alive.len() ==> match #[trigger] final(wants_melee)@[e] {
                Some(w) => (w.target as int) < alive.len(),
                None => true,
            },
        forall|e: int|
            0 <= e < alive.len() ==> match #[trigger] final(viewsheds)@[e] {
                Some(v) => 0 <= v.range <= 100,
                None => true,
            },
        // The pass equals the ai_after fold (or changes nothing without
        // a live, positioned player).
        ai_pass_applied(
            *old(map),
            alive@,
            monsters@,
            old(viewsheds)@,
            old(positions)@,
            old(wants_melee)@,
            player,
            final(viewsheds)@,
            final(positions)@,
            final(wants_melee)@,
            final(map).blocked@,
        ),
{
    let n = alive.len();
    let (pl, px, py): (usize, i32, i32) = match player {
        Some(p) => {
            if alive[p] {
                match &positions[p] {
                    Some(pp) => (p, pp.x, pp.y),
                    None => {
                        return ;
                    },
                }
            } else {
                return ;
            }
        },
        None => {
            return ;
        },
    };
    let mut e: usize = 0;
    while e < n
        invariant
            old(map).wf(),
            n == alive.len(),
            monsters.len() == n,
            viewsheds.len() == n,
            positions.len() == n,
            wants_melee.len() == n,
            old(viewsheds).len() == n,
            old(positions).len() == n,
            old(wants_melee).len() == n,
            e <= n,
            map.wf(),
            map.width == old(map).width,
            map.height == old(map).height,
            map.tiles == old(map).tiles,
            map.rooms == old(map).rooms,
            map.revealed_tiles == old(map).revealed_tiles,
            map.visible_tiles == old(map).visible_tiles,
            map.tile_content == old(map).tile_content,
            player == Some(pl),
            pl < n,
            alive@[pl as int],
            old(positions)@[pl as int] == Some(Position { x: px, y: py }),
            old(map).in_bounds(px as int, py as int),
            forall|e2: int|
                0 <= e2 < n ==> match #[trigger] positions@[e2] {
                    Some(p) => map.in_bounds(p.x as int, p.y as int),
                    None => true,
                },
            forall|e2: int|
                0 <= e2 < n ==> match #[trigger] wants_melee@[e2] {
                    Some(w) => (w.target as int) < n,
                    None => true,
                },
            forall|e2: int|
                0 <= e2 < n ==> match #[trigger] viewsheds@[e2] {
                    Some(v) => 0 <= v.range <= 100,
                    None => true,
                },
            forall|e2: int|
                0 <= e2 < n ==> match #[trigger] old(viewsheds)@[e2] {
                    Some(v) => 0 <= v.range <= 100,
                    None => true,
                },
            forall|e2: int| e <= e2 < n ==> #[trigger] positions@[e2] == old(positions)@[e2],
            forall|e2: int| e <= e2 < n ==> #[trigger] viewsheds@[e2] == old(viewsheds)@[e2],
            forall|e2: int| e <= e2 < n ==> #[trigger] wants_melee@[e2] == old(wants_melee)@[e2],
            viewsheds@ == ai_after(
                *old(map),
                alive@,
                monsters@,
                old(viewsheds)@,
                old(positions)@,
                old(wants_melee)@,
                old(map).blocked@,
                pl,
                px,
                py,
                e as int,
            ).0,
            positions@ == ai_after(
                *old(map),
                alive@,
                monsters@,
                old(viewsheds)@,
                old(positions)@,
                old(wants_melee)@,
                old(map).blocked@,
                pl,
                px,
                py,
                e as int,
            ).1,
            wants_melee@ == ai_after(
                *old(map),
                alive@,
                monsters@,
                old(viewsheds)@,
                old(positions)@,
                old(wants_melee)@,
                old(map).blocked@,
                pl,
                px,
                py,
                e as int,
            ).2,
            map.blocked@ == ai_after(
                *old(map),
                alive@,
                monsters@,
                old(viewsheds)@,
                old(positions)@,
                old(wants_melee)@,
                old(map).blocked@,
                pl,
                px,
                py,
                e as int,
            ).3,
        decreases n - e,
    {
        let ghost res_pre = ai_after(
            *old(map),
            alive@,
            monsters@,
            old(viewsheds)@,
            old(positions)@,
            old(wants_melee)@,
            old(map).blocked@,
            pl,
            px,
            py,
            e as int,
        );
        let ghost vsb = viewsheds@;
        let ghost psb = positions@;
        let ghost wmb = wants_melee@;
        let act = e != pl && alive[e] && monsters[e] && viewsheds[e].is_some()
            && positions[e].is_some();
        if act {
            let pos = positions[e].unwrap();
            let sees_player = match &viewsheds[e] {
                Some(v) => contains_tile(&v.visible_tiles, px, py),
                None => false,
            };
            if sees_player {
                let ddx = if pos.x > px {
                    pos.x - px
                } else {
                    px - pos.x
                };
                let ddy = if pos.y > py {
                    pos.y - py
                } else {
                    py - pos.y
                };
                let dist = if ddx > ddy {
                    ddx
                } else {
                    ddy
                };
                if dist <= 1 {
                    wants_melee[e] = Some(WantsToMelee { target: pl });
                } else {
                    let sx: i32 = if pos.x < px {
                        1
                    } else if pos.x > px {
                        -1
                    } else {
                        0
                    };
                    let sy: i32 = if pos.y < py {
                        1
                    } else if pos.y > py {
                        -1
                    } else {
                        0
                    };
                    proof {
                        assert(sx as int == sign_toward(pos.x as int, px as int));
                        assert(sy as int == sign_toward(pos.y as int, py as int));
                    }
                    let moved = try_step(map, &mut positions[e], sx, sy);
                    if moved {
                        match &mut viewsheds[e] {
                            Some(v) => {
                                v.dirty = true;
                            },
                            None => {},
                        }
                    }
                }
            }
        }
        proof {
            let res_post = ai_after(
                *old(map),
                alive@,
                monsters@,
                old(viewsheds)@,
                old(positions)@,
                old(wants_melee)@,
                old(map).blocked@,
                pl,
                px,
                py,
                e as int + 1,
            );
            assert(viewsheds@ =~= res_post.0);
            assert(positions@ =~= res_post.1);
            assert(wants_melee@ =~= res_post.2);
            assert(map.blocked@ =~= res_post.3);
            assert forall|e2: int|
                e as int + 1 <= e2 < n implies #[trigger] positions@[e2] == old(
                positions,
            )@[e2] by {
                assert(psb[e2] == old(positions)@[e2]);
            }
            assert forall|e2: int|
                e as int + 1 <= e2 < n implies #[trigger] viewsheds@[e2] == old(
                viewsheds,
            )@[e2] by {
                assert(vsb[e2] == old(viewsheds)@[e2]);
            }
            assert forall|e2: int|
                e as int + 1 <= e2 < n implies #[trigger] wants_melee@[e2] == old(
                wants_melee,
            )@[e2] by {
                assert(wmb[e2] == old(wants_melee)@[e2]);
            }
        }
        e = e + 1;
    }
}

/// The AI pass never rewrites the player's own slots: the fold leaves
/// index `pl` of the viewshed and position tables untouched.
pub proof fn lemma_ai_player_untouched(
    m: GameMap,
    alive: Seq<bool>,
    monsters: Seq<bool>,
    vs0: Seq<Option<Viewshed>>,
    ps0: Seq<Option<Position>>,
    wm0: Seq<Option<WantsToMelee>>,
    blk0: Seq<bool>,
    pl: usize,
    px: i32,
    py: i32,
    upto: int,
)
    requires
        vs0.len() == alive.len(),
        ps0.len() == alive.len(),
        (pl as int) < alive.len(),
    ensures
        ai_after(m, alive, monsters, vs0, ps0, wm0, blk0, pl, px, py, upto).0.len() == vs0.len(),
        ai_after(m, alive, monsters, vs0, ps0, wm0, blk0, pl, px, py, upto).1.len() == ps0.len(),
        ai_after(m, alive, monsters, vs0, ps0, wm0, blk0, pl, px, py, upto).0[pl as int]
            == vs0[pl as int],
        ai_after(m, alive, monsters, vs0, ps0, wm0, blk0, pl, px, py, upto).1[pl as int]
            == ps0[pl as int],
    decreases upto,
{
    if upto > 0 {
        lemma_ai_player_untouched(m, alive, monsters, vs0, ps0, wm0, blk0, pl, px, py, upto - 1);
    }
}

/// The AI pass never changes what any viewshed holds: a slot is either
/// left alone or only marked dirty, its visible tiles and range intact.
pub proof fn lemma_ai_viewshed_content(
    m: GameMap,
    alive: Seq<bool>,
    monsters: Seq<bool>,
    vs0: Seq<Option<Viewshed>>,
    ps0: Seq<Option<Position>>,
    wm0: Seq<Option<WantsToMelee>>,
    blk0: Seq<bool>,
    pl: usize,
    px: i32,
    py: i32,
    e: int,
    upto: int,
)
    requires
        vs0.len() == alive.len(),
        ps0.len() == alive.len(),
        0 <= e < alive.len(),
    ensures
        ai_after(m, alive, monsters, vs0, ps0, wm0, blk0, pl, px, py, upto).0.len() == vs0.len(),
        ai_after(m, alive, monsters, vs0, ps0, wm0, blk0, pl, px, py, upto).0[e] == vs0[e] || (
        vs0[e] matches Some(v0) && ai_after(m, alive, monsters, vs0, ps0, wm0, blk0, pl, px, py, upto).0[e]
            == Some(
            Viewshed { visible_tiles: v0.visible_tiles, range: v0.range, dirty: true },
        )),
    decreases upto,
{
    if upto > 0 {
        lemma_ai_viewshed_content(m, alive, monsters, vs0, ps0, wm0, blk0, pl, px, py, e, upto - 1);
    }
}

/// A monster whose viewshed (as the pass reads it) does not hold the
/// player's tile takes no action: the fold leaves its position and its
/// melee-intent slot untouched.
pub proof fn lemma_ai_unseeing_idle(
    m: GameMap,
    alive: Seq<bool>,
    monsters: Seq<bool>,
    vs0: Seq<Option<Viewshed>>,
    ps0: Seq<Option<Position>>,
    wm0: Seq<Option<WantsToMelee>>,
    blk0: Seq<bool>,
    pl: usize,
    px: i32,
    py: i32,
    e: int,
    upto: int,
)
    requires
        vs0.len() == alive.len(),
        ps0.len() == alive.len(),
        wm0.len() == alive.len(),
        0 <= e < alive.len(),
        vs0[e] matches Some(v) && !v.visible_tiles@.contains((px, py)),
    ensures
        ai_after(m, alive, monsters, vs0, ps0, wm0, blk0, pl, px, py, upto).1.len() == ps0.len(),
        ai_after(m, alive, monsters, vs0, ps0, wm0, blk0, pl, px, py, upto).2.len() == wm0.len(),
        ai_after(m, alive, monsters, vs0, ps0, wm0, blk0, pl, px, py, upto).1[e] == ps0[e],
        ai_after(m, alive, monsters, vs0, ps0, wm0, blk0, pl, px, py, upto).2[e] == wm0[e],
    decreases upto,
{
    if upto > 0 {
        lemma_ai_unseeing_idle(m, alive, monsters, vs0, ps0, wm0, blk0, pl, px, py, e, upto - 1);
    }
}

/// When exactly one monster acts - every other entity is the player or
/// no AI subject - and it stands adjacent to the player and sees it,
/// the whole pass does nothing but attach that monster's melee intent.
pub proof fn lemma_ai_single_attacker(
    m: GameMap,
    alive: Seq<bool>,
    monsters: Seq<bool>,
    vs0: Seq<Option<Viewshed>>,
    ps0: Seq<Option<Position>>,
    wm0: Seq<Option<WantsToMelee>>,
    blk0: Seq<bool>,
    pl: usize,
    px: i32,
    py: i32,
    att: int,
    upto: int,
)
    requires
        vs0.len() == alive.len(),
        ps0.len() == alive.len(),
        wm0.len() == alive.len(),
        forall|e: int|
            0 <= e < alive.len() && e != att && e != pl as int ==> !ai_subject(
                alive,
                monsters,
                vs0,
                ps0,
                e,
            ),
        ai_subject(alive, monsters, vs0, ps0, att),
        att != pl as int,
        vs0[att]->Some_0.visible_tiles@.contains((px, py)),
        cheb_dist(
            ps0[att]->Some_0.x as int,
            ps0[att]->Some_0.y as int,
            px as int,
            py as int,
        ) <= 1,
    ensures
        ai_after(m, alive, monsters, vs0, ps0, wm0, blk0, pl, px, py, upto).0 == vs0,
        ai_after(m, alive, monsters, vs0, ps0, wm0, blk0, pl, px, py, upto).1 == ps0,
        ai_after(m, alive, monsters, vs0, ps0, wm0, blk0, pl, px, py, upto).3 == blk0,
        ai_after(m, alive, monsters, vs0, ps0, wm0, blk0, pl, px, py, upto).2 == (if att < upto {
            wm0.update(att, Some(WantsToMelee { target: pl }))
        } else {
            wm0
        }),
    decreases upto,
{
    if upto > 0 {
        lemma_ai_single_attacker(
            m,
            alive,
            monsters,
            vs0,
            ps0,
            wm0,
            blk0,
            pl,
            px,
            py,
            att,
            upto - 1,
        );
    }
}

/// The ensures shape shared by the system and `ai_step`: equality with
/// the fold when a live, positioned player exists, no change otherwise.
pub open spec fn ai_pass_applied(
    m0: GameMap,
    alive: Seq<bool>,
    monsters: Seq<bool>,
    vs0: Seq<Option<Viewshed>>,
    ps0: Seq<Option<Position>>,
    wm0: Seq<Option<WantsToMelee>>,
    player: Option<usize>,
    vs1: Seq<Option<Viewshed>>,
    ps1: Seq<Option<Position>>,
    wm1: Seq<Option<WantsToMelee>>,
    blk1: Seq<bool>,
) -> bool {
    match player {
        Some(pl) => {
            if (pl as int) < alive.len() && alive[pl as int] && ps0[pl as int] is Some {
                let px = ps0[pl as int]->Some_0.x;
                let py = ps0[pl as int]->Some_0.y;
                let res = ai_after(
                    m0,
                    alive,
                    monsters,
                    vs0,
                    ps0,
                    wm0,
                    m0.blocked@,
                    pl,
                    px,
                    py,
                    alive.len() as int,
                );
                vs1 == res.0 && ps1 == res.1 && wm1 == res.2 && blk1 == res.3
            } else {
                vs1 == vs0 && ps1 == ps0 && wm1 == wm0 && blk1 == m0.blocked@
            }
        },
        None => vs1 == vs0 && ps1 == ps0 && wm1 == wm0 && blk1 == m0.blocked@,
    }
}

/// Whether the tile list holds `(x, y)`.
fn contains_tile(tiles: &Vec<(i32, i32)>, x: i32, y: i32) -> (r: bool)
    ensures
        r == tiles@.contains((x, y)),
{
    let mut i: usize = 0;
    while i < tiles.len()
        invariant
            i <= tiles.len(),
            forall|k: int| 0 <= k < i ==> tiles@[k] != (x, y),
        decreases tiles.len() - i,
    {
        let (tx, ty) = tiles[i];
        if tx == x && ty == y {
            return true;
        }
        i = i + 1;
    }
    false
}

/// Take the step `step_result` picks, updating the blocked array for
/// the vacated and entered tiles; report whether anything moved.
fn try_step(map: &mut GameMap, pos: &mut Option<Position>, sx: i32, sy: i32) -> (moved: bool)
    requires
        old(map).wf(),
        (*old(pos)) is Some,
        old(map).in_bounds((*old(pos))->Some_0.x as int, (*old(pos))->Some_0.y as int),
        -1 <= sx <= 1,
        -1 <= sy <= 1,
    ensures
        final(map).wf(),
        final(map).width == old(map).width,
        final(map).height == old(map).height,
        final(map).tiles == old(map).tiles,
        final(map).rooms == old(map).rooms,
        final(map).revealed_tiles == old(map).revealed_tiles,
        final(map).visible_tiles == old(map).visible_tiles,
        final(map).tile_content == old(map).tile_content,
        *final(pos) == Some(
            step_result(*old(map), old(map).blocked@, (*old(pos))->Some_0, sx as int, sy as int),
        ),
        final(map).in_bounds((*final(pos))->Some_0.x as int, (*final(pos))->Some_0.y as int),
        moved == (step_result(*old(map), old(map).blocked@, (*old(pos))->Some_0, sx as int, sy as int)
            != (*old(pos))->Some_0),
        !moved ==> final(map).blocked == old(map).blocked && *final(pos) == *old(pos),
        moved ==> final(map).blocked@ == old(map).blocked@.update(
            old(map).idx_of((*old(pos))->Some_0.x as int, (*old(pos))->Some_0.y as int),
            false,
        ).update(
            old(map).idx_of((*final(pos))->Some_0.x as int, (*final(pos))->Some_0.y as int),
            true,
        ),
{
    let p = pos.unwrap();
    let c1_ok = !(sx == 0 && sy == 0) && in_open(map, p.x + sx, p.y + sy);
    let (nx, ny): (i32, i32) = if c1_ok {
        (p.x + sx, p.y + sy)
    } else if sx != 0 && in_open(map, p.x + sx, p.y) {
        (p.x + sx, p.y)
    } else if sy != 0 && in_open(map, p.x, p.y + sy) {
        (p.x, p.y + sy)
    } else {
        proof {
            assert(step_result(*old(map), old(map).blocked@, p, sx as int, sy as int) == p);
        }
        return false;
    };
    proof {
        assert(step_result(*old(map), old(map).blocked@, p, sx as int, sy as int) == (Position {
            x: nx,
            y: ny,
        }));
        assert(!(nx == p.x && ny == p.y));
        if map.idx_of(nx as int, ny as int) == map.idx_of(p.x as int, p.y as int) {
            map.lemma_idx_injective(nx as int, ny as int, p.x as int, p.y as int);
        }
    }
    let oidx = map.xy_idx(p.x, p.y);
    let nidx = map.xy_idx(nx, ny);
    map.blocked[oidx] = false;
    map.blocked[nidx] = true;
    *pos = Some(Position { x: nx, y: ny });
    true
}

/// Whether `(x, y)` is an in-bounds, unblocked tile.
fn in_open(map: &GameMap, x: i32, y: i32) -> (r: bool)
    requires
        map.wf(),
        -1000 <= x <= 1000,
        -1000 <= y <= 1000,
    ensures
        r == (map.in_bounds(x as int, y as int) && !map.blocked@[map.idx_of(x as int, y as int)]),
{
    if x >= 0 && y >= 0 && x < map.width && y < map.height {
        let idx = map.xy_idx(x, y);
        !map.blocked[idx]
    } else {
        false
    }
}

} // verus!
