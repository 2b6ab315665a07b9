//! The spawner: populates the world with the player, monsters, and
//! items. Monster and item counts per room are rolled from the shared
//! random generator; spawn tiles are drawn without replacement from the
//! room's interior, so they are distinct and a crowded room simply
//! spawns as many things as it has tiles, never looping forever.
//!
//! Spawned monsters deliberately carry no blocking tag: movement
//! blocking comes from walls alone, and the player's bump-attack finds
//! monsters through their combat statistics.

use vstd::prelude::*;
use crate::components::{
    CombatStats, Entity, HealingPotion, Name, Position, Renderable, Rgb, Viewshed,
};
use crate::rect::Rect;
use crate::damage::max0;
use crate::rng::{roll_of, state_after_roll};
use crate::world::World;

verus! {

pub const MAX_MONSTERS_PER_ROOM: i32 = 4;
pub const MAX_ITEMS_PER_ROOM: i32 = 2;

/// Spawn the player at the given tile and record it as the world's
/// player entity: hit points 30/30, defense 2, power 5, sight range 8.
pub fn player(ecs: &mut World, player_x: i32, player_y: i32) -> (e: Entity)
    requires
        old(ecs).wf(),
        old(ecs).map.in_bounds(player_x as int, player_y as int),
        old(ecs).n() < 1_000_000_000,
    ensures
        final(ecs).wf(),
        e == old(ecs).n(),
        final(ecs).n() == old(ecs).n() + 1,
        final(ecs).is_alive(e as int),
        final(ecs).player_entity == Some(e),
        final(ecs).players[e as int],
        final(ecs).positions[e as int] == Some(Position { x: player_x, y: player_y }),
        final(ecs).combat_stats[e as int] == Some(
            CombatStats { max_hp: 30, hp: 30, defense: 2, power: 5 },
        ),
        final(ecs).viewsheds[e as int] matches Some(v) && v.range == 8 && v.dirty
            && v.visible_tiles@.len() == 0,
        !final(ecs).monsters[e as int],
        !final(ecs).items[e as int],
        !final(ecs).blocks_tile[e as int],
        final(ecs).names[e as int] matches Some(nm) && nm.name@ == "Player"@,
        final(ecs).renderables[e as int] == Some(
            Renderable { glyph: 64, fg: Rgb { r: 255, g: 255, b: 0 }, bg: Rgb { r: 0, g: 0, b: 0 } },
        ),
        final(ecs).wants_melee[e as int] is None,
        final(ecs).suffer_damage[e as int] is None,
        final(ecs).in_backpack[e as int] is None,
        final(ecs).wants_pickup[e as int] is None,
        forall|i: int| 0 <= i < old(ecs).n() ==> final(ecs).entity_same(*old(ecs), i),
        final(ecs).map == old(ecs).map,
        final(ecs).rng == old(ecs).rng,
        final(ecs).log == old(ecs).log,
        final(ecs).pending_destroy == old(ecs).pending_destroy,
{
    let e = ecs.create_entity();
    ecs.positions[e] = Some(Position { x: player_x, y: player_y });
    ecs.renderables[e] = Some(
        Renderable {
            glyph: 64,
            fg: Rgb { r: 255, g: 255, b: 0 },
            bg: Rgb { r: 0, g: 0, b: 0 },
        },
    );
    ecs.players[e] = true;
    ecs.viewsheds[e] = Some(Viewshed { visible_tiles: Vec::new(), range: 8, dirty: true });
    ecs.names[e] = Some(Name { name: "Player".to_string() });
    ecs.combat_stats[e] = Some(CombatStats { max_hp: 30, hp: 30, defense: 2, power: 5 });
    ecs.player_entity = Some(e);
    proof {
        assert forall|i: int| 0 <= i < old(ecs).n() implies ecs.entity_same(*old(ecs), i) by {}
    }
    e
}

/// Spawn one monster with the shared base statistics (hit points
/// 16/16, defense 1, power 4) and sight range 8 at the given tile.
fn monster(ecs: &mut World, x: i32, y: i32, glyph: u16, label: &str) -> (e: Entity)
    requires
        old(ecs).wf(),
        old(ecs).map.in_bounds(x as int, y as int),
        old(ecs).n() < 1_000_000_000,
    ensures
        final(ecs).wf(),
        e == old(ecs).n(),
        final(ecs).n() == old(ecs).n() + 1,
        final(ecs).is_alive(e as int),
        final(ecs).monsters[e as int],
        !final(ecs).players[e as int],
        final(ecs).positions[e as int] == Some(Position { x, y }),
        final(ecs).combat_stats[e as int] == Some(
            CombatStats { max_hp: 16, hp: 16, defense: 1, power: 4 },
        ),
        final(ecs).viewsheds[e as int] matches Some(v) && v.range == 8 && v.dirty
            && v.visible_tiles@.len() == 0,
        final(ecs).renderables[e as int] == Some(
            Renderable { glyph, fg: Rgb { r: 255, g: 0, b: 0 }, bg: Rgb { r: 0, g: 0, b: 0 } },
        ),
        final(ecs).names[e as int] matches Some(nm) && nm.name@ == label@,
        !final(ecs).items[e as int],
        !final(ecs).blocks_tile[e as int],
        final(ecs).wants_melee[e as int] is None,
        final(ecs).suffer_damage[e as int] is None,
        final(ecs).in_backpack[e as int] is None,
        final(ecs).wants_pickup[e as int] is None,
        final(ecs).healing_potions[e as int] is None,
        forall|i: int| 0 <= i < old(ecs).n() ==> final(ecs).entity_same(*old(ecs), i),
        final(ecs).map == old(ecs).map,
        final(ecs).rng == old(ecs).rng,
        final(ecs).log == old(ecs).log,
        final(ecs).player_entity == old(ecs).player_entity,
        final(ecs).pending_destroy == old(ecs).pending_destroy,
{
    let e = ecs.create_entity();
    ecs.positions[e] = Some(Position { x, y });
    ecs.renderables[e] = Some(
        Renderable { glyph, fg: Rgb { r: 255, g: 0, b: 0 }, bg: Rgb { r: 0, g: 0, b: 0 } },
    );
    ecs.viewsheds[e] = Some(Viewshed { visible_tiles: Vec::new(), range: 8, dirty: true });
    ecs.monsters[e] = true;
    ecs.names[e] = Some(Name { name: label.to_string() });
    ecs.combat_stats[e] = Some(CombatStats { max_hp: 16, hp: 16, defense: 1, power: 4 });
    proof {
        assert forall|i: int| 0 <= i < old(ecs).n() implies ecs.entity_same(*old(ecs), i) by {}
    }
    e
}

/// An orc: base monster statistics under the orc glyph.
fn orc(ecs: &mut World, x: i32, y: i32) -> (e: Entity)
    requires
        old(ecs).wf(),
        old(ecs).map.in_bounds(x as int, y as int),
        old(ecs).n() < 1_000_000_000,
    ensures
        final(ecs).wf(),
        spawned_monster(*old(ecs), *final(ecs), e, x, y),
        monster_is_orc(*final(ecs), e as int),
        final(ecs).rng == old(ecs).rng,
{
    monster(ecs, x, y, 111, "Orc")
}

/// A goblin: base monster statistics under the goblin glyph.
fn goblin(ecs: &mut World, x: i32, y: i32) -> (e: Entity)
    requires
        old(ecs).wf(),
        old(ecs).map.in_bounds(x as int, y as int),
        old(ecs).n() < 1_000_000_000,
    ensures
        final(ecs).wf(),
        spawned_monster(*old(ecs), *final(ecs), e, x, y),
        monster_is_goblin(*final(ecs), e as int),
        final(ecs).rng == old(ecs).rng,
{
    monster(ecs, x, y, 103, "Goblin")
}

/// The shape every monster spawn leaves behind: one fresh live monster
/// entity at `(x, y)` with the shared base statistics, everything else
/// untouched.
pub open spec fn spawned_monster(w0: World, w1: World, e: Entity, x: i32, y: i32) -> bool {
    &&& e == w0.n()
    &&& w1.n() == w0.n() + 1
    &&& w1.is_alive(e as int)
    &&& w1.monsters[e as int]
    &&& !w1.players[e as int]
    &&& !w1.items[e as int]
    &&& !w1.blocks_tile[e as int]
    &&& w1.positions[e as int] == Some(Position { x, y })
    &&& w1.combat_stats[e as int] == Some(CombatStats { max_hp: 16, hp: 16, defense: 1, power: 4 })
    &&& (w1.viewsheds[e as int] matches Some(v) && v.range == 8 && v.dirty
        && v.visible_tiles@.len() == 0)
    &&& (monster_is_orc(w1, e as int) || monster_is_goblin(w1, e as int))
    &&& w1.wants_melee[e as int] is None
    &&& w1.suffer_damage[e as int] is None
    &&& w1.in_backpack[e as int] is None
    &&& w1.wants_pickup[e as int] is None
    &&& w1.healing_potions[e as int] is None
    &&& forall|i: int| 0 <= i < w0.n() ==> w1.entity_same(w0, i)
    &&& w1.map == w0.map
    &&& w1.log == w0.log
    &&& w1.player_entity == w0.player_entity
    &&& w1.pending_destroy == w0.pending_destroy
}

/// Entity `e` wears the orc's dress: the orc glyph with the name "Orc".
pub open spec fn monster_is_orc(w: World, e: int) -> bool {
    &&& (w.renderables[e] matches Some(r) && r.glyph == 111)
    &&& (w.names[e] matches Some(nm) && nm.name@ == "Orc"@)
}

/// Entity `e` wears the goblin's dress: the goblin glyph with the name
/// "Goblin".
pub open spec fn monster_is_goblin(w: World, e: int) -> bool {
    &&& (w.renderables[e] matches Some(r) && r.glyph == 103)
    &&& (w.names[e] matches Some(nm) && nm.name@ == "Goblin"@)
}

/// Entity `e` is something this room's population pass put there: a
/// live monster or item standing strictly inside `room`.
pub open spec fn spawned_in_room(w: World, room: Rect, e: int) -> bool {
    &&& 0 <= e < w.n()
    &&& w.alive[e]
    &&& match w.positions[e] {
        Some(p) => room.x1 < p.x <= room.x2 && room.y1 < p.y <= room.y2,
        None => false,
    }
    &&& (w.monsters[e] || w.items[e])
}

/// Spawn an orc or a goblin with even odds, decided by one `roll(1, 2)`
/// drawn from the shared generator; both share the same combat
/// statistics and differ only cosmetically.
pub fn random_monster(ecs: &mut World, x: i32, y: i32) -> (e: Entity)
    requires
        old(ecs).wf(),
        old(ecs).map.in_bounds(x as int, y as int),
        old(ecs).n() < 1_000_000_000,
    ensures
        final(ecs).wf(),
        spawned_monster(*old(ecs), *final(ecs), e, x, y),
        final(ecs).rng.state == state_after_roll(old(ecs).rng.state, 1, 2),
        roll_of(old(ecs).rng.state, 1, 2) == 1 ==> monster_is_orc(*final(ecs), e as int),
        roll_of(old(ecs).rng.state, 1, 2) != 1 ==> monster_is_goblin(*final(ecs), e as int),
{
    let roll = ecs.rng.roll_dice(1, 2);
    let ghost w_mid = *ecs;
    let e = if roll == 1 {
        orc(ecs, x, y)
    } else {
        goblin(ecs, x, y)
    };
    proof {
        assert forall|i: int| 0 <= i < old(ecs).n() implies ecs.entity_same(*old(ecs), i) by {
            assert(w_mid.entity_same(*old(ecs), i));
            assert(ecs.entity_same(w_mid, i));
        }
    }
    e
}

/// A healing potion item on the ground at `(x, y)`.
fn health_potion(ecs: &mut World, x: i32, y: i32) -> (e: Entity)
    requires
        old(ecs).wf(),
        old(ecs).map.in_bounds(x as int, y as int),
        old(ecs).n() < 1_000_000_000,
    ensures
        final(ecs).wf(),
        e == old(ecs).n(),
        final(ecs).n() == old(ecs).n() + 1,
        final(ecs).is_alive(e as int),
        final(ecs).items[e as int],
        final(ecs).positions[e as int] == Some(Position { x, y }),
        final(ecs).healing_potions[e as int] == Some(HealingPotion { heal_amount: 8 }),
        final(ecs).renderables[e as int] == Some(
            Renderable { glyph: 173, fg: Rgb { r: 255, g: 0, b: 255 }, bg: Rgb { r: 0, g: 0, b: 0 } },
        ),
        final(ecs).names[e as int] matches Some(nm) && nm.name@ == "Potion of Healing"@,
        !final(ecs).monsters[e as int],
        !final(ecs).players[e as int],
        !final(ecs).blocks_tile[e as int],
        final(ecs).combat_stats[e as int] is None,
        final(ecs).viewsheds[e as int] is None,
        final(ecs).wants_melee[e as int] is None,
        final(ecs).suffer_damage[e as int] is None,
        final(ecs).in_backpack[e as int] is None,
        final(ecs).wants_pickup[e as int] is None,
        forall|i: int| 0 <= i < old(ecs).n() ==> final(ecs).entity_same(*old(ecs), i),
        final(ecs).map == old(ecs).map,
        final(ecs).rng == old(ecs).rng,
        final(ecs).log == old(ecs).log,
        final(ecs).player_entity == old(ecs).player_entity,
        final(ecs).pending_destroy == old(ecs).pending_destroy,
{
    let e = ecs.create_entity();
    ecs.positions[e] = Some(Position { x, y });
    ecs.renderables[e] = Some(
        Renderable { glyph: 173, fg: Rgb { r: 255, g: 0, b: 255 }, bg: Rgb { r: 0, g: 0, b: 0 } },
    );
    ecs.names[e] = Some(Name { name: "Potion of Healing".to_string() });
    ecs.items[e] = true;
    ecs.healing_potions[e] = Some(HealingPotion { heal_amount: 8 });
    proof {
        assert forall|i: int| 0 <= i < old(ecs).n() implies ecs.entity_same(*old(ecs), i) by {}
    }
    e
}

/// The number of tiles strictly inside `room` that spawns can land on.
pub open spec fn room_area(room: Rect) -> int {
    (room.x2 - room.x1) * (room.y2 - room.y1)
}

/// Sample exactly `min(max(want, 0), room_area)` pairwise-distinct
/// tiles strictly inside `room`, drawing without replacement from the
/// room's interior tiles: a crowded room yields as many tiles as it
/// has, never an endless loop.
fn sample_points(ecs: &mut World, room: &Rect, want: i32) -> (pts: Vec<(i32, i32)>)
    requires
        old(ecs).wf(),
        old(ecs).map.room_in_map(*room),
        want <= 16,
    ensures
        final(ecs).wf(),
        pts.len() == vstd::math::min(vstd::math::max(want as int, 0), room_area(*room)),
        forall|k: int|
            0 <= k < pts.len() ==> room.x1 < (#[trigger] pts@[k]).0 <= room.x2 && room.y1
                < pts@[k].1 <= room.y2,
        forall|k1: int, k2: int|
            0 <= k1 < pts.len() && 0 <= k2 < pts.len() && k1 != k2 ==> #[trigger] pts@[k1]
                != #[trigger] pts@[k2],
        *final(ecs) == (World { rng: final(ecs).rng, ..*old(ecs) }),
{
    let w = room.x2 - room.x1;
    let h = room.y2 - room.y1;
    proof {
        assert(1 <= w < old(ecs).map.width <= 300);
        assert(1 <= h < old(ecs).map.height <= 300);
        assert(1 <= w * h <= 90000) by (nonlinear_arith)
            requires
                1 <= w <= 300,
                1 <= h <= 300,
        ;
    }
    let area = w * h;
    let mut pts: Vec<(i32, i32)> = Vec::new();
    if want <= 0 {
        return pts;
    }
    // Every interior tile once, in row order.
    let mut free: Vec<(i32, i32)> = Vec::new();
    let mut y = room.y1 + 1;
    while y <= room.y2
        invariant
            room.wf(),
            room.y1 + 1 <= y <= room.y2 + 1,
            w == room.x2 - room.x1,
            h == room.y2 - room.y1,
            free.len() == (y - room.y1 - 1) * w,
            forall|k: int|
                0 <= k < free.len() ==> room.x1 < (#[trigger] free@[k]).0 <= room.x2 && room.y1
                    < free@[k].1 < y,
            forall|k1: int, k2: int|
                0 <= k1 < free.len() && 0 <= k2 < free.len() && k1 != k2 ==> #[trigger] free@[k1]
                    != #[trigger] free@[k2],
        decreases room.y2 + 1 - y,
    {
        let ghost rows_before = free.len() as int;
        let mut x = room.x1 + 1;
        while x <= room.x2
            invariant
                room.wf(),
                room.y1 + 1 <= y <= room.y2,
                room.x1 + 1 <= x <= room.x2 + 1,
                w == room.x2 - room.x1,
                free.len() == rows_before + (x - room.x1 - 1),
                rows_before == (y - room.y1 - 1) * w,
                forall|k: int|
                    0 <= k < free.len() ==> room.x1 < (#[trigger] free@[k]).0 <= room.x2 && room.y1
                        < free@[k].1 <= y,
                forall|k: int|
                    0 <= k < free.len() && (#[trigger] free@[k]).1 == y ==> free@[k].0 < x,
                forall|k1: int, k2: int|
                    0 <= k1 < free.len() && 0 <= k2 < free.len() && k1 != k2 ==> #[trigger] free@[k1]
                        != #[trigger] free@[k2],
            decreases room.x2 + 1 - x,
        {
            free.push((x, y));
            x = x + 1;
        }
        proof {
            assert((y - room.y1 - 1) * w + w == (y + 1 - room.y1 - 1) * w) by (nonlinear_arith);
        }
        y = y + 1;
    }
    proof {
        assert(free.len() == (room.y2 + 1 - room.y1 - 1) * w);
        assert((room.y2 - room.y1) * w == w * h) by (nonlinear_arith)
            requires
                h == room.y2 - room.y1,
        ;
    }
    // Draw without replacement.
    let mut i: i32 = 0;
    while i < want && free.len() > 0
        invariant
            ecs.wf(),
            old(ecs).wf(),
            old(ecs).map.room_in_map(*room),
            0 <= i <= want <= 16,
            pts.len() == i,
            free.len() == area - i,
            area == room_area(*room),
            forall|k: int|
                0 <= k < free.len() ==> room.x1 < (#[trigger] free@[k]).0 <= room.x2 && room.y1
                    < free@[k].1 <= room.y2,
            forall|k1: int, k2: int|
                0 <= k1 < free.len() && 0 <= k2 < free.len() && k1 != k2 ==> #[trigger] free@[k1]
                    != #[trigger] free@[k2],
            forall|k: int|
                0 <= k < pts.len() ==> room.x1 < (#[trigger] pts@[k]).0 <= room.x2 && room.y1
                    < pts@[k].1 <= room.y2,
            forall|k1: int, k2: int|
                0 <= k1 < pts.len() && 0 <= k2 < pts.len() && k1 != k2 ==> #[trigger] pts@[k1]
                    != #[trigger] pts@[k2],
            forall|a: int, b: int|
                0 <= a < pts.len() && 0 <= b < free.len() ==> #[trigger] pts@[a] != #[trigger] free@[b],
            *ecs == (World { rng: ecs.rng, ..*old(ecs) }),
        decreases want - i,
    {
        let pick = ecs.rng.range(0, free.len() as i32);
        let ghost free0 = free@;
        let point = free.swap_remove(pick as usize);
        proof {
            assert(point == free0[pick as int]);
            assert forall|k1: int, k2: int|
                0 <= k1 < free.len() && 0 <= k2 < free.len() && k1 != k2 implies #[trigger] free@[k1]
                != #[trigger] free@[k2] by {
                assert(free@[k1] == (if k1 == pick as int {
                    free0.last()
                } else {
                    free0[k1]
                }));
                assert(free@[k2] == (if k2 == pick as int {
                    free0.last()
                } else {
                    free0[k2]
                }));
            }
            assert forall|b: int| 0 <= b < free.len() implies point != #[trigger] free@[b] by {
                assert(free@[b] == (if b == pick as int {
                    free0.last()
                } else {
                    free0[b]
                }));
            }
        }
        pts.push(point);
        i = i + 1;
    }
    proof {
        if i == want {
            assert(pts.len() == vstd::math::min(
                vstd::math::max(want as int, 0),
                room_area(*room),
            ));
        } else {
            assert(free.len() == 0);
            assert(pts.len() == area);
        }
    }
    pts
}

/// How many monsters this room will get: `roll(1, 6) - 3` clamped at
/// zero, capped by the room's interior tile count.
pub open spec fn monster_spawn_count(w0: World, room: Rect) -> int {
    vstd::math::min(
        max0(roll_of(w0.rng.state, 1, (MAX_MONSTERS_PER_ROOM + 2) as int) - 3),
        room_area(room),
    )
}

/// How many items this room will get: `roll(1, 4) - 3` (drawn after the
/// monster roll) clamped at zero, capped by the interior tile count.
pub open spec fn item_spawn_count(w0: World, room: Rect) -> int {
    vstd::math::min(
        max0(
            roll_of(
                state_after_roll(w0.rng.state, 1, (MAX_MONSTERS_PER_ROOM + 2) as int),
                1,
                (MAX_ITEMS_PER_ROOM + 2) as int,
            ) - 3,
        ),
        room_area(room),
    )
}

/// Populate one room: roll the monster and item counts from the shared
/// generator, sample that many distinct tiles per category, and spawn a
/// random monster at each monster tile and a healing potion at each
/// item tile. Exactly `monster_spawn_count + item_spawn_count` entities
/// are created: the monsters first, then the items.
pub fn spawn_room(ecs: &mut World, room: &Rect)
    requires
        old(ecs).wf(),
        old(ecs).map.room_in_map(*room),
        old(ecs).n() < 999_000_000,
    ensures
        final(ecs).wf(),
        final(ecs).n() == old(ecs).n() + monster_spawn_count(*old(ecs), *room)
            + item_spawn_count(*old(ecs), *room),
        0 <= monster_spawn_count(*old(ecs), *room) <= 3,
        0 <= item_spawn_count(*old(ecs), *room) <= 1,
        forall|i: int| 0 <= i < old(ecs).n() ==> final(ecs).entity_same(*old(ecs), i),
        final(ecs).map == old(ecs).map,
        final(ecs).log == old(ecs).log,
        final(ecs).player_entity == old(ecs).player_entity,
        final(ecs).pending_destroy == old(ecs).pending_destroy,
        forall|e: int|
            old(ecs).n() <= e < final(ecs).n() ==> spawned_in_room(*final(ecs), *room, e),
        // The first segment of new entities are the monsters, the rest
        // the items.
        forall|e: int|
            old(ecs).n() <= e < old(ecs).n() + monster_spawn_count(*old(ecs), *room)
                ==> #[trigger] spawned_monster_shape(*final(ecs), e),
        forall|e: int|
            old(ecs).n() + monster_spawn_count(*old(ecs), *room) <= e < final(ecs).n()
                ==> #[trigger] final(ecs).items[e],
        forall|e: int|
            old(ecs).n() + monster_spawn_count(*old(ecs), *room) <= e < final(ecs).n()
                ==> #[trigger] final(ecs).healing_potions[e] == Some(
                HealingPotion { heal_amount: 8 },
            ),
        // Spawn tiles are pairwise distinct within each category.
        forall|e1: int, e2: int|
            old(ecs).n() <= e1 < e2 < old(ecs).n() + monster_spawn_count(*old(ecs), *room)
                ==> #[trigger] final(ecs).positions[e1] != #[trigger] final(ecs).positions[e2],
        forall|e1: int, e2: int|
            old(ecs).n() + monster_spawn_count(*old(ecs), *room) <= e1 < e2 < final(ecs).n()
                ==> #[trigger] final(ecs).positions[e1] != #[trigger] final(ecs).positions[e2],
{
    let ghost n0 = old(ecs).n();
    let num_monsters = ecs.rng.roll_dice(1, MAX_MONSTERS_PER_ROOM + 2) - 3;
    let num_items = ecs.rng.roll_dice(1, MAX_ITEMS_PER_ROOM + 2) - 3;
    let monster_points = sample_points(ecs, room, num_monsters);
    let item_points = sample_points(ecs, room, num_items);
    proof {
        assert(monster_points.len() == monster_spawn_count(*old(ecs), *room));
        assert(item_points.len() == item_spawn_count(*old(ecs), *room));
    }
    let mut k: usize = 0;
    while k < monster_points.len()
        invariant
            ecs.wf(),
            old(ecs).wf(),
            n0 == old(ecs).n(),
            old(ecs).n() < 999_000_000,
            old(ecs).map.room_in_map(*room),
            k <= monster_points.len(),
            monster_points.len() <= 3,
            forall|j: int|
                0 <= j < monster_points.len() ==> room.x1 < (#[trigger] monster_points@[j]).0
                    <= room.x2 && room.y1 < monster_points@[j].1 <= room.y2,
            forall|j1: int, j2: int|
                0 <= j1 < monster_points.len() && 0 <= j2 < monster_points.len() && j1 != j2
                    ==> #[trigger] monster_points@[j1] != #[trigger] monster_points@[j2],
            ecs.n() == n0 + k,
            ecs.map == old(ecs).map,
            ecs.log == old(ecs).log,
            ecs.player_entity == old(ecs).player_entity,
            ecs.pending_destroy == old(ecs).pending_destroy,
            forall|i: int| 0 <= i < old(ecs).n() ==> ecs.entity_same(*old(ecs), i),
            forall|e: int| old(ecs).n() <= e < ecs.n() ==> spawned_in_room(*ecs, *room, e),
            forall|j: int| 0 <= j < k ==> #[trigger] spawned_monster_shape(*ecs, n0 + j),
            forall|j: int|
                0 <= j < k ==> #[trigger] ecs.positions[n0 + j] == Some(
                    Position { x: monster_points@[j].0, y: monster_points@[j].1 },
                ),
        decreases monster_points.len() - k,
    {
        let ghost w0 = *ecs;
        let (x, y) = monster_points[k];
        proof {
            assert(ecs.map.in_bounds(x as int, y as int));
            assert(ecs.n() < 1_000_000_000);
        }
        random_monster(ecs, x, y);
        proof {
            assert forall|i: int| 0 <= i < old(ecs).n() implies ecs.entity_same(*old(ecs), i) by {
                assert(w0.entity_same(*old(ecs), i));
                assert(ecs.entity_same(w0, i));
            }
            assert forall|e: int| old(ecs).n() <= e < ecs.n() implies spawned_in_room(
                *ecs,
                *room,
                e,
            ) by {
                if e < w0.n() {
                    assert(spawned_in_room(w0, *room, e));
                    assert(ecs.entity_same(w0, e));
                } else {
                    assert(e == w0.n());
                    assert(room.x1 < monster_points@[k as int].0 <= room.x2);
                    assert(room.y1 < monster_points@[k as int].1 <= room.y2);
                }
            }
            assert forall|j: int|
                0 <= j < k as int + 1 implies #[trigger] spawned_monster_shape(*ecs, n0 + j) by {
                if j < k as int {
                    assert(spawned_monster_shape(w0, n0 + j));
                    assert(ecs.entity_same(w0, n0 + j));
                } else {
                    assert(n0 + j == w0.n());
                }
            }
            assert forall|j: int|
                0 <= j < k as int + 1 implies #[trigger] ecs.positions[n0 + j] == Some(
                Position { x: monster_points@[j].0, y: monster_points@[j].1 },
            ) by {
                if j < k as int {
                    assert(w0.positions[n0 + j] == Some(
                        Position { x: monster_points@[j].0, y: monster_points@[j].1 },
                    ));
                    assert(ecs.entity_same(w0, n0 + j));
                } else {
                    assert(n0 + j == w0.n());
                }
            }
        }
        k = k + 1;
    }
    let ghost w_m = *ecs;
    let mut k2: usize = 0;
    while k2 < item_points.len()
        invariant
            ecs.wf(),
            old(ecs).wf(),
            w_m.wf(),
            n0 == old(ecs).n(),
            old(ecs).n() < 999_000_000,
            old(ecs).map.room_in_map(*room),
            k2 <= item_points.len(),
            item_points.len() <= 1,
            w_m.n() == n0 + monster_points@.len(),
            monster_points.len() <= 3,
            forall|j: int|
                0 <= j < item_points.len() ==> room.x1 < (#[trigger] item_points@[j]).0 <= room.x2
                    && room.y1 < item_points@[j].1 <= room.y2,
            forall|j1: int, j2: int|
                0 <= j1 < item_points.len() && 0 <= j2 < item_points.len() && j1 != j2
                    ==> #[trigger] item_points@[j1] != #[trigger] item_points@[j2],
            ecs.n() == w_m.n() + k2,
            ecs.map == old(ecs).map,
            ecs.log == old(ecs).log,
            ecs.player_entity == old(ecs).player_entity,
            ecs.pending_destroy == old(ecs).pending_destroy,
            forall|i: int| 0 <= i < old(ecs).n() ==> ecs.entity_same(*old(ecs), i),
            forall|e: int| old(ecs).n() <= e < ecs.n() ==> spawned_in_room(*ecs, *room, e),
            forall|j: int|
                0 <= j < monster_points.len() ==> #[trigger] spawned_monster_shape(*ecs, n0 + j),
            forall|j: int|
                0 <= j < monster_points.len() ==> #[trigger] ecs.positions[n0 + j] == Some(
                    Position { x: monster_points@[j].0, y: monster_points@[j].1 },
                ),
            forall|j: int|
                0 <= j < k2 ==> (#[trigger] ecs.items[w_m.n() + j]) && ecs.healing_potions[w_m.n()
                    + j] == Some(HealingPotion { heal_amount: 8 }),
            forall|j: int|
                0 <= j < k2 ==> #[trigger] ecs.positions[w_m.n() + j] == Some(
                    Position { x: item_points@[j].0, y: item_points@[j].1 },
                ),
        decreases item_points.len() - k2,
    {
        let ghost w0 = *ecs;
        let (x, y) = item_points[k2];
        proof {
            assert(ecs.map.in_bounds(x as int, y as int));
            assert(ecs.n() < 1_000_000_000);
        }
        health_potion(ecs, x, y);
        proof {
            assert forall|i: int| 0 <= i < old(ecs).n() implies ecs.entity_same(*old(ecs), i) by {
                assert(w0.entity_same(*old(ecs), i));
                assert(ecs.entity_same(w0, i));
            }
            assert forall|e: int| old(ecs).n() <= e < ecs.n() implies spawned_in_room(
                *ecs,
                *room,
                e,
            ) by {
                if e < w0.n() {
                    assert(spawned_in_room(w0, *room, e));
                    assert(ecs.entity_same(w0, e));
                } else {
                    assert(e == w0.n());
                    assert(room.x1 < item_points@[k2 as int].0 <= room.x2);
                    assert(room.y1 < item_points@[k2 as int].1 <= room.y2);
                }
            }
            assert forall|j: int|
                0 <= j < monster_points.len() implies #[trigger] spawned_monster_shape(
                *ecs,
                n0 + j,
            ) by {
                assert(spawned_monster_shape(w0, n0 + j));
                assert(ecs.entity_same(w0, n0 + j));
            }
            assert forall|j: int|
                0 <= j < monster_points.len() implies #[trigger] ecs.positions[n0 + j] == Some(
                Position { x: monster_points@[j].0, y: monster_points@[j].1 },
            ) by {
                assert(w0.positions[n0 + j] == Some(
                    Position { x: monster_points@[j].0, y: monster_points@[j].1 },
                ));
                assert(ecs.entity_same(w0, n0 + j));
            }
            assert forall|j: int|
                0 <= j < k2 as int + 1 implies (#[trigger] ecs.items[w_m.n() + j])
                && ecs.healing_potions[w_m.n() + j] == Some(HealingPotion { heal_amount: 8 }) by {
                if j < k2 as int {
                    assert(w0.items[w_m.n() + j]);
                    assert(w0.healing_potions[w_m.n() + j] == Some(
                        HealingPotion { heal_amount: 8 },
                    ));
                    assert(ecs.entity_same(w0, w_m.n() + j));
                } else {
                    assert(w_m.n() + j == w0.n());
                }
            }
            assert forall|j: int|
                0 <= j < k2 as int + 1 implies #[trigger] ecs.positions[w_m.n() + j] == Some(
                Position { x: item_points@[j].0, y: item_points@[j].1 },
            ) by {
                if j < k2 as int {
                    assert(w0.positions[w_m.n() + j] == Some(
                        Position { x: item_points@[j].0, y: item_points@[j].1 },
                    ));
                    assert(ecs.entity_same(w0, w_m.n() + j));
                } else {
                    assert(w_m.n() + j == w0.n());
                }
            }
        }
        k2 = k2 + 1;
    }
    proof {
        assert forall|e: int|
            old(ecs).n() <= e < old(ecs).n() + monster_spawn_count(*old(ecs), *room) implies
            #[trigger] spawned_monster_shape(*ecs, e) by {
            let j = e - n0;
            assert(spawned_monster_shape(*ecs, n0 + j));
        }
        assert forall|e: int|
            old(ecs).n() + monster_spawn_count(*old(ecs), *room) <= e < ecs.n() implies #[trigger] ecs.items[e] by {
            let j = e - w_m.n();
            assert(ecs.items[w_m.n() + j]);
        }
        assert forall|e: int|
            old(ecs).n() + monster_spawn_count(*old(ecs), *room) <= e < ecs.n() implies #[trigger] ecs.healing_potions[e] == Some(
            HealingPotion { heal_amount: 8 },
        ) by {
            let j = e - w_m.n();
            assert(ecs.items[w_m.n() + j]);
            assert(ecs.healing_potions[w_m.n() + j] == Some(HealingPotion { heal_amount: 8 }));
        }
        assert forall|e1: int, e2: int|
            old(ecs).n() <= e1 < e2 < old(ecs).n() + monster_spawn_count(*old(ecs), *room) implies
            #[trigger] ecs.positions[e1] != #[trigger] ecs.positions[e2] by {
            let j1 = e1 - n0;
            let j2 = e2 - n0;
            assert(ecs.positions[n0 + j1] == Some(
                Position { x: monster_points@[j1].0, y: monster_points@[j1].1 },
            ));
            assert(ecs.positions[n0 + j2] == Some(
                Position { x: monster_points@[j2].0, y: monster_points@[j2].1 },
            ));
            assert(monster_points@[j1] != monster_points@[j2]);
        }
        assert forall|e1: int, e2: int|
            old(ecs).n() + monster_spawn_count(*old(ecs), *room) <= e1 < e2 < ecs.n() implies
            #[trigger] ecs.positions[e1] != #[trigger] ecs.positions[e2] by {
            let j1 = e1 - w_m.n();
            let j2 = e2 - w_m.n();
            assert(ecs.positions[w_m.n() + j1] == Some(
                Position { x: item_points@[j1].0, y: item_points@[j1].1 },
            ));
            assert(ecs.positions[w_m.n() + j2] == Some(
                Position { x: item_points@[j2].0, y: item_points@[j2].1 },
            ));
            assert(item_points@[j1] != item_points@[j2]);
        }
    }
}

/// The statistics and components every spawned monster carries,
/// whichever kind it is.
pub open spec fn spawned_monster_shape(w: World, e: int) -> bool {
    &&& w.is_alive(e)
    &&& w.monsters[e]
    &&& !w.players[e]
    &&& !w.items[e]
    &&& w.combat_stats[e] == Some(CombatStats { max_hp: 16, hp: 16, defense: 1, power: 4 })
    &&& (w.viewsheds[e] matches Some(v) && v.range == 8 && v.dirty)
    &&& (monster_is_orc(w, e) || monster_is_goblin(w, e))
}

} // verus!
