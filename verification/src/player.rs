//! Player actions: moving (or attacking by bumping into something with
//! combat statistics) and picking up whatever lies underfoot. Movement
//! into a blocked tile is rejected silently, out-of-bounds destinations
//! are treated as a no-op move, and bumping into an entity that has
//! combat statistics attaches a melee intent instead of moving.

use vstd::prelude::*;
use crate::components::{LogEntry, Position, Viewshed, WantsToMelee, WantsToPickUpItem};
use crate::world::World;

verus! {

impl World {
    /// Try to move the player by one tile.
    pub fn try_move_player(&mut self, delta_x: i32, delta_y: i32)
        requires
            old(self).wf(),
            -1 <= delta_x <= 1,
            -1 <= delta_y <= 1,
        ensures
            final(self).wf(),
            final(self).n() == old(self).n(),
            final(self).map == old(self).map,
            final(self).rng == old(self).rng,
            final(self).log == old(self).log,
            final(self).player_entity == old(self).player_entity,
            final(self).pending_destroy == old(self).pending_destroy,
            final(self).alive == old(self).alive,
            final(self).combat_stats == old(self).combat_stats,
            final(self).suffer_damage == old(self).suffer_damage,
            final(self).wants_pickup == old(self).wants_pickup,
            final(self).in_backpack == old(self).in_backpack,
            // Only the player's own slots can change, and only as one of
            // the three outcomes: a melee intent, a move, or a no-op.
            forall|e: int|
                0 <= e < old(self).n() && Some(e as usize) != old(self).player_entity
                    ==> final(self).entity_same(*old(self), e),
            match old(self).player_entity {
                Some(p) => player_move_outcome(*old(self), *final(self), p, delta_x, delta_y),
                None => *final(self) == *old(self),
            },
            move_step(*old(self), *final(self), delta_x, delta_y),
    {
        let p = match self.player_entity {
            Some(p) => p,
            None => {
                return ;
            },
        };
        let pos = match &self.positions[p] {
            Some(pos) => Position { x: pos.x, y: pos.y },
            None => {
                return ;
            },
        };
        let nx = pos.x + delta_x;
        let ny = pos.y + delta_y;
        if !(nx >= 0 && ny >= 0 && nx < self.map.width && ny < self.map.height) {
            return ;
        }
        let didx = self.map.xy_idx(nx, ny);
        let mut target: Option<usize> = None;
        let mut k: usize = 0;
        let occupants = self.map.tile_content[didx].len();
        while k < occupants
            invariant
                self.wf(),
                *self == *old(self),
                occupants == self.map.tile_content[didx as int].len(),
                didx < self.map.tile_content.len(),
                k <= occupants,
                match target {
                    Some(t) => (t as int) < self.n() && self.combat_stats[t as int] is Some && t
                        != p && exists|k2: int|
                        0 <= k2 < occupants && (#[trigger] self.map.tile_content[didx as int][k2])
                            == t,
                    None => forall|k2: int|
                        0 <= k2 < k ==> !((#[trigger] self.map.tile_content[didx as int][k2]) != p
                            && (self.map.tile_content[didx as int][k2] as int) < self.n()
                            && self.combat_stats[self.map.tile_content[didx as int][k2] as int]
                            is Some),
                },
            decreases occupants - k,
        {
            let t = self.map.tile_content[didx][k];
            if t < self.combat_stats.len() && t != p {
                if self.combat_stats[t].is_some() {
                    target = Some(t);
                }
            }
            k = k + 1;
        }
        proof {
            if target is None {
                assert(!combatant_on_tile(*old(self), didx as int, p));
            } else {
                let t = target->Some_0;
                let k2 = choose|k2: int|
                    0 <= k2 < occupants && (#[trigger] self.map.tile_content[didx as int][k2])
                        == t;
                assert(combatant_on_tile(*old(self), didx as int, p));
            }
        }
        match target {
            Some(t) => {
                self.wants_melee[p] = Some(WantsToMelee { target: t });
            },
            None => {
                if !self.map.blocked[didx] {
                    self.positions[p] = Some(Position { x: nx, y: ny });
                    match &mut self.viewsheds[p] {
                        Some(v) => {
                            v.dirty = true;
                        },
                        None => {},
                    }
                }
            },
        }
    }

    /// Issue a pickup intent for an item lying on the player's tile; if
    /// nothing is there, log that there was nothing to pick up.
    pub fn get_item(&mut self)
        requires
            old(self).wf(),
        ensures
            final(self).wf(),
            final(self).n() == old(self).n(),
            final(self).map == old(self).map,
            final(self).rng == old(self).rng,
            final(self).player_entity == old(self).player_entity,
            final(self).pending_destroy == old(self).pending_destroy,
            final(self).alive == old(self).alive,
            final(self).positions == old(self).positions,
            final(self).combat_stats == old(self).combat_stats,
            final(self).in_backpack == old(self).in_backpack,
            forall|e: int|
                0 <= e < old(self).n() && Some(e as usize) != old(self).player_entity
                    ==> final(self).wants_pickup[e] == old(self).wants_pickup[e],
            grab_step(*old(self), *final(self)),
    {
        let p = match self.player_entity {
            Some(p) => p,
            None => {
                return ;
            },
        };
        let pos = match &self.positions[p] {
            Some(pos) => Position { x: pos.x, y: pos.y },
            None => {
                self.log.push(LogEntry::NothingToPickUp);
                return ;
            },
        };
        let n = self.alive.len();
        let mut e: usize = 0;
        while e < n
            invariant
                self.wf(),
                n == self.n(),
                e <= n,
                *self == *old(self),
                self.player_entity == Some(p),
                p < n,
                self.positions@[p as int] == Some(pos),
                forall|e2: int| 0 <= e2 < e ==> !item_at(*old(self), e2, pos),
            decreases n - e,
        {
            let is_item_here = self.alive[e] && self.items[e] && match &self.positions[e] {
                Some(q) => q.x == pos.x && q.y == pos.y,
                None => false,
            };
            if is_item_here {
                proof {
                    assert(item_at(*old(self), e as int, pos));
                }
                self.wants_pickup[p] = Some(WantsToPickUpItem { item: e });
                return ;
            }
            e = e + 1;
        }
        proof {
            assert forall|i: int| true implies !item_at(*old(self), i, pos) by {}
        }
        self.log.push(LogEntry::NothingToPickUp);
    }
}

/// A live item entity standing exactly on tile `pos`.
pub open spec fn item_at(w: World, i: int, pos: Position) -> bool {
    &&& 0 <= i < w.n()
    &&& w.alive[i]
    &&& w.items[i]
    &&& w.positions[i] == Some(pos)
}

/// The exact effect of issuing a pickup: with a positioned player, if
/// and only if some live item shares the player's tile, the player's
/// pickup intent names such an item; otherwise the intent table is
/// untouched and exactly one entry reporting nothing to pick up is
/// appended to the log. Nothing else changes.
pub open spec fn grab_step(w0: World, w1: World) -> bool {
    &&& w1.alive == w0.alive
    &&& w1.pending_destroy == w0.pending_destroy
    &&& w1.positions == w0.positions
    &&& w1.renderables == w0.renderables
    &&& w1.players == w0.players
    &&& w1.monsters == w0.monsters
    &&& w1.items == w0.items
    &&& w1.blocks_tile == w0.blocks_tile
    &&& w1.names == w0.names
    &&& w1.viewsheds == w0.viewsheds
    &&& w1.combat_stats == w0.combat_stats
    &&& w1.healing_potions == w0.healing_potions
    &&& w1.wants_melee == w0.wants_melee
    &&& w1.suffer_damage == w0.suffer_damage
    &&& w1.in_backpack == w0.in_backpack
    &&& w1.map == w0.map
    &&& w1.rng == w0.rng
    &&& w1.player_entity == w0.player_entity
    &&& w1.wants_pickup.len() == w0.wants_pickup.len()
    &&& match w0.player_entity {
        None => w1 == w0,
        Some(p) => {
            &&& forall|e: int|
                0 <= e < w0.wants_pickup.len() && e != p as int ==> #[trigger] w1.wants_pickup[e]
                    == w0.wants_pickup[e]
            &&& if (p as int) < w0.n() && w0.positions[p as int] is Some {
                let pp = w0.positions[p as int]->Some_0;
                if exists|i: int| item_at(w0, i, pp) {
                    &&& w1.log == w0.log
                    &&& (match w1.wants_pickup[p as int] {
                        Some(w) => item_at(w0, w.item as int, pp),
                        None => false,
                    })
                } else {
                    &&& w1.wants_pickup == w0.wants_pickup
                    &&& w1.log@ == w0.log@.push(LogEntry::NothingToPickUp)
                }
            } else {
                &&& w1.wants_pickup == w0.wants_pickup
                &&& w1.log@ == w0.log@.push(LogEntry::NothingToPickUp)
            }
        },
    }
}

/// The exact effect of a player move attempt: `player_move_outcome` at
/// the player, nothing else changed.
pub open spec fn move_step(w0: World, w1: World, dx: i32, dy: i32) -> bool {
    &&& w1.n() == w0.n()
    &&& w1.map == w0.map
    &&& w1.rng == w0.rng
    &&& w1.log == w0.log
    &&& w1.player_entity == w0.player_entity
    &&& w1.pending_destroy == w0.pending_destroy
    &&& w1.alive == w0.alive
    &&& w1.renderables == w0.renderables
    &&& w1.players == w0.players
    &&& w1.monsters == w0.monsters
    &&& w1.items == w0.items
    &&& w1.blocks_tile == w0.blocks_tile
    &&& w1.names == w0.names
    &&& w1.combat_stats == w0.combat_stats
    &&& w1.healing_potions == w0.healing_potions
    &&& w1.suffer_damage == w0.suffer_damage
    &&& w1.in_backpack == w0.in_backpack
    &&& w1.wants_pickup == w0.wants_pickup
    &&& w1.positions.len() == w0.positions.len()
    &&& w1.viewsheds.len() == w0.viewsheds.len()
    &&& w1.wants_melee.len() == w0.wants_melee.len()
    &&& forall|e: int|
        0 <= e < w0.n() && Some(e as usize) != w0.player_entity ==> w1.entity_same(w0, e)
    &&& match w0.player_entity {
        Some(p) => player_move_outcome(w0, w1, p, dx, dy),
        None => w1 == w0,
    }
}

/// Some entity other than `p`, holding combat statistics, stands on
/// tile index `i` of the occupancy index.
pub open spec fn combatant_on_tile(w: World, i: int, p: usize) -> bool {
    exists|k: int|
        0 <= k < w.map.tile_content[i].len() && (#[trigger] w.map.tile_content[i][k]) != p && (
        w.map.tile_content[i][k] as int) < w.n() && w.combat_stats[w.map.tile_content[i][k] as int]
            is Some
}

/// The exact outcome of a player move. With no positioned player, or an
/// out-of-bounds destination, nothing changes. Bumping into an entity
/// with combat statistics attaches a melee intent on it and does not
/// move. Otherwise an unblocked destination is stepped onto; a blocked
/// one leaves everything unchanged.
pub open spec fn player_move_outcome(w0: World, w1: World, p: usize, dx: i32, dy: i32) -> bool {
    match w0.positions[p as int] {
        None => w1 == w0,
        Some(q0) => {
            let nx = q0.x + dx;
            let ny = q0.y + dy;
            if !w0.map.in_bounds(nx as int, ny as int) {
                w1 == w0
            } else {
                let didx = w0.map.idx_of(nx as int, ny as int);
                if combatant_on_tile(w0, didx, p) {
                    &&& (match w1.wants_melee[p as int] {
                        Some(w) => (w.target as int) < w0.n() && w0.combat_stats[w.target as int]
                            is Some && w.target != p && w0.map.tile_content[didx]@.contains(
                            w.target,
                        ),
                        None => false,
                    })
                    &&& w1.positions == w0.positions
                    &&& w1.viewsheds == w0.viewsheds
                } else if !w0.map.blocked[didx] {
                    &&& w1.positions[p as int] == Some(
                        Position { x: nx as i32, y: ny as i32 },
                    )
                    &&& w1.wants_melee == w0.wants_melee
                    &&& (match (w0.viewsheds[p as int], w1.viewsheds[p as int]) {
                        (Some(v0), Some(v1)) => v1 == (Viewshed {
                            visible_tiles: v0.visible_tiles,
                            range: v0.range,
                            dirty: true,
                        }),
                        (None, None) => true,
                        _ => false,
                    })
                } else {
                    w1 == w0
                }
            }
        },
    }
}

} // verus!
