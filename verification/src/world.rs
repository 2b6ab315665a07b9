//! The entity-component store: fixed, statically-known component tables
//! keyed by a dense entity index, plus the process-wide resources (map,
//! random generator, message log, the player's identifier).
//!
//! Entity slots are appended by `create_entity` and never reused, so an
//! identifier stays meaningful for the whole run; destruction clears the
//! slot's components and marks it dead. Destruction requests queue into
//! `pending_destroy` and are applied in one batch by `commit`, never
//! immediately, so no system observes a half-destroyed entity mid-turn.

use vstd::prelude::*;
use crate::components::{
    CombatStats, Entity, HealingPotion, InBackpack, LogEntry, Name, Position, Renderable,
    SufferDamage, Viewshed, WantsToMelee, WantsToPickUpItem,
};
use crate::map::GameMap;
use crate::rng::Rng;

verus! {

/// Whether `v` holds `x`.
pub fn vec_contains(v: &Vec<usize>, x: usize) -> (r: bool)
    ensures
        r == v@.contains(x),
{
    let mut i: usize = 0;
    while i < v.len()
        invariant
            i <= v.len(),
            forall|k: int| 0 <= k < i ==> v@[k] != x,
        decreases v.len() - i,
    {
        if v[i] == x {
            return true;
        }
        i = i + 1;
    }
    false
}

pub struct World {
    /// One slot per entity ever created; false once destroyed.
    pub alive: Vec<bool>,
    /// Destruction requests waiting for the next `commit`.
    pub pending_destroy: Vec<Entity>,
    pub positions: Vec<Option<Position>>,
    pub renderables: Vec<Option<Renderable>>,
    pub players: Vec<bool>,
    pub monsters: Vec<bool>,
    pub items: Vec<bool>,
    pub blocks_tile: Vec<bool>,
    pub names: Vec<Option<Name>>,
    pub viewsheds: Vec<Option<Viewshed>>,
    pub combat_stats: Vec<Option<CombatStats>>,
    pub healing_potions: Vec<Option<HealingPotion>>,
    pub wants_melee: Vec<Option<WantsToMelee>>,
    pub suffer_damage: Vec<Option<SufferDamage>>,
    pub in_backpack: Vec<Option<InBackpack>>,
    pub wants_pickup: Vec<Option<WantsToPickUpItem>>,
    /// Process-wide resources, single-writer-per-turn.
    pub map: GameMap,
    pub rng: Rng,
    pub log: Vec<LogEntry>,
    pub player_entity: Option<Entity>,
}

impl World {
    /// The number of entity slots ever created.
    pub open spec fn n(self) -> int {
        self.alive.len() as int
    }

    pub open spec fn tables_sized(self) -> bool {
        &&& self.positions.len() == self.n()
        &&& self.renderables.len() == self.n()
        &&& self.players.len() == self.n()
        &&& self.monsters.len() == self.n()
        &&& self.items.len() == self.n()
        &&& self.blocks_tile.len() == self.n()
        &&& self.names.len() == self.n()
        &&& self.viewsheds.len() == self.n()
        &&& self.combat_stats.len() == self.n()
        &&& self.healing_potions.len() == self.n()
        &&& self.wants_melee.len() == self.n()
        &&& self.suffer_damage.len() == self.n()
        &&& self.in_backpack.len() == self.n()
        &&& self.wants_pickup.len() == self.n()
    }

    pub open spec fn wf(self) -> bool {
        &&& self.map.wf()
        &&& self.tables_sized()
        &&& forall|e: int|
            0 <= e < self.n() ==> match #[trigger] self.positions[e] {
                Some(p) => self.map.in_bounds(p.x as int, p.y as int),
                None => true,
            }
        &&& forall|e: int|
            0 <= e < self.n() ==> match #[trigger] self.combat_stats[e] {
                Some(s) => s.wf(),
                None => true,
            }
        &&& forall|e: int|
            0 <= e < self.n() ==> match #[trigger] self.suffer_damage[e] {
                Some(q) => forall|k: int|
                    0 <= k < q.amount.len() ==> 0 <= #[trigger] q.amount[k] <= 1_000_000,
                None => true,
            }
        &&& forall|e: int|
            0 <= e < self.n() ==> match #[trigger] self.wants_melee[e] {
                Some(w) => w.target < self.n(),
                None => true,
            }
        &&& forall|e: int|
            0 <= e < self.n() ==> match #[trigger] self.wants_pickup[e] {
                Some(w) => w.item < self.n(),
                None => true,
            }
        &&& forall|e: int|
            0 <= e < self.n() ==> match #[trigger] self.viewsheds[e] {
                Some(v) => 0 <= v.range <= 100,
                None => true,
            }
        &&& forall|k: int|
            0 <= k < self.pending_destroy.len() ==> (#[trigger] self.pending_destroy[k]) < self.n()
        &&& match self.player_entity {
            Some(p) => p < self.n(),
            None => true,
        }
    }

    /// A live entity slot.
    pub open spec fn is_alive(self, e: int) -> bool {
        0 <= e < self.n() && self.alive[e]
    }

    /// Slot `e` holds no components and is dead.
    pub open spec fn entity_cleared(self, e: int) -> bool {
        &&& !self.alive[e]
        &&& self.positions[e] is None
        &&& self.renderables[e] is None
        &&& !self.players[e]
        &&& !self.monsters[e]
        &&& !self.items[e]
        &&& !self.blocks_tile[e]
        &&& self.names[e] is None
        &&& self.viewsheds[e] is None
        &&& self.combat_stats[e] is None
        &&& self.healing_potions[e] is None
        &&& self.wants_melee[e] is None
        &&& self.suffer_damage[e] is None
        &&& self.in_backpack[e] is None
        &&& self.wants_pickup[e] is None
    }

    /// Slot `e` reads the same in `self` and `other`.
    pub open spec fn entity_same(self, other: World, e: int) -> bool {
        &&& self.alive[e] == other.alive[e]
        &&& self.positions[e] == other.positions[e]
        &&& self.renderables[e] == other.renderables[e]
        &&& self.players[e] == other.players[e]
        &&& self.monsters[e] == other.monsters[e]
        &&& self.items[e] == other.items[e]
        &&& self.blocks_tile[e] == other.blocks_tile[e]
        &&& self.names[e] == other.names[e]
        &&& self.viewsheds[e] == other.viewsheds[e]
        &&& self.combat_stats[e] == other.combat_stats[e]
        &&& self.healing_potions[e] == other.healing_potions[e]
        &&& self.wants_melee[e] == other.wants_melee[e]
        &&& self.suffer_damage[e] == other.suffer_damage[e]
        &&& self.in_backpack[e] == other.in_backpack[e]
        &&& self.wants_pickup[e] == other.wants_pickup[e]
    }

    /// An empty world around a generated map.
    pub fn new(map: GameMap, rng: Rng) -> (w: World)
        requires
            map.wf(),
        ensures
            w.wf(),
            w.n() == 0,
            w.map == map,
            w.rng == rng,
            w.log.len() == 0,
            w.player_entity is None,
            w.pending_destroy.len() == 0,
    {
        World {
            alive: Vec::new(),
            pending_destroy: Vec::new(),
            positions: Vec::new(),
            renderables: Vec::new(),
            players: Vec::new(),
            monsters: Vec::new(),
            items: Vec::new(),
            blocks_tile: Vec::new(),
            names: Vec::new(),
            viewsheds: Vec::new(),
            combat_stats: Vec::new(),
            healing_potions: Vec::new(),
            wants_melee: Vec::new(),
            suffer_damage: Vec::new(),
            in_backpack: Vec::new(),
            wants_pickup: Vec::new(),
            map,
            rng,
            log: Vec::new(),
            player_entity: None,
        }
    }

    /// A fresh entity identifier with an empty component slot.
    pub fn create_entity(&mut self) -> (e: Entity)
        requires
            old(self).wf(),
            old(self).n() < 1_000_000_000,
        ensures
            final(self).wf(),
            e == old(self).n(),
            final(self).n() == old(self).n() + 1,
            final(self).is_alive(e as int),
            forall|i: int| 0 <= i < old(self).n() ==> final(self).entity_same(*old(self), i),
            final(self).alive@ == old(self).alive@.push(true),
            final(self).positions@ == old(self).positions@.push(None::<Position>),
            final(self).renderables@ == old(self).renderables@.push(None::<Renderable>),
            final(self).players@ == old(self).players@.push(false),
            final(self).monsters@ == old(self).monsters@.push(false),
            final(self).items@ == old(self).items@.push(false),
            final(self).blocks_tile@ == old(self).blocks_tile@.push(false),
            final(self).names@ == old(self).names@.push(None::<Name>),
            final(self).viewsheds@ == old(self).viewsheds@.push(None::<Viewshed>),
            final(self).combat_stats@ == old(self).combat_stats@.push(None::<CombatStats>),
            final(self).healing_potions@ == old(self).healing_potions@.push(None::<HealingPotion>),
            final(self).wants_melee@ == old(self).wants_melee@.push(None::<WantsToMelee>),
            final(self).suffer_damage@ == old(self).suffer_damage@.push(None::<SufferDamage>),
            final(self).in_backpack@ == old(self).in_backpack@.push(None::<InBackpack>),
            final(self).wants_pickup@ == old(self).wants_pickup@.push(None::<WantsToPickUpItem>),
            final(self).pending_destroy == old(self).pending_destroy,
            final(self).map == old(self).map,
            final(self).rng == old(self).rng,
            final(self).log == old(self).log,
            final(self).player_entity == old(self).player_entity,
    {
        let e = self.alive.len();
        self.alive.push(true);
        self.positions.push(None);
        self.renderables.push(None);
        self.players.push(false);
        self.monsters.push(false);
        self.items.push(false);
        self.blocks_tile.push(false);
        self.names.push(None);
        self.viewsheds.push(None);
        self.combat_stats.push(None);
        self.healing_potions.push(None);
        self.wants_melee.push(None);
        self.suffer_damage.push(None);
        self.in_backpack.push(None);
        self.wants_pickup.push(None);
        e
    }

    /// Queue `e` for destruction at the next `commit`.
    pub fn request_destroy(&mut self, e: Entity)
        requires
            old(self).wf(),
            e < old(self).n(),
        ensures
            final(self).wf(),
            final(self).pending_destroy@ == old(self).pending_destroy@.push(e),
            *final(self) == (World { pending_destroy: final(self).pending_destroy, ..*old(self) }),
    {
        self.pending_destroy.push(e);
    }

    /// The exact effect of `commit`, as a relation between the world
    /// before and after: every queued entity cleared, every other slot
    /// untouched, the queue empty, resources untouched.
    pub open spec fn commit_step(self, w1: World) -> bool {
        &&& w1.n() == self.n()
        &&& w1.tables_sized()
        &&& w1.pending_destroy.len() == 0
        &&& forall|e: int|
            0 <= e < self.n() && self.pending_destroy@.contains(e as usize) ==> w1.entity_cleared(
                e,
            )
        &&& forall|e: int|
            0 <= e < self.n() && !self.pending_destroy@.contains(e as usize) ==> w1.entity_same(
                self,
                e,
            )
        &&& w1.map == self.map
        &&& w1.rng == self.rng
        &&& w1.log == self.log
        &&& w1.player_entity == self.player_entity
    }

    /// Apply every queued destruction atomically: each queued entity is
    /// dead and component-free afterwards, every other slot is untouched,
    /// and the queue is empty.
    pub fn commit(&mut self)
        requires
            old(self).wf(),
        ensures
            final(self).wf(),
            final(self).n() == old(self).n(),
            final(self).pending_destroy.len() == 0,
            forall|e: int|
                0 <= e < old(self).n() && old(self).pending_destroy@.contains(e as usize)
                    ==> final(self).entity_cleared(e),
            forall|e: int|
                0 <= e < old(self).n() && !old(self).pending_destroy@.contains(e as usize)
                    ==> final(self).entity_same(*old(self), e),
            final(self).map == old(self).map,
            final(self).rng == old(self).rng,
            final(self).log == old(self).log,
            final(self).player_entity == old(self).player_entity,
            old(self).commit_step(*final(self)),
    {
        let n = self.alive.len();
        let mut e: usize = 0;
        while e < n
            invariant
                old(self).wf(),
                n == old(self).n(),
                e <= n,
                self.tables_sized(),
                self.n() == n,
                self.pending_destroy == old(self).pending_destroy,
                self.map == old(self).map,
                self.rng == old(self).rng,
                self.log == old(self).log,
                self.player_entity == old(self).player_entity,
                forall|i: int|
                    0 <= i < e && old(self).pending_destroy@.contains(i as usize)
                        ==> self.entity_cleared(i),
                forall|i: int|
                    0 <= i < e && !old(self).pending_destroy@.contains(i as usize)
                        ==> self.entity_same(*old(self), i),
                forall|i: int| e <= i < n ==> self.entity_same(*old(self), i),
                self.wf(),
            decreases n - e,
        {
            let ghost w0 = *self;
            let doomed = vec_contains(&self.pending_destroy, e);
            if doomed {
                self.alive[e] = false;
                self.positions[e] = None;
                self.renderables[e] = None;
                self.players[e] = false;
                self.monsters[e] = false;
                self.items[e] = false;
                self.blocks_tile[e] = false;
                self.names[e] = None;
                self.viewsheds[e] = None;
                self.combat_stats[e] = None;
                self.healing_potions[e] = None;
                self.wants_melee[e] = None;
                self.suffer_damage[e] = None;
                self.in_backpack[e] = None;
                self.wants_pickup[e] = None;
            }
            proof {
                assert forall|i: int| 0 <= i < n && i != e as int implies self.entity_same(
                    w0,
                    i,
                ) by {}
                if doomed {
                    assert(self.entity_cleared(e as int));
                } else {
                    assert(self.entity_same(w0, e as int));
                }
                assert forall|i: int|
                    0 <= i < e as int + 1 && old(self).pending_destroy@.contains(
                        i as usize,
                    ) implies self.entity_cleared(i) by {
                    if i < e as int {
                        assert(w0.entity_cleared(i));
                        assert(self.entity_same(w0, i));
                    }
                }
                assert forall|i: int|
                    0 <= i < e as int + 1 && !old(self).pending_destroy@.contains(
                        i as usize,
                    ) implies self.entity_same(*old(self), i) by {
                    if i < e as int {
                        assert(w0.entity_same(*old(self), i));
                        assert(self.entity_same(w0, i));
                    } else {
                        assert(w0.entity_same(*old(self), i));
                        assert(self.entity_same(w0, e as int));
                    }
                }
                assert forall|i: int| e as int + 1 <= i < n implies self.entity_same(
                    *old(self),
                    i,
                ) by {
                    assert(w0.entity_same(*old(self), i));
                    assert(self.entity_same(w0, i));
                }
            }
            e = e + 1;
        }
        let ghost w_end = *self;
        self.pending_destroy = Vec::new();
        proof {
            assert forall|i: int|
                0 <= i < old(self).n() && old(self).pending_destroy@.contains(
                    i as usize,
                ) implies self.entity_cleared(i) by {
                assert(w_end.entity_cleared(i));
            }
            assert forall|i: int|
                0 <= i < old(self).n() && !old(self).pending_destroy@.contains(
                    i as usize,
                ) implies self.entity_same(*old(self), i) by {
                assert(w_end.entity_same(*old(self), i));
            }
        }
    }
}

} // verus!
