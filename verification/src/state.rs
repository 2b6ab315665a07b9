//! The turn state machine and the ordered system pipeline. One tick
//! advances the machine: `PreRun` runs the pipeline once to initialize
//! first-frame visibility, `AwaitingInput` consumes one player command,
//! `PlayerTurn` and `MonsterTurn` each run the pipeline, and
//! `ShowInventory` freezes the world until the menu reports cancel.
//! Every tick ends with the dead-entity reaper.
//!
//! After any pipeline pass every intent component is drained: the
//! systems that consume melee, damage, and pickup intents each remove
//! what they process, and nothing downstream re-adds them.

use vstd::prelude::*;
use crate::components::{CombatStats, LogEntry, Entity, WantsToMelee};
use crate::damage::queue_view;
use crate::damage::{damage_step, damage_system, reaper_step};
use crate::inventory::{item_collection_system, pickup_step};
use crate::map::new_map_rooms_and_corridors;
use crate::map_indexing::{index_step, map_indexing_system};
use crate::melee::{melee_combat_system, melee_step};
use crate::monster_ai::{ai_step, monster_ai_system};
use crate::player::{grab_step, move_step};
use crate::rng::Rng;
use crate::spawner;
use crate::visibility::{all_open, fog_consistent, fog_matches_player, pair_visible, tile_visible,
    vis_step, viewshed_fresh, visibility_system};
use crate::world::World;

verus! {

#[derive(Clone, Copy, Debug, PartialEq, Eq, Structural)]
pub enum RunState {
    AwaitingInput,
    PreRun,
    PlayerTurn,
    MonsterTurn,
    ShowInventory,
}

/// What the inventory-menu collaborator reports back each tick it is
/// open.
#[derive(Clone, Copy, Debug, PartialEq, Eq, Structural)]
pub enum ItemMenuResult {
    Cancel,
    NoResponse,
}

/// One discrete player command, as resolved by the input collaborator.
#[derive(Clone, Copy, Debug, PartialEq, Eq, Structural)]
pub enum Command {
    MoveLeft,
    MoveRight,
    MoveUp,
    MoveDown,
    Grab,
    OpenInventory,
    Wait,
}

pub struct State {
    pub ecs: World,
    pub runstate: RunState,
}

/// One full pass of the pipeline: the final world is reached from the
/// initial one by the six system relations in their fixed order -
/// visibility, monster AI, map indexing, melee, damage, item collection
/// - followed by one atomic commit of queued destructions. The
/// intermediate worlds are the states between consecutive systems.
pub open spec fn pipeline_applied(w0: World, w_end: World) -> bool {
    exists|ws: (World, World, World, World, World, World)|
        #![trigger vis_step(w0, ws.0)]
        {
            &&& vis_step(w0, ws.0)
            &&& ai_step(ws.0, ws.1)
            &&& index_step(ws.1, ws.2)
            &&& melee_step(ws.2, ws.3)
            &&& damage_step(ws.3, ws.4)
            &&& pickup_step(ws.4, ws.5)
            &&& ws.5.commit_step(w_end)
        }
}

/// What one player command does to the world while input is awaited:
/// the four moves and the grab act through their exact step relations;
/// opening the inventory or waiting changes nothing.
pub open spec fn command_applied(w0: World, w1: World, cmd: Command) -> bool {
    match cmd {
        Command::MoveLeft => move_step(w0, w1, -1i32, 0),
        Command::MoveRight => move_step(w0, w1, 1, 0),
        Command::MoveUp => move_step(w0, w1, 0, -1i32),
        Command::MoveDown => move_step(w0, w1, 0, 1),
        Command::Grab => grab_step(w0, w1),
        Command::OpenInventory => w1 == w0,
        Command::Wait => w1 == w0,
    }
}

/// No entity holds a melee, damage, or pickup intent.
pub open spec fn intents_drained(w: World) -> bool {
    &&& forall|e: int| 0 <= e < w.n() ==> (#[trigger] w.wants_melee[e]) is None
    &&& forall|e: int| 0 <= e < w.n() ==> (#[trigger] w.suffer_damage[e]) is None
    &&& forall|e: int| 0 <= e < w.n() ==> (#[trigger] w.wants_pickup[e]) is None
}

impl State {
    pub open spec fn wf(self) -> bool {
        self.ecs.wf()
    }

    /// Run the six simulation systems in their fixed order, then apply
    /// any queued destructions. Afterwards every intent component that
    /// existed when the pass began has been consumed and removed.
    pub fn run_systems(&mut self)
        requires
            old(self).wf(),
            fog_consistent(old(self).ecs),
        ensures
            final(self).wf(),
            final(self).runstate == old(self).runstate,
            final(self).ecs.n() == old(self).ecs.n(),
            final(self).ecs.player_entity == old(self).ecs.player_entity,
            final(self).ecs.pending_destroy.len() == 0,
            intents_drained(final(self).ecs),
            pipeline_applied(old(self).ecs, final(self).ecs),
            fog_consistent(final(self).ecs),
            final(self).ecs.map.tiles == old(self).ecs.map.tiles,
            final(self).ecs.map.rooms == old(self).ecs.map.rooms,
            final(self).ecs.rng == old(self).ecs.rng,
    {
        visibility_system(
            &mut self.ecs.map,
            &self.ecs.alive,
            &self.ecs.positions,
            &mut self.ecs.viewsheds,
            self.ecs.player_entity,
        );
        proof {
            assert forall|e: int|
                0 <= e < self.ecs.alive.len() implies match #[trigger] self.ecs.positions@[e] {
                Some(p) => self.ecs.map.in_bounds(p.x as int, p.y as int),
                None => true,
            } by {
                assert(match old(self).ecs.positions@[e] {
                    Some(p) => old(self).ecs.map.in_bounds(p.x as int, p.y as int),
                    None => true,
                });
            }
            assert forall|e: int|
                0 <= e < self.ecs.alive.len() implies match #[trigger] self.ecs.viewsheds@[e] {
                Some(v) => 0 <= v.range <= 100,
                None => true,
            } by {
                assert(match old(self).ecs.viewsheds@[e] {
                    Some(v) => 0 <= v.range <= 100,
                    None => true,
                });
            }
        }
        let ghost a1 = self.ecs;
        monster_ai_system(
            &mut self.ecs.map,
            &self.ecs.alive,
            &self.ecs.monsters,
            &mut self.ecs.viewsheds,
            &mut self.ecs.positions,
            &mut self.ecs.wants_melee,
            self.ecs.player_entity,
        );
        let ghost a2 = self.ecs;
        map_indexing_system(
            &mut self.ecs.map,
            &self.ecs.alive,
            &self.ecs.positions,
            &self.ecs.blocks_tile,
        );
        let ghost a3 = self.ecs;
        melee_combat_system(
            &mut self.ecs.wants_melee,
            &self.ecs.alive,
            &self.ecs.combat_stats,
            &mut self.ecs.suffer_damage,
            &mut self.ecs.log,
        );
        let ghost a4 = self.ecs;
        damage_system(&mut self.ecs.combat_stats, &mut self.ecs.suffer_damage);
        let ghost a5 = self.ecs;
        item_collection_system(
            &mut self.ecs.wants_pickup,
            &self.ecs.alive,
            &mut self.ecs.positions,
            &mut self.ecs.in_backpack,
            &mut self.ecs.log,
        );
        let ghost w_pre = self.ecs;
        proof {
            assert(self.ecs.map.wf());
            assert(self.ecs.tables_sized());
            assert forall|e: int|
                0 <= e < self.ecs.n() implies match #[trigger] self.ecs.positions[e] {
                Some(p) => self.ecs.map.in_bounds(p.x as int, p.y as int),
                None => true,
            } by {
                assert(match self.ecs.positions@[e] {
                    Some(p) => self.ecs.map.in_bounds(p.x as int, p.y as int),
                    None => true,
                });
            }
            assert forall|e: int|
                0 <= e < self.ecs.n() implies match #[trigger] self.ecs.viewsheds[e] {
                Some(v) => 0 <= v.range <= 100,
                None => true,
            } by {
                assert(match self.ecs.viewsheds@[e] {
                    Some(v) => 0 <= v.range <= 100,
                    None => true,
                });
            }
            assert forall|k: int|
                0 <= k < self.ecs.pending_destroy.len() implies (
            #[trigger] self.ecs.pending_destroy[k]) < self.ecs.n() by {
                assert(old(self).ecs.pending_destroy[k] < old(self).ecs.n());
            }
            assert(self.ecs.wf());
        }
        self.ecs.commit();
        proof {
            assert forall|e: int| 0 <= e < self.ecs.n() implies (#[trigger] self.ecs.wants_melee[e])
                is None by {
                if w_pre.pending_destroy@.contains(e as usize) {
                    assert(self.ecs.entity_cleared(e));
                } else {
                    assert(self.ecs.entity_same(w_pre, e));
                }
            }
            assert forall|e: int|
                0 <= e < self.ecs.n() implies (#[trigger] self.ecs.suffer_damage[e]) is None by {
                if w_pre.pending_destroy@.contains(e as usize) {
                    assert(self.ecs.entity_cleared(e));
                } else {
                    assert(self.ecs.entity_same(w_pre, e));
                }
            }
            assert forall|e: int|
                0 <= e < self.ecs.n() implies (#[trigger] self.ecs.wants_pickup[e]) is None by {
                if w_pre.pending_destroy@.contains(e as usize) {
                    assert(self.ecs.entity_cleared(e));
                } else {
                    assert(self.ecs.entity_same(w_pre, e));
                }
            }
            let ws = (a1, a2, a3, a4, a5, w_pre);
            assert(vis_step(old(self).ecs, ws.0));
            assert(ai_step(ws.0, ws.1));
            assert(index_step(ws.1, ws.2));
            assert(melee_step(ws.2, ws.3));
            assert(damage_step(ws.3, ws.4));
            assert(pickup_step(ws.4, ws.5));
            assert(ws.5.commit_step(self.ecs));
            assert(pipeline_applied(old(self).ecs, self.ecs));
            let w_old = old(self).ecs;
            // Fog-of-war: the arrays written by the visibility pass
            // survive the rest of the pipeline untouched.
            assert(self.ecs.map.visible_tiles == a1.map.visible_tiles);
            assert(self.ecs.map.revealed_tiles == a1.map.revealed_tiles);
            match w_old.player_entity {
                None => {
                    assert forall|x: int, y: int|
                        self.ecs.map.in_bounds(x, y) && (
                    #[trigger] self.ecs.map.visible_tiles[self.ecs.map.idx_of(x, y)]) implies
                        self.ecs.map.revealed_tiles[self.ecs.map.idx_of(x, y)] by {
                        assert(w_old.map.idx_of(x, y) == self.ecs.map.idx_of(x, y));
                        assert(w_old.map.in_bounds(x, y));
                        assert(w_old.map.visible_tiles[w_old.map.idx_of(x, y)]);
                    }
                    assert(fog_matches_player(self.ecs));
                },
                Some(p) => {
                    let processed = w_old.alive@[p as int] && w_old.positions[p as int] is Some
                        && (w_old.viewsheds[p as int] matches Some(v) && v.dirty);
                    // The player's viewshed survives the AI pass and the
                    // later systems; the commit either keeps it or clears
                    // the whole slot.
                    if a1.alive@[p as int] && a1.positions[p as int] is Some {
                        let apx = a1.positions[p as int]->Some_0.x;
                        let apy = a1.positions[p as int]->Some_0.y;
                        crate::monster_ai::lemma_ai_player_untouched(
                            a1.map,
                            a1.alive@,
                            a1.monsters@,
                            a1.viewsheds@,
                            a1.positions@,
                            a1.wants_melee@,
                            a1.map.blocked@,
                            p,
                            apx,
                            apy,
                            a1.n(),
                        );
                    }
                    assert(w_pre.viewsheds@[p as int] == a1.viewsheds@[p as int]);
                    if w_pre.pending_destroy@.contains(p) {
                        assert(self.ecs.entity_cleared(p as int));
                        assert(fog_matches_player(self.ecs));
                    } else {
                        assert(self.ecs.entity_same(w_pre, p as int));
                        assert(self.ecs.viewsheds[p as int] == a1.viewsheds@[p as int]);
                    }
                    if processed {
                        let pp = w_old.positions[p as int]->Some_0;
                        let rng = w_old.viewsheds[p as int]->Some_0.range as int;
                        assert forall|x: int, y: int|
                            self.ecs.map.in_bounds(x, y) && (
                        #[trigger] self.ecs.map.visible_tiles[self.ecs.map.idx_of(x, y)]) implies
                            self.ecs.map.revealed_tiles[self.ecs.map.idx_of(x, y)] by {
                            assert(a1.map.in_bounds(x, y));
                            assert(a1.map.idx_of(x, y) == self.ecs.map.idx_of(x, y));
                            assert(a1.map.visible_tiles[a1.map.idx_of(x, y)] == tile_visible(
                                w_old.map,
                                pp.x as int,
                                pp.y as int,
                                x,
                                y,
                                rng,
                            ));
                        }
                        if !w_pre.pending_destroy@.contains(p) {
                            assert(a1.viewsheds@[p as int] matches Some(v2) && !v2.dirty);
                            assert forall|x: int, y: int|
                                self.ecs.map.in_bounds(x, y) implies ((
                            #[trigger] self.ecs.map.visible_tiles[self.ecs.map.idx_of(x, y)])
                                == self.ecs.viewsheds[p as int]->Some_0.visible_tiles@.contains(
                                (x as i32, y as i32),
                            )) by {
                                assert(a1.map.in_bounds(x, y));
                                assert(a1.map.idx_of(x, y) == self.ecs.map.idx_of(x, y));
                                assert(a1.map.visible_tiles[a1.map.idx_of(x, y)] == tile_visible(
                                    w_old.map,
                                    pp.x as int,
                                    pp.y as int,
                                    x,
                                    y,
                                    rng,
                                ));
                                assert(a1.viewsheds@[p as int]->Some_0.visible_tiles@.contains(
                                    (x as i32, y as i32),
                                ) == pair_visible(
                                    w_old.map,
                                    pp.x as int,
                                    pp.y as int,
                                    (x as i32, y as i32),
                                    rng,
                                ));
                            }
                            assert(fog_matches_player(self.ecs));
                        }
                    } else {
                        assert(a1.map.visible_tiles == w_old.map.visible_tiles);
                        assert(a1.map.revealed_tiles == w_old.map.revealed_tiles);
                        assert(a1.viewsheds@[p as int] == w_old.viewsheds[p as int]);
                        assert forall|x: int, y: int|
                            self.ecs.map.in_bounds(x, y) && (
                        #[trigger] self.ecs.map.visible_tiles[self.ecs.map.idx_of(x, y)]) implies
                            self.ecs.map.revealed_tiles[self.ecs.map.idx_of(x, y)] by {
                            assert(w_old.map.idx_of(x, y) == self.ecs.map.idx_of(x, y));
                            assert(w_old.map.in_bounds(x, y));
                            assert(w_old.map.visible_tiles[w_old.map.idx_of(x, y)]);
                        }
                        if !w_pre.pending_destroy@.contains(p) {
                            if self.ecs.viewsheds[p as int] matches Some(v3) && !v3.dirty {
                                assert(w_old.viewsheds[p as int] matches Some(v4) && !v4.dirty);
                                assert forall|x: int, y: int|
                                    self.ecs.map.in_bounds(x, y) implies ((
                                #[trigger] self.ecs.map.visible_tiles[self.ecs.map.idx_of(x, y)])
                                    == self.ecs.viewsheds[p as int]->Some_0.visible_tiles@.contains(
                                    (x as i32, y as i32),
                                )) by {
                                    assert(w_old.map.idx_of(x, y) == self.ecs.map.idx_of(x, y));
                                    assert(w_old.map.in_bounds(x, y));
                                    assert(w_old.map.visible_tiles[w_old.map.idx_of(x, y)]
                                        == w_old.viewsheds[p as int]->Some_0.visible_tiles@.contains(
                                        (x as i32, y as i32),
                                    ));
                                }
                            }
                            assert(fog_matches_player(self.ecs));
                        }
                    }
                },
            }
            assert(fog_consistent(self.ecs));
        }
    }

    /// Resolve one player command while input is awaited: movement and
    /// grabbing spend the turn, opening the inventory suspends the
    /// world, anything else keeps waiting.
    pub fn player_input(&mut self, cmd: Command) -> (rs: RunState)
        requires
            old(self).wf(),
            fog_consistent(old(self).ecs),
        ensures
            final(self).wf(),
            fog_consistent(final(self).ecs),
            final(self).ecs.n() == old(self).ecs.n(),
            final(self).ecs.player_entity == old(self).ecs.player_entity,
            final(self).ecs.pending_destroy == old(self).ecs.pending_destroy,
            final(self).runstate == old(self).runstate,
            rs == match cmd {
                Command::Wait => RunState::AwaitingInput,
                Command::OpenInventory => RunState::ShowInventory,
                _ => RunState::PlayerTurn,
            },
            command_applied(old(self).ecs, final(self).ecs, cmd),
            (cmd == Command::Wait || cmd == Command::OpenInventory) ==> final(self).ecs == old(
                self,
            ).ecs,
    {
        let rs = match cmd {
            Command::MoveLeft => {
                self.ecs.try_move_player(-1, 0);
                RunState::PlayerTurn
            },
            Command::MoveRight => {
                self.ecs.try_move_player(1, 0);
                RunState::PlayerTurn
            },
            Command::MoveUp => {
                self.ecs.try_move_player(0, -1);
                RunState::PlayerTurn
            },
            Command::MoveDown => {
                self.ecs.try_move_player(0, 1);
                RunState::PlayerTurn
            },
            Command::Grab => {
                self.ecs.get_item();
                RunState::PlayerTurn
            },
            Command::OpenInventory => RunState::ShowInventory,
            Command::Wait => RunState::AwaitingInput,
        };
        proof {
            crate::visibility::lemma_fog_carryover(old(self).ecs, self.ecs);
        }
        rs
    }

    /// One tick of the turn state machine, fed the input collaborator's
    /// command and the menu collaborator's result for this frame. Ends
    /// with the reaper, so no entity with zero hit points survives a
    /// tick in the combat-statistics table.
    pub fn tick(&mut self, cmd: Command, menu: ItemMenuResult)
        requires
            old(self).wf(),
            old(self).ecs.pending_destroy.len() == 0,
            fog_consistent(old(self).ecs),
        ensures
            final(self).wf(),
            final(self).ecs.pending_destroy.len() == 0,
            fog_consistent(final(self).ecs),
            final(self).runstate == (match old(self).runstate {
                RunState::PreRun => RunState::AwaitingInput,
                RunState::AwaitingInput => match cmd {
                    Command::Wait => RunState::AwaitingInput,
                    Command::OpenInventory => RunState::ShowInventory,
                    _ => RunState::PlayerTurn,
                },
                RunState::PlayerTurn => RunState::MonsterTurn,
                RunState::MonsterTurn => RunState::AwaitingInput,
                RunState::ShowInventory => match menu {
                    ItemMenuResult::Cancel => RunState::AwaitingInput,
                    ItemMenuResult::NoResponse => RunState::ShowInventory,
                },
            }),
            // The reaper invariant: no live entity ends the tick at
            // zero hit points.
            forall|e: int|
                final(self).ecs.is_alive(e) ==> match final(self).ecs.combat_stats[e] {
                    Some(s) => s.hp != 0,
                    None => true,
                },
            // A full pipeline pass drains intents; the reaper only
            // removes entities, so they stay drained.
            (old(self).runstate == RunState::PreRun || old(self).runstate == RunState::PlayerTurn
                || old(self).runstate == RunState::MonsterTurn) ==> intents_drained(
                final(self).ecs,
            ),
            // What the tick did to the world: a full pipeline pass, one
            // player command, or nothing - always followed by the reaper.
            (old(self).runstate == RunState::PreRun || old(self).runstate == RunState::PlayerTurn
                || old(self).runstate == RunState::MonsterTurn) ==> (exists|wm: World|
                #[trigger] pipeline_applied(old(self).ecs, wm) && reaper_step(wm, final(self).ecs)),
            old(self).runstate == RunState::AwaitingInput ==> (exists|wm: World|
                #[trigger] command_applied(old(self).ecs, wm, cmd) && reaper_step(
                    wm,
                    final(self).ecs,
                )),
            old(self).runstate == RunState::ShowInventory ==> reaper_step(
                old(self).ecs,
                final(self).ecs,
            ),
            // The tick never touches the tile grid, the room list, the
            // random generator, or the entity count.
            final(self).ecs.map.tiles == old(self).ecs.map.tiles,
            final(self).ecs.map.rooms == old(self).ecs.map.rooms,
            final(self).ecs.rng == old(self).ecs.rng,
            final(self).ecs.n() == old(self).ecs.n(),
    {
        let newrunstate = match self.runstate {
            RunState::PreRun => {
                self.run_systems();
                RunState::AwaitingInput
            },
            RunState::AwaitingInput => self.player_input(cmd),
            RunState::PlayerTurn => {
                self.run_systems();
                RunState::MonsterTurn
            },
            RunState::MonsterTurn => {
                self.run_systems();
                RunState::AwaitingInput
            },
            RunState::ShowInventory => {
                match menu {
                    ItemMenuResult::Cancel => RunState::AwaitingInput,
                    ItemMenuResult::NoResponse => RunState::ShowInventory,
                }
            },
        };
        self.runstate = newrunstate;
        let ghost w_pre = self.ecs;
        self.ecs.delete_the_dead();
        proof {
            if old(self).runstate == RunState::PreRun || old(self).runstate
                == RunState::PlayerTurn || old(self).runstate == RunState::MonsterTurn {
                assert(pipeline_applied(old(self).ecs, w_pre));
                assert(reaper_step(w_pre, self.ecs));
            }
            if old(self).runstate == RunState::AwaitingInput {
                assert(command_applied(old(self).ecs, w_pre, cmd));
                assert(reaper_step(w_pre, self.ecs));
            }
            // The reaper keeps the fog arrays and either keeps or clears
            // the player's viewshed, so fog consistency carries over.
            assert(fog_consistent(w_pre));
            match w_pre.player_entity {
                Some(p) => {
                    if w_pre.is_dead(p as int) {
                        assert(self.ecs.entity_cleared(p as int));
                    } else {
                        assert(self.ecs.entity_same(w_pre, p as int));
                    }
                },
                None => {},
            }
            crate::visibility::lemma_fog_carryover(w_pre, self.ecs);
        }
        proof {
            if old(self).runstate == RunState::PreRun || old(self).runstate
                == RunState::PlayerTurn || old(self).runstate == RunState::MonsterTurn {
                assert forall|e: int| 0 <= e < self.ecs.n() implies (
                #[trigger] self.ecs.wants_melee[e]) is None by {
                    if w_pre.is_dead(e) {
                        assert(self.ecs.entity_cleared(e));
                    } else {
                        assert(self.ecs.entity_same(w_pre, e));
                    }
                }
                assert forall|e: int|
                    0 <= e < self.ecs.n() implies (#[trigger] self.ecs.suffer_damage[e])
                    is None by {
                    if w_pre.is_dead(e) {
                        assert(self.ecs.entity_cleared(e));
                    } else {
                        assert(self.ecs.entity_same(w_pre, e));
                    }
                }
                assert forall|e: int|
                    0 <= e < self.ecs.n() implies (#[trigger] self.ecs.wants_pickup[e])
                    is None by {
                    if w_pre.is_dead(e) {
                        assert(self.ecs.entity_cleared(e));
                    } else {
                        assert(self.ecs.entity_same(w_pre, e));
                    }
                }
            }
        }
    }
}

/// Field of view is symmetric through a whole pipeline pass on open
/// floor: when two live, sighted entities with equal sight ranges and
/// dirty viewsheds go through the pass, the pass leaves the second's
/// tile in the first's recomputed viewshed exactly when it leaves the
/// first's tile in the second's. (Through walls this need not hold;
/// the open-floor premise rules them out.)
pub proof fn lemma_pipeline_fov_symmetric(w0: World, w1: World, a: usize, b: usize)
    requires
        pipeline_applied(w0, w1),
        w0.wf(),
        w0.pending_destroy.len() == 0,
        all_open(w0.map),
        (a as int) < w0.n(),
        (b as int) < w0.n(),
        w0.alive[a as int],
        w0.alive[b as int],
        w0.positions[a as int] is Some,
        w0.positions[b as int] is Some,
        w0.viewsheds[a as int] matches Some(va) && va.dirty,
        w0.viewsheds[b as int] matches Some(vb) && vb.dirty,
        w0.viewsheds[a as int]->Some_0.range == w0.viewsheds[b as int]->Some_0.range,
    ensures
        w1.viewsheds[a as int] is Some,
        w1.viewsheds[b as int] is Some,
        w1.viewsheds[a as int]->Some_0.visible_tiles@.contains(
            (w0.positions[b as int]->Some_0.x, w0.positions[b as int]->Some_0.y),
        ) <==> w1.viewsheds[b as int]->Some_0.visible_tiles@.contains(
            (w0.positions[a as int]->Some_0.x, w0.positions[a as int]->Some_0.y),
        ),
{
    let ws = choose|ws: (World, World, World, World, World, World)|
        #![trigger vis_step(w0, ws.0)]
        {
            &&& vis_step(w0, ws.0)
            &&& ai_step(ws.0, ws.1)
            &&& index_step(ws.1, ws.2)
            &&& melee_step(ws.2, ws.3)
            &&& damage_step(ws.3, ws.4)
            &&& pickup_step(ws.4, ws.5)
            &&& ws.5.commit_step(w1)
        };
    let pa = w0.positions[a as int]->Some_0;
    let pb = w0.positions[b as int]->Some_0;
    let r = w0.viewsheds[a as int]->Some_0.range;
    // The visibility step recomputes both viewsheds exactly.
    assert(match w0.viewsheds@[a as int] {
        Some(v) => ws.0.viewsheds@[a as int] matches Some(v2) && viewshed_fresh(
            v2,
            w0.map,
            pa,
            v.range,
        ),
        None => false,
    });
    assert(match w0.viewsheds@[b as int] {
        Some(v) => ws.0.viewsheds@[b as int] matches Some(v2) && viewshed_fresh(
            v2,
            w0.map,
            pb,
            v.range,
        ),
        None => false,
    });
    // On open floor the relation is symmetric.
    crate::visibility::lemma_fov_symmetric_open(
        w0.map,
        pa.x as int,
        pa.y as int,
        pb.x as int,
        pb.y as int,
        r as int,
    );
    let fresh_a = ws.0.viewsheds@[a as int]->Some_0;
    let fresh_b = ws.0.viewsheds@[b as int]->Some_0;
    assert(fresh_a.visible_tiles@.contains((pb.x, pb.y)) == pair_visible(
        w0.map,
        pa.x as int,
        pa.y as int,
        (pb.x, pb.y),
        r as int,
    ));
    assert(fresh_b.visible_tiles@.contains((pa.x, pa.y)) == pair_visible(
        w0.map,
        pb.x as int,
        pb.y as int,
        (pa.x, pa.y),
        r as int,
    ));
    assert(fresh_a.visible_tiles@.contains((pb.x, pb.y)) <==> fresh_b.visible_tiles@.contains(
        (pa.x, pa.y),
    ));
    // The AI pass keeps every viewshed's tiles; the later systems do not
    // touch the table at all.
    match ws.0.player_entity {
        Some(pl) => {
            if (pl as int) < ws.0.n() && ws.0.alive[pl as int] && ws.0.positions[pl as int]
                is Some {
                let px = ws.0.positions[pl as int]->Some_0.x;
                let py = ws.0.positions[pl as int]->Some_0.y;
                crate::monster_ai::lemma_ai_viewshed_content(
                    ws.0.map,
                    ws.0.alive@,
                    ws.0.monsters@,
                    ws.0.viewsheds@,
                    ws.0.positions@,
                    ws.0.wants_melee@,
                    ws.0.map.blocked@,
                    pl,
                    px,
                    py,
                    a as int,
                    ws.0.n(),
                );
                crate::monster_ai::lemma_ai_viewshed_content(
                    ws.0.map,
                    ws.0.alive@,
                    ws.0.monsters@,
                    ws.0.viewsheds@,
                    ws.0.positions@,
                    ws.0.wants_melee@,
                    ws.0.map.blocked@,
                    pl,
                    px,
                    py,
                    b as int,
                    ws.0.n(),
                );
            }
        },
        None => {},
    }
    assert(ws.1.viewsheds@[a as int] is Some && ws.1.viewsheds@[a as int]->Some_0.visible_tiles
        == fresh_a.visible_tiles);
    assert(ws.1.viewsheds@[b as int] is Some && ws.1.viewsheds@[b as int]->Some_0.visible_tiles
        == fresh_b.visible_tiles);
    // With an empty destruction queue the commit changes nothing.
    assert(ws.5.pending_destroy.len() == 0);
    assert(w1.entity_same(ws.5, a as int));
    assert(w1.entity_same(ws.5, b as int));
}

/// A monster farther from the player than either's sight range idles
/// through a whole pipeline pass: its position comes out unchanged, it
/// holds no melee intent afterwards, and the player's visible set
/// excludes its tile. Requires a pass begun with no pickup intents and
/// an empty destruction queue, as every fresh turn is.
pub proof fn lemma_pipeline_distant_monster_idles(w0: World, w1: World, m: usize)
    requires
        pipeline_applied(w0, w1),
        w0.wf(),
        w0.pending_destroy.len() == 0,
        w0.player_entity is Some,
        (w0.player_entity->Some_0 as int) < w0.n(),
        w0.alive[w0.player_entity->Some_0 as int],
        w0.positions[w0.player_entity->Some_0 as int] is Some,
        w0.viewsheds[w0.player_entity->Some_0 as int] matches Some(pv) && pv.dirty,
        (m as int) < w0.n(),
        w0.alive[m as int],
        w0.positions[m as int] is Some,
        w0.viewsheds[m as int] matches Some(mv) && mv.dirty,
        crate::visibility::cheb_dist(
            w0.positions[m as int]->Some_0.x as int,
            w0.positions[m as int]->Some_0.y as int,
            w0.positions[w0.player_entity->Some_0 as int]->Some_0.x as int,
            w0.positions[w0.player_entity->Some_0 as int]->Some_0.y as int,
        ) > w0.viewsheds[m as int]->Some_0.range,
        crate::visibility::cheb_dist(
            w0.positions[m as int]->Some_0.x as int,
            w0.positions[m as int]->Some_0.y as int,
            w0.positions[w0.player_entity->Some_0 as int]->Some_0.x as int,
            w0.positions[w0.player_entity->Some_0 as int]->Some_0.y as int,
        ) > w0.viewsheds[w0.player_entity->Some_0 as int]->Some_0.range,
        forall|e: int| 0 <= e < w0.n() ==> (#[trigger] w0.wants_pickup[e]) is None,
    ensures
        w1.positions[m as int] == w0.positions[m as int],
        w1.wants_melee[m as int] is None,
        !w1.map.visible_tiles[w1.map.idx_of(
            w0.positions[m as int]->Some_0.x as int,
            w0.positions[m as int]->Some_0.y as int,
        )],
{
    let ws = choose|ws: (World, World, World, World, World, World)|
        #![trigger vis_step(w0, ws.0)]
        {
            &&& vis_step(w0, ws.0)
            &&& ai_step(ws.0, ws.1)
            &&& index_step(ws.1, ws.2)
            &&& melee_step(ws.2, ws.3)
            &&& damage_step(ws.3, ws.4)
            &&& pickup_step(ws.4, ws.5)
            &&& ws.5.commit_step(w1)
        };
    let p = w0.player_entity->Some_0;
    let pm = w0.positions[m as int]->Some_0;
    let pp = w0.positions[p as int]->Some_0;
    let rm = w0.viewsheds[m as int]->Some_0.range;
    let rp = w0.viewsheds[p as int]->Some_0.range;
    // The fresh monster viewshed excludes the player's tile: too far.
    assert(match w0.viewsheds@[m as int] {
        Some(v) => ws.0.viewsheds@[m as int] matches Some(v2) && viewshed_fresh(
            v2,
            w0.map,
            pm,
            v.range,
        ),
        None => false,
    });
    let fresh_m = ws.0.viewsheds@[m as int]->Some_0;
    assert(!pair_visible(w0.map, pm.x as int, pm.y as int, (pp.x, pp.y), rm as int));
    assert(!fresh_m.visible_tiles@.contains((pp.x, pp.y)));
    // The player's fresh view excludes the monster's tile: symmetric
    // distance, too far the other way.
    assert(crate::visibility::cheb_dist(pp.x as int, pp.y as int, pm.x as int, pm.y as int)
        == crate::visibility::cheb_dist(pm.x as int, pm.y as int, pp.x as int, pp.y as int));
    assert(!tile_visible(w0.map, pp.x as int, pp.y as int, pm.x as int, pm.y as int, rp as int));
    assert(w0.map.in_bounds(pm.x as int, pm.y as int));
    assert(ws.0.map.visible_tiles[ws.0.map.idx_of(pm.x as int, pm.y as int)] == tile_visible(
        w0.map,
        pp.x as int,
        pp.y as int,
        pm.x as int,
        pm.y as int,
        rp as int,
    ));
    // The AI leaves the unseeing monster alone.
    match ws.0.player_entity {
        Some(pl) => {
            if (pl as int) < ws.0.n() && ws.0.alive[pl as int] && ws.0.positions[pl as int]
                is Some {
                let px = ws.0.positions[pl as int]->Some_0.x;
                let py = ws.0.positions[pl as int]->Some_0.y;
                assert(px == pp.x && py == pp.y);
                crate::monster_ai::lemma_ai_unseeing_idle(
                    ws.0.map,
                    ws.0.alive@,
                    ws.0.monsters@,
                    ws.0.viewsheds@,
                    ws.0.positions@,
                    ws.0.wants_melee@,
                    ws.0.map.blocked@,
                    pl,
                    px,
                    py,
                    m as int,
                    ws.0.n(),
                );
            }
        },
        None => {},
    }
    assert(ws.1.positions@[m as int] == w0.positions[m as int]);
    // No pickup intent exists, so the collection pass moves nothing.
    assert forall|e: int| 0 <= e < ws.4.n() implies (#[trigger] ws.4.wants_pickup[e]) is None by {
        assert(w0.wants_pickup[e] is None);
    }
    assert(crate::inventory::unclaimed_below(
        ws.4.wants_pickup@,
        ws.4.alive@,
        m as int,
        ws.4.alive.len() as int,
    ));
    assert(ws.5.positions[m as int] == ws.4.positions[m as int]);
    // An empty destruction queue makes the commit a no-op.
    assert(ws.5.pending_destroy.len() == 0);
    assert(w1.entity_same(ws.5, m as int));
}

/// An adjacent, seeing monster attacks through a whole pipeline pass.
/// When it is the only acting monster and no intent of any kind is
/// pending, the pass attaches its melee intent, resolves it, and
/// applies the damage: the player ends the pass with
/// `max(0, hp - max(0, monster power - player defense))` hit points,
/// the monster has not moved, and no intent from the exchange survives.
pub proof fn lemma_pipeline_adjacent_monster_attacks(w0: World, w1: World, m: usize)
    requires
        pipeline_applied(w0, w1),
        w0.wf(),
        w0.pending_destroy.len() == 0,
        w0.player_entity is Some,
        (w0.player_entity->Some_0 as int) < w0.n(),
        (m as int) < w0.n(),
        m != w0.player_entity->Some_0,
        w0.alive[w0.player_entity->Some_0 as int],
        w0.alive[m as int],
        w0.positions[w0.player_entity->Some_0 as int] is Some,
        w0.positions[m as int] is Some,
        w0.monsters[m as int],
        w0.viewsheds[m as int] matches Some(mv) && mv.dirty && mv.range >= 1,
        w0.combat_stats[m as int] matches Some(ms) && ms.hp > 0,
        w0.combat_stats[w0.player_entity->Some_0 as int] is Some,
        crate::visibility::cheb_dist(
            w0.positions[m as int]->Some_0.x as int,
            w0.positions[m as int]->Some_0.y as int,
            w0.positions[w0.player_entity->Some_0 as int]->Some_0.x as int,
            w0.positions[w0.player_entity->Some_0 as int]->Some_0.y as int,
        ) <= 1,
        forall|e: int|
            0 <= e < w0.n() && e != m as int && e != w0.player_entity->Some_0 as int
                ==> !crate::monster_ai::ai_subject(
                w0.alive@,
                w0.monsters@,
                w0.viewsheds@,
                w0.positions@,
                e,
            ),
        forall|e: int| 0 <= e < w0.n() ==> (#[trigger] w0.wants_melee[e]) is None,
        forall|e: int| 0 <= e < w0.n() ==> (#[trigger] w0.suffer_damage[e]) is None,
        forall|e: int| 0 <= e < w0.n() ==> (#[trigger] w0.wants_pickup[e]) is None,
    ensures
        w1.positions[m as int] == w0.positions[m as int],
        w1.combat_stats[w0.player_entity->Some_0 as int] == Some(
            (CombatStats {
                hp: crate::damage::max0(
                    w0.combat_stats[w0.player_entity->Some_0 as int]->Some_0.hp
                        - crate::damage::max0(
                        w0.combat_stats[m as int]->Some_0.power
                            - w0.combat_stats[w0.player_entity->Some_0 as int]->Some_0.defense,
                    ),
                ) as i32,
                ..w0.combat_stats[w0.player_entity->Some_0 as int]->Some_0
            }),
        ),
        w1.wants_melee[m as int] is None,
        w1.suffer_damage[w0.player_entity->Some_0 as int] is None,
{
    let ws = choose|ws: (World, World, World, World, World, World)|
        #![trigger vis_step(w0, ws.0)]
        {
            &&& vis_step(w0, ws.0)
            &&& ai_step(ws.0, ws.1)
            &&& index_step(ws.1, ws.2)
            &&& melee_step(ws.2, ws.3)
            &&& damage_step(ws.3, ws.4)
            &&& pickup_step(ws.4, ws.5)
            &&& ws.5.commit_step(w1)
        };
    let p = w0.player_entity->Some_0;
    let pm = w0.positions[m as int]->Some_0;
    let pp = w0.positions[p as int]->Some_0;
    let rm = w0.viewsheds[m as int]->Some_0.range;
    let sm = w0.combat_stats[m as int]->Some_0;
    let sp = w0.combat_stats[p as int]->Some_0;
    // The monster's fresh viewshed holds the player's tile: at grid
    // distance one or zero nothing can stand between.
    assert(match w0.viewsheds@[m as int] {
        Some(v) => ws.0.viewsheds@[m as int] matches Some(v2) && viewshed_fresh(
            v2,
            w0.map,
            pm,
            v.range,
        ),
        None => false,
    });
    assert(crate::visibility::sight_clear_from(
        w0.map,
        pm.x as int,
        pm.y as int,
        pp.x as int,
        pp.y as int,
    ));
    assert(tile_visible(w0.map, pm.x as int, pm.y as int, pp.x as int, pp.y as int, rm as int));
    let fresh_m = ws.0.viewsheds@[m as int]->Some_0;
    assert(fresh_m.visible_tiles@.contains((pp.x, pp.y)));
    // The visibility pass changes no one's standing, so the monster is
    // still the only acting subject.
    assert forall|e: int|
        0 <= e < ws.0.n() && e != m as int && e != p as int implies !crate::monster_ai::ai_subject(
        ws.0.alive@,
        ws.0.monsters@,
        ws.0.viewsheds@,
        ws.0.positions@,
        e,
    ) by {
        assert(!crate::monster_ai::ai_subject(
            w0.alive@,
            w0.monsters@,
            w0.viewsheds@,
            w0.positions@,
            e,
        ));
        assert(match w0.viewsheds@[e] {
            Some(v) => {
                if w0.alive@[e] && w0.positions@[e] is Some && v.dirty {
                    ws.0.viewsheds@[e] is Some
                } else {
                    ws.0.viewsheds@[e] == w0.viewsheds@[e]
                }
            },
            None => ws.0.viewsheds@[e] is None,
        });
    }
    match ws.0.player_entity {
        Some(pl) => {
            assert(pl == p);
            crate::monster_ai::lemma_ai_single_attacker(
                ws.0.map,
                ws.0.alive@,
                ws.0.monsters@,
                ws.0.viewsheds@,
                ws.0.positions@,
                ws.0.wants_melee@,
                ws.0.map.blocked@,
                pl,
                ws.0.positions[pl as int]->Some_0.x,
                ws.0.positions[pl as int]->Some_0.y,
                m as int,
                ws.0.n(),
            );
        },
        None => {
            assert(false);
        },
    }
    assert(ws.1.positions@ == ws.0.positions@);
    assert(ws.1.wants_melee@ == ws.0.wants_melee@.update(
        m as int,
        Some(WantsToMelee { target: p }),
    ));
    // One intent, one valid hit.
    let wm2 = ws.2.wants_melee@;
    assert(wm2 == ws.1.wants_melee@);
    assert forall|a: int| 0 <= a < wm2.len() && a != m as int implies (#[trigger] wm2[a])
        is None by {
        assert(w0.wants_melee[a] is None);
    }
    let d = crate::melee::hit_damage(wm2, ws.2.combat_stats@, m as int);
    crate::melee::lemma_queues_single(
        wm2,
        ws.2.alive@,
        ws.2.combat_stats@,
        crate::melee::suffer_view(ws.2.suffer_damage@),
        m as int,
        ws.2.alive.len() as int,
    );
    assert(crate::melee::hit_valid(wm2, ws.2.alive@, ws.2.combat_stats@, m as int));
    assert(d == crate::damage::max0(sm.power - sp.defense));
    // Before the pass every queue is empty.
    assert forall|e: int|
        0 <= e < ws.2.suffer_damage@.len() implies crate::melee::suffer_view(ws.2.suffer_damage@)[e]
        is None by {
        assert(w0.suffer_damage[e] is None);
        assert(ws.2.suffer_damage@[e] == w0.suffer_damage[e]);
    }
    // The damage pass applies the single queue entry to the player.
    assert(crate::melee::suffer_view(ws.3.suffer_damage@)[p as int] == queue_view(
        ws.3.suffer_damage[p as int],
    ));
    assert(ws.4.combat_stats[p as int] == crate::damage::damaged_stats(
        ws.3.combat_stats[p as int],
        queue_view(ws.3.suffer_damage[p as int]),
    ));
    assert(ws.3.combat_stats[p as int] == Some(sp));
    if d > 0 {
        assert(queue_view(ws.3.suffer_damage[p as int]) == Some(seq![d as i32]));
        let q = seq![d as i32];
        assert(ws.2.combat_stats@[m as int] == Some(sm) && sm.wf());
        assert(ws.2.combat_stats@[p as int] == Some(sp) && sp.wf());
        assert(0 <= d <= 1_000_000);
        assert(q.drop_last() =~= Seq::<i32>::empty());
        assert(crate::damage::sum_seq(Seq::<i32>::empty()) == 0);
        assert(q.last() == d as i32);
        assert(crate::damage::sum_seq(q) == d);
        assert(ws.4.combat_stats[p as int] == Some(
            (CombatStats { hp: crate::damage::max0(sp.hp - d) as i32, ..sp }),
        ));
    } else {
        assert(queue_view(ws.3.suffer_damage[p as int]) is None);
        assert(ws.4.combat_stats[p as int] == Some(sp));
        assert(crate::damage::max0(sp.hp - d) == sp.hp);
        assert(sp == (CombatStats { hp: crate::damage::max0(sp.hp - d) as i32, ..sp }));
    }
    // Nothing afterwards touches the player's statistics or the
    // monster's position, and the commit with an empty queue is a no-op.
    assert(ws.5.pending_destroy.len() == 0);
    assert forall|e: int| 0 <= e < ws.4.n() implies (#[trigger] ws.4.wants_pickup[e]) is None by {
        assert(w0.wants_pickup[e] is None);
    }
    assert(crate::inventory::unclaimed_below(
        ws.4.wants_pickup@,
        ws.4.alive@,
        m as int,
        ws.4.alive.len() as int,
    ));
    assert(ws.5.positions[m as int] == ws.4.positions[m as int]);
    assert(w1.entity_same(ws.5, m as int));
    assert(w1.entity_same(ws.5, p as int));
}

/// Entity `e` was spawned by room population: a live monster or item
/// standing inside one of the rooms after the first.
pub open spec fn in_some_room(w: World, e: int) -> bool {
    exists|j: int|
        1 <= j < w.map.rooms.len() && spawner::spawned_in_room(w, #[trigger] w.map.rooms[j], e)
}

/// Build a fresh run: generate the dungeon, spawn the player at the
/// first room's center, populate every further room, and start the
/// machine in `PreRun`. Equal seeds replay the same world.
pub fn new_game(seed: u64) -> (gs: State)
    ensures
        gs.wf(),
        gs.runstate == RunState::PreRun,
        gs.ecs.pending_destroy.len() == 0,
        fog_consistent(gs.ecs),
        // The generator's guarantees hold of the world's map: at least
        // one room, all inside the grid, pairwise non-overlapping, with
        // floor centers connected pairwise by floor-only paths.
        1 <= gs.ecs.map.rooms.len() <= crate::map::MAX_ROOMS,
        forall|i: int|
            0 <= i < gs.ecs.map.rooms.len() ==> gs.ecs.map.room_in_map(
                #[trigger] gs.ecs.map.rooms[i],
            ),
        forall|i: int, j: int|
            0 <= i < gs.ecs.map.rooms.len() && 0 <= j < gs.ecs.map.rooms.len() && i != j
                ==> !#[trigger] gs.ecs.map.rooms[i].intersects(#[trigger] gs.ecs.map.rooms[j]),
        forall|i: int|
            0 <= i < gs.ecs.map.rooms.len() ==> gs.ecs.map.is_floor(
                (#[trigger] gs.ecs.map.rooms[i]).center_spec().0,
                gs.ecs.map.rooms[i].center_spec().1,
            ),
        forall|i: int, j: int|
            #![trigger gs.ecs.map.rooms[i], gs.ecs.map.rooms[j]]
            0 <= i < gs.ecs.map.rooms.len() && 0 <= j < gs.ecs.map.rooms.len()
                ==> crate::reach::reachable(
                gs.ecs.map,
                gs.ecs.map.rooms[i].center_spec(),
                gs.ecs.map.rooms[j].center_spec(),
            ),
        // The player stands at the first room's center with the fixed
        // starting statistics and a dirty sight range of 8.
        gs.ecs.player_entity matches Some(p) && {
            &&& (p as int) < gs.ecs.n()
            &&& gs.ecs.is_alive(p as int)
            &&& gs.ecs.players[p as int]
            &&& gs.ecs.combat_stats[p as int] == Some(
                crate::components::CombatStats { max_hp: 30, hp: 30, defense: 2, power: 5 },
            )
            &&& (gs.ecs.viewsheds[p as int] matches Some(v) && v.range == 8 && v.dirty)
            &&& (gs.ecs.positions[p as int] matches Some(pp) && (pp.x as int, pp.y as int)
                == gs.ecs.map.rooms[0].center_spec())
        },
        // Every other entity was spawned into one of the later rooms.
        forall|e: int|
            0 <= e < gs.ecs.n() && Some(e as usize) != gs.ecs.player_entity ==> #[trigger] in_some_room(
                gs.ecs,
                e,
            ),
{
    let mut rng = Rng::seeded(seed);
    let map = new_map_rooms_and_corridors(&mut rng);
    let first_room = map.rooms[0];
    let (player_x, player_y) = first_room.center();
    let mut ecs = World::new(map, rng);
    ecs.log.push(LogEntry::Welcome);
    proof {
        assert(ecs.map.room_in_map(ecs.map.rooms[0]));
        assert(ecs.map.in_bounds(player_x as int, player_y as int));
    }
    let player_entity: Entity = spawner::player(&mut ecs, player_x, player_y);
    let ghost w_spawned = ecs;
    let room_count = ecs.map.rooms.len();
    let mut i: usize = 1;
    while i < room_count
        invariant
            ecs.wf(),
            w_spawned.wf(),
            room_count == ecs.map.rooms.len(),
            1 <= i <= room_count,
            room_count <= 30,
            ecs.n() <= 1 + 6 * i,
            w_spawned.n() == 1,
            player_entity == 0,
            ecs.player_entity == Some(player_entity),
            ecs.pending_destroy.len() == 0,
            ecs.map == w_spawned.map,
            forall|j: int| 0 <= j < room_count ==> ecs.map.room_in_map(#[trigger] ecs.map.rooms[j]),
            ecs.entity_same(w_spawned, 0),
            forall|e: int|
                1 <= e < ecs.n() ==> #[trigger] in_some_room(ecs, e),
        decreases room_count - i,
    {
        let ghost w0 = ecs;
        spawn_one_room(&mut ecs, i);
        proof {
            assert(ecs.entity_same(w0, 0));
            assert forall|e: int| 1 <= e < ecs.n() implies #[trigger] in_some_room(ecs, e) by {
                if e < w0.n() {
                    assert(in_some_room(w0, e));
                    let j = choose|j: int|
                        1 <= j < w0.map.rooms.len() && spawner::spawned_in_room(
                            w0,
                            #[trigger] w0.map.rooms[j],
                            e,
                        );
                    assert(ecs.entity_same(w0, e));
                    assert(spawner::spawned_in_room(ecs, ecs.map.rooms[j], e));
                } else {
                    assert(spawner::spawned_in_room(ecs, ecs.map.rooms[i as int], e));
                }
            }
        }
        i = i + 1;
    }
    proof {
        // Nothing is visible or revealed yet and the player's sight is
        // dirty, so the fog-of-war invariant holds at the start.
        assert forall|x: int, y: int|
            ecs.map.in_bounds(x, y) && (#[trigger] ecs.map.visible_tiles[ecs.map.idx_of(x, y)])
                implies ecs.map.revealed_tiles[ecs.map.idx_of(x, y)] by {
            ecs.map.lemma_idx_bounds(x, y);
        }
        assert(fog_consistent(ecs));
    }
    State { ecs, runstate: RunState::PreRun }
}

/// Populate room `i` of the world's own map.
fn spawn_one_room(ecs: &mut World, i: usize)
    requires
        old(ecs).wf(),
        i < old(ecs).map.rooms.len(),
        old(ecs).map.room_in_map(old(ecs).map.rooms[i as int]),
        old(ecs).n() < 999_000_000,
    ensures
        final(ecs).wf(),
        final(ecs).map == old(ecs).map,
        final(ecs).player_entity == old(ecs).player_entity,
        final(ecs).pending_destroy == old(ecs).pending_destroy,
        old(ecs).n() <= final(ecs).n() <= old(ecs).n() + 6,
        forall|e: int| 0 <= e < old(ecs).n() ==> final(ecs).entity_same(*old(ecs), e),
        forall|e: int|
            old(ecs).n() <= e < final(ecs).n() ==> spawner::spawned_in_room(
                *final(ecs),
                old(ecs).map.rooms[i as int],
                e,
            ),
{
    let room = ecs.map.rooms[i];
    spawner::spawn_room(ecs, &room);
}

} // verus!
