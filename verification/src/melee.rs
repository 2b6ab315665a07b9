//! The melee combat system. Every pending `WantsToMelee` intent is
//! consumed exactly once, in entity order: a valid hit computes
//! `damage = max(0, attacker power - defender defense)` - no randomness -
//! and, when positive, appends the amount to the defender's pending
//! damage queue. A stale intent (attacker or target dead or without
//! combat statistics, or aimed at oneself) is dropped silently.

use vstd::prelude::*;
use crate::components::{CombatStats, LogEntry, SufferDamage, WantsToMelee};
use crate::damage::{max0, STAT_CAP};
use crate::world::World;

verus! {

/// The damage queues as plain data: one optional list of amounts per
/// entity.
pub open spec fn suffer_view(s: Seq<Option<SufferDamage>>) -> Seq<Option<Seq<i32>>> {
    Seq::new(s.len(), |i: int| match s[i] {
        None => None,
        Some(q) => Some(q.amount@),
    })
}

/// Whether attacker `a` lands a hit this pass: it holds an intent, both
/// sides are live and have combat statistics, the attacker is not its
/// own target, and the attacker still has hit points.
pub open spec fn hit_valid(
    wm: Seq<Option<WantsToMelee>>,
    alive: Seq<bool>,
    stats: Seq<Option<CombatStats>>,
    a: int,
) -> bool {
    &&& 0 <= a < wm.len()
    &&& wm.len() == alive.len() == stats.len()
    &&& wm[a] is Some
    &&& {
        let t = wm[a]->Some_0.target as int;
        &&& 0 <= t < alive.len()
        &&& t != a
        &&& alive[a]
        &&& alive[t]
        &&& stats[a] is Some
        &&& stats[t] is Some
        &&& stats[a]->Some_0.hp > 0
    }
}

/// The damage attacker `a` deals its target: power minus defense,
/// never negative.
pub open spec fn hit_damage(
    wm: Seq<Option<WantsToMelee>>,
    stats: Seq<Option<CombatStats>>,
    a: int,
) -> int {
    max0(stats[a]->Some_0.power - stats[wm[a]->Some_0.target as int]->Some_0.defense)
}

/// `q` with `d` appended, creating the queue if absent.
pub open spec fn queue_append(q: Option<Seq<i32>>, d: int) -> Option<Seq<i32>> {
    match q {
        None => Some(seq![d as i32]),
        Some(s) => Some(s.push(d as i32)),
    }
}

/// The damage queues after the first `upto` attackers have been
/// processed in entity order: each valid, positive hit appends its
/// amount to the target's queue.
pub open spec fn queues_after(
    wm: Seq<Option<WantsToMelee>>,
    alive: Seq<bool>,
    stats: Seq<Option<CombatStats>>,
    q0: Seq<Option<Seq<i32>>>,
    upto: int,
) -> Seq<Option<Seq<i32>>>
    decreases upto,
{
    if upto <= 0 {
        q0
    } else {
        let prev = queues_after(wm, alive, stats, q0, upto - 1);
        let a = upto - 1;
        if hit_valid(wm, alive, stats, a) && hit_damage(wm, stats, a) > 0 {
            let t = wm[a]->Some_0.target as int;
            prev.update(t, queue_append(prev[t], hit_damage(wm, stats, a)))
        } else {
            prev
        }
    }
}

/// The message log after the first `upto` attackers have been
/// processed: each valid hit appends exactly one entry, an `Attack`
/// with the dealt amount when it is positive, else a `NoDamage`.
pub open spec fn melee_log_after(
    wm: Seq<Option<WantsToMelee>>,
    alive: Seq<bool>,
    stats: Seq<Option<CombatStats>>,
    log0: Seq<LogEntry>,
    upto: int,
) -> Seq<LogEntry>
    decreases upto,
{
    if upto <= 0 {
        log0
    } else {
        let prev = melee_log_after(wm, alive, stats, log0, upto - 1);
        let a = upto - 1;
        if hit_valid(wm, alive, stats, a) {
            let t = wm[a]->Some_0.target;
            let d = hit_damage(wm, stats, a);
            if d > 0 {
                prev.push(LogEntry::Attack { attacker: a as usize, target: t, amount: d as i32 })
            } else {
                prev.push(LogEntry::NoDamage { attacker: a as usize, target: t })
            }
        } else {
            prev
        }
    }
}

/// When exactly one intent exists, the pass's damage queues come out as
/// a single append (when the hit deals damage) or untouched.
pub proof fn lemma_queues_single(
    wm: Seq<Option<WantsToMelee>>,
    alive: Seq<bool>,
    stats: Seq<Option<CombatStats>>,
    q0: Seq<Option<Seq<i32>>>,
    att: int,
    upto: int,
)
    requires
        forall|a: int| 0 <= a < wm.len() && a != att ==> (#[trigger] wm[a]) is None,
        0 <= att < wm.len(),
        wm[att] is Some,
    ensures
        queues_after(wm, alive, stats, q0, upto) == (if att < upto && hit_valid(
            wm,
            alive,
            stats,
            att,
        ) && hit_damage(wm, stats, att) > 0 {
            q0.update(
                wm[att]->Some_0.target as int,
                queue_append(q0[wm[att]->Some_0.target as int], hit_damage(wm, stats, att)),
            )
        } else {
            q0
        }),
    decreases upto,
{
    if upto > 0 {
        lemma_queues_single(wm, alive, stats, q0, att, upto - 1);
    }
}

/// The whole effect of one melee pass, as a relation between the world
/// before and after: intents drained, damage queues exactly as
/// `queues_after` describes, the log exactly as `melee_log_after`
/// describes, and everything else untouched.
pub open spec fn melee_step(w0: World, w1: World) -> bool {
    &&& w1.alive == w0.alive
    &&& w1.pending_destroy == w0.pending_destroy
    &&& w1.positions == w0.positions
    &&& w1.renderables == w0.renderables
    &&& w1.players == w0.players
    &&& w1.monsters == w0.monsters
    &&& w1.items == w0.items
    &&& w1.blocks_tile == w0.blocks_tile
    &&& w1.names == w0.names
    &&& w1.viewsheds == w0.viewsheds
    &&& w1.combat_stats == w0.combat_stats
    &&& w1.healing_potions == w0.healing_potions
    &&& w1.in_backpack == w0.in_backpack
    &&& w1.wants_pickup == w0.wants_pickup
    &&& w1.map == w0.map
    &&& w1.rng == w0.rng
    &&& w1.player_entity == w0.player_entity
    &&& w1.wants_melee.len() == w0.wants_melee.len()
    &&& w1.suffer_damage.len() == w0.suffer_damage.len()
    &&& forall|a: int| 0 <= a < w1.wants_melee.len() ==> (#[trigger] w1.wants_melee[a]) is None
    &&& suffer_view(w1.suffer_damage@) == queues_after(
        w0.wants_melee@,
        w0.alive@,
        w0.combat_stats@,
        suffer_view(w0.suffer_damage@),
        w0.alive.len() as int,
    )
    &&& w1.log@ == melee_log_after(
        w0.wants_melee@,
        w0.alive@,
        w0.combat_stats@,
        w0.log@,
        w0.alive.len() as int,
    )
}

/// One pass of the melee combat system: drains every melee intent and
/// leaves the damage queues exactly as `queues_after` describes.
pub fn melee_combat_system(
    wants_melee: &mut Vec<Option<WantsToMelee>>,
    alive: &Vec<bool>,
    stats: &Vec<Option<CombatStats>>,
    suffer: &mut Vec<Option<SufferDamage>>,
    log: &mut Vec<LogEntry>,
)
    requires
        old(wants_melee).len() == alive.len(),
        stats.len() == alive.len(),
        old(suffer).len() == alive.len(),
        forall|a: int|
            0 <= a < alive.len() ==> match #[trigger] old(wants_melee)@[a] {
                Some(w) => (w.target as int) < alive.len(),
                None => true,
            },
        forall|e: int|
            0 <= e < alive.len() ==> match #[trigger] stats@[e] {
                Some(s) => s.wf(),
                None => true,
            },
        forall|e: int|
            0 <= e < alive.len() ==> match #[trigger] old(suffer)@[e] {
                Some(q) => forall|k: int| 0 <= k < q.amount.len() ==> 0 <= #[trigger] q.amount@[k]
                    <= STAT_CAP,
                None => true,
            },
    ensures
        final(wants_melee).len() == alive.len(),
        final(suffer).len() == alive.len(),
        forall|a: int| 0 <= a < alive.len() ==> (#[trigger] final(wants_melee)@[a]) is None,
        suffer_view(final(suffer)@) == queues_after(
            old(wants_melee)@,
            alive@,
            stats@,
            suffer_view(old(suffer)@),
            alive.len() as int,
        ),
        forall|e: int|
            0 <= e < alive.len() ==> match #[trigger] final(suffer)@[e] {
                Some(q) => forall|k: int| 0 <= k < q.amount.len() ==> 0 <= #[trigger] q.amount@[k]
                    <= STAT_CAP,
                None => true,
            },
        final(log)@ == melee_log_after(
            old(wants_melee)@,
            alive@,
            stats@,
            old(log)@,
            alive.len() as int,
        ),
        old(log)@.is_prefix_of(final(log)@),
{
    let n = alive.len();
    let mut a: usize = 0;
    while a < n
        invariant
            wants_melee.len() == n,
            suffer.len() == n,
            stats.len() == n,
            alive.len() == n,
            old(wants_melee).len() == n,
            old(suffer).len() == n,
            a <= n,
            forall|i: int|
                0 <= i < n ==> match #[trigger] old(wants_melee)@[i] {
                    Some(w) => (w.target as int) < n,
                    None => true,
                },
            forall|e: int|
                0 <= e < n ==> match #[trigger] stats@[e] {
                    Some(s) => s.wf(),
                    None => true,
                },
            forall|i: int| 0 <= i < a ==> (#[trigger] wants_melee@[i]) is None,
            forall|i: int| a <= i < n ==> #[trigger] wants_melee@[i] == old(wants_melee)@[i],
            suffer_view(suffer@) == queues_after(
                old(wants_melee)@,
                alive@,
                stats@,
                suffer_view(old(suffer)@),
                a as int,
            ),
            forall|e: int|
                0 <= e < n ==> match #[trigger] suffer@[e] {
                    Some(q) => forall|k: int|
                        0 <= k < q.amount.len() ==> 0 <= #[trigger] q.amount@[k] <= STAT_CAP,
                    None => true,
                },
            log@ == melee_log_after(old(wants_melee)@, alive@, stats@, old(log)@, a as int),
            old(log)@.is_prefix_of(log@),
        decreases n - a,
    {
        let ghost qs_before = suffer_view(suffer@);
        let intent = wants_melee[a];
        wants_melee[a] = None;
        match intent {
            None => {
                proof {
                    assert(suffer_view(suffer@) =~= queues_after(
                        old(wants_melee)@,
                        alive@,
                        stats@,
                        suffer_view(old(suffer)@),
                        a as int + 1,
                    ));
                }
            },
            Some(w) => {
                let t = w.target;
                let valid = t != a && alive[a] && alive[t] && stats[a].is_some()
                    && stats[t].is_some() && stats[a].unwrap().hp > 0;
                if valid {
                    let att = stats[a].unwrap();
                    let def = stats[t].unwrap();
                    let raw = att.power - def.defense;
                    let dmg = if raw < 0 {
                        0
                    } else {
                        raw
                    };
                    if dmg > 0 {
                        match &mut suffer[t] {
                            Some(q) => {
                                q.amount.push(dmg);
                            },
                            None => {
                                let mut v: Vec<i32> = Vec::new();
                                v.push(dmg);
                                suffer[t] = Some(SufferDamage { amount: v });
                            },
                        }
                        log.push(LogEntry::Attack { attacker: a, target: t, amount: dmg });
                        proof {
                            assert(hit_valid(old(wants_melee)@, alive@, stats@, a as int));
                            assert(hit_damage(old(wants_melee)@, stats@, a as int) == dmg);
                            assert(suffer_view(suffer@) =~= qs_before.update(
                                t as int,
                                queue_append(qs_before[t as int], dmg as int),
                            ));
                            assert(suffer_view(suffer@) =~= queues_after(
                                old(wants_melee)@,
                                alive@,
                                stats@,
                                suffer_view(old(suffer)@),
                                a as int + 1,
                            ));
                        }
                    } else {
                        log.push(LogEntry::NoDamage { attacker: a, target: t });
                        proof {
                            assert(hit_damage(old(wants_melee)@, stats@, a as int) == 0);
                            assert(suffer_view(suffer@) =~= queues_after(
                                old(wants_melee)@,
                                alive@,
                                stats@,
                                suffer_view(old(suffer)@),
                                a as int + 1,
                            ));
                        }
                    }
                } else {
                    proof {
                        assert(!hit_valid(old(wants_melee)@, alive@, stats@, a as int));
                        assert(suffer_view(suffer@) =~= queues_after(
                            old(wants_melee)@,
                            alive@,
                            stats@,
                            suffer_view(old(suffer)@),
                            a as int + 1,
                        ));
                    }
                }
            },
        }
        a = a + 1;
    }
    proof {
        assert(suffer_view(suffer@) =~= queues_after(
            old(wants_melee)@,
            alive@,
            stats@,
            suffer_view(old(suffer)@),
            n as int,
        ));
    }
}

} // verus!
