//! The damage system and the dead-entity reaper.
//!
//! The damage system drains every pending `SufferDamage` queue: the
//! amounts are summed, subtracted from the victim's hit points, and
//! clamped at zero; the queue component is removed, so each damage
//! instance is applied exactly once and a second pass is a no-op.
//!
//! The reaper scans combat statistics after damage resolution, logs a
//! death message for every entity at zero hit points (a special one for
//! the player), queues the bodies, and commits the destructions in one
//! batch.

use vstd::prelude::*;
use crate::components::{CombatStats, LogEntry, SufferDamage};
use crate::world::World;

verus! {

/// The largest hit-point, power, or damage value the store accepts.
pub const STAT_CAP: i32 = 1_000_000;

/// Zero if `x` is negative, else `x`.
pub open spec fn max0(x: int) -> int {
    if x <= 0 {
        0
    } else {
        x
    }
}

/// The sum of a damage queue.
pub open spec fn sum_seq(q: Seq<i32>) -> int
    decreases q.len(),
{
    if q.len() == 0 {
        0
    } else {
        sum_seq(q.drop_last()) + q.last()
    }
}

/// The contents of one optional damage queue.
pub open spec fn queue_view(o: Option<SufferDamage>) -> Option<Seq<i32>> {
    match o {
        None => None,
        Some(q) => Some(q.amount@),
    }
}

/// What one entity's combat statistics become when its pending damage
/// queue is applied: the sum is subtracted from `hp` and clamped at
/// zero; `max_hp` is never reduced. Without a queue nothing changes, so
/// re-running the pass on drained components is a no-op.
pub open spec fn damaged_stats(s: Option<CombatStats>, q: Option<Seq<i32>>) -> Option<CombatStats> {
    match s {
        None => None,
        Some(s) => Some(
            match q {
                None => s,
                Some(amts) => CombatStats {
                    hp: max0(s.hp - sum_seq(amts)) as i32,
                    ..s
                },
            },
        ),
    }
}

/// Applying no queue changes nothing: a second damage pass over drained
/// components is a no-op.
pub proof fn lemma_damage_noop_on_empty(s: Option<CombatStats>)
    ensures
        damaged_stats(s, None) == s,
{
}

/// Hit points never go negative and `max_hp` is never reduced by damage.
pub proof fn lemma_hp_clamped(s: CombatStats, amts: Seq<i32>)
    requires
        s.wf(),
        forall|k: int| 0 <= k < amts.len() ==> 0 <= #[trigger] amts[k],
    ensures
        damaged_stats(Some(s), Some(amts)) matches Some(d) && 0 <= d.hp && d.max_hp == s.max_hp
            && d.hp <= s.max_hp,
{
    lemma_sum_nonneg(amts);
}

/// A queue of non-negative amounts has a non-negative sum.
pub proof fn lemma_sum_nonneg(q: Seq<i32>)
    requires
        forall|k: int| 0 <= k < q.len() ==> 0 <= #[trigger] q[k],
    ensures
        sum_seq(q) >= 0,
    decreases q.len(),
{
    if q.len() > 0 {
        lemma_sum_nonneg(q.drop_last());
    }
}

/// Sum of the first `i` entries equals `sum_seq` of the prefix.
proof fn lemma_sum_take_step(q: Seq<i32>, i: int)
    requires
        0 <= i < q.len(),
    ensures
        sum_seq(q.take(i + 1)) == sum_seq(q.take(i)) + q[i],
{
    assert(q.take(i + 1).drop_last() =~= q.take(i));
    assert(q.take(i + 1).last() == q[i]);
}

/// The summed queue, capped at `STAT_CAP`. The cap never changes the
/// clamped hit-point outcome because no entity has more than `STAT_CAP`
/// hit points.
fn capped_sum(q: &Vec<i32>) -> (r: i32)
    requires
        forall|k: int| 0 <= k < q.len() ==> 0 <= #[trigger] q@[k] <= STAT_CAP,
    ensures
        r == vstd::math::min(sum_seq(q@), STAT_CAP as int),
        0 <= r <= STAT_CAP,
{
    let mut acc: i32 = 0;
    let mut i: usize = 0;
    assert(q@.take(0) =~= Seq::<i32>::empty());
    while i < q.len()
        invariant
            i <= q.len(),
            forall|k: int| 0 <= k < q.len() ==> 0 <= #[trigger] q@[k] <= STAT_CAP,
            acc == vstd::math::min(sum_seq(q@.take(i as int)), STAT_CAP as int),
            0 <= acc <= STAT_CAP,
        decreases q.len() - i,
    {
        proof {
            lemma_sum_take_step(q@, i as int);
        }
        acc = acc + q[i];
        if acc > STAT_CAP {
            acc = STAT_CAP;
        }
        i = i + 1;
    }
    proof {
        assert(q@.take(q.len() as int) =~= q@);
    }
    acc
}

/// The whole effect of one damage pass, as a relation between the
/// world before and after: every queue applied exactly once per
/// `damaged_stats` and removed, everything else untouched.
pub open spec fn damage_step(w0: World, w1: World) -> bool {
    &&& w1.alive == w0.alive
    &&& w1.pending_destroy == w0.pending_destroy
    &&& w1.positions == w0.positions
    &&& w1.renderables == w0.renderables
    &&& w1.players == w0.players
    &&& w1.monsters == w0.monsters
    &&& w1.items == w0.items
    &&& w1.blocks_tile == w0.blocks_tile
    &&& w1.names == w0.names
    &&& w1.viewsheds == w0.viewsheds
    &&& w1.healing_potions == w0.healing_potions
    &&& w1.wants_melee == w0.wants_melee
    &&& w1.in_backpack == w0.in_backpack
    &&& w1.wants_pickup == w0.wants_pickup
    &&& w1.map == w0.map
    &&& w1.rng == w0.rng
    &&& w1.log == w0.log
    &&& w1.player_entity == w0.player_entity
    &&& w1.combat_stats.len() == w0.combat_stats.len()
    &&& w1.suffer_damage.len() == w0.suffer_damage.len()
    &&& forall|e: int| 0 <= e < w1.suffer_damage.len() ==> (#[trigger] w1.suffer_damage[e]) is None
    &&& forall|e: int|
        0 <= e < w1.combat_stats.len() ==> #[trigger] w1.combat_stats[e] == damaged_stats(
            w0.combat_stats[e],
            queue_view(w0.suffer_damage[e]),
        )
}

/// One pass of the damage system over the combat-statistics and damage
/// tables: every queue is applied exactly once and removed.
pub fn damage_system(stats: &mut Vec<Option<CombatStats>>, suffer: &mut Vec<Option<SufferDamage>>)
    requires
        old(stats).len() == old(suffer).len(),
        forall|e: int|
            0 <= e < old(stats).len() ==> match #[trigger] old(stats)@[e] {
                Some(s) => s.wf(),
                None => true,
            },
        forall|e: int|
            0 <= e < old(suffer).len() ==> match #[trigger] old(suffer)@[e] {
                Some(q) => forall|k: int| 0 <= k < q.amount.len() ==> 0 <= #[trigger] q.amount@[k]
                    <= STAT_CAP,
                None => true,
            },
    ensures
        final(stats).len() == old(stats).len(),
        final(suffer).len() == old(suffer).len(),
        forall|e: int| 0 <= e < final(suffer).len() ==> final(suffer)@[e] is None,
        forall|e: int|
            0 <= e < final(stats).len() ==> final(stats)@[e] == damaged_stats(
                old(stats)@[e],
                queue_view(old(suffer)@[e]),
            ),
        forall|e: int|
            0 <= e < final(stats).len() ==> match #[trigger] final(stats)@[e] {
                Some(s) => s.wf(),
                None => true,
            },
{
    let n = stats.len();
    let mut e: usize = 0;
    while e < n
        invariant
            e <= n,
            stats.len() == n,
            suffer.len() == n,
            old(stats).len() == n,
            old(suffer).len() == n,
            forall|i: int|
                0 <= i < n ==> match #[trigger] old(stats)@[i] {
                    Some(s) => s.wf(),
                    None => true,
                },
            forall|i: int|
                0 <= i < n ==> match #[trigger] old(suffer)@[i] {
                    Some(q) => forall|k: int| 0 <= k < q.amount.len() ==> 0 <= #[trigger] q.amount@[k]
                        <= STAT_CAP,
                    None => true,
                },
            forall|i: int| 0 <= i < e ==> (#[trigger] suffer@[i]) is None,
            forall|i: int|
                0 <= i < e ==> #[trigger] stats@[i] == damaged_stats(
                    old(stats)@[i],
                    queue_view(old(suffer)@[i]),
                ),
            forall|i: int| e <= i < n ==> #[trigger] stats@[i] == old(stats)@[i],
            forall|i: int| e <= i < n ==> #[trigger] suffer@[i] == old(suffer)@[i],
            forall|i: int|
                0 <= i < e ==> match #[trigger] stats@[i] {
                    Some(s) => s.wf(),
                    None => true,
                },
        decreases n - e,
    {
        let has_both = stats[e].is_some() && suffer[e].is_some();
        if has_both {
            let s = stats[e].unwrap();
            let total = match &suffer[e] {
                Some(q) => capped_sum(&q.amount),
                None => 0,
            };
            let new_hp = if total >= s.hp {
                0
            } else {
                s.hp - total
            };
            proof {
                let amts = queue_view(old(suffer)@[e as int])->Some_0;
                lemma_sum_nonneg(amts);
                assert(vstd::math::min(sum_seq(amts), STAT_CAP as int) >= s.hp ==> max0(
                    s.hp - sum_seq(amts),
                ) == 0);
            }
            stats[e] = Some(
                CombatStats { max_hp: s.max_hp, hp: new_hp, defense: s.defense, power: s.power },
            );
        }
        suffer[e] = None;
        e = e + 1;
    }
}

/// The log after the reaper has scanned the first `upto` entities:
/// one entry per body found, with the game-over wording for the player.
pub open spec fn reap_log_after(w0: World, log0: Seq<LogEntry>, upto: int) -> Seq<LogEntry>
    decreases upto,
{
    if upto <= 0 {
        log0
    } else {
        let prev = reap_log_after(w0, log0, upto - 1);
        let e = upto - 1;
        if w0.is_dead(e) {
            if w0.players[e] {
                prev.push(LogEntry::PlayerDied)
            } else {
                prev.push(LogEntry::Died { victim: e as usize })
            }
        } else {
            prev
        }
    }
}

/// The whole effect of the reaper, as a relation between the world
/// before and after: every entity at zero hit points is logged and
/// destroyed in one committed batch, every survivor is untouched, and
/// afterwards no live entity's hit points are zero.
pub open spec fn reaper_step(w0: World, w1: World) -> bool {
    &&& w1.n() == w0.n()
    &&& w1.pending_destroy.len() == 0
    &&& forall|e: int|
        w1.is_alive(e) ==> match w1.combat_stats[e] {
            Some(s) => s.hp != 0,
            None => true,
        }
    &&& forall|e: int| 0 <= e < w0.n() && w0.is_dead(e) ==> w1.entity_cleared(e)
    &&& forall|e: int| 0 <= e < w0.n() && !w0.is_dead(e) ==> w1.entity_same(w0, e)
    &&& w1.map == w0.map
    &&& w1.rng == w0.rng
    &&& w1.player_entity == w0.player_entity
    &&& w1.log@ == reap_log_after(w0, w0.log@, w0.n())
}

impl World {
    /// Whether entity `e` is live with zero hit points.
    pub open spec fn is_dead(self, e: int) -> bool {
        self.is_alive(e) && match self.combat_stats[e] {
            Some(s) => s.hp == 0,
            None => false,
        }
    }

    /// The dead-entity reaper: log a death for every live entity whose
    /// hit points reached zero (game over wording for the player), then
    /// destroy those entities in one committed batch. Afterwards no
    /// entity in the combat-statistics table has zero hit points.
    pub fn delete_the_dead(&mut self)
        requires
            old(self).wf(),
            old(self).pending_destroy.len() == 0,
        ensures
            final(self).wf(),
            final(self).n() == old(self).n(),
            final(self).pending_destroy.len() == 0,
            forall|e: int|
                final(self).is_alive(e) ==> match final(self).combat_stats[e] {
                    Some(s) => s.hp != 0,
                    None => true,
                },
            forall|e: int|
                0 <= e < old(self).n() && old(self).is_dead(e)
                    ==> final(self).entity_cleared(e),
            forall|e: int|
                0 <= e < old(self).n() && !old(self).is_dead(e)
                    ==> final(self).entity_same(*old(self), e),
            final(self).map == old(self).map,
            final(self).rng == old(self).rng,
            final(self).player_entity == old(self).player_entity,
            final(self).log@ == reap_log_after(*old(self), old(self).log@, old(self).n()),
            old(self).log@.is_prefix_of(final(self).log@),
            reaper_step(*old(self), *final(self)),
    {
        let n = self.alive.len();
        let mut e: usize = 0;
        while e < n
            invariant
                old(self).wf(),
                n == old(self).n(),
                e <= n,
                self.wf(),
                self.n() == n,
                self.alive == old(self).alive,
                self.positions == old(self).positions,
                self.renderables == old(self).renderables,
                self.players == old(self).players,
                self.monsters == old(self).monsters,
                self.items == old(self).items,
                self.blocks_tile == old(self).blocks_tile,
                self.names == old(self).names,
                self.viewsheds == old(self).viewsheds,
                self.combat_stats == old(self).combat_stats,
                self.healing_potions == old(self).healing_potions,
                self.wants_melee == old(self).wants_melee,
                self.suffer_damage == old(self).suffer_damage,
                self.in_backpack == old(self).in_backpack,
                self.wants_pickup == old(self).wants_pickup,
                self.map == old(self).map,
                self.rng == old(self).rng,
                self.player_entity == old(self).player_entity,
                old(self).log@.is_prefix_of(self.log@),
                self.log@ == reap_log_after(*old(self), old(self).log@, e as int),
                forall|k: int|
                    0 <= k < self.pending_destroy.len() ==> old(self).is_dead(
                        (#[trigger] self.pending_destroy@[k]) as int,
                    ) && self.pending_destroy@[k] < e,
                forall|x: int|
                    0 <= x < e && old(self).is_dead(x) ==> self.pending_destroy@.contains(
                        x as usize,
                    ),
            decreases n - e,
        {
            let dead = self.alive[e] && match &self.combat_stats[e] {
                Some(s) => s.hp == 0,
                None => false,
            };
            if dead {
                if self.players[e] {
                    self.log.push(LogEntry::PlayerDied);
                } else {
                    self.log.push(LogEntry::Died { victim: e });
                }
                let ghost pend0 = self.pending_destroy@;
                self.pending_destroy.push(e);
                proof {
                    assert forall|x: int|
                        0 <= x < e + 1 && old(self).is_dead(x) implies self.pending_destroy@
                        .contains(x as usize) by {
                        if x < e {
                            assert(pend0.contains(x as usize));
                            let i = choose|i: int| 0 <= i < pend0.len() && pend0[i] == x as usize;
                            assert(self.pending_destroy@[i] == x as usize);
                        } else {
                            assert(self.pending_destroy@[pend0.len() as int] == x as usize);
                        }
                    }
                }
            }
            e = e + 1;
        }
        let ghost w_scan = *self;
        self.commit();
        proof {
            assert forall|e2: int|
                final(self).is_alive(e2) implies match final(self).combat_stats[e2] {
                    Some(s) => s.hp != 0,
                    None => true,
                } by {
                if 0 <= e2 < n {
                    if old(self).is_dead(e2) {
                        assert(w_scan.pending_destroy@.contains(e2 as usize));
                        assert(self.entity_cleared(e2));
                    } else {
                        if w_scan.pending_destroy@.contains(e2 as usize) {
                            let k = choose|k: int|
                                0 <= k < w_scan.pending_destroy@.len()
                                    && w_scan.pending_destroy@[k] == e2 as usize;
                            assert(old(self).is_dead(w_scan.pending_destroy@[k] as int));
                        }
                        assert(self.entity_same(w_scan, e2));
                    }
                }
            }
            assert forall|e2: int| 0 <= e2 < n && old(self).is_dead(e2) implies self.entity_cleared(
                e2,
            ) by {
                assert(w_scan.pending_destroy@.contains(e2 as usize));
            }
            assert forall|e2: int|
                0 <= e2 < n && !old(self).is_dead(e2) implies self.entity_same(
                *old(self),
                e2,
            ) by {
                if w_scan.pending_destroy@.contains(e2 as usize) {
                    let k = choose|k: int|
                        0 <= k < w_scan.pending_destroy@.len() && w_scan.pending_destroy@[k] == e2
                            as usize;
                    assert(old(self).is_dead(w_scan.pending_destroy@[k] as int));
                }
                assert(!w_scan.pending_destroy@.contains(e2 as usize));
                assert(self.entity_same(w_scan, e2));
            }
        }
    }
}

} // verus!
