//! The item collection system. Every pending `WantsToPickUpItem` intent
//! is consumed exactly once: for a live collector and a live item, the
//! item's position component is removed (it is no longer on the ground)
//! and an `InBackpack` component naming the collector is attached to it;
//! a stale intent (collector or item dead) is dropped silently.

use vstd::prelude::*;
use crate::components::{InBackpack, LogEntry, Position, WantsToPickUpItem};
use crate::world::World;

verus! {

/// Entity `c` holds a pickup intent for a live item, and is itself
/// live: the intent will be honored.
pub open spec fn pickup_valid(
    wants: Seq<Option<WantsToPickUpItem>>,
    alive: Seq<bool>,
    c: int,
) -> bool {
    &&& 0 <= c < wants.len()
    &&& wants.len() == alive.len()
    &&& wants[c] is Some
    &&& alive[c]
    &&& 0 <= (wants[c]->Some_0.item as int) < alive.len()
    &&& alive[wants[c]->Some_0.item as int]
}

/// No other intent in the table names the same item as `c`'s.
pub open spec fn sole_claimant(wants: Seq<Option<WantsToPickUpItem>>, c: int) -> bool {
    forall|c2: int|
        0 <= c2 < wants.len() && c2 != c && (#[trigger] wants[c2]) is Some
            ==> wants[c2]->Some_0.item != wants[c]->Some_0.item
}

/// No honored intent with index below `c` names entity `e`.
pub open spec fn unclaimed_below(
    wants: Seq<Option<WantsToPickUpItem>>,
    alive: Seq<bool>,
    e: int,
    c: int,
) -> bool {
    forall|c2: int|
        0 <= c2 < c && pickup_valid(wants, alive, c2) ==> (#[trigger] wants[c2])->Some_0.item != e
            as usize
}

/// The log after the first `upto` collectors have been processed: one
/// `PickedUp` entry per honored intent, in collector order.
pub open spec fn pickup_log_after(
    wants: Seq<Option<WantsToPickUpItem>>,
    alive: Seq<bool>,
    log0: Seq<LogEntry>,
    upto: int,
) -> Seq<LogEntry>
    decreases upto,
{
    if upto <= 0 {
        log0
    } else {
        let prev = pickup_log_after(wants, alive, log0, upto - 1);
        let c = upto - 1;
        if pickup_valid(wants, alive, c) {
            prev.push(
                LogEntry::PickedUp { collector: c as usize, item: wants[c]->Some_0.item },
            )
        } else {
            prev
        }
    }
}

/// The whole effect of one item-collection pass, as a relation between
/// the world before and after: pickup intents drained, each sole-claim
/// honored intent moved its item into the collector's backpack, the
/// log exactly as `pickup_log_after` describes, everything else
/// untouched.
pub open spec fn pickup_step(w0: World, w1: World) -> bool {
    &&& w1.alive == w0.alive
    &&& w1.pending_destroy == w0.pending_destroy
    &&& w1.renderables == w0.renderables
    &&& w1.players == w0.players
    &&& w1.monsters == w0.monsters
    &&& w1.items == w0.items
    &&& w1.blocks_tile == w0.blocks_tile
    &&& w1.names == w0.names
    &&& w1.viewsheds == w0.viewsheds
    &&& w1.combat_stats == w0.combat_stats
    &&& w1.healing_potions == w0.healing_potions
    &&& w1.wants_melee == w0.wants_melee
    &&& w1.suffer_damage == w0.suffer_damage
    &&& w1.map == w0.map
    &&& w1.rng == w0.rng
    &&& w1.player_entity == w0.player_entity
    &&& w1.wants_pickup.len() == w0.wants_pickup.len()
    &&& w1.positions.len() == w0.positions.len()
    &&& w1.in_backpack.len() == w0.in_backpack.len()
    &&& forall|c: int| 0 <= c < w1.wants_pickup.len() ==> (#[trigger] w1.wants_pickup[c]) is None
    &&& forall|e: int|
        0 <= e < w1.positions.len() ==> (#[trigger] w1.positions[e]) == w0.positions[e]
            || w1.positions[e] is None
    &&& forall|c: int|
        pickup_valid(w0.wants_pickup@, w0.alive@, c) && sole_claimant(w0.wants_pickup@, c) ==> (
        #[trigger] w1.positions[w0.wants_pickup[c]->Some_0.item as int]) is None
            && w1.in_backpack[w0.wants_pickup[c]->Some_0.item as int] == Some(
            InBackpack { owner: c as usize },
        )
    &&& forall|e: int|
        0 <= e < w1.positions.len() && unclaimed_below(
            w0.wants_pickup@,
            w0.alive@,
            e,
            w0.alive.len() as int,
        ) ==> (#[trigger] w1.positions[e]) == w0.positions[e] && w1.in_backpack[e]
            == w0.in_backpack[e]
    &&& w1.log@ == pickup_log_after(
        w0.wants_pickup@,
        w0.alive@,
        w0.log@,
        w0.alive.len() as int,
    )
}

/// One pass of the item collection system.
pub fn item_collection_system(
    wants_pickup: &mut Vec<Option<WantsToPickUpItem>>,
    alive: &Vec<bool>,
    positions: &mut Vec<Option<Position>>,
    in_backpack: &mut Vec<Option<InBackpack>>,
    log: &mut Vec<LogEntry>,
)
    requires
        old(wants_pickup).len() == alive.len(),
        old(positions).len() == alive.len(),
        old(in_backpack).len() == alive.len(),
        forall|c: int|
            0 <= c < alive.len() ==> match #[trigger] old(wants_pickup)@[c] {
                Some(w) => (w.item as int) < alive.len(),
                None => true,
            },
    ensures
        final(wants_pickup).len() == alive.len(),
        final(positions).len() == alive.len(),
        final(in_backpack).len() == alive.len(),
        forall|c: int| 0 <= c < alive.len() ==> (#[trigger] final(wants_pickup)@[c]) is None,
        final(log)@ == pickup_log_after(
            old(wants_pickup)@,
            alive@,
            old(log)@,
            alive.len() as int,
        ),
        old(log)@.is_prefix_of(final(log)@),
        // The pass only ever removes position components, never adds or
        // moves one.
        forall|e: int|
            0 <= e < alive.len() ==> (#[trigger] final(positions)@[e]) == old(positions)@[e]
                || final(positions)@[e] is None,
        // An honored intent that no other intent competes with moved its
        // item off the ground and into the collector's backpack.
        forall|c: int|
            pickup_valid(old(wants_pickup)@, alive@, c) && sole_claimant(old(wants_pickup)@, c)
                ==> (#[trigger] final(positions)@[old(wants_pickup)@[c]->Some_0.item as int])
                is None && final(in_backpack)@[old(wants_pickup)@[c]->Some_0.item as int] == Some(
                InBackpack { owner: c as usize },
            ),
        // An entity no honored intent names is untouched.
        forall|e: int|
            0 <= e < alive.len() && unclaimed_below(
                old(wants_pickup)@,
                alive@,
                e,
                alive.len() as int,
            ) ==> (#[trigger] final(positions)@[e]) == old(positions)@[e] && final(in_backpack)@[e]
                == old(in_backpack)@[e],
{
    let n = alive.len();
    let mut c: usize = 0;
    while c < n
        invariant
            n == alive.len(),
            wants_pickup.len() == n,
            positions.len() == n,
            in_backpack.len() == n,
            old(wants_pickup).len() == n,
            old(positions).len() == n,
            old(in_backpack).len() == n,
            c <= n,
            forall|c2: int|
                0 <= c2 < n ==> match #[trigger] old(wants_pickup)@[c2] {
                    Some(w) => (w.item as int) < n,
                    None => true,
                },
            forall|c2: int| 0 <= c2 < c ==> (#[trigger] wants_pickup@[c2]) is None,
            forall|c2: int| c <= c2 < n ==> #[trigger] wants_pickup@[c2] == old(wants_pickup)@[c2],
            old(log)@.is_prefix_of(log@),
            log@ == pickup_log_after(old(wants_pickup)@, alive@, old(log)@, c as int),
            forall|e: int|
                0 <= e < n ==> (#[trigger] positions@[e]) == old(positions)@[e] || positions@[e]
                    is None,
            forall|c2: int|
                0 <= c2 < c && pickup_valid(old(wants_pickup)@, alive@, c2) && sole_claimant(
                    old(wants_pickup)@,
                    c2,
                ) ==> (#[trigger] positions@[old(wants_pickup)@[c2]->Some_0.item as int]) is None
                    && in_backpack@[old(wants_pickup)@[c2]->Some_0.item as int] == Some(
                    InBackpack { owner: c2 as usize },
                ),
            forall|e: int|
                0 <= e < n && unclaimed_below(old(wants_pickup)@, alive@, e, c as int) ==> (
                #[trigger] positions@[e]) == old(positions)@[e] && in_backpack@[e] == old(
                    in_backpack,
                )@[e],
        decreases n - c,
    {
        let ghost ps0 = positions@;
        let ghost bp0 = in_backpack@;
        let intent = wants_pickup[c];
        wants_pickup[c] = None;
        let ghost honored = pickup_valid(old(wants_pickup)@, alive@, c as int);
        match intent {
            None => {},
            Some(w) => {
                let item = w.item;
                if alive[c] && alive[item] {
                    positions[item] = None;
                    in_backpack[item] = Some(InBackpack { owner: c });
                    log.push(LogEntry::PickedUp { collector: c, item });
                    proof {
                        assert(honored);
                    }
                }
            },
        }
        proof {
            assert forall|e: int|
                0 <= e < n implies (#[trigger] positions@[e]) == old(positions)@[e] || positions@[e]
                    is None by {
                assert(ps0[e] == old(positions)@[e] || ps0[e] is None);
            }
            assert forall|c2: int|
                0 <= c2 < c + 1 && pickup_valid(old(wants_pickup)@, alive@, c2) && sole_claimant(
                    old(wants_pickup)@,
                    c2,
                ) implies (#[trigger] positions@[old(wants_pickup)@[c2]->Some_0.item as int])
                is None && in_backpack@[old(wants_pickup)@[c2]->Some_0.item as int] == Some(
                InBackpack { owner: c2 as usize },
            ) by {
                let it = old(wants_pickup)@[c2]->Some_0.item as int;
                if c2 < c {
                    assert(ps0[it] is None && bp0[it] == Some(InBackpack { owner: c2 as usize }));
                    if honored {
                        assert(old(wants_pickup)@[c as int] is Some);
                        assert(old(wants_pickup)@[c as int]->Some_0.item != old(
                            wants_pickup,
                        )@[c2]->Some_0.item);
                    }
                }
            }
            assert forall|e: int|
                0 <= e < n && unclaimed_below(old(wants_pickup)@, alive@, e, c as int + 1) implies (
            #[trigger] positions@[e]) == old(positions)@[e] && in_backpack@[e] == old(
                in_backpack,
            )@[e] by {
                assert(unclaimed_below(old(wants_pickup)@, alive@, e, c as int));
                assert(ps0[e] == old(positions)@[e]);
                assert(bp0[e] == old(in_backpack)@[e]);
                if honored {
                    assert(pickup_valid(old(wants_pickup)@, alive@, c as int));
                    assert((old(wants_pickup)@[c as int])->Some_0.item != e as usize);
                }
            }
        }
        c = c + 1;
    }
}

} // verus!
