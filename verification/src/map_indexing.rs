//! The map indexing system: rebuilds, from scratch each turn, the
//! per-tile occupancy index (`tile_content`) and the derived `blocked`
//! array, true wherever a wall or a blocking-tagged entity stands. Pure
//! recomputation, so it is consistent with the component store at the
//! moment it runs.

use vstd::prelude::*;
use crate::components::Position;
use crate::map::{GameMap, TileType};
use crate::world::World;

verus! {

/// Entity `e` is live, tagged as blocking, and stands on tile index `i`.
pub open spec fn blocker_on(
    m: GameMap,
    alive: Seq<bool>,
    positions: Seq<Option<Position>>,
    blocks: Seq<bool>,
    i: int,
    e: int,
) -> bool {
    &&& 0 <= e < alive.len()
    &&& alive[e]
    &&& blocks[e]
    &&& match positions[e] {
        Some(p) => m.idx_of(p.x as int, p.y as int) == i,
        None => false,
    }
}

/// Entity `e` is live and stands on tile index `i`.
pub open spec fn occupant_on(
    m: GameMap,
    alive: Seq<bool>,
    positions: Seq<Option<Position>>,
    i: int,
    e: int,
) -> bool {
    &&& 0 <= e < alive.len()
    &&& alive[e]
    &&& match positions[e] {
        Some(p) => m.idx_of(p.x as int, p.y as int) == i,
        None => false,
    }
}

/// The rebuilt occupancy index: a tile is blocked exactly when it is a
/// wall or a live blocking entity stands on it, and each tile's content
/// lists exactly the live entities standing on it.
pub open spec fn occupancy_rebuilt(
    m: GameMap,
    alive: Seq<bool>,
    positions: Seq<Option<Position>>,
    blocks: Seq<bool>,
) -> bool {
    &&& forall|i: int|
        0 <= i < m.blocked.len() ==> (m.blocked[i] <==> (m.tiles[i] == TileType::Wall || exists|
        e: int| blocker_on(m, alive, positions, blocks, i, e)))
    &&& forall|i: int, k: int|
        0 <= i < m.tile_content.len() && 0 <= k < m.tile_content[i].len() ==> occupant_on(
            m,
            alive,
            positions,
            i,
            (#[trigger] m.tile_content[i][k]) as int,
        )
    &&& forall|e: int, i: int|
        0 <= i < m.tile_content.len() && occupant_on(m, alive, positions, i, e)
            ==> m.tile_content[i]@.contains(e as usize)
}

/// The whole effect of one indexing pass, as a relation between the
/// world before and after: the occupancy index rebuilt from scratch,
/// everything else untouched.
pub open spec fn index_step(w0: World, w1: World) -> bool {
    &&& w1.alive == w0.alive
    &&& w1.pending_destroy == w0.pending_destroy
    &&& w1.positions == w0.positions
    &&& w1.renderables == w0.renderables
    &&& w1.players == w0.players
    &&& w1.monsters == w0.monsters
    &&& w1.items == w0.items
    &&& w1.blocks_tile == w0.blocks_tile
    &&& w1.names == w0.names
    &&& w1.viewsheds == w0.viewsheds
    &&& w1.combat_stats == w0.combat_stats
    &&& w1.healing_potions == w0.healing_potions
    &&& w1.wants_melee == w0.wants_melee
    &&& w1.suffer_damage == w0.suffer_damage
    &&& w1.in_backpack == w0.in_backpack
    &&& w1.wants_pickup == w0.wants_pickup
    &&& w1.rng == w0.rng
    &&& w1.log == w0.log
    &&& w1.player_entity == w0.player_entity
    &&& w1.map.width == w0.map.width
    &&& w1.map.height == w0.map.height
    &&& w1.map.tiles == w0.map.tiles
    &&& w1.map.rooms == w0.map.rooms
    &&& w1.map.revealed_tiles == w0.map.revealed_tiles
    &&& w1.map.visible_tiles == w0.map.visible_tiles
    &&& occupancy_rebuilt(w1.map, w0.alive@, w0.positions@, w0.blocks_tile@)
}

/// Rebuild `blocked` and `tile_content`: afterwards a tile is blocked
/// exactly when it is a wall or some live blocking entity stands on it,
/// and each tile's content lists exactly the live entities standing on
/// it.
pub fn map_indexing_system(
    map: &mut GameMap,
    alive: &Vec<bool>,
    positions: &Vec<Option<Position>>,
    blocks: &Vec<bool>,
)
    requires
        old(map).wf(),
        positions.len() == alive.len(),
        blocks.len() == alive.len(),
        forall|e: int|
            0 <= e < alive.len() ==> match #[trigger] positions@[e] {
                Some(p) => old(map).in_bounds(p.x as int, p.y as int),
                None => true,
            },
    ensures
        final(map).wf(),
        final(map).width == old(map).width,
        final(map).height == old(map).height,
        final(map).tiles == old(map).tiles,
        final(map).rooms == old(map).rooms,
        final(map).revealed_tiles == old(map).revealed_tiles,
        final(map).visible_tiles == old(map).visible_tiles,
        occupancy_rebuilt(*final(map), alive@, positions@, blocks@),
{
    let count = map.tiles.len();
    let mut i: usize = 0;
    while i < count
        invariant
            old(map).wf(),
            count == old(map).tiles.len(),
            i <= count,
            map.wf(),
            map.width == old(map).width,
            map.height == old(map).height,
            map.tiles == old(map).tiles,
            map.rooms == old(map).rooms,
            map.revealed_tiles == old(map).revealed_tiles,
            map.visible_tiles == old(map).visible_tiles,
            forall|j: int|
                0 <= j < i ==> (#[trigger] map.blocked[j] <==> map.tiles[j] == TileType::Wall),
            forall|j: int| 0 <= j < i ==> (#[trigger] map.tile_content[j]).len() == 0,
        decreases count - i,
    {
        let is_wall = match map.tiles[i] {
            TileType::Wall => true,
            TileType::Floor => false,
        };
        map.blocked[i] = is_wall;
        map.tile_content[i] = Vec::new();
        i = i + 1;
    }
    let n = alive.len();
    let mut e: usize = 0;
    while e < n
        invariant
            old(map).wf(),
            n == alive.len(),
            positions.len() == n,
            blocks.len() == n,
            e <= n,
            map.wf(),
            map.width == old(map).width,
            map.height == old(map).height,
            map.tiles == old(map).tiles,
            map.rooms == old(map).rooms,
            map.revealed_tiles == old(map).revealed_tiles,
            map.visible_tiles == old(map).visible_tiles,
            forall|e2: int|
                0 <= e2 < n ==> match #[trigger] positions@[e2] {
                    Some(p) => map.in_bounds(p.x as int, p.y as int),
                    None => true,
                },
            forall|j: int|
                0 <= j < map.blocked.len() ==> (#[trigger] map.blocked[j] <==> (map.tiles[j]
                    == TileType::Wall || exists|e2: int|
                    e2 < e && blocker_on(*map, alive@, positions@, blocks@, j, e2))),
            forall|j: int, k: int|
                0 <= j < map.tile_content.len() && 0 <= k < map.tile_content[j].len()
                    ==> occupant_on(
                    *map,
                    alive@,
                    positions@,
                    j,
                    (#[trigger] map.tile_content[j][k]) as int,
                ) && (map.tile_content[j][k] as int) < e,
            forall|e2: int, j: int|
                0 <= j < map.tile_content.len() && e2 < e && occupant_on(
                    *map,
                    alive@,
                    positions@,
                    j,
                    e2,
                ) ==> map.tile_content[j]@.contains(e2 as usize),
        decreases n - e,
    {
        let ghost m0 = *map;
        let has_pos = alive[e] && positions[e].is_some();
        if has_pos {
            let p = positions[e].unwrap();
            let idx = map.xy_idx(p.x, p.y);
            if blocks[e] {
                map.blocked[idx] = true;
            }
            map.tile_content[idx].push(e);
            proof {
                assert forall|j: int|
                    0 <= j < map.blocked.len() implies (#[trigger] map.blocked[j] <==> (map.tiles[j]
                    == TileType::Wall || exists|e2: int|
                    e2 < e + 1 && blocker_on(*map, alive@, positions@, blocks@, j, e2))) by {
                    if map.blocked[j] {
                        if !m0.blocked[j] {
                            assert(j == idx as int);
                            assert(blocker_on(*map, alive@, positions@, blocks@, j, e as int));
                        } else {
                            if !(m0.tiles[j] == TileType::Wall) {
                                let w = choose|e2: int|
                                    e2 < e && blocker_on(m0, alive@, positions@, blocks@, j, e2);
                                assert(blocker_on(*map, alive@, positions@, blocks@, j, w));
                            }
                        }
                    } else {
                        assert(!m0.blocked[j]);
                        assert forall|e2: int| e2 < e + 1 implies !blocker_on(
                            *map,
                            alive@,
                            positions@,
                            blocks@,
                            j,
                            e2,
                        ) by {
                            if e2 < e {
                                assert(!blocker_on(m0, alive@, positions@, blocks@, j, e2));
                            } else if e2 == e {
                                if blocks[e as int] && alive[e as int] {
                                    assert(map.blocked[idx as int]);
                                }
                            }
                        }
                    }
                }
                assert forall|e2: int, j: int|
                    0 <= j < map.tile_content.len() && e2 < e + 1 && occupant_on(
                        *map,
                        alive@,
                        positions@,
                        j,
                        e2,
                    ) implies map.tile_content[j]@.contains(e2 as usize) by {
                    if e2 < e {
                        assert(occupant_on(m0, alive@, positions@, j, e2));
                        assert(m0.tile_content[j]@.contains(e2 as usize));
                        if j == idx as int {
                            assert(map.tile_content[j]@ == m0.tile_content[j]@.push(e));
                            let k = choose|k: int|
                                0 <= k < m0.tile_content[j]@.len() && m0.tile_content[j]@[k] == e2
                                    as usize;
                            assert(map.tile_content[j]@[k] == e2 as usize);
                        }
                    } else if e2 == e {
                        assert(j == idx as int);
                        assert(map.tile_content[j]@[m0.tile_content[j]@.len() as int] == e);
                    }
                }
            }
        } else {
            proof {
                assert forall|j: int|
                    0 <= j < map.blocked.len() implies (#[trigger] map.blocked[j] <==> (map.tiles[j]
                    == TileType::Wall || exists|e2: int|
                    e2 < e + 1 && blocker_on(*map, alive@, positions@, blocks@, j, e2))) by {
                    if map.blocked[j] && !(map.tiles[j] == TileType::Wall) {
                        let w = choose|e2: int|
                            e2 < e && blocker_on(m0, alive@, positions@, blocks@, j, e2);
                        assert(blocker_on(*map, alive@, positions@, blocks@, j, w));
                    }
                }
            }
        }
        e = e + 1;
    }
}

} // verus!
