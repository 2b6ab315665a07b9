//! The dungeon map: a flat grid of wall/floor tiles indexed by
//! `y * width + x`, the list of generated rooms, the fog-of-war arrays,
//! and the per-turn occupancy index. The generator places up to
//! `MAX_ROOMS` non-overlapping rooms and carves an L-shaped corridor from
//! each new room's center to the previous room's center.

use vstd::prelude::*;
use crate::reach::{
    lemma_reach_col_ends, lemma_reach_monotone, lemma_reach_row_ends, lemma_reach_self,
    lemma_reach_sym, lemma_reach_trans, reachable,
};
use crate::rect::Rect;
use crate::rng::Rng;

verus! {

pub const MAPWIDTH: i32 = 80;
pub const MAPHEIGHT: i32 = 43;

pub const MAX_ROOMS: i32 = 30;
pub const MIN_ROOM_SIZE: i32 = 6;
pub const MAX_ROOM_SIZE: i32 = 10;

#[derive(Clone, Copy, Debug, PartialEq, Eq, Structural)]
pub enum TileType {
    Wall,
    Floor,
}

/// A vector of `n` copies of `val`.
pub fn filled<T: Copy>(val: T, n: usize) -> (v: Vec<T>)
    ensures
        v.len() == n,
        forall|i: int| 0 <= i < n ==> v[i] == val,
{
    let mut v: Vec<T> = Vec::new();
    let mut i: usize = 0;
    while i < n
        invariant
            i <= n,
            v.len() == i,
            forall|k: int| 0 <= k < i ==> v[k] == val,
        decreases n - i,
    {
        v.push(val);
        i = i + 1;
    }
    v
}

pub struct GameMap {
    pub width: i32,
    pub height: i32,
    pub tiles: Vec<TileType>,
    pub rooms: Vec<Rect>,
    /// Tiles the player has seen at least once this run.
    pub revealed_tiles: Vec<bool>,
    /// Tiles inside the player's current viewshed; fully recomputed by
    /// every visibility pass, never patched incrementally.
    pub visible_tiles: Vec<bool>,
    /// Derived each turn by the indexing system: true where a wall or a
    /// blocking entity stands.
    pub blocked: Vec<bool>,
    /// Derived each turn by the indexing system: the entities standing
    /// on each tile.
    pub tile_content: Vec<Vec<usize>>,
}

impl GameMap {
    pub open spec fn wf(self) -> bool {
        &&& 0 < self.width <= 300
        &&& 0 < self.height <= 300
        &&& self.tiles.len() == self.width * self.height
        &&& self.revealed_tiles.len() == self.tiles.len()
        &&& self.visible_tiles.len() == self.tiles.len()
        &&& self.blocked.len() == self.tiles.len()
        &&& self.tile_content.len() == self.tiles.len()
    }

    pub open spec fn in_bounds(self, x: int, y: int) -> bool {
        0 <= x < self.width && 0 <= y < self.height
    }

    pub open spec fn idx_of(self, x: int, y: int) -> int {
        y * self.width + x
    }

    /// A room that lies fully within the grid.
    pub open spec fn room_in_map(self, r: Rect) -> bool {
        r.wf() && r.x2 < self.width && r.y2 < self.height
    }

    pub open spec fn is_floor(self, x: int, y: int) -> bool {
        self.in_bounds(x, y) && self.tiles[self.idx_of(x, y)] == TileType::Floor
    }

    /// The parts of the map that room and corridor carving never touch.
    pub open spec fn same_but_tiles(self, other: GameMap) -> bool {
        &&& self.width == other.width
        &&& self.height == other.height
        &&& self.rooms == other.rooms
        &&& self.revealed_tiles == other.revealed_tiles
        &&& self.visible_tiles == other.visible_tiles
        &&& self.blocked == other.blocked
        &&& self.tile_content == other.tile_content
        &&& self.tiles.len() == other.tiles.len()
    }

    pub proof fn lemma_idx_bounds(self, x: int, y: int)
        requires
            self.wf(),
            self.in_bounds(x, y),
        ensures
            0 <= self.idx_of(x, y) < self.tiles.len(),
    {
        assert(0 <= y * self.width + x < self.width * self.height) by (nonlinear_arith)
            requires
                0 <= x < self.width,
                0 <= y < self.height,
        ;
    }

    /// Distinct in-bounds coordinates map to distinct flat indices.
    pub proof fn lemma_idx_injective(self, x1: int, y1: int, x2: int, y2: int)
        requires
            self.wf(),
            self.in_bounds(x1, y1),
            self.in_bounds(x2, y2),
            self.idx_of(x1, y1) == self.idx_of(x2, y2),
        ensures
            x1 == x2 && y1 == y2,
    {
        assert(x1 == x2 && y1 == y2) by (nonlinear_arith)
            requires
                0 <= x1 < self.width,
                0 <= y1 < self.height,
                0 <= x2 < self.width,
                0 <= y2 < self.height,
                y1 * self.width + x1 == y2 * self.width + x2,
        ;
    }

    /// The flat index of tile `(x, y)`.
    pub fn xy_idx(&self, x: i32, y: i32) -> (r: usize)
        requires
            self.wf(),
            self.in_bounds(x as int, y as int),
        ensures
            r == self.idx_of(x as int, y as int),
            r < self.tiles.len(),
    {
        proof {
            self.lemma_idx_bounds(x as int, y as int);
        }
        (y as usize) * (self.width as usize) + (x as usize)
    }

    /// An all-wall map of the standard dimensions with no rooms.
    pub fn new_empty() -> (m: GameMap)
        ensures
            m.wf(),
            m.width == MAPWIDTH,
            m.height == MAPHEIGHT,
            m.rooms.len() == 0,
            forall|i: int| 0 <= i < m.tiles.len() ==> m.tiles[i] == TileType::Wall,
            forall|i: int| 0 <= i < m.tiles.len() ==> !m.revealed_tiles[i] && !m.visible_tiles[i],
    {
        let count_i: i32 = MAPWIDTH * MAPHEIGHT;
        let count: usize = count_i as usize;
        let mut tile_content: Vec<Vec<usize>> = Vec::new();
        let mut i: usize = 0;
        while i < count
            invariant
                tile_content.len() == i,
                i <= count,
            decreases count - i,
        {
            tile_content.push(Vec::new());
            i = i + 1;
        }
        GameMap {
            width: MAPWIDTH,
            height: MAPHEIGHT,
            tiles: filled(TileType::Wall, count),
            rooms: Vec::new(),
            revealed_tiles: filled(false, count),
            visible_tiles: filled(false, count),
            blocked: filled(false, count),
            tile_content,
        }
    }

    /// Turn one tile to floor. Carving is monotone: every tile that was
    /// floor before is floor after, and only `(x, y)` can newly be floor.
    fn set_floor(&mut self, x: i32, y: i32)
        requires
            old(self).wf(),
            old(self).in_bounds(x as int, y as int),
        ensures
            final(self).wf(),
            final(self).same_but_tiles(*old(self)),
            final(self).is_floor(x as int, y as int),
            forall|xx: int, yy: int| old(self).is_floor(xx, yy) ==> final(self).is_floor(xx, yy),
            forall|xx: int, yy: int|
                final(self).is_floor(xx, yy)
                    ==> old(self).is_floor(xx, yy) || (xx == x as int && yy == y as int),
    {
        let idx = self.xy_idx(x, y);
        self.tiles[idx] = TileType::Floor;
        proof {
            assert forall|xx: int, yy: int| old(self).is_floor(xx, yy) implies self.is_floor(
                xx,
                yy,
            ) by {
                old(self).lemma_idx_bounds(xx, yy);
            }
            assert forall|xx: int, yy: int|
                self.is_floor(xx, yy) && !(xx == x as int && yy == y as int) implies old(
                self,
            ).is_floor(xx, yy) by {
                self.lemma_idx_bounds(xx, yy);
                if self.idx_of(xx, yy) == idx {
                    self.lemma_idx_injective(xx, yy, x as int, y as int);
                }
            }
        }
    }

    /// Carve the interior of `room` (from `x1 + 1` to `x2`, same for y)
    /// to floor.
    pub fn apply_room_to_map(&mut self, room: &Rect)
        requires
            old(self).wf(),
            old(self).room_in_map(*room),
        ensures
            final(self).wf(),
            final(self).same_but_tiles(*old(self)),
            forall|x: int, y: int|
                room.x1 + 1 <= x <= room.x2 && room.y1 + 1 <= y <= room.y2
                    ==> final(self).is_floor(x, y),
            forall|x: int, y: int| old(self).is_floor(x, y) ==> final(self).is_floor(x, y),
    {
        let mut y = room.y1 + 1;
        while y <= room.y2
            invariant
                old(self).wf(),
                old(self).room_in_map(*room),
                room.y1 + 1 <= y <= room.y2 + 1,
                self.wf(),
                self.same_but_tiles(*old(self)),
                forall|xx: int, yy: int|
                    room.x1 + 1 <= xx <= room.x2 && room.y1 + 1 <= yy < y
                        ==> self.is_floor(xx, yy),
                forall|xx: int, yy: int| old(self).is_floor(xx, yy) ==> self.is_floor(xx, yy),
            decreases room.y2 + 1 - y,
        {
            let mut x = room.x1 + 1;
            while x <= room.x2
                invariant
                    old(self).wf(),
                    old(self).room_in_map(*room),
                    room.y1 + 1 <= y <= room.y2,
                    room.x1 + 1 <= x <= room.x2 + 1,
                    self.wf(),
                    self.same_but_tiles(*old(self)),
                    forall|xx: int, yy: int|
                        room.x1 + 1 <= xx <= room.x2 && room.y1 + 1 <= yy < y
                            ==> self.is_floor(xx, yy),
                    forall|xx: int| room.x1 + 1 <= xx < x ==> self.is_floor(xx, y as int),
                    forall|xx: int, yy: int| old(self).is_floor(xx, yy) ==> self.is_floor(xx, yy),
                decreases room.x2 + 1 - x,
            {
                self.set_floor(x, y);
                x = x + 1;
            }
            y = y + 1;
        }
    }

    /// Carve a horizontal corridor at row `y` covering every column
    /// between `x1` and `x2` inclusive, in either order.
    pub fn apply_horizontal_tunnel(&mut self, x1: i32, x2: i32, y: i32)
        requires
            old(self).wf(),
            0 <= y < old(self).height,
            0 <= x1 < old(self).width,
            0 <= x2 < old(self).width,
        ensures
            final(self).wf(),
            final(self).same_but_tiles(*old(self)),
            forall|x: int|
                vstd::math::min(x1 as int, x2 as int) <= x <= vstd::math::max(x1 as int, x2 as int)
                    ==> final(self).is_floor(x, y as int),
            forall|x: int, yy: int| old(self).is_floor(x, yy) ==> final(self).is_floor(x, yy),
    {
        let lo = if x1 < x2 {
            x1
        } else {
            x2
        };
        let hi = if x1 < x2 {
            x2
        } else {
            x1
        };
        let mut x = lo;
        while x <= hi
            invariant
                old(self).wf(),
                0 <= y < old(self).height,
                0 <= lo <= x <= hi + 1,
                lo == vstd::math::min(x1 as int, x2 as int),
                hi == vstd::math::max(x1 as int, x2 as int),
                hi < old(self).width,
                self.wf(),
                self.same_but_tiles(*old(self)),
                forall|xx: int| lo <= xx < x ==> self.is_floor(xx, y as int),
                forall|xx: int, yy: int| old(self).is_floor(xx, yy) ==> self.is_floor(xx, yy),
            decreases hi + 1 - x,
        {
            self.set_floor(x, y);
            x = x + 1;
        }
    }

    /// Carve a vertical corridor at column `x` covering every row
    /// between `y1` and `y2` inclusive, in either order.
    pub fn apply_vertical_tunnel(&mut self, y1: i32, y2: i32, x: i32)
        requires
            old(self).wf(),
            0 <= x < old(self).width,
            0 <= y1 < old(self).height,
            0 <= y2 < old(self).height,
        ensures
            final(self).wf(),
            final(self).same_but_tiles(*old(self)),
            forall|y: int|
                vstd::math::min(y1 as int, y2 as int) <= y <= vstd::math::max(y1 as int, y2 as int)
                    ==> final(self).is_floor(x as int, y),
            forall|xx: int, yy: int| old(self).is_floor(xx, yy) ==> final(self).is_floor(xx, yy),
    {
        let lo = if y1 < y2 {
            y1
        } else {
            y2
        };
        let hi = if y1 < y2 {
            y2
        } else {
            y1
        };
        let mut y = lo;
        while y <= hi
            invariant
                old(self).wf(),
                0 <= x < old(self).width,
                0 <= lo <= y <= hi + 1,
                lo == vstd::math::min(y1 as int, y2 as int),
                hi == vstd::math::max(y1 as int, y2 as int),
                hi < old(self).height,
                self.wf(),
                self.same_but_tiles(*old(self)),
                forall|yy: int| lo <= yy < y ==> self.is_floor(x as int, yy),
                forall|xx: int, yy: int| old(self).is_floor(xx, yy) ==> self.is_floor(xx, yy),
            decreases hi + 1 - y,
        {
            self.set_floor(x, y);
            y = y + 1;
        }
    }
}

/// A generated dungeon: every accepted room lies fully inside the grid
/// and overlaps no other accepted room; there is always at least one
/// room; every room's center tile is carved floor. If the attempt budget
/// runs out before a candidate fits, the map simply holds fewer rooms.
pub fn new_map_rooms_and_corridors(rng: &mut Rng) -> (m: GameMap)
    ensures
        m.wf(),
        m.width == MAPWIDTH,
        m.height == MAPHEIGHT,
        1 <= m.rooms.len() <= MAX_ROOMS,
        forall|i: int| 0 <= i < m.rooms.len() ==> m.room_in_map(#[trigger] m.rooms[i]),
        forall|i: int, j: int|
            0 <= i < m.rooms.len() && 0 <= j < m.rooms.len() && i != j
                ==> !#[trigger] m.rooms[i].intersects(#[trigger] m.rooms[j]),
        forall|i: int|
            0 <= i < m.rooms.len()
                ==> m.is_floor(
                    (#[trigger] m.rooms[i]).center_spec().0,
                    m.rooms[i].center_spec().1,
                ),
        forall|i: int, j: int|
            #![trigger m.rooms[i], m.rooms[j]]
            0 <= i < m.rooms.len() && 0 <= j < m.rooms.len() ==> reachable(
                m,
                m.rooms[i].center_spec(),
                m.rooms[j].center_spec(),
            ),
        forall|i: int| 0 <= i < m.tiles.len() ==> !(#[trigger] m.revealed_tiles[i]),
        forall|i: int| 0 <= i < m.tiles.len() ==> !(#[trigger] m.visible_tiles[i]),
{
    let mut map = GameMap::new_empty();
    let mut attempt: i32 = 0;
    while attempt < MAX_ROOMS
        invariant
            map.wf(),
            map.width == MAPWIDTH,
            map.height == MAPHEIGHT,
            0 <= attempt <= MAX_ROOMS,
            map.rooms.len() <= attempt,
            attempt >= 1 ==> map.rooms.len() >= 1,
            forall|i: int| 0 <= i < map.rooms.len() ==> map.room_in_map(#[trigger] map.rooms[i]),
            forall|i: int, j: int|
                0 <= i < map.rooms.len() && 0 <= j < map.rooms.len() && i != j
                    ==> !#[trigger] map.rooms[i].intersects(#[trigger] map.rooms[j]),
            forall|i: int|
                0 <= i < map.rooms.len()
                    ==> map.is_floor(
                        (#[trigger] map.rooms[i]).center_spec().0,
                        map.rooms[i].center_spec().1,
                    ),
            forall|i: int, j: int|
                #![trigger map.rooms[i], map.rooms[j]]
                0 <= i < map.rooms.len() && 0 <= j < map.rooms.len() ==> reachable(
                    map,
                    map.rooms[i].center_spec(),
                    map.rooms[j].center_spec(),
                ),
            forall|i: int| 0 <= i < map.tiles.len() ==> !(#[trigger] map.revealed_tiles[i]),
            forall|i: int| 0 <= i < map.tiles.len() ==> !(#[trigger] map.visible_tiles[i]),
        decreases MAX_ROOMS - attempt,
    {
        let w = rng.range(MIN_ROOM_SIZE, MAX_ROOM_SIZE);
        let h = rng.range(MIN_ROOM_SIZE, MAX_ROOM_SIZE);
        let x = rng.roll_dice(1, MAPWIDTH - w - 1) - 1;
        let y = rng.roll_dice(1, MAPHEIGHT - h - 1) - 1;
        let new_room = Rect::new(x, y, w, h);
        let mut ok = true;
        let mut j: usize = 0;
        while j < map.rooms.len()
            invariant
                j <= map.rooms.len(),
                ok <==> forall|k: int| 0 <= k < j ==> !new_room.intersects(#[trigger] map.rooms[k]),
            decreases map.rooms.len() - j,
        {
            if new_room.intersect(&map.rooms[j]) {
                ok = false;
            }
            j = j + 1;
        }
        if ok {
            let ghost m_before = map;
            map.apply_room_to_map(&new_room);
            proof {
                lemma_center_in_interior(new_room);
                assert(map.is_floor(new_room.center_spec().0, new_room.center_spec().1));
                assert forall|i: int| 0 <= i < map.rooms.len() implies map.is_floor(
                    (#[trigger] map.rooms[i]).center_spec().0,
                    map.rooms[i].center_spec().1,
                ) by {
                    assert(m_before.is_floor(
                        m_before.rooms[i].center_spec().0,
                        m_before.rooms[i].center_spec().1,
                    ));
                }
                assert forall|i: int, j: int|
                    #![trigger map.rooms[i], map.rooms[j]]
                    0 <= i < map.rooms.len() && 0 <= j < map.rooms.len() implies reachable(
                    map,
                    map.rooms[i].center_spec(),
                    map.rooms[j].center_spec(),
                ) by {
                    assert(reachable(
                        m_before,
                        m_before.rooms[i].center_spec(),
                        m_before.rooms[j].center_spec(),
                    ));
                    lemma_reach_monotone(
                        m_before,
                        map,
                        m_before.rooms[i].center_spec(),
                        m_before.rooms[j].center_spec(),
                    );
                }
            }
            if map.rooms.len() > 0 {
                let (new_x, new_y) = new_room.center();
                let prev = map.rooms[map.rooms.len() - 1];
                let (prev_x, prev_y) = prev.center();
                let ghost m_carved = map;
                if rng.range(0, 2) == 1 {
                    map.apply_horizontal_tunnel(prev_x, new_x, prev_y);
                    let ghost m_t1 = map;
                    map.apply_vertical_tunnel(prev_y, new_y, new_x);
                    proof {
                        assert forall|x: int|
                            vstd::math::min(prev_x as int, new_x as int) <= x <= vstd::math::max(
                                prev_x as int,
                                new_x as int,
                            ) implies #[trigger] map.is_floor(x, prev_y as int) by {
                            assert(m_t1.is_floor(x, prev_y as int));
                        }
                        lemma_reach_row_ends(map, prev_x as int, new_x as int, prev_y as int);
                        lemma_reach_col_ends(map, prev_y as int, new_y as int, new_x as int);
                        lemma_reach_trans(
                            map,
                            (prev_x as int, prev_y as int),
                            (new_x as int, prev_y as int),
                            (new_x as int, new_y as int),
                        );
                        assert forall|x: int, y: int| m_carved.is_floor(x, y) implies map.is_floor(
                            x,
                            y,
                        ) by {
                            assert(m_t1.is_floor(x, y));
                        }
                    }
                } else {
                    map.apply_vertical_tunnel(prev_y, new_y, prev_x);
                    let ghost m_t1 = map;
                    map.apply_horizontal_tunnel(prev_x, new_x, new_y);
                    proof {
                        assert forall|y: int|
                            vstd::math::min(prev_y as int, new_y as int) <= y <= vstd::math::max(
                                prev_y as int,
                                new_y as int,
                            ) implies #[trigger] map.is_floor(prev_x as int, y) by {
                            assert(m_t1.is_floor(prev_x as int, y));
                        }
                        lemma_reach_col_ends(map, prev_y as int, new_y as int, prev_x as int);
                        lemma_reach_row_ends(map, prev_x as int, new_x as int, new_y as int);
                        lemma_reach_trans(
                            map,
                            (prev_x as int, prev_y as int),
                            (prev_x as int, new_y as int),
                            (new_x as int, new_y as int),
                        );
                        assert forall|x: int, y: int| m_carved.is_floor(x, y) implies map.is_floor(
                            x,
                            y,
                        ) by {
                            assert(m_t1.is_floor(x, y));
                        }
                    }
                }
                proof {
                    assert(reachable(
                        map,
                        (prev_x as int, prev_y as int),
                        (new_x as int, new_y as int),
                    ));
                    assert((prev_x as int, prev_y as int) == prev.center_spec());
                    assert((new_x as int, new_y as int) == new_room.center_spec());
                    assert(reachable(
                        map,
                        map.rooms[map.rooms.len() - 1].center_spec(),
                        new_room.center_spec(),
                    ));
                    assert forall|i: int, j: int|
                        #![trigger map.rooms[i], map.rooms[j]]
                        0 <= i < map.rooms.len() && 0 <= j < map.rooms.len() implies reachable(
                        map,
                        map.rooms[i].center_spec(),
                        map.rooms[j].center_spec(),
                    ) by {
                        assert(reachable(
                            m_carved,
                            m_carved.rooms[i].center_spec(),
                            m_carved.rooms[j].center_spec(),
                        ));
                        lemma_reach_monotone(
                            m_carved,
                            map,
                            m_carved.rooms[i].center_spec(),
                            m_carved.rooms[j].center_spec(),
                        );
                    }
                }
                proof {
                    assert(map.is_floor(new_room.center_spec().0, new_room.center_spec().1));
                    assert forall|i: int| 0 <= i < map.rooms.len() implies map.is_floor(
                        (#[trigger] map.rooms[i]).center_spec().0,
                        map.rooms[i].center_spec().1,
                    ) by {
                        assert(m_carved.is_floor(
                            m_carved.rooms[i].center_spec().0,
                            m_carved.rooms[i].center_spec().1,
                        ));
                    }
                }
            }
            let ghost old_rooms = map.rooms@;
            let ghost m_pre_push = map;
            map.rooms.push(new_room);
            proof {
                assert forall|i: int| 0 <= i < map.rooms.len() implies map.is_floor(
                    (#[trigger] map.rooms[i]).center_spec().0,
                    map.rooms[i].center_spec().1,
                ) by {
                    if i < old_rooms.len() {
                        assert(map.rooms[i] == old_rooms[i]);
                        assert(m_pre_push.is_floor(
                            old_rooms[i].center_spec().0,
                            old_rooms[i].center_spec().1,
                        ));
                    } else {
                        assert(map.rooms[i] == new_room);
                        assert(m_pre_push.is_floor(
                            new_room.center_spec().0,
                            new_room.center_spec().1,
                        ));
                    }
                }
            }
            proof {
                assert forall|i: int, j2: int|
                    0 <= i < map.rooms.len() && 0 <= j2 < map.rooms.len() && i != j2 implies !#[
                trigger] map.rooms[i].intersects(#[trigger] map.rooms[j2]) by {
                    if i < old_rooms.len() && j2 < old_rooms.len() {
                    } else if i == old_rooms.len() {
                        assert(!new_room.intersects(old_rooms[j2]));
                    } else {
                        assert(!new_room.intersects(old_rooms[i]));
                    }
                }
            }
            proof {
                assert forall|x: int, y: int| m_pre_push.is_floor(x, y) implies map.is_floor(
                    x,
                    y,
                ) by {}
                assert(map.is_floor(new_room.center_spec().0, new_room.center_spec().1));
                assert forall|i: int, j2: int|
                    #![trigger map.rooms[i], map.rooms[j2]]
                    0 <= i < map.rooms.len() && 0 <= j2 < map.rooms.len() implies reachable(
                    map,
                    map.rooms[i].center_spec(),
                    map.rooms[j2].center_spec(),
                ) by {
                    if i < old_rooms.len() && j2 < old_rooms.len() {
                        assert(reachable(
                            m_pre_push,
                            old_rooms[i].center_spec(),
                            old_rooms[j2].center_spec(),
                        ));
                        lemma_reach_monotone(
                            m_pre_push,
                            map,
                            old_rooms[i].center_spec(),
                            old_rooms[j2].center_spec(),
                        );
                    } else if i == old_rooms.len() && j2 == old_rooms.len() {
                        lemma_reach_self(map, new_room.center_spec());
                    } else {
                        let last = old_rooms.len() - 1;
                        let cl = old_rooms[last].center_spec();
                        let cn = new_room.center_spec();
                        assert(reachable(m_pre_push, cl, cn));
                        lemma_reach_monotone(m_pre_push, map, cl, cn);
                        if j2 == old_rooms.len() {
                            assert(reachable(
                                m_pre_push,
                                old_rooms[i].center_spec(),
                                cl,
                            ));
                            lemma_reach_monotone(
                                m_pre_push,
                                map,
                                old_rooms[i].center_spec(),
                                cl,
                            );
                            lemma_reach_trans(map, old_rooms[i].center_spec(), cl, cn);
                        } else {
                            assert(reachable(
                                m_pre_push,
                                old_rooms[j2].center_spec(),
                                cl,
                            ));
                            lemma_reach_monotone(
                                m_pre_push,
                                map,
                                old_rooms[j2].center_spec(),
                                cl,
                            );
                            lemma_reach_trans(map, old_rooms[j2].center_spec(), cl, cn);
                            lemma_reach_sym(map, old_rooms[j2].center_spec(), cn);
                        }
                    }
                }
            }
        }
        attempt = attempt + 1;
    }
    map
}

/// The center of a room at least two tiles wide and tall lies strictly
/// inside it, in the region that room carving turns to floor.
pub proof fn lemma_center_in_interior(r: Rect)
    requires
        r.wf(),
        r.x2 - r.x1 >= 2,
        r.y2 - r.y1 >= 2,
    ensures
        r.x1 + 1 <= r.center_spec().0 <= r.x2,
        r.y1 + 1 <= r.center_spec().1 <= r.y2,
{
    assert(r.x1 + 1 <= (r.x1 + r.x2) / 2 <= r.x2) by (nonlinear_arith)
        requires
            0 <= r.x1,
            r.x1 + 2 <= r.x2,
    ;
    assert(r.y1 + 1 <= (r.y1 + r.y2) / 2 <= r.y2) by (nonlinear_arith)
        requires
            0 <= r.y1,
            r.y1 + 2 <= r.y2,
    ;
}

} // verus!
