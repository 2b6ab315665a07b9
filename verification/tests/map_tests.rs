use roguelike::map::{new_map_rooms_and_corridors, GameMap, TileType, MAPHEIGHT, MAPWIDTH};
use roguelike::rng::Rng;

fn idx(map: &GameMap, x: i32, y: i32) -> usize {
    (y as usize) * (map.width as usize) + (x as usize)
}

#[test]
fn generated_rooms_are_in_bounds_and_disjoint() {
    for seed in [1u64, 7, 42, 1234, 99999] {
        let mut rng = Rng::seeded(seed);
        let map = new_map_rooms_and_corridors(&mut rng);
        assert_eq!(map.width, MAPWIDTH);
        assert_eq!(map.height, MAPHEIGHT);
        assert!(map.rooms.len() >= 1);
        for r in map.rooms.iter() {
            assert!(0 <= r.x1 && r.x1 < r.x2 && r.x2 < map.width);
            assert!(0 <= r.y1 && r.y1 < r.y2 && r.y2 < map.height);
        }
        for i in 0..map.rooms.len() {
            for j in 0..map.rooms.len() {
                if i != j {
                    let a = &map.rooms[i];
                    let b = &map.rooms[j];
                    let overlap =
                        a.x1 <= b.x2 && a.x2 >= b.x1 && a.y1 <= b.y2 && a.y2 >= b.y1;
                    assert!(!overlap, "rooms {} and {} overlap", i, j);
                }
            }
        }
    }
}

#[test]
fn room_centers_are_floor() {
    let mut rng = Rng::seeded(3);
    let map = new_map_rooms_and_corridors(&mut rng);
    for r in map.rooms.iter() {
        let (cx, cy) = r.center();
        assert_eq!(map.tiles[idx(&map, cx, cy)], TileType::Floor);
    }
}

#[test]
fn all_room_centers_are_connected_by_floor() {
    // Breadth-first search over floor tiles from the first room's
    // center must reach every other room's center.
    for seed in [2u64, 11, 300, 777] {
        let mut rng = Rng::seeded(seed);
        let map = new_map_rooms_and_corridors(&mut rng);
        let (sx, sy) = map.rooms[0].center();
        let w = map.width as usize;
        let h = map.height as usize;
        let mut seen = vec![false; w * h];
        let mut queue = std::collections::VecDeque::new();
        let start = idx(&map, sx, sy);
        seen[start] = true;
        queue.push_back((sx, sy));
        while let Some((x, y)) = queue.pop_front() {
            for (dx, dy) in [(-1i32, 0i32), (1, 0), (0, -1), (0, 1)] {
                let nx = x + dx;
                let ny = y + dy;
                if nx >= 0 && ny >= 0 && nx < map.width && ny < map.height {
                    let i = idx(&map, nx, ny);
                    if !seen[i] && map.tiles[i] == TileType::Floor {
                        seen[i] = true;
                        queue.push_back((nx, ny));
                    }
                }
            }
        }
        for (k, r) in map.rooms.iter().enumerate() {
            let (cx, cy) = r.center();
            assert!(
                seen[idx(&map, cx, cy)],
                "room {} center unreachable with seed {}",
                k,
                seed
            );
        }
    }
}

#[test]
fn generation_is_reproducible_from_the_seed() {
    let mut r1 = Rng::seeded(5);
    let mut r2 = Rng::seeded(5);
    let m1 = new_map_rooms_and_corridors(&mut r1);
    let m2 = new_map_rooms_and_corridors(&mut r2);
    assert_eq!(m1.rooms.len(), m2.rooms.len());
    for (a, b) in m1.rooms.iter().zip(m2.rooms.iter()) {
        assert_eq!((a.x1, a.y1, a.x2, a.y2), (b.x1, b.y1, b.x2, b.y2));
    }
    for i in 0..m1.tiles.len() {
        assert_eq!(m1.tiles[i], m2.tiles[i]);
    }
}
