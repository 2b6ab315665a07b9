use roguelike::components::{CombatStats, Position, SufferDamage, WantsToMelee};
use roguelike::damage::damage_system;
use roguelike::map::{GameMap, TileType};
use roguelike::melee::melee_combat_system;
use roguelike::rng::Rng;
use roguelike::spawner;
use roguelike::state::{Command, ItemMenuResult, RunState, State};
use roguelike::visibility::field_of_view;
use roguelike::world::World;

fn open_map() -> GameMap {
    let mut map = GameMap::new_empty();
    for t in map.tiles.iter_mut() {
        *t = TileType::Floor;
    }
    map
}

fn idx(map: &GameMap, x: i32, y: i32) -> usize {
    (y as usize) * (map.width as usize) + (x as usize)
}

#[test]
fn fov_is_symmetric_on_open_floor() {
    let map = open_map();
    let points = [(10i32, 10i32), (14, 12), (18, 10), (10, 18), (3, 3)];
    for &(ax, ay) in points.iter() {
        for &(bx, by) in points.iter() {
            let from_a = field_of_view(&map, ax, ay, 8);
            let from_b = field_of_view(&map, bx, by, 8);
            assert_eq!(
                from_a.contains(&(bx, by)),
                from_b.contains(&(ax, ay)),
                "asymmetric between {:?} and {:?}",
                (ax, ay),
                (bx, by)
            );
        }
    }
}

#[test]
fn fov_respects_range() {
    let map = open_map();
    let seen = field_of_view(&map, 20, 20, 8);
    assert!(seen.contains(&(20, 20)));
    assert!(seen.contains(&(28, 20)));
    assert!(!seen.contains(&(29, 20)));
    assert!(!seen.contains(&(29, 29)));
}

#[test]
fn walls_block_sight() {
    let mut map = open_map();
    // A vertical wall between viewer and target.
    for y in 0..map.height {
        let i = idx(&map, 15, y);
        map.tiles[i] = TileType::Wall;
    }
    let seen = field_of_view(&map, 10, 10, 8);
    assert!(!seen.contains(&(17, 10)));
    // The wall itself is visible.
    assert!(seen.contains(&(15, 10)));
}

#[test]
fn damage_applies_once_and_rerun_is_noop() {
    let mut stats = vec![Some(CombatStats { max_hp: 10, hp: 10, defense: 0, power: 0 })];
    let mut suffer = vec![Some(SufferDamage { amount: vec![3, 4] })];
    damage_system(&mut stats, &mut suffer);
    assert_eq!(stats[0].unwrap().hp, 3);
    assert!(suffer[0].is_none());
    damage_system(&mut stats, &mut suffer);
    assert_eq!(stats[0].unwrap().hp, 3);
}

#[test]
fn hp_clamps_at_zero() {
    let mut stats = vec![Some(CombatStats { max_hp: 5, hp: 5, defense: 0, power: 0 })];
    let mut suffer = vec![Some(SufferDamage { amount: vec![10] })];
    damage_system(&mut stats, &mut suffer);
    assert_eq!(stats[0].unwrap().hp, 0);
}

#[test]
fn melee_damage_is_power_minus_defense_exactly() {
    // Attacker 0 with power 5 strikes defender 1 with defense 2.
    let mut wants = vec![Some(WantsToMelee { target: 1 }), None];
    let alive = vec![true, true];
    let stats = vec![
        Some(CombatStats { max_hp: 30, hp: 30, defense: 0, power: 5 }),
        Some(CombatStats { max_hp: 16, hp: 16, defense: 2, power: 0 }),
    ];
    let mut suffer = vec![None, None];
    let mut log = Vec::new();
    melee_combat_system(&mut wants, &alive, &stats, &mut suffer, &mut log);
    assert!(wants[0].is_none());
    let queue = suffer[1].as_ref().expect("defender should have pending damage");
    assert_eq!(queue.amount, vec![3]);
    assert!(suffer[0].is_none());
}

#[test]
fn melee_never_deals_negative_damage() {
    let mut wants = vec![Some(WantsToMelee { target: 1 }), None];
    let alive = vec![true, true];
    let stats = vec![
        Some(CombatStats { max_hp: 30, hp: 30, defense: 0, power: 2 }),
        Some(CombatStats { max_hp: 16, hp: 16, defense: 9, power: 0 }),
    ];
    let mut suffer = vec![None, None];
    let mut log = Vec::new();
    melee_combat_system(&mut wants, &alive, &stats, &mut suffer, &mut log);
    assert!(wants[0].is_none());
    assert!(suffer[1].is_none());
}

fn world_on_open_map() -> World {
    World::new(open_map(), Rng::seeded(9))
}

#[test]
fn pipeline_drains_all_intents() {
    let mut ecs = world_on_open_map();
    let p = spawner::player(&mut ecs, 10, 10);
    let m = spawner::random_monster(&mut ecs, 12, 10);
    let mut gs = State { ecs, runstate: RunState::PreRun };
    // Attach intents by hand, then run one pass.
    gs.ecs.wants_melee[m] = Some(WantsToMelee { target: p });
    gs.ecs.suffer_damage[p] = Some(SufferDamage { amount: vec![1] });
    gs.run_systems();
    for e in 0..gs.ecs.alive.len() {
        assert!(gs.ecs.wants_melee[e].is_none());
        assert!(gs.ecs.suffer_damage[e].is_none());
        assert!(gs.ecs.wants_pickup[e].is_none());
    }
}

#[test]
fn reaper_removes_entities_at_zero_hp() {
    let mut ecs = world_on_open_map();
    let _p = spawner::player(&mut ecs, 10, 10);
    let m = spawner::random_monster(&mut ecs, 30, 30);
    if let Some(s) = &mut ecs.combat_stats[m] {
        s.hp = 0;
    }
    ecs.delete_the_dead();
    assert!(!ecs.alive[m]);
    assert!(ecs.combat_stats[m].is_none());
    for e in 0..ecs.alive.len() {
        if ecs.alive[e] {
            if let Some(s) = &ecs.combat_stats[e] {
                assert!(s.hp != 0);
            }
        }
    }
}

#[test]
fn distant_monster_idles_and_stays_unseen() {
    // Player and monster on open floor, farther apart than sight
    // range 8: after the first pass the monster has not acted and the
    // player's visible set excludes the monster's tile.
    let mut ecs = world_on_open_map();
    let _p = spawner::player(&mut ecs, 10, 10);
    let m = spawner::random_monster(&mut ecs, 30, 10);
    let mut gs = State { ecs, runstate: RunState::PreRun };
    gs.tick(Command::Wait, ItemMenuResult::NoResponse);
    assert_eq!(gs.runstate, RunState::AwaitingInput);
    assert_eq!(gs.ecs.positions[m], Some(Position { x: 30, y: 10 }));
    assert!(gs.ecs.wants_melee[m].is_none());
    let midx = idx(&gs.ecs.map, 30, 10);
    assert!(!gs.ecs.map.visible_tiles[midx]);
    // Player untouched.
    let p = gs.ecs.player_entity.unwrap();
    assert_eq!(gs.ecs.combat_stats[p].unwrap().hp, 30);
}

#[test]
fn adjacent_monster_attacks_the_player() {
    // A monster right next to the player sees it, attaches a melee
    // intent, and the same pass resolves it: the player loses
    // max(0, power 4 - defense 2) = 2 hit points.
    let mut ecs = world_on_open_map();
    let _p = spawner::player(&mut ecs, 10, 10);
    let _m = spawner::random_monster(&mut ecs, 11, 10);
    let mut gs = State { ecs, runstate: RunState::PreRun };
    gs.tick(Command::Wait, ItemMenuResult::NoResponse);
    let p = gs.ecs.player_entity.unwrap();
    assert_eq!(gs.ecs.combat_stats[p].unwrap().hp, 28);
}

#[test]
fn pickup_moves_potion_into_backpack() {
    let mut ecs = world_on_open_map();
    let _p = spawner::player(&mut ecs, 40, 20);
    let mut gs = State { ecs, runstate: RunState::PreRun };
    gs.tick(Command::Wait, ItemMenuResult::NoResponse);
    // Drop a potion under the player by hand, then grab it.
    let pot = {
        let e = gs.ecs.create_entity();
        gs.ecs.positions[e] = Some(Position { x: 40, y: 20 });
        gs.ecs.items[e] = true;
        gs.ecs.healing_potions[e] =
            Some(roguelike::components::HealingPotion { heal_amount: 8 });
        e
    };
    assert_eq!(gs.runstate, RunState::AwaitingInput);
    gs.tick(Command::Grab, ItemMenuResult::NoResponse);
    assert_eq!(gs.runstate, RunState::PlayerTurn);
    gs.tick(Command::Wait, ItemMenuResult::NoResponse);
    assert_eq!(gs.runstate, RunState::MonsterTurn);
    let p = gs.ecs.player_entity.unwrap();
    assert!(gs.ecs.positions[pot].is_none(), "potion should leave the ground");
    let pack = gs.ecs.in_backpack[pot].expect("potion should be in a backpack");
    assert_eq!(pack.owner, p);
}

#[test]
fn turn_machine_cycles_and_menu_freezes_the_world() {
    let mut ecs = world_on_open_map();
    let _p = spawner::player(&mut ecs, 10, 10);
    let mut gs = State { ecs, runstate: RunState::PreRun };
    gs.tick(Command::Wait, ItemMenuResult::NoResponse);
    assert_eq!(gs.runstate, RunState::AwaitingInput);
    gs.tick(Command::MoveRight, ItemMenuResult::NoResponse);
    assert_eq!(gs.runstate, RunState::PlayerTurn);
    gs.tick(Command::Wait, ItemMenuResult::NoResponse);
    assert_eq!(gs.runstate, RunState::MonsterTurn);
    gs.tick(Command::Wait, ItemMenuResult::NoResponse);
    assert_eq!(gs.runstate, RunState::AwaitingInput);
    gs.tick(Command::OpenInventory, ItemMenuResult::NoResponse);
    assert_eq!(gs.runstate, RunState::ShowInventory);
    let hp_before = {
        let p = gs.ecs.player_entity.unwrap();
        gs.ecs.combat_stats[p].unwrap().hp
    };
    gs.tick(Command::Wait, ItemMenuResult::NoResponse);
    assert_eq!(gs.runstate, RunState::ShowInventory);
    gs.tick(Command::Wait, ItemMenuResult::Cancel);
    assert_eq!(gs.runstate, RunState::AwaitingInput);
    let p = gs.ecs.player_entity.unwrap();
    assert_eq!(gs.ecs.combat_stats[p].unwrap().hp, hp_before);
}

#[test]
fn player_bump_attacks_adjacent_monster() {
    let mut ecs = world_on_open_map();
    let _p = spawner::player(&mut ecs, 10, 10);
    let m = spawner::random_monster(&mut ecs, 11, 10);
    let mut gs = State { ecs, runstate: RunState::PreRun };
    gs.tick(Command::Wait, ItemMenuResult::NoResponse);
    // Indexing has filled tile_content; bumping right attacks.
    gs.tick(Command::MoveRight, ItemMenuResult::NoResponse);
    assert_eq!(gs.runstate, RunState::PlayerTurn);
    let p = gs.ecs.player_entity.unwrap();
    // The player did not move onto the monster's tile.
    assert_eq!(gs.ecs.positions[p], Some(Position { x: 10, y: 10 }));
    gs.tick(Command::Wait, ItemMenuResult::NoResponse);
    // Player power 5 against monster defense 1: monster lost 4 hp.
    assert_eq!(gs.ecs.combat_stats[m].unwrap().hp, 12);
}

#[test]
fn new_game_starts_in_prerun_with_a_player() {
    let gs = roguelike::state::new_game(123);
    assert_eq!(gs.runstate, RunState::PreRun);
    let p = gs.ecs.player_entity.unwrap();
    assert!(gs.ecs.alive[p]);
    assert_eq!(gs.ecs.combat_stats[p].unwrap().hp, 30);
    assert!(gs.ecs.map.rooms.len() >= 1);
}

#[test]
fn grabbing_on_an_empty_tile_logs_nothing_to_pick_up() {
    let mut ecs = world_on_open_map();
    let _p = spawner::player(&mut ecs, 10, 10);
    let mut gs = State { ecs, runstate: RunState::PreRun };
    gs.tick(Command::Wait, ItemMenuResult::NoResponse);
    let log_len = gs.ecs.log.len();
    gs.tick(Command::Grab, ItemMenuResult::NoResponse);
    let p = gs.ecs.player_entity.unwrap();
    assert!(gs.ecs.wants_pickup[p].is_none());
    assert!(matches!(
        gs.ecs.log[log_len],
        roguelike::components::LogEntry::NothingToPickUp
    ));
}

#[test]
fn moving_into_a_wall_is_a_silent_no_op() {
    let mut map = open_map();
    let i = idx(&map, 9, 10);
    map.tiles[i] = TileType::Wall;
    let mut ecs = World::new(map, Rng::seeded(4));
    let _p = spawner::player(&mut ecs, 10, 10);
    let mut gs = State { ecs, runstate: RunState::PreRun };
    gs.tick(Command::Wait, ItemMenuResult::NoResponse);
    gs.tick(Command::MoveLeft, ItemMenuResult::NoResponse);
    let p = gs.ecs.player_entity.unwrap();
    assert_eq!(gs.ecs.positions[p], Some(Position { x: 10, y: 10 }));
}

#[test]
fn combat_appends_an_attack_log_entry() {
    let mut ecs = world_on_open_map();
    let _p = spawner::player(&mut ecs, 10, 10);
    let m = spawner::random_monster(&mut ecs, 11, 10);
    let mut gs = State { ecs, runstate: RunState::PreRun };
    let log_len = gs.ecs.log.len();
    gs.tick(Command::Wait, ItemMenuResult::NoResponse);
    let p = gs.ecs.player_entity.unwrap();
    let mut saw_attack = false;
    for entry in gs.ecs.log.iter().skip(log_len) {
        if let roguelike::components::LogEntry::Attack { attacker, target, amount } = entry {
            assert_eq!(*attacker, m);
            assert_eq!(*target, p);
            assert_eq!(*amount, 2);
            saw_attack = true;
        }
    }
    assert!(saw_attack, "the adjacent monster's hit should be logged");
}

#[test]
fn spawned_things_stand_on_distinct_tiles_per_kind() {
    // Across several seeds, no two spawned monsters share a tile and no
    // two spawned items share a tile: tiles are drawn without
    // replacement within a room, and rooms never overlap.
    for seed in [1u64, 8, 77, 4321] {
        let gs = roguelike::state::new_game(seed);
        let p = gs.ecs.player_entity.unwrap();
        let n = gs.ecs.alive.len();
        for e1 in 0..n {
            for e2 in (e1 + 1)..n {
                if e1 == p || e2 == p {
                    continue;
                }
                let same_kind = (gs.ecs.monsters[e1] && gs.ecs.monsters[e2])
                    || (gs.ecs.items[e1] && gs.ecs.items[e2]);
                if same_kind {
                    if let (Some(a), Some(b)) = (&gs.ecs.positions[e1], &gs.ecs.positions[e2]) {
                        assert!(
                            !(a.x == b.x && a.y == b.y),
                            "entities {} and {} share a tile with seed {}",
                            e1,
                            e2,
                            seed
                        );
                    }
                }
            }
        }
    }
}

#[test]
fn monster_kind_names_match_their_glyphs() {
    let gs = roguelike::state::new_game(99);
    for e in 0..gs.ecs.alive.len() {
        if gs.ecs.monsters[e] {
            let glyph = gs.ecs.renderables[e].as_ref().unwrap().glyph;
            let name = &gs.ecs.names[e].as_ref().unwrap().name;
            match glyph {
                111 => assert_eq!(name, "Orc"),
                103 => assert_eq!(name, "Goblin"),
                g => panic!("unexpected monster glyph {}", g),
            }
        }
    }
}
