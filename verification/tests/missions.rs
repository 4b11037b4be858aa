use guild_forge::hero::data::HeroClass;
use guild_forge::mission::data::{EnemyBehavior, EnemyType, MissionModifier};
use guild_forge::mission::dungeon::{
    add_loop_corridors, assign_room_types, carve_chosen_corners, generate_dungeon, nearest_room_pair, DungeonMap, Room, RoomType, Tile,
};
use guild_forge::mission::ai::{decide_action, AiHero, HeroAction};
use guild_forge::mission::entities::{clean_name, CombatStats, GridPosition, MissionTurnQueue, RoomStatus};
use guild_forge::mission::turn::{plan_for, resolve_turn, HeroPlan, TurnSim, TurnToken};
use guild_forge::mission::pathfinding::{find_path, heuristic};
use guild_forge::mission::sequential::{hero_step, needs_rebuild, roll_turn_order, sort_by_initiative, start_round};
use guild_forge::mission::tempo::{combat_overlap, simulation_step_us, COMBAT_STEP_US, EXPLORE_STEP_US};
use guild_forge::mission::tileset::{autotile_index, INNER_CORNER_SE, VOID_TILE};
use guild_forge::music::{music_state_for, MusicState};
use rand::rngs::StdRng;
use rand::SeedableRng;

fn reachable_from(map: &DungeonMap, start: (u32, u32)) -> Vec<bool> {
    let mut seen = vec![false; (map.width * map.height) as usize];
    let mut queue = vec![start];
    seen[(start.1 * map.width + start.0) as usize] = true;
    while let Some((x, y)) = queue.pop() {
        let neighbors = [(x.wrapping_sub(1), y), (x + 1, y), (x, y.wrapping_sub(1)), (x, y + 1)];
        for (nx, ny) in neighbors {
            if nx < map.width && ny < map.height && map.is_walkable(nx, ny) {
                let idx = (ny * map.width + nx) as usize;
                if !seen[idx] {
                    seen[idx] = true;
                    queue.push((nx, ny));
                }
            }
        }
    }
    seen
}

fn row_of_rooms(n: u32) -> DungeonMap {
    let width = n * 10;
    let mut map = DungeonMap { width, height: 10, tiles: vec![Tile::Wall; (width * 10) as usize], rooms: Vec::new() };
    for i in 0..n {
        let room = Room { x: i * 10 + 1, y: 2, w: 5, h: 5, room_type: RoomType::Normal };
        for ry in room.y..room.y + room.h {
            for rx in room.x..room.x + room.w {
                map.set(rx, ry, Tile::Floor);
            }
        }
        map.rooms.push(room);
    }
    map
}

fn seeded(seed: u64) -> StdRng {
    StdRng::seed_from_u64(seed)
}

#[test]
fn generates_valid_dungeon() {
    let map = generate_dungeon(40, 30, 6, &mut seeded(1));
    assert!(map.rooms.len() >= 2);
    assert!(map.rooms.iter().any(|r| r.room_type == RoomType::Entrance));
    assert!(map.rooms.iter().any(|r| r.room_type == RoomType::Boss));
    for room in &map.rooms {
        let cx = room.x + room.w / 2;
        let cy = room.y + room.h / 2;
        assert_eq!(map.get(cx, cy), Tile::Floor);
    }
}

#[test]
fn entrance_is_walkable() {
    let map = generate_dungeon(40, 30, 5, &mut seeded(2));
    let entrance = map.entrance_room().unwrap();
    let (cx, cy) = entrance.center();
    assert!(map.is_walkable(cx, cy));
}

#[test]
fn dungeon_fully_connected_from_entrance() {
    for seed in 0..20 {
        let map = generate_dungeon(40, 30, 6, &mut seeded(seed));
        let entrance = map.entrance_room().unwrap();
        let reached = reachable_from(&map, entrance.center());
        for room in map.rooms.iter() {
            let (cx, cy) = room.center();
            assert!(reached[(cy * map.width + cx) as usize]);
        }
    }
}

#[test]
fn nearest_pair_picks_closest_rooms() {
    let rooms = vec![
        Room { x: 1, y: 1, w: 3, h: 3, room_type: RoomType::Normal },
        Room { x: 1, y: 9, w: 3, h: 3, room_type: RoomType::Normal },
        Room { x: 11, y: 9, w: 3, h: 3, room_type: RoomType::Normal },
        Room { x: 19, y: 1, w: 3, h: 3, room_type: RoomType::Normal },
    ];
    let pair = nearest_room_pair(&rooms, &vec![0, 1], &vec![2, 3]);
    assert_eq!(pair, (1, 2));
}

#[test]
fn loop_corridors_connect_nonadjacent_rooms() {
    let mut map = row_of_rooms(3);
    let mut edges = vec![(0, 1), (1, 2)];
    add_loop_corridors(&mut map, &mut edges, &mut seeded(7));
    assert_eq!(edges.len(), 3);
    assert!(edges.contains(&(0, 2)) || edges.contains(&(2, 0)));
    let (cx, cy) = map.rooms[0].center();
    assert!(map.is_walkable(cx, cy));
}

#[test]
fn boss_room_is_farthest_from_entrance_by_room_graph() {
    let mut map = row_of_rooms(4);
    let edges = vec![(0, 2), (2, 3), (3, 1)];
    assign_room_types(&mut map, &edges, &mut seeded(7));
    assert_eq!(map.rooms[0].room_type, RoomType::Entrance);
    assert_eq!(map.rooms[1].room_type, RoomType::Boss);
    let treasure_idx = map.rooms.iter().position(|r| r.room_type == RoomType::Treasure).unwrap();
    assert!(treasure_idx == 2 || treasure_idx == 3);
}

#[test]
fn doors_placed_where_corridors_meet_rooms() {
    for seed in 0..10 {
        let map = generate_dungeon(40, 30, 6, &mut seeded(seed));
        let mut door_count = 0;
        for y in 0..map.height {
            for x in 0..map.width {
                if map.get(x, y) != Tile::Door {
                    continue;
                }
                door_count += 1;
                let around = [map.get(x.wrapping_sub(1), y), map.get(x + 1, y), map.get(x, y.wrapping_sub(1)), map.get(x, y + 1)];
                assert!(around.contains(&Tile::Floor));
            }
        }
        assert!(door_count > 0);
    }
}

#[test]
fn carved_corners_appear_in_large_rooms() {
    let mut found_carved_corner = false;
    for seed in 0..20 {
        let map = generate_dungeon(40, 30, 6, &mut seeded(seed));
        for room in &map.rooms {
            if room.w.min(room.h) < 6 {
                continue;
            }
            let corners = [
                (room.x, room.y),
                (room.x + room.w - 1, room.y),
                (room.x, room.y + room.h - 1),
                (room.x + room.w - 1, room.y + room.h - 1),
            ];
            if corners.iter().any(|&(x, y)| map.get(x, y) == Tile::Wall) {
                found_carved_corner = true;
            }
        }
    }
    assert!(found_carved_corner);
}

#[test]
fn random_walkable_in_room_never_returns_wall() {
    let mut map = row_of_rooms(1);
    let room = map.rooms[0];
    map.set(room.x, room.y, Tile::Wall);
    let mut rng = seeded(7);
    for _ in 0..100 {
        let (x, y) = map.random_walkable_in_room(0, &mut rng).unwrap();
        assert!(map.is_walkable(x, y));
        assert!(x >= room.x && x < room.x + room.w && y >= room.y && y < room.y + room.h);
    }
}

#[test]
fn finds_path_between_rooms() {
    let map = generate_dungeon(40, 30, 6, &mut seeded(3));
    let start = map.entrance_room().unwrap().center();
    let goal = map.rooms.iter().find(|r| r.room_type == RoomType::Boss).unwrap().center();
    let path = find_path(&map, start, goal);
    assert!(path.is_some());
    let path = path.unwrap();
    assert_eq!(path.first(), Some(&start));
    assert_eq!(path.last(), Some(&goal));
    assert!(path.len() > 1);
    for &(x, y) in &path {
        assert!(map.is_walkable(x, y));
    }
}

#[test]
fn path_to_self_is_single_step() {
    let map = generate_dungeon(40, 30, 4, &mut seeded(4));
    let pos = map.entrance_room().unwrap().center();
    assert_eq!(find_path(&map, pos, pos), Some(vec![pos]));
}

#[test]
fn no_path_to_wall() {
    let map = generate_dungeon(40, 30, 4, &mut seeded(5));
    let start = map.entrance_room().unwrap().center();
    assert!(find_path(&map, start, (0, 0)).is_none());
}

fn ids(order: &[(u64, i32)]) -> Vec<u64> {
    order.iter().map(|p| p.0).collect()
}

#[test]
fn test_initiative_sorting() {
    let candidates = vec![(1, 10, false), (2, 100, false), (3, 50, false)];
    let order = roll_turn_order(42, 0, &candidates);
    assert_eq!(order.len(), 3);
    assert_eq!(order[0].0, 2);
    assert_eq!(order[1].0, 3);
    assert_eq!(order[2].0, 1);
}

#[test]
fn test_deterministic_tie_breaking() {
    let candidates: Vec<(u64, i32, bool)> = (0..10).map(|i| (i, 10, false)).collect();
    let q1 = ids(&roll_turn_order(42, 0, &candidates));
    let q2 = ids(&roll_turn_order(42, 0, &candidates));
    assert_eq!(q1, q2);
    let q3 = ids(&roll_turn_order(42, 1, &candidates));
    assert_ne!(q1, q3);
}

#[test]
fn test_per_round_reroll() {
    let candidates = vec![(1, 10, false), (2, 11, false)];
    let orders: Vec<Vec<u64>> = (0..10).map(|round| ids(&roll_turn_order(42, round, &candidates))).collect();
    assert!(orders.iter().any(|q| q[0] == 1));
    assert!(orders.iter().any(|q| q[0] == 2));
}

#[test]
fn initiative_affix_adds_ten() {
    let order = roll_turn_order(9, 3, &vec![(5, 0, true)]);
    assert!(order[0].1 >= 11 && order[0].1 <= 30);
}

#[test]
fn autotile_floor_wall_corner_and_void() {
    let map = row_of_rooms(1);
    let floor = autotile_index(&map, 2, 3);
    assert!([13, 14, 15, 16, 25, 26, 27, 28, 37, 38, 39, 40].contains(&floor));
    assert_eq!(autotile_index(&map, 0, 3), 12);
    assert_eq!(autotile_index(&map, 3, 1), 1);
    assert_eq!(autotile_index(&map, 0, 1), INNER_CORNER_SE);
    assert_eq!(autotile_index(&map, 9, 9), VOID_TILE);
}

#[test]
fn tempo_slows_when_a_hero_reaches_an_enemy() {
    let ranger = vec![(GridPosition { x: 0, y: 0 }, HeroClass::Ranger)];
    let warrior = vec![(GridPosition { x: 0, y: 0 }, HeroClass::Warrior)];
    let enemy = vec![GridPosition { x: 3, y: 3 }];
    assert_eq!(simulation_step_us(&ranger, &enemy), COMBAT_STEP_US);
    assert_eq!(simulation_step_us(&warrior, &enemy), EXPLORE_STEP_US);
    assert!(combat_overlap(&vec![(GridPosition { x: 1, y: 1 }, 1)], &vec![GridPosition { x: 1, y: 2 }]));
    assert!(!combat_overlap(&vec![], &enemy));
}

#[test]
fn music_follows_the_watched_mission() {
    let mage = vec![(GridPosition { x: 0, y: 0 }, HeroClass::Mage)];
    let rat = vec![(GridPosition { x: 2, y: 2 }, EnemyType::BossRat)];
    let slime = vec![(GridPosition { x: 2, y: 2 }, EnemyType::Slime)];
    let far = vec![(GridPosition { x: 20, y: 20 }, EnemyType::BossRat)];
    assert_eq!(music_state_for(false, &mage, &rat), MusicState::Guild);
    assert_eq!(music_state_for(true, &mage, &rat), MusicState::Boss);
    assert_eq!(music_state_for(true, &mage, &slime), MusicState::Combat);
    assert_eq!(music_state_for(true, &mage, &far), MusicState::Exploration);
}

#[test]
fn clean_name_strips_map_prefixes() {
    assert_eq!(clean_name(Some("Hero Token: Sera"), "?"), "Sera");
    assert_eq!(clean_name(Some("Enemy: Orc"), "?"), "Orc");
    assert_eq!(clean_name(Some("Orc"), "?"), "Orc");
    assert_eq!(clean_name(None, "Unknown"), "Unknown");
}

#[test]
fn every_door_touches_room_floor() {
    for seed in 0..5 {
        let map = generate_dungeon(40, 30, 6, &mut seeded(seed));
        for y in 0..map.height {
            for x in 0..map.width {
                if map.get(x, y) == Tile::Door {
                    let around = [map.get(x.wrapping_sub(1), y), map.get(x + 1, y), map.get(x, y.wrapping_sub(1)), map.get(x, y + 1)];
                    assert!(around.contains(&Tile::Floor));
                }
            }
        }
    }
}

#[test]
fn every_room_center_is_reachable_from_the_entrance() {
    for seed in 20..30 {
        let map = generate_dungeon(40, 30, 6, &mut seeded(seed));
        let start = map.rooms[0].center();
        for room in &map.rooms {
            assert!(find_path(&map, start, room.center()).is_some());
        }
    }
}

#[test]
fn freshly_dispatched_mission_gets_a_turn_queue() {
    // A mission dispatched with an empty queue is ordered on its first tick.
    let mut queue = MissionTurnQueue::new();
    assert!(needs_rebuild(&queue));
    let order = roll_turn_order(1, queue.round_count, &vec![(7, 10, false)]);
    start_round(&mut queue, order, false);
    assert_eq!(queue.queue.len(), 1);
    assert!(!needs_rebuild(&queue));
}

#[test]
fn test_one_tile_movement() {
    let mut rng = StdRng::seed_from_u64(42);
    let mut map = generate_dungeon(40, 30, 4, &mut rng);

    let entrance_idx = map.rooms.iter().position(|r| r.room_type == RoomType::Entrance).unwrap();
    for (idx, room) in map.rooms.iter_mut().enumerate() {
        if idx != entrance_idx {
            room.room_type = RoomType::Normal;
        }
    }
    let target_idx = (0..map.rooms.len()).find(|&i| i != entrance_idx).unwrap();
    let start_pos = map.rooms[entrance_idx].center();
    let target_pos = map.rooms[target_idx].center();

    let path = find_path(&map, start_pos, target_pos).expect("Should find path between rooms");
    assert!(path.len() > 2, "Path should be long enough for testing movement");

    let mut status = RoomStatus { visited: vec![false; map.rooms.len()], cleared: vec![false; map.rooms.len()] };
    status.visited[entrance_idx] = true;

    let hero = AiHero {
        id: 1,
        class: HeroClass::Warrior,
        wisdom: 10,
        traits: vec![],
        room: Some(entrance_idx),
        hp: 100,
        max_hp: 100,
    };
    let action = decide_action(&hero, &vec![], &vec![], &map, &status, &vec![]);
    assert_eq!(action, HeroAction::MoveTo(target_idx));

    // The hero moves exactly one tile: the path's second.
    let step = hero_step(&map, start_pos, target_pos, false, &vec![]);
    assert_eq!(step, Some(path[1]));

    // Played as a turn from its decision, the hero's token ends on that tile.
    let plan = plan_for(action, &map, 0, false, false, false, false);
    assert!(matches!(plan, HeroPlan::Advance(goal) if goal == target_pos));
    let token = TurnToken {
        id: 1,
        enemy: false,
        behavior: EnemyBehavior::Standard,
        attack_range: 1,
        pos: start_pos,
        room: Some(entrance_idx),
        stats: CombatStats { hp: 100, max_hp: 100, attack: 10, defense: 5, speed: 10 },
        telegraph: None,
        enraged: false,
    };
    let queue = MissionTurnQueue { queue: vec![1], active_index: 0, round_count: 1, combat_round_count: 0 };
    let mut sim = TurnSim { map, queue, tokens: vec![token], abilities: vec![vec![]], next_id: 2, chests: vec![], gold: 0 };
    let (actor, _, _, _) = resolve_turn(&mut sim, plan, None, &mut rng);
    assert_eq!(actor, Some(0));
    assert_eq!(sim.tokens[0].pos, path[1]);
}

#[test]
fn test_tempo_split() {
    let mage = vec![(GridPosition { x: 0, y: 0 }, HeroClass::Mage)];
    // Out of range (distance 6 > Mage range 5): exploration speed.
    let far = vec![GridPosition { x: 0, y: 6 }];
    let explore = simulation_step_us(&mage, &far);
    assert_eq!(explore, EXPLORE_STEP_US);
    let expected = std::time::Duration::from_secs_f32(1.0 / 6.0).as_micros() as i64;
    assert!((explore as i64 - expected).abs() <= 1);
    // In range (distance 5 <= Mage range 5): combat speed.
    let near = vec![GridPosition { x: 0, y: 5 }];
    let combat = simulation_step_us(&mage, &near);
    assert_eq!(combat, COMBAT_STEP_US);
    let expected = std::time::Duration::from_secs_f32(1.0 / 1.5).as_micros() as i64;
    assert!((combat as i64 - expected).abs() <= 1);
}

#[test]
fn loner_steps_away_from_allies() {
    // An open floor; the goal lies south-east, so stepping east or south
    // both bring the hero closer, and an ally stands two tiles east.
    let mut map = DungeonMap { width: 10, height: 10, tiles: vec![Tile::Wall; 100], rooms: Vec::new() };
    for y in 1..9 {
        for x in 1..9 {
            map.set(x, y, Tile::Floor);
        }
    }
    let from = (3, 3);
    let goal = (7, 7);
    let allies = vec![(5, 3)];
    assert_eq!(hero_step(&map, from, goal, true, &allies), Some((3, 4)));
    let plain = hero_step(&map, from, goal, false, &allies).unwrap();
    assert!(plain == (4, 3) || plain == (3, 4));
    assert_eq!(hero_step(&map, from, from, true, &allies), None);
    assert_eq!(hero_step(&map, from, (0, 0), false, &allies), None);
}

#[test]
fn chosen_rooms_lose_their_corners() {
    let mut map = DungeonMap { width: 30, height: 12, tiles: vec![Tile::Wall; 360], rooms: Vec::new() };
    let rooms = [
        Room { x: 1, y: 1, w: 8, h: 8, room_type: RoomType::Normal },
        Room { x: 11, y: 1, w: 6, h: 7, room_type: RoomType::Normal },
        Room { x: 20, y: 1, w: 8, h: 8, room_type: RoomType::Normal },
    ];
    for room in rooms {
        for y in room.y..room.y + room.h {
            for x in room.x..room.x + room.w {
                map.set(x, y, Tile::Floor);
            }
        }
        map.rooms.push(room);
    }
    let before = map.clone();
    carve_chosen_corners(&mut map, &vec![true, true, false]);
    // The 8-wide room loses a two-deep notch at each corner.
    for (x, y) in [(1, 1), (2, 2), (8, 1), (7, 2), (1, 8), (8, 8), (2, 7)] {
        assert_eq!(map.get(x, y), Tile::Wall);
    }
    assert_eq!(map.get(3, 1), Tile::Floor);
    assert_eq!(map.get(5, 5), Tile::Floor);
    // The 6-wide room loses one tile at each corner.
    for (x, y) in [(11, 1), (16, 1), (11, 7), (16, 7)] {
        assert_eq!(map.get(x, y), Tile::Wall);
    }
    assert_eq!(map.get(12, 2), Tile::Floor);
    // The room not chosen keeps its corners.
    assert_eq!(map.get(20, 1), Tile::Floor);
    let changed = (0..30).flat_map(|x| (0..12).map(move |y| (x, y))).filter(|&(x, y)| map.get(x, y) != before.get(x, y)).count();
    assert_eq!(changed, 16 + 4);
}

#[test]
fn find_path_takes_the_shortest_route() {
    let map = DungeonMap {
        width: 3,
        height: 2,
        tiles: vec![Tile::Floor, Tile::Floor, Tile::Wall, Tile::Wall, Tile::Floor, Tile::Floor],
        rooms: vec![],
    };
    assert_eq!(find_path(&map, (0, 0), (2, 1)), Some(vec![(0, 0), (1, 0), (1, 1), (2, 1)]));
    assert_eq!(hero_step(&map, (0, 0), (2, 1), false, &vec![]), Some((1, 0)));
}

#[test]
fn test_cursed_ground_healing_negation() {
    let map = generate_dungeon(10, 10, 2, &mut seeded(9));
    let cleric = AiHero {
        id: 1,
        class: HeroClass::Cleric,
        wisdom: 15,
        traits: vec![],
        room: Some(0),
        hp: 10,
        max_hp: 10,
    };
    let status = RoomStatus { visited: vec![true, true], cleared: vec![false, false] };
    // A wounded ally two tiles away in the same room.
    let allies = vec![(2u64, Some(0usize), 2, 10)];
    let action_normal = decide_action(&cleric, &vec![], &allies, &map, &status, &vec![]);
    assert!(matches!(action_normal, HeroAction::Heal(_)));
    let action_cursed = decide_action(&cleric, &vec![], &allies, &map, &status, &vec![MissionModifier::CursedGround]);
    assert!(!matches!(action_cursed, HeroAction::Heal(_)));
}

#[test]
fn the_path_estimate_is_the_manhattan_distance() {
    assert_eq!(heuristic((1, 2), (4, 6)), 7);
    assert_eq!(heuristic((4, 6), (1, 2)), 7);
    assert_eq!(heuristic((3, 3), (3, 3)), 0);
    assert!(heuristic((0, 0), (5, 5)) <= heuristic((0, 0), (2, 4)) + heuristic((2, 4), (5, 5)));
}

#[test]
fn equal_initiatives_keep_their_order() {
    let sorted = sort_by_initiative(vec![(1, 5), (2, 7), (3, 5), (4, 7), (5, 9)]);
    assert_eq!(sorted, vec![(5, 9), (2, 7), (4, 7), (1, 5), (3, 5)]);
}

#[test]
fn a_round_order_is_the_same_for_the_same_mission_and_round() {
    let candidates = vec![(1u64, 3i32, false), (2, 3, false), (3, 3, true), (4, 0, false)];
    let first = roll_turn_order(77, 4, &candidates);
    let again = roll_turn_order(77, 4, &candidates);
    assert_eq!(first, again);
}
