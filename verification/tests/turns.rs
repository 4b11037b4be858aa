use guild_forge::mission::data::{AbilityDatabase, AbilityDef, AbilityEffect, AiPriorityRule, EnemyBehavior};
use guild_forge::mission::dungeon::{generate_dungeon, DungeonMap, Room, RoomType, Tile};
use guild_forge::mission::entities::{ActiveAbilityState, CombatStats, MissionTurnQueue};
use guild_forge::mission::pathfinding::find_path;
use guild_forge::equipment::GearRarity;
use guild_forge::mission::sequential::Strike;
use guild_forge::mission::ai::HeroAction;
use guild_forge::mission::turn::{ability_plan, next_actor, plan_for, play_enemies, resolve_turn, turn_fits, HeroPlan, TurnChest, TurnSim, TurnToken};
use rand::rngs::StdRng;
use rand::SeedableRng;

fn boss_ability(id: &str, cooldown: u32) -> AbilityDef {
    AbilityDef {
        id: id.to_string(),
        name: id.to_string(),
        description: String::new(),
        range: 1,
        cooldown,
        effect: AbilityEffect::Buff,
        ai_priority: AiPriorityRule::Always,
        is_signature: false,
    }
}

fn token(id: u64, enemy: bool, pos: (u32, u32), room: Option<usize>, stats: CombatStats) -> TurnToken {
    TurnToken {
        id,
        enemy,
        behavior: EnemyBehavior::Standard,
        attack_range: 1,
        pos,
        room,
        stats,
        telegraph: None,
        enraged: false,
    }
}

fn queue_of(ids: Vec<u64>) -> MissionTurnQueue {
    MissionTurnQueue { queue: ids, active_index: 0, round_count: 1, combat_round_count: 0 }
}

fn boss_board(map: DungeonMap) -> TurnSim {
    let c = map.rooms[0].center();
    let boss = token(1, true, c, Some(0), CombatStats { hp: 50, max_hp: 100, attack: 10, defense: 5, speed: 13 });
    let hero = token(2, false, c, Some(0), CombatStats { hp: 50, max_hp: 50, attack: 10, defense: 5, speed: 10 });
    let boss_abilities = vec![
        ActiveAbilityState { ability_id: "Boss Slam".to_string(), remaining_cooldown: 0 },
        ActiveAbilityState { ability_id: "Boss Summon".to_string(), remaining_cooldown: 0 },
        ActiveAbilityState { ability_id: "Boss Enrage".to_string(), remaining_cooldown: 0 },
    ];
    TurnSim { map, queue: queue_of(vec![1, 2]), tokens: vec![boss, hero], abilities: vec![boss_abilities, vec![]], next_id: 3, chests: vec![], gold: 0 }
}

#[test]
fn test_boss_rat_mechanics() {
    let mut rng = StdRng::seed_from_u64(7);
    let map = generate_dungeon(40, 30, 6, &mut rng);
    assert!(map.rooms.len() >= 2);
    let db = AbilityDatabase(vec![
        boss_ability("Boss Slam", 5),
        boss_ability("Boss Summon", 5),
        boss_ability("Boss Enrage", 10),
    ]);
    let mut sim = boss_board(map);

    // Step 1: the boss begins its slam on its own room.
    let (actor, _, _, _) = resolve_turn(&mut sim, HeroPlan::Hold, Some(&db), &mut rng);
    assert_eq!(actor, Some(0));
    assert_eq!(sim.tokens[0].telegraph, Some((0, 1)), "Boss Slam should set a telegraphed attack");
    assert!(sim.abilities[0][0].remaining_cooldown > 0, "Boss Slam cooldown should be set");
    assert_eq!(sim.queue.active_index, 1);

    // Step 2: the slam lands on the hero, then the hero moves away.
    sim.queue.active_index = 0;
    let hp_before = sim.tokens[1].stats.hp;
    let (actor, _, _, _) = resolve_turn(&mut sim, HeroPlan::Hold, Some(&db), &mut rng);
    assert_eq!(actor, Some(0));
    assert_eq!(hp_before - sim.tokens[1].stats.hp, 20, "Boss Slam resolution should deal 20 damage");
    assert!(sim.tokens[0].telegraph.is_none(), "TelegraphedAttack should be removed after resolution");
    let elsewhere = sim.map.rooms[1].center();
    let before = sim.tokens[1].pos;
    let (actor, _, _, _) = resolve_turn(&mut sim, HeroPlan::Advance(elsewhere), Some(&db), &mut rng);
    assert_eq!(actor, Some(1));
    assert_ne!(sim.tokens[1].pos, before, "Hero should have scattered from the unsafe room");

    // Step 3: with the hero back in the room and the boss below three fifths, it summons.
    sim.tokens[1].pos = sim.map.rooms[0].center();
    sim.tokens[1].room = Some(0);
    sim.queue.active_index = 0;
    let (actor, _, _, _) = resolve_turn(&mut sim, HeroPlan::Hold, Some(&db), &mut rng);
    assert_eq!(actor, Some(0));
    let rats: Vec<&TurnToken> = sim.tokens.iter().filter(|t| t.enemy && t.stats.max_hp == 10).collect();
    assert_eq!(rats.len(), 2, "Boss Summon should spawn 2 Giant Rats");
    for rat in rats {
        assert!(sim.queue.queue.contains(&rat.id), "Giant Rat token should be added to turn queue");
        assert_eq!(rat.room, Some(0));
        assert_eq!(rat.behavior, EnemyBehavior::Swarmer);
    }

    // Step 4: from the eighth combat round on, the boss enrages.
    sim.queue.active_index = 0;
    sim.queue.combat_round_count = 8;
    let (actor, _, _, _) = resolve_turn(&mut sim, HeroPlan::Hold, Some(&db), &mut rng);
    assert_eq!(actor, Some(0));
    assert!(sim.tokens[0].enraged, "Boss Rat should become Enraged after 8 rounds");
}

#[test]
fn enrage_waits_for_the_eighth_combat_round() {
    let mut rng = StdRng::seed_from_u64(3);
    let map = generate_dungeon(40, 30, 6, &mut rng);
    let mut sim = boss_board(map);
    // Only the enrage is ready, and no hero is in the boss's room.
    sim.abilities[0][0].remaining_cooldown = 4;
    sim.abilities[0][1].remaining_cooldown = 4;
    sim.tokens[1].room = None;
    sim.queue.combat_round_count = 7;
    let (actor, _, _, _) = resolve_turn(&mut sim, HeroPlan::Hold, None, &mut rng);
    assert_eq!(actor, Some(0));
    assert!(!sim.tokens[0].enraged);
    assert_eq!(sim.abilities[0][0].remaining_cooldown, 3);
}

#[test]
fn dead_tokens_are_skipped_and_an_empty_round_ends() {
    let mut rng = StdRng::seed_from_u64(5);
    let map = generate_dungeon(40, 30, 6, &mut rng);
    let mut sim = boss_board(map);
    sim.tokens[0].stats.hp = 0;
    assert_eq!(next_actor(&sim), Some((1, 1)));
    let (actor, _, _, _) = resolve_turn(&mut sim, HeroPlan::Hold, None, &mut rng);
    assert_eq!(actor, Some(1));
    assert_eq!(sim.queue.active_index, 2);
    sim.queue.active_index = 0;
    sim.tokens[1].stats.hp = 0;
    let (actor, log, _, _) = resolve_turn(&mut sim, HeroPlan::Hold, None, &mut rng);
    assert_eq!(actor, None);
    assert!(log.is_empty());
    assert_eq!(sim.queue.active_index, 2);
}

#[test]
fn a_hero_steps_one_tile_along_the_shortest_path() {
    let mut rng = StdRng::seed_from_u64(42);
    let map = generate_dungeon(40, 30, 4, &mut rng);
    let entrance = map.rooms.iter().position(|r| r.room_type == RoomType::Entrance).unwrap();
    let other = (0..map.rooms.len()).find(|&i| i != entrance).unwrap();
    let start = map.rooms[entrance].center();
    let goal = map.rooms[other].center();
    let path = find_path(&map, start, goal).unwrap();
    assert!(path.len() > 2);
    let hero = token(9, false, start, Some(entrance), CombatStats { hp: 100, max_hp: 100, attack: 10, defense: 5, speed: 10 });
    let mut sim = TurnSim { map, queue: queue_of(vec![9]), tokens: vec![hero], abilities: vec![vec![]], next_id: 10, chests: vec![], gold: 0 };
    let (actor, _, _, _) = resolve_turn(&mut sim, HeroPlan::Advance(goal), None, &mut rng);
    assert_eq!(actor, Some(0));
    assert_eq!(sim.tokens[0].pos, path[1]);
}

#[test]
fn an_enemy_out_of_reach_steps_toward_its_target() {
    let mut rng = StdRng::seed_from_u64(42);
    let map = DungeonMap {
        width: 10,
        height: 3,
        tiles: vec![Tile::Floor; 30],
        rooms: vec![Room { x: 0, y: 0, w: 10, h: 3, room_type: RoomType::Normal }],
    };
    let enemy = token(1, true, (1, 1), Some(0), CombatStats { hp: 10, max_hp: 10, attack: 2, defense: 1, speed: 12 });
    let hero = token(2, false, (6, 1), Some(0), CombatStats { hp: 30, max_hp: 30, attack: 5, defense: 3, speed: 10 });
    let path = find_path(&map, (1, 1), (6, 1)).unwrap();
    assert_eq!(path[1], (2, 1));
    let mut sim = TurnSim { map, queue: queue_of(vec![1, 2]), tokens: vec![enemy, hero], abilities: vec![vec![], vec![]], next_id: 3, chests: vec![], gold: 0 };
    let (actor, _, _, _) = resolve_turn(&mut sim, HeroPlan::Hold, None, &mut rng);
    assert_eq!(actor, Some(0));
    assert_eq!(sim.tokens[0].pos, (2, 1));
    assert_eq!(sim.tokens[1].stats.hp, 30);
    assert_eq!(sim.queue.active_index, 1);
}

#[test]
fn a_skirmisher_steps_back_from_a_close_hero() {
    let mut rng = StdRng::seed_from_u64(1);
    let map = DungeonMap {
        width: 10,
        height: 3,
        tiles: vec![Tile::Floor; 30],
        rooms: vec![Room { x: 0, y: 0, w: 10, h: 3, room_type: RoomType::Normal }],
    };
    let mut enemy = token(1, true, (5, 1), Some(0), CombatStats { hp: 10, max_hp: 10, attack: 2, defense: 1, speed: 12 });
    enemy.behavior = EnemyBehavior::Skirmisher;
    let hero = token(2, false, (4, 1), Some(0), CombatStats { hp: 30, max_hp: 30, attack: 5, defense: 3, speed: 10 });
    let mut sim = TurnSim { map, queue: queue_of(vec![1, 2]), tokens: vec![enemy, hero], abilities: vec![vec![], vec![]], next_id: 3, chests: vec![], gold: 0 };
    let (actor, _, _, _) = resolve_turn(&mut sim, HeroPlan::Hold, None, &mut rng);
    assert_eq!(actor, Some(0));
    assert_eq!(sim.tokens[0].pos, (6, 1));
    assert_eq!(sim.tokens[1].stats.hp, 30);
}

#[test]
fn a_hero_heals_a_hurt_hero_unless_the_ground_is_cursed() {
    let mut rng = StdRng::seed_from_u64(11);
    let map = DungeonMap {
        width: 10,
        height: 3,
        tiles: vec![Tile::Floor; 30],
        rooms: vec![Room { x: 0, y: 0, w: 10, h: 3, room_type: RoomType::Normal }],
    };
    let healer = token(2, false, (1, 1), Some(0), CombatStats { hp: 30, max_hp: 30, attack: 5, defense: 3, speed: 10 });
    let hurt = token(3, false, (2, 1), Some(0), CombatStats { hp: 10, max_hp: 30, attack: 5, defense: 3, speed: 9 });
    let mut sim = TurnSim { map, queue: queue_of(vec![2, 3]), tokens: vec![healer, hurt], abilities: vec![vec![], vec![]], next_id: 4, chests: vec![], gold: 0 };
    let plan = HeroPlan::Heal { target: 3, bonus: 0, loner_near_ally: false, cursed: false };
    let (actor, _, _, _) = resolve_turn(&mut sim, plan, None, &mut rng);
    assert_eq!(actor, Some(0));
    let hp = sim.tokens[1].stats.hp;
    assert!((11..=18).contains(&hp));

    sim.queue.active_index = 0;
    let cursed = HeroPlan::Heal { target: 3, bonus: 0, loner_near_ally: false, cursed: true };
    let _ = resolve_turn(&mut sim, cursed, None, &mut rng);
    assert_eq!(sim.tokens[1].stats.hp, hp);
}

#[test]
fn a_hero_strike_only_lowers_the_enemy() {
    let mut rng = StdRng::seed_from_u64(2);
    let map = DungeonMap {
        width: 10,
        height: 3,
        tiles: vec![Tile::Floor; 30],
        rooms: vec![Room { x: 0, y: 0, w: 10, h: 3, room_type: RoomType::Normal }],
    };
    let hero = token(2, false, (1, 1), Some(0), CombatStats { hp: 30, max_hp: 30, attack: 40, defense: 3, speed: 10 });
    let enemy = token(1, true, (2, 1), Some(0), CombatStats { hp: 50, max_hp: 50, attack: 2, defense: 0, speed: 5 });
    let mut sim = TurnSim { map, queue: queue_of(vec![2, 1]), tokens: vec![hero, enemy], abilities: vec![vec![], vec![]], next_id: 3, chests: vec![], gold: 0 };
    let plan = HeroPlan::Strike { target: 1, bonus: 0, loner_near_ally: false, lifesteal: false, cleave: false };
    let (actor, _, _, _) = resolve_turn(&mut sim, plan, None, &mut rng);
    assert_eq!(actor, Some(0));
    // Attack 40 against defense 0 always hits: half the attack plus 1..=4, doubled on a 20.
    let lost = 50 - sim.tokens[1].stats.hp;
    assert!((21..=24).contains(&lost) || (42..=48).contains(&lost));
    assert_eq!(sim.tokens[0].stats.hp, 30);
    assert_eq!(sim.queue.active_index, 1);
}

#[test]
fn opening_a_chest_pays_its_gold_once() {
    let mut rng = StdRng::seed_from_u64(4);
    let map = DungeonMap {
        width: 10,
        height: 3,
        tiles: vec![Tile::Floor; 30],
        rooms: vec![Room { x: 0, y: 0, w: 10, h: 3, room_type: RoomType::Normal }],
    };
    let hero = token(2, false, (1, 1), Some(0), CombatStats { hp: 30, max_hp: 30, attack: 5, defense: 3, speed: 10 });
    let chests = vec![TurnChest { id: 70, gold: 25, opened: false }];
    let mut sim = TurnSim { map, queue: queue_of(vec![2]), tokens: vec![hero], abilities: vec![vec![]], next_id: 3, chests, gold: 100 };
    let (actor, _, found, _) = resolve_turn(&mut sim, HeroPlan::OpenChest { chest: 70, gear: false }, None, &mut rng);
    assert_eq!(actor, Some(0));
    assert!(sim.chests[0].opened);
    assert_eq!(sim.gold, 125);
    assert!(found.is_none());

    // An opened chest gives nothing more.
    sim.queue.active_index = 0;
    let (_, _, found, _) = resolve_turn(&mut sim, HeroPlan::OpenChest { chest: 70, gear: true }, None, &mut rng);
    assert_eq!(sim.gold, 125);
    assert!(found.is_none());
}

#[test]
fn chest_gear_has_an_affix_exactly_when_rare_or_better() {
    for seed in 0..40u64 {
        let mut rng = StdRng::seed_from_u64(seed);
        let map = DungeonMap {
            width: 4,
            height: 1,
            tiles: vec![Tile::Floor; 4],
            rooms: vec![Room { x: 0, y: 0, w: 4, h: 1, room_type: RoomType::Normal }],
        };
        let hero = token(2, false, (0, 0), Some(0), CombatStats { hp: 30, max_hp: 30, attack: 5, defense: 3, speed: 10 });
        let chests = vec![TurnChest { id: 1, gold: 5, opened: false }];
        let mut sim = TurnSim { map, queue: queue_of(vec![2]), tokens: vec![hero], abilities: vec![vec![]], next_id: 3, chests, gold: 0 };
        let (_, _, found, _) = resolve_turn(&mut sim, HeroPlan::OpenChest { chest: 1, gear: true }, None, &mut rng);
        assert_eq!(sim.gold, 5);
        if let Some(g) = found {
            let rare = !matches!(g.rarity, GearRarity::Common | GearRarity::Uncommon);
            assert_eq!(g.affix.is_some(), rare);
        }
    }
}

#[test]
fn a_meteor_hits_the_target_and_its_neighbours() {
    let mut rng = StdRng::seed_from_u64(8);
    let map = DungeonMap {
        width: 10,
        height: 3,
        tiles: vec![Tile::Floor; 30],
        rooms: vec![Room { x: 0, y: 0, w: 10, h: 3, room_type: RoomType::Normal }],
    };
    let tough = CombatStats { hp: 500, max_hp: 500, attack: 2, defense: 0, speed: 5 };
    let hero = token(1, false, (0, 1), Some(0), CombatStats { hp: 30, max_hp: 30, attack: 40, defense: 3, speed: 10 });
    let target = token(2, true, (5, 1), Some(0), tough);
    let beside = token(3, true, (6, 1), Some(0), tough);
    let far = token(4, true, (9, 1), Some(0), tough);
    let mut sim = TurnSim {
        map,
        queue: queue_of(vec![1, 2, 3, 4]),
        tokens: vec![hero, target, beside, far],
        abilities: vec![vec![], vec![], vec![], vec![]],
        next_id: 5,
        chests: vec![],
        gold: 0,
    };
    let plan = HeroPlan::Ability { strike: Strike::Meteor, target: 2, bonus: 0, loner_near_ally: false, cooldown: None };
    let (actor, _, _, _) = resolve_turn(&mut sim, plan, None, &mut rng);
    assert_eq!(actor, Some(0));
    // Twice the attack plus 5..=15, doubled on a natural 20; attack 40 against defense 0 always hits.
    for k in [1usize, 2] {
        let lost = 500 - sim.tokens[k].stats.hp;
        assert!((85..=95).contains(&lost) || (170..=190).contains(&lost), "lost {lost}");
    }
    assert_eq!(sim.tokens[3].stats.hp, 500);
    assert_eq!(sim.tokens[0].stats.hp, 30);
}

#[test]
fn an_assassination_strikes_only_its_target() {
    let mut rng = StdRng::seed_from_u64(9);
    let map = DungeonMap {
        width: 10,
        height: 3,
        tiles: vec![Tile::Floor; 30],
        rooms: vec![Room { x: 0, y: 0, w: 10, h: 3, room_type: RoomType::Normal }],
    };
    let tough = CombatStats { hp: 500, max_hp: 500, attack: 2, defense: 0, speed: 5 };
    let hero = token(1, false, (0, 1), Some(0), CombatStats { hp: 30, max_hp: 30, attack: 40, defense: 3, speed: 10 });
    let target = token(2, true, (5, 1), Some(0), tough);
    let beside = token(3, true, (6, 1), Some(0), tough);
    let mut sim = TurnSim {
        map,
        queue: queue_of(vec![1, 2, 3]),
        tokens: vec![hero, target, beside],
        abilities: vec![vec![], vec![], vec![]],
        next_id: 4,
        chests: vec![],
        gold: 0,
    };
    let plan = HeroPlan::Ability { strike: Strike::Assassinate, target: 2, bonus: 0, loner_near_ally: false, cooldown: None };
    let _ = resolve_turn(&mut sim, plan, None, &mut rng);
    // Three times the attack plus 10..=20, doubled on a natural 20.
    let lost = 500 - sim.tokens[1].stats.hp;
    assert!((130..=140).contains(&lost) || (260..=280).contains(&lost), "lost {lost}");
    assert_eq!(sim.tokens[2].stats.hp, 500);
}

fn open_floor() -> DungeonMap {
    DungeonMap {
        width: 10,
        height: 3,
        tiles: vec![Tile::Floor; 30],
        rooms: vec![Room { x: 0, y: 0, w: 10, h: 3, room_type: RoomType::Normal }],
    }
}

#[test]
fn a_rallying_cry_shields_the_heroes_within_three_tiles() {
    let mut rng = StdRng::seed_from_u64(12);
    let stats = CombatStats { hp: 20, max_hp: 30, attack: 5, defense: 5, speed: 10 };
    let caster = token(1, false, (0, 1), Some(0), stats);
    let near = token(2, false, (3, 1), Some(0), stats);
    let far = token(3, false, (5, 1), Some(0), stats);
    let enemy = token(4, true, (1, 1), Some(0), stats);
    let mut sim = TurnSim {
        map: open_floor(),
        queue: queue_of(vec![1, 2, 3, 4]),
        tokens: vec![caster, near, far, enemy],
        abilities: vec![vec![], vec![], vec![], vec![]],
        next_id: 5,
        chests: vec![],
        gold: 0,
    };
    let plan = HeroPlan::Support { mass_heal: false, bonus: 0, loner_near_ally: false, cursed: false, cooldown: None };
    let (actor, _, _, _) = resolve_turn(&mut sim, plan, None, &mut rng);
    assert_eq!(actor, Some(0));
    // Defense 5 plus 10..=20, on top of current hit points (it may pass the maximum).
    for k in [0usize, 1] {
        let gained = sim.tokens[k].stats.hp - 20;
        assert!((15..=25).contains(&gained), "gained {gained}");
    }
    assert_eq!(sim.tokens[2].stats.hp, 20);
    assert_eq!(sim.tokens[3].stats.hp, 20);
}

#[test]
fn a_mass_heal_fills_missing_hit_points() {
    let mut rng = StdRng::seed_from_u64(13);
    let hurt = CombatStats { hp: 10, max_hp: 30, attack: 5, defense: 5, speed: 10 };
    let board = |hurt: CombatStats| TurnSim {
        map: open_floor(),
        queue: queue_of(vec![1, 2]),
        tokens: vec![token(1, false, (0, 1), Some(0), hurt), token(2, false, (4, 1), Some(0), hurt)],
        abilities: vec![vec![], vec![]],
        next_id: 3,
        chests: vec![],
        gold: 0,
    };
    let mut sim = board(hurt);
    let plan = HeroPlan::Support { mass_heal: true, bonus: 0, loner_near_ally: false, cursed: false, cooldown: None };
    let _ = resolve_turn(&mut sim, plan, None, &mut rng);
    assert_eq!(sim.tokens[0].stats.hp, 30);
    assert_eq!(sim.tokens[1].stats.hp, 30);

    // A loner near an ally heals nine tenths of what is missing; cursed ground heals nothing.
    let mut sim = board(hurt);
    let loner = HeroPlan::Support { mass_heal: true, bonus: 0, loner_near_ally: true, cursed: false, cooldown: None };
    let _ = resolve_turn(&mut sim, loner, None, &mut rng);
    assert_eq!(sim.tokens[0].stats.hp, 28);
    let mut sim = board(hurt);
    let cursed = HeroPlan::Support { mass_heal: true, bonus: 0, loner_near_ally: false, cursed: true, cooldown: None };
    let _ = resolve_turn(&mut sim, cursed, None, &mut rng);
    assert_eq!(sim.tokens[0].stats.hp, 10);
}

#[test]
fn lifesteal_and_cleave_follow_the_damage_of_a_hit() {
    let mut rng = StdRng::seed_from_u64(21);
    let tough = CombatStats { hp: 500, max_hp: 500, attack: 2, defense: 0, speed: 5 };
    let hero = token(1, false, (0, 1), Some(0), CombatStats { hp: 10, max_hp: 30, attack: 40, defense: 3, speed: 10 });
    let target = token(2, true, (5, 1), Some(0), tough);
    let beside = token(3, true, (6, 1), Some(0), tough);
    let far = token(4, true, (8, 1), Some(0), tough);
    let mut sim = TurnSim {
        map: open_floor(),
        queue: queue_of(vec![1, 2, 3, 4]),
        tokens: vec![hero, target, beside, far],
        abilities: vec![vec![], vec![], vec![], vec![]],
        next_id: 5,
        chests: vec![],
        gold: 0,
    };
    let plan = HeroPlan::Strike { target: 2, bonus: 0, loner_near_ally: false, lifesteal: true, cleave: true };
    let _ = resolve_turn(&mut sim, plan, None, &mut rng);
    let dealt = 500 - sim.tokens[1].stats.hp;
    assert!((21..=24).contains(&dealt) || (42..=48).contains(&dealt));
    assert_eq!(sim.tokens[0].stats.hp, 10 + (dealt * 3 + 5) / 10);
    assert_eq!(500 - sim.tokens[2].stats.hp, (dealt + 1) / 2);
    assert_eq!(sim.tokens[3].stats.hp, 500);
}

#[test]
fn a_shield_ability_adds_defense_and_its_roll_and_waits_its_cooldown() {
    let mut rng = StdRng::seed_from_u64(31);
    let stats = CombatStats { hp: 20, max_hp: 30, attack: 6, defense: 5, speed: 10 };
    let caster = token(1, false, (0, 1), Some(0), stats);
    let friend = token(2, false, (7, 1), Some(0), stats);
    let abilities = vec![
        ActiveAbilityState { ability_id: "Shield Wall".to_string(), remaining_cooldown: 0 },
        ActiveAbilityState { ability_id: "Cleave".to_string(), remaining_cooldown: 2 },
    ];
    let mut sim = TurnSim {
        map: open_floor(),
        queue: queue_of(vec![1, 2]),
        tokens: vec![caster, friend],
        abilities: vec![abilities, vec![]],
        next_id: 3,
        chests: vec![],
        gold: 0,
    };
    let plan = HeroPlan::Aid { target: 2, shield: true, bonus: 2, loner_near_ally: false, cooldown: Some((0, 4)) };
    let (actor, _, _, _) = resolve_turn(&mut sim, plan, None, &mut rng);
    assert_eq!(actor, Some(0));
    // Defense 5, a roll of 3..=8 and the bonus 2.
    let gained = sim.tokens[1].stats.hp - 20;
    assert!((10..=15).contains(&gained), "gained {gained}");
    assert_eq!(sim.abilities[0][0].remaining_cooldown, 4);
    assert_eq!(sim.abilities[0][1].remaining_cooldown, 1);
}

#[test]
fn a_heal_ability_stops_at_the_maximum() {
    let mut rng = StdRng::seed_from_u64(32);
    let caster = token(1, false, (0, 1), Some(0), CombatStats { hp: 30, max_hp: 30, attack: 6, defense: 5, speed: 10 });
    let friend = token(2, false, (2, 1), Some(0), CombatStats { hp: 25, max_hp: 30, attack: 6, defense: 5, speed: 10 });
    let mut sim = TurnSim {
        map: open_floor(),
        queue: queue_of(vec![1, 2]),
        tokens: vec![caster, friend],
        abilities: vec![vec![], vec![]],
        next_id: 3,
        chests: vec![],
        gold: 0,
    };
    let plan = HeroPlan::Aid { target: 2, shield: false, bonus: 0, loner_near_ally: false, cooldown: None };
    let _ = resolve_turn(&mut sim, plan, None, &mut rng);
    // 5..=15 plus half the attack is at least 8: the friend is back to full.
    assert_eq!(sim.tokens[1].stats.hp, 30);
}

#[test]
fn a_decision_becomes_the_plan_of_the_turn() {
    let map = open_floor();
    let strike = plan_for(HeroAction::Attack(7), &map, 5, true, true, false, false);
    assert!(matches!(strike, HeroPlan::Strike { target: 7, bonus: 5, loner_near_ally: true, lifesteal: true, cleave: false }));
    let heal = plan_for(HeroAction::Heal(3), &map, 2, false, false, false, true);
    assert!(matches!(heal, HeroPlan::Heal { target: 3, bonus: 2, loner_near_ally: false, cursed: true }));
    let advance = plan_for(HeroAction::MoveTo(0), &map, 0, false, false, false, false);
    assert!(matches!(advance, HeroPlan::Advance((5, 1))));
    assert!(matches!(plan_for(HeroAction::Hold, &map, 0, false, false, false, false), HeroPlan::Hold));
}

fn defined(id: &str, effect: AbilityEffect, cooldown: u32) -> AbilityDef {
    AbilityDef {
        id: id.to_string(),
        name: id.to_string(),
        description: String::new(),
        range: 3,
        cooldown,
        effect,
        ai_priority: AiPriorityRule::Always,
        is_signature: false,
    }
}

#[test]
fn an_ability_becomes_its_plan_and_cooldown() {
    let db = AbilityDatabase(vec![
        defined("Meteor", AbilityEffect::Damage, 4),
        defined("Mass Heal", AbilityEffect::Heal, 6),
        defined("Mend", AbilityEffect::Heal, 2),
        defined("Guard", AbilityEffect::Shield, 3),
        defined("Jab", AbilityEffect::Damage, 1),
    ]);
    let list = vec![
        ActiveAbilityState { ability_id: "Jab".to_string(), remaining_cooldown: 0 },
        ActiveAbilityState { ability_id: "Meteor".to_string(), remaining_cooldown: 0 },
    ];
    let meteor = ability_plan(&"Meteor".to_string(), &db, &list, 9, 3, 2, false, false);
    assert!(matches!(meteor, Some(HeroPlan::Ability { strike: Strike::Meteor, target: 9, bonus: 3, cooldown: Some((1, 4)), .. })));
    let mass = ability_plan(&"Mass Heal".to_string(), &db, &list, 9, 3, 2, false, true);
    assert!(matches!(mass, Some(HeroPlan::Support { mass_heal: true, cursed: true, cooldown: None, .. })));
    let mend = ability_plan(&"Mend".to_string(), &db, &list, 4, 3, 2, false, false);
    assert!(matches!(mend, Some(HeroPlan::Aid { target: 4, shield: false, bonus: 2, .. })));
    let guard = ability_plan(&"Guard".to_string(), &db, &list, 4, 3, 2, false, false);
    assert!(matches!(guard, Some(HeroPlan::Aid { shield: true, .. })));
    let jab = ability_plan(&"Jab".to_string(), &db, &list, 5, 3, 2, true, false);
    assert!(matches!(jab, Some(HeroPlan::Ability { strike: Strike::Ability, loner_near_ally: true, cooldown: Some((0, 1)), .. })));
    assert!(ability_plan(&"Unknown".to_string(), &db, &list, 5, 3, 2, false, false).is_none());
}

#[test]
fn an_enemy_in_reach_strikes_its_weakest_hero() {
    let mut rng = StdRng::seed_from_u64(17);
    let enemy = token(1, true, (5, 1), Some(0), CombatStats { hp: 10, max_hp: 10, attack: 30, defense: 1, speed: 12 });
    let strong = token(2, false, (4, 1), Some(0), CombatStats { hp: 40, max_hp: 40, attack: 5, defense: 0, speed: 10 });
    let weak = token(3, false, (6, 1), Some(0), CombatStats { hp: 20, max_hp: 40, attack: 5, defense: 0, speed: 10 });
    let mut sim = TurnSim {
        map: open_floor(),
        queue: queue_of(vec![1, 2, 3]),
        tokens: vec![enemy, strong, weak],
        abilities: vec![vec![], vec![], vec![]],
        next_id: 4,
        chests: vec![],
        gold: 0,
    };
    let _ = resolve_turn(&mut sim, HeroPlan::Hold, None, &mut rng);
    // Attack 30 always hits defense 0: half the attack plus 1..=3, doubled on a natural 20.
    let lost = 20 - sim.tokens[2].stats.hp;
    assert!((16..=18).contains(&lost) || (32..=36).contains(&lost), "lost {lost}");
    assert_eq!(sim.tokens[1].stats.hp, 40);
}

#[test]
fn a_telegraphing_boss_does_not_end_the_tick() {
    let mut rng = StdRng::seed_from_u64(11);
    let map = generate_dungeon(40, 30, 6, &mut rng);
    let db = AbilityDatabase(vec![
        boss_ability("Boss Slam", 5),
        boss_ability("Boss Summon", 5),
        boss_ability("Boss Enrage", 10),
    ]);
    let mut sim = boss_board(map);
    assert!(turn_fits(&sim));
    let (_, _, _, goes_on) = resolve_turn(&mut sim, HeroPlan::Hold, Some(&db), &mut rng);
    assert!(goes_on, "winding up a slam lets the next token act in the same tick");

    // Played as a tick: the boss telegraphs, then the hero's turn is next.
    let map = generate_dungeon(40, 30, 6, &mut StdRng::seed_from_u64(11));
    let mut sim = boss_board(map);
    let (_, over) = play_enemies(&mut sim, Some(&db), &mut rng);
    assert!(!over);
    assert_eq!(sim.tokens[0].telegraph, Some((0, 1)));
    assert_eq!(sim.queue.active_index, 1);
    assert_eq!(next_actor(&sim), Some((1, 1)));
}

#[test]
fn an_enemy_strike_ends_the_tick() {
    let mut rng = StdRng::seed_from_u64(4);
    let map = open_floor();
    let enemy = token(1, true, (3, 1), Some(0), CombatStats { hp: 10, max_hp: 10, attack: 4, defense: 1, speed: 12 });
    let hero = token(2, false, (4, 1), Some(0), CombatStats { hp: 30, max_hp: 30, attack: 5, defense: 3, speed: 10 });
    let mut sim = TurnSim { map, queue: queue_of(vec![1, 2]), tokens: vec![enemy, hero], abilities: vec![vec![], vec![]], next_id: 3, chests: vec![], gold: 0 };
    let (log, over) = play_enemies(&mut sim, None, &mut rng);
    assert!(over);
    assert_eq!(sim.queue.active_index, 1);
    assert!(!log.is_empty());
    assert_eq!(sim.tokens[0].pos, (3, 1));
}

#[test]
fn a_board_with_shared_ids_cannot_be_played() {
    let map = open_floor();
    let a = token(1, true, (3, 1), Some(0), CombatStats { hp: 10, max_hp: 10, attack: 4, defense: 1, speed: 12 });
    let b = token(1, false, (4, 1), Some(0), CombatStats { hp: 30, max_hp: 30, attack: 5, defense: 3, speed: 10 });
    let sim = TurnSim { map, queue: queue_of(vec![1]), tokens: vec![a, b], abilities: vec![vec![], vec![]], next_id: 3, chests: vec![], gold: 0 };
    assert!(!turn_fits(&sim));
}
