use guild_forge::equipment::{GearRarity, HeroEquipment};
use guild_forge::hero::history::HeroHistory;
use guild_forge::materials::{MaterialType, Materials};
use guild_forge::economy::Gold;
use guild_forge::reputation::Reputation;
use guild_forge::hero::status::Missing;
use guild_forge::hero::status_tick::{hero_returned, heroes_returning};
use guild_forge::localization::StringTable;
use guild_forge::mission::combat::{
    apply_event_to_hero, apply_party_heal, available_events, check_mission_completion, checked_stat, combine_rescue_heroes, credit_rescuer,
    drop_gear, event_check_succeeds, event_outcome, event_triggers, pick_event_hero, fallen_enemies, grant_rewards, mark_visited_rooms, missing_expiry, pick_rescue_event,
    reset_signature_cooldowns, rescue_hero, roll_mission_rewards, room_entry_log, spring_trap, trap_springs,
    update_room_status, conclude_mission, MissionRewards, MissionSim, RosterHero,
};
use guild_forge::hero::data::HeroTrait;
use guild_forge::hero::progression::HeroStats;
use guild_forge::hero::tracking::LogPayload;
use guild_forge::mission::entities::clean_name;
use guild_forge::mission::dungeon::{generate_dungeon, DungeonMap, Room, RoomType, Tile};
use guild_forge::mission::data::{
    AbilityDatabase, AbilityDef, AbilityEffect, AiPriorityRule, BiomeType, EventCheckStat, EventDatabase, EventType,
    GoldReward, MissionEventDef, MissionModifier, MissionTemplate,
};
use guild_forge::mission::entities::{ActiveAbilities, ActiveAbilityState, CombatStats, MissionEventsState, RoomStatus};
use guild_forge::mission::{MissionProgress, RescueMission};
use guild_forge::mission::tileset::next_frame;
use rand::rngs::StdRng;
use rand::{Rng, SeedableRng};

fn rare_gear() -> HeroEquipment {
    HeroEquipment { weapon_tier: 3, weapon_rarity: GearRarity::Rare, ..HeroEquipment::default() }
}

#[test]
fn test_gear_loss_and_recovery_loop() {
    let mut equip = rare_gear();
    let dropped = drop_gear(&mut equip);
    assert_eq!(dropped.weapon_tier, 3);
    assert_eq!(equip.weapon_tier, 0);
    let mut hist = HeroHistory::new();
    let restored = rescue_hero(&mut hist, &mut equip, Some(dropped), true, "Test Dungeon");
    assert!(restored);
    assert_eq!(equip.weapon_tier, 3);
    assert_eq!(equip.weapon_rarity, GearRarity::Rare);
    assert!(hist.timeline.iter().any(|entry| entry.contains("gear recovered")));
    assert_eq!(hist.rescues_received, 1);
}

#[test]
fn rescue_without_recovered_gear_loses_it() {
    let mut equip = rare_gear();
    let dropped = drop_gear(&mut equip);
    let mut hist = HeroHistory::new();
    assert!(!rescue_hero(&mut hist, &mut equip, Some(dropped), false, "Test Dungeon"));
    assert_eq!(equip.weapon_tier, 0);
    assert_eq!(hist.timeline.last().unwrap(), "Rescued from Test Dungeon (gear lost)");
}

#[test]
fn test_rescue_mission_success() {
    let mut rescued = HeroHistory::new();
    let mut rescuer = HeroHistory::new();
    let mut equip = HeroEquipment::default();
    rescue_hero(&mut rescued, &mut equip, None, false, "Test Dungeon");
    credit_rescuer(&mut rescuer, "Test Dungeon");
    assert_eq!(rescued.rescues_received, 1);
    assert!(rescued.timeline.iter().any(|entry| entry.contains("Rescued from")));
    assert_eq!(rescuer.rescues_given, 1);
    assert!(rescuer.timeline.iter().any(|entry| entry.contains("Rescued colleagues in")));
}

#[test]
fn test_rescue_mission_failure_combines_heroes() {
    let rescue_heroes = combine_rescue_heroes(&vec![2], &vec![1]);
    assert!(rescue_heroes.contains(&1));
    assert!(rescue_heroes.contains(&2));
    assert_eq!(rescue_heroes.len(), 2);
    assert_eq!(combine_rescue_heroes(&vec![2, 1], &vec![1]), vec![2, 1]);
}

#[test]
fn missing_countdowns_align_to_the_latest() {
    assert_eq!(missing_expiry(1_000, &vec![]), 121_000);
    assert_eq!(missing_expiry(1_000, &vec![50_000, 400_000]), 400_000);
}

fn template(bountiful_gold_min: u32) -> MissionTemplate {
    MissionTemplate {
        id: "caves".to_string(),
        name: "Caves".to_string(),
        description: String::new(),
        difficulty: 1,
        enemy_types: vec![],
        rooms_min: 3,
        rooms_max: 5,
        gold_reward: GoldReward { min: bountiful_gold_min, max: bountiful_gold_min },
        xp_bonus: 10,
        reputation_required: 0,
        reputation_reward: 7,
        material_drops: vec![(MaterialType::IronOre, 2, 2), (MaterialType::Wood, 1, 3)],
        allowed_modifiers: vec![],
        biome: BiomeType::Dungeon,
    }
}

#[test]
fn rewards_follow_the_template() {
    let t = template(40);
    let mut rng = StdRng::seed_from_u64(11);
    let plain = roll_mission_rewards(Some(&t), false, &mut rng);
    assert_eq!(plain.gold, 40);
    assert_eq!(plain.reputation, 7);
    assert_eq!(plain.materials[0], (MaterialType::IronOre, 2));
    assert!(plain.materials[1].1 >= 1 && plain.materials[1].1 <= 3);
    let rich = roll_mission_rewards(Some(&t), true, &mut rng);
    assert_eq!(rich.gold, 60);
    assert_eq!(rich.materials[0], (MaterialType::IronOre, 3));
    let none = roll_mission_rewards(None, true, &mut rng);
    assert_eq!(none.gold, 0);
    assert!(none.materials.is_empty());
}

#[test]
fn rewards_are_paid_in() {
    let mut gold = Gold(5);
    let mut mats = Materials::new();
    let mut rep = Reputation(1);
    let r = MissionRewards { gold: 40, materials: vec![(MaterialType::Wood, 2), (MaterialType::Wood, 3)], reputation: 7 };
    grant_rewards(&mut gold, &mut mats, &mut rep, &r);
    assert_eq!(gold.0, 45);
    assert_eq!(rep.0, 8);
    assert_eq!(mats.get(MaterialType::Wood), 5);
    assert_eq!(mats.get(MaterialType::IronOre), 0);
}

fn ability(id: &str, signature: bool) -> AbilityDef {
    AbilityDef {
        id: id.to_string(),
        name: id.to_string(),
        description: String::new(),
        range: 1,
        cooldown: 3,
        effect: AbilityEffect::Damage,
        ai_priority: AiPriorityRule::Always,
        is_signature: signature,
    }
}

#[test]
fn cleared_room_readies_signature_moves() {
    let db = AbilityDatabase(vec![ability("cleave", false), ability("meteor", true)]);
    let mut abilities = ActiveAbilities {
        abilities: vec![
            ActiveAbilityState { ability_id: "cleave".to_string(), remaining_cooldown: 2 },
            ActiveAbilityState { ability_id: "meteor".to_string(), remaining_cooldown: 4 },
            ActiveAbilityState { ability_id: "unknown".to_string(), remaining_cooldown: 1 },
        ],
    };
    reset_signature_cooldowns(&mut abilities, &db);
    assert_eq!(abilities.abilities[0].remaining_cooldown, 2);
    assert_eq!(abilities.abilities[1].remaining_cooldown, 0);
    assert_eq!(abilities.abilities[2].remaining_cooldown, 1);
    assert_eq!(abilities.abilities[1].ability_id, "meteor");
}

#[test]
fn shrine_event_outcomes() {
    let win = event_outcome("mysterious_shrine", true);
    assert_eq!(win.heal, 15);
    assert_eq!(win.defense_gain, 2);
    let lose = event_outcome("mysterious_shrine", false);
    assert_eq!(lose.damage, 10);
    let camp = event_outcome("abandoned_camp", true);
    assert_eq!(camp.gold_gain, 40);
    let unknown = event_outcome("nothing_here", true);
    assert_eq!(unknown.heal, 0);
    assert_eq!(unknown.damage, 0);
}

#[test]
fn fallen_enemies_leave() {
    assert_eq!(fallen_enemies(&vec![(1, 0), (2, 5), (3, -2)]), vec![1, 3]);
}

#[test]
fn idle_frames_wrap() {
    assert_eq!(next_frame(0, 4), 1);
    assert_eq!(next_frame(3, 4), 0);
}

fn timeline_table() -> StringTable {
    StringTable::from_ron(r#"{ "timeline.went_missing_short": "Went missing in {mission}" }"#).unwrap()
}

#[test]
fn test_party_wipe_triggers_rescue_offer() {
    let hero: u64 = 7;
    // The party's only token is down, with one room still uncleared.
    let progress = check_mission_completion(MissionProgress::InProgress, &vec![0], &vec![false]);
    assert_eq!(progress, MissionProgress::Failed);
    // The rescue offer names the hero.
    assert_eq!(combine_rescue_heroes(&vec![hero], &vec![]), vec![hero]);
    // The hero goes missing: gear dropped, countdown set, timeline written.
    let mut equip = rare_gear();
    let dropped = drop_gear(&mut equip);
    assert_eq!(dropped.weapon_tier, 3);
    assert_eq!(equip.weapon_tier, 0);
    assert_eq!(missing_expiry(5_000, &vec![]), 125_000);
    let mut hist = HeroHistory::new();
    hist.add_timeline_entry(timeline_table().trf("timeline.went_missing_short", &[("mission", "Test Dungeon")]));
    assert!(hist.timeline.iter().any(|entry| entry.contains("Went missing in Test Dungeon")));
}

#[test]
fn test_missing_expiration_discards_dropped_gear() {
    let hero: u64 = 3;
    let mut equip = HeroEquipment { weapon_tier: 5, ..rare_gear() };
    let _dropped = drop_gear(&mut equip);
    let missing = vec![(hero, Missing { expires_at_ms: 10_000 })];
    // At fifteen seconds the countdown has run out and nobody is rescuing her.
    assert_eq!(heroes_returning(15_000, &missing, &vec![]), vec![hero]);
    assert_eq!(heroes_returning(15_000, &missing, &vec![hero]), Vec::<u64>::new());
    let mut hist = HeroHistory::new();
    let table = StringTable::from_ron("{}").unwrap();
    let (title, _) = hero_returned(&mut hist, "Alice", None, &table);
    assert_eq!(title, "Alice has returned");
    // The dropped gear is not given back.
    assert_eq!(equip.weapon_tier, 0);
    assert!(hist.timeline.iter().any(|entry| entry.contains("Returned after being missing (gear lost)")));
}

fn rescue_event(id: &str, name: &str, event_type: EventType, check_stat: EventCheckStat, difficulty: i32) -> MissionEventDef {
    MissionEventDef {
        id: id.to_string(),
        name: name.to_string(),
        description: String::new(),
        event_type,
        check_stat,
        check_difficulty: difficulty,
        success_text: "ok".to_string(),
        failure_text: "fail".to_string(),
        priority_trait: None,
    }
}

fn one_hero_sim(map: DungeonMap, visited: Vec<bool>, room: usize, hp: i32, modifiers: Vec<MissionModifier>, rescue: Option<bool>) -> MissionSim {
    let n = map.rooms.len();
    MissionSim {
        map,
        status: RoomStatus { visited, cleared: vec![false; n] },
        hero_rooms: vec![Some(room)],
        hero_combat: vec![CombatStats { hp, max_hp: hp, attack: 5, defense: 5, speed: 10 }],
        hero_names: vec!["Hero".to_string()],
        hero_traits: vec![vec![]],
        hero_stats: vec![HeroStats { strength: 10, dexterity: 10, constitution: 10, intelligence: 10, wisdom: 10, charisma: 10 }],
        enemies: vec![],
        abilities: vec![],
        modifiers,
        gold: 0,
        rescue_gear_recovered: rescue,
    }
}

fn event_name_of(log: &[LogPayload]) -> Option<String> {
    log.iter().find_map(|l| match l {
        LogPayload::EventTriggered { event_name, .. } => Some(event_name.clone()),
        _ => None,
    })
}

#[test]
fn test_rescue_event_sequencing() {
    let db = EventDatabase(vec![
        rescue_event("rescue_trail", "Lost Party's Trail", EventType::Ambush, EventCheckStat::Wisdom, 10),
        rescue_event("rescue_dropped_gear", "Dropped Gear Cache", EventType::HiddenChamber, EventCheckStat::Dexterity, 12),
        rescue_event("rescue_campsite", "Lost Party's Campsite", EventType::Shrine, EventCheckStat::Constitution, 11),
    ]);
    let map = DungeonMap {
        width: 12,
        height: 4,
        tiles: vec![Tile::Floor; 48],
        rooms: vec![
            Room { x: 0, y: 0, w: 4, h: 4, room_type: RoomType::Entrance },
            Room { x: 4, y: 0, w: 4, h: 4, room_type: RoomType::Normal },
            Room { x: 8, y: 0, w: 4, h: 4, room_type: RoomType::Normal },
        ],
    };
    let mut sim = one_hero_sim(map, vec![true, false, false], 1, 10, vec![], Some(false));
    let mut fired = MissionEventsState { events_fired: 0, max_events: 3 };
    let mut history: Vec<String> = vec![];
    let abilities = AbilityDatabase(vec![]);
    let mut rng = StdRng::seed_from_u64(1);

    // The token moves into room 1: the first event fires, the trail.
    let log = update_room_status(&mut sim, &db, &mut fired, &history, &abilities, &mut rng);
    let first = event_name_of(&log).expect("an event should fire");
    assert_eq!(first, "Lost Party's Trail");
    history.push(format!("Event: {first}"));
    assert!(history.iter().any(|l| l.contains("Lost Party's Trail")));
    assert_eq!(fired.events_fired, 1);

    // Into room 2: the second fires, the dropped gear, which recovers it.
    sim.hero_rooms[0] = Some(2);
    let log = update_room_status(&mut sim, &db, &mut fired, &history, &abilities, &mut rng);
    let second = event_name_of(&log).expect("an event should fire");
    assert_eq!(second, "Dropped Gear Cache");
    history.push(format!("Event: {second}"));
    assert!(history.iter().any(|l| l.contains("Dropped Gear Cache")));
    assert_eq!(sim.rescue_gear_recovered, Some(true));
}

#[test]
fn test_trapped_modifier_trap_triggers() {
    let mut rng = StdRng::seed_from_u64(11);
    let map = generate_dungeon(20, 20, 2, &mut rng);
    let n = map.rooms.len();
    let other_idx = map.rooms.iter().position(|r| r.room_type != RoomType::Entrance).unwrap();
    let mut sim = one_hero_sim(map, vec![false; n], other_idx, 20, vec![MissionModifier::Trapped], None);
    let mut fired = MissionEventsState { events_fired: 0, max_events: 3 };
    let log = update_room_status(&mut sim, &EventDatabase(vec![]), &mut fired, &vec![], &AbilityDatabase(vec![]), &mut rng);

    assert!(sim.status.visited[other_idx]);
    let lost = 20 - sim.hero_combat[0].hp;
    assert!((5..=15).contains(&lost), "Trap damage should be between 5 and 15");
    let trap = log.iter().find_map(|ev| match ev {
        LogPayload::TrapTriggered { hero_name, damage } => Some((hero_name.clone(), *damage)),
        _ => None,
    });
    assert_eq!(trap, Some(("Hero".to_string(), lost)), "Log should contain a TrapTriggered event");

    // No trap at the entrance, nor without the modifier.
    assert!(!trap_springs(RoomType::Entrance, &vec![MissionModifier::Trapped]));
    assert!(!trap_springs(RoomType::Normal, &vec![MissionModifier::Foggy]));
}

#[test]
fn trap_damage_stops_at_zero() {
    let mut rng = StdRng::seed_from_u64(3);
    let mut combat = CombatStats { hp: 4, max_hp: 20, attack: 5, defense: 5, speed: 10 };
    let (hit, _) = spring_trap(&mut combat, "Hero", &mut rng);
    assert!(hit.amount >= 5);
    assert_eq!(combat.hp, 0);
    assert_eq!(combat.max_hp, 20);
    match room_entry_log("Sera", RoomType::Treasure) {
        LogPayload::RoomEntry { hero_name, room_name } => {
            assert_eq!(hero_name, "Sera");
            assert_eq!(room_name, "Treasure Vault");
        }
        _ => panic!("expected a room entry line"),
    }
}

#[test]
fn test_mid_mission_events() {
    let db = EventDatabase(vec![MissionEventDef {
        id: "mysterious_shrine".to_string(),
        name: "Mysterious Shrine".to_string(),
        description: "a mysterious shrine".to_string(),
        event_type: EventType::Shrine,
        check_stat: EventCheckStat::Wisdom,
        check_difficulty: 10,
        success_text: "meditates and unlocks the shrine's secrets".to_string(),
        failure_text: "touches the runes and triggers a backlash".to_string(),
        priority_trait: Some(HeroTrait::Greedy),
    }]);
    let mut rng = StdRng::seed_from_u64(21);
    let map = generate_dungeon(40, 30, 2, &mut rng);
    let mut status = RoomStatus { visited: vec![true, false, false, false, false], cleared: vec![false; 5] };
    let mut events_fired: u32 = 0;
    let max_events: u32 = 5;

    // Two heroes, both in room 1: a greedy one (wisdom 18) and another (wisdom 8).
    let names = [clean_name(Some("Hero Token: Greedy Hero"), "Hero"), clean_name(Some("Hero Token: Normal Hero"), "Hero")];
    let stats = [
        HeroStats { strength: 10, dexterity: 10, constitution: 10, intelligence: 10, wisdom: 18, charisma: 10 },
        HeroStats { strength: 10, dexterity: 10, constitution: 10, intelligence: 10, wisdom: 8, charisma: 10 },
    ];
    let mut tokens = [
        CombatStats { hp: 30, max_hp: 50, attack: 10, defense: 5, speed: 10 },
        CombatStats { hp: 30, max_hp: 50, attack: 10, defense: 5, speed: 10 },
    ];
    let traits = vec![vec![HeroTrait::Greedy], vec![]];
    let mut log: Vec<LogPayload> = vec![];

    // Room 1 is visited.
    let newly = mark_visited_rooms(&mut status, &vec![Some(1), Some(1)]);
    assert!(status.visited[1]);
    for &(k, room) in &newly {
        log.push(room_entry_log(&names[k], map.rooms[room].room_type));
    }
    let (_, room) = *newly.last().unwrap();
    assert_ne!(map.rooms[room].room_type, RoomType::Entrance);

    // An event fires.
    assert!(event_triggers(max_events, events_fired, &status.visited, &mut rng));
    let available = available_events(&db, &vec![], false);
    let event = &db.0[available[rng.random_range(0..available.len())]];
    let k = pick_event_hero(&traits, event.priority_trait, &mut rng);
    let stat = checked_stat(&stats[k], event.check_stat);
    let d20 = rng.random_range(1..=20);
    let success = event_check_succeeds(stat, d20, event.check_difficulty);
    apply_event_to_hero(&mut tokens[k], &event_outcome(&event.id, success));
    let outcome_text = if success { event.success_text.clone() } else { event.failure_text.clone() };
    log.push(LogPayload::EventTriggered { event_name: event.name.clone(), hero_name: names[k].clone(), outcome_text });
    events_fired += 1;
    assert_eq!(events_fired, 1);

    assert!(log.iter().any(|e| matches!(e, LogPayload::RoomEntry { .. })));
    let event_log = log.iter().find(|e| matches!(e, LogPayload::EventTriggered { .. }));
    assert!(event_log.is_some(), "An event log should have been written");
    if let Some(LogPayload::EventTriggered { hero_name, outcome_text, .. }) = event_log {
        assert_eq!(hero_name, "Greedy Hero", "The Greedy hero should have been selected because of trait priority");
        if outcome_text.contains("meditates") {
            assert_eq!(tokens[0].defense, 7, "Defense should be increased by 2");
            assert_eq!(tokens[0].hp, 45, "HP should be healed by 15");
        } else {
            assert_eq!(tokens[0].hp, 20, "HP should be damaged by 10");
        }
    }
}

#[test]
fn campsite_heals_the_standing_party() {
    let mut party = vec![
        CombatStats { hp: 20, max_hp: 50, attack: 5, defense: 5, speed: 10 },
        CombatStats { hp: 45, max_hp: 50, attack: 5, defense: 5, speed: 10 },
        CombatStats { hp: 0, max_hp: 50, attack: 5, defense: 5, speed: 10 },
    ];
    apply_party_heal(&mut party, &event_outcome("rescue_campsite", true));
    assert_eq!(party[0].hp, 35);
    assert_eq!(party[1].hp, 50);
    assert_eq!(party[2].hp, 0);
    apply_party_heal(&mut party, &event_outcome("rescue_campsite", false));
    assert_eq!(party[0].hp, 35);
}

#[test]
fn room_update_visits_traps_and_clears() {
    let mut rng = StdRng::seed_from_u64(4);
    let map = generate_dungeon(40, 30, 4, &mut rng);
    let n = map.rooms.len();
    let other = (1..n).find(|&i| map.rooms[i].room_type != RoomType::Entrance).unwrap();
    let mut visited = vec![false; n];
    visited[0] = true;
    let mut sim = MissionSim {
        map,
        status: RoomStatus { visited, cleared: vec![false; n] },
        hero_rooms: vec![Some(other), Some(0)],
        hero_combat: vec![
            CombatStats { hp: 30, max_hp: 30, attack: 5, defense: 5, speed: 10 },
            CombatStats { hp: 30, max_hp: 30, attack: 5, defense: 5, speed: 10 },
        ],
        hero_names: vec!["Sera".to_string(), "Torgar".to_string()],
        hero_traits: vec![vec![], vec![]],
        hero_stats: vec![
            HeroStats { strength: 10, dexterity: 10, constitution: 10, intelligence: 10, wisdom: 10, charisma: 10 };
            2
        ],
        enemies: vec![],
        abilities: vec![ActiveAbilities {
            abilities: vec![
                ActiveAbilityState { ability_id: "Rallying Cry".to_string(), remaining_cooldown: 4 },
                ActiveAbilityState { ability_id: "Slash".to_string(), remaining_cooldown: 2 },
            ],
        }],
        modifiers: vec![MissionModifier::Trapped],
        gold: 50,
        rescue_gear_recovered: None,
    };
    let db = AbilityDatabase(vec![ability("Rallying Cry", true), ability("Slash", false)]);
    let mut fired = MissionEventsState { events_fired: 0, max_events: 3 };
    let log = update_room_status(&mut sim, &EventDatabase(vec![]), &mut fired, &vec![], &db, &mut rng);
    // Room `other` is now visited, and with no enemies both visited rooms clear.
    assert!(sim.status.visited[other]);
    assert!(sim.status.cleared[0] && sim.status.cleared[other]);
    assert_eq!(sim.status.visited.iter().filter(|v| **v).count(), 2);
    // Sera entered first: an entry line, then the trap.
    match &log[0] {
        LogPayload::RoomEntry { hero_name, .. } => assert_eq!(hero_name, "Sera"),
        _ => panic!("expected a room entry line"),
    }
    assert!(matches!(log[1], LogPayload::TrapTriggered { .. }));
    assert!(sim.hero_combat[0].hp >= 15 && sim.hero_combat[0].hp <= 25);
    assert_eq!(sim.hero_combat[1].hp, 30);
    // No event database: nothing fires.
    assert_eq!(fired.events_fired, 0);
    // Clearing readied the signature move only.
    assert_eq!(sim.abilities[0].abilities[0].remaining_cooldown, 0);
    assert_eq!(sim.abilities[0].abilities[1].remaining_cooldown, 2);
}

fn roster_hero(id: u64, equipment: HeroEquipment) -> RosterHero {
    RosterHero { id, equipment, history: HeroHistory::new(), missing: None, dropped: None }
}

#[test]
fn concluding_a_wiped_mission_loses_the_party() {
    let mut roster = vec![roster_hero(7, rare_gear()), roster_hero(8, rare_gear())];
    let (p, offer) = conclude_mission(
        MissionProgress::InProgress,
        &vec![0],
        &vec![false],
        &mut roster,
        &vec![7],
        &vec![],
        None,
        "Test Dungeon",
        5_000,
        &timeline_table(),
    );
    assert_eq!(p, MissionProgress::Failed);
    let offer = offer.unwrap();
    assert_eq!(offer.rescue_heroes, vec![7]);
    assert_eq!(offer.expires_at_ms, 125_000);
    // The lost hero drops their gear and goes missing.
    assert_eq!(roster[0].equipment.weapon_tier, 0);
    assert_eq!(roster[0].dropped.unwrap().weapon_tier, 3);
    assert_eq!(roster[0].missing.unwrap().expires_at_ms, 125_000);
    assert!(roster[0].history.timeline.iter().any(|e| e.contains("Went missing in Test Dungeon")));
    // Everyone else is untouched.
    assert_eq!(roster[1].equipment.weapon_tier, 3);
    assert!(roster[1].missing.is_none());
}

#[test]
fn a_failed_rescue_joins_both_parties_and_aligns_countdowns() {
    let mut waiting = roster_hero(1, HeroEquipment::default());
    waiting.missing = Some(Missing { expires_at_ms: 400_000 });
    waiting.dropped = Some(rare_gear());
    let mut roster = vec![waiting, roster_hero(2, rare_gear())];
    let rm = RescueMission { rescue_heroes: vec![1], gear_recovered: false };
    let (p, offer) = conclude_mission(
        MissionProgress::InProgress,
        &vec![0],
        &vec![true],
        &mut roster,
        &vec![2],
        &vec![],
        Some(&rm),
        "Caves",
        1_000,
        &timeline_table(),
    );
    assert_eq!(p, MissionProgress::Failed);
    let offer = offer.unwrap();
    assert_eq!(offer.rescue_heroes, vec![2, 1]);
    assert_eq!(offer.expires_at_ms, 400_000);
    assert_eq!(roster[0].missing.unwrap().expires_at_ms, 400_000);
    assert_eq!(roster[1].missing.unwrap().expires_at_ms, 400_000);
}

#[test]
fn concluding_a_rescue_brings_the_missing_back() {
    let mut alice = roster_hero(1, HeroEquipment::default());
    alice.missing = Some(Missing { expires_at_ms: 90_000 });
    alice.dropped = Some(rare_gear());
    let mut roster = vec![alice, roster_hero(2, HeroEquipment::default())];
    let rm = RescueMission { rescue_heroes: vec![1], gear_recovered: true };
    let (p, offer) = conclude_mission(
        MissionProgress::InProgress,
        &vec![12],
        &vec![true, true],
        &mut roster,
        &vec![2],
        &vec![2],
        Some(&rm),
        "Rescue Dungeon",
        1_000,
        &timeline_table(),
    );
    assert_eq!(p, MissionProgress::Complete);
    assert!(offer.is_none());
    assert!(roster[0].missing.is_none());
    assert_eq!(roster[0].history.rescues_received, 1);
    assert_eq!(roster[0].equipment.weapon_tier, 3);
    assert!(roster[0].history.timeline.iter().any(|e| e.contains("gear recovered")));
    assert_eq!(roster[1].history.rescues_given, 1);
    assert!(roster[1].history.timeline.iter().any(|e| e.contains("Rescued colleagues in")));
}
