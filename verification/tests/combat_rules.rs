use guild_forge::equipment::{
    BehavioralAffix, EquipmentDatabase, GearPath, GearRarity, GearSlot, GearStats, GearTier, HeroEquipment,
};
use guild_forge::hero::data::HeroClass;
use guild_forge::mission::ai::{decide_action, AiHero, HeroAction};
use guild_forge::mission::combat::{check_mission_completion, heal_capped, take_hit};
use guild_forge::mission::dungeon::{DungeonMap, Tile};
use guild_forge::mission::entities::RoomStatus;
use rand::rngs::StdRng;
use rand::{Rng, SeedableRng};
use guild_forge::mission::MissionProgress;
use guild_forge::mission::sequential::{
    affix_for_roll, attack_hits, cleave_amount, cleave_targets, roll_turn_order, enemy_damage, enemy_heal_amount, hero_heal, lifesteal_amount,
    rarity_for_roll, roll_bonus, slot_for_roll, strike_damage, support_amount, telegraph_tick, Strike,
};

#[test]
fn attack_roll_meets_ten_plus_defense() {
    assert!(attack_hits(10, 5, 0, 5));
    assert!(!attack_hits(9, 5, 0, 5));
    assert!(attack_hits(9, 5, 1, 5));
}

#[test]
fn enemy_damage_steps() {
    assert_eq!(enemy_damage(10, 3, 1, false, 0, false), 8);
    assert_eq!(enemy_damage(10, 3, 1, true, 0, false), 16);
    assert_eq!(enemy_damage(10, 3, 1, true, 2, false), 18);
    assert_eq!(enemy_damage(10, 3, 1, true, 2, true), 36);
    // A weak enemy still deals its floor.
    assert_eq!(enemy_damage(-10, 0, 2, false, 0, false), 2);
}

#[test]
fn telegraph_lands_on_last_turn() {
    assert_eq!(telegraph_tick(2), (1, false));
    assert_eq!(telegraph_tick(1), (0, true));
}

#[test]
fn strike_damage_by_kind() {
    assert_eq!(strike_damage(Strike::Basic, 10, 4, false, false), 9);
    assert_eq!(strike_damage(Strike::Basic, 10, 4, true, false), 18);
    assert_eq!(strike_damage(Strike::Basic, 10, 4, true, true), 16);
    assert_eq!(strike_damage(Strike::Assassinate, 10, 4, false, false), 34);
    assert_eq!(strike_damage(Strike::Meteor, 10, 4, false, false), 24);
    assert_eq!(strike_damage(Strike::Volley, 10, 4, false, false), 14);
    assert_eq!(strike_damage(Strike::Basic, -10, 0, false, false), 1);
}

#[test]
fn roll_bonus_adds_luck_and_leader() {
    assert_eq!(roll_bonus(false, false), 0);
    assert_eq!(roll_bonus(true, false), 3);
    assert_eq!(roll_bonus(false, true), 2);
    assert_eq!(roll_bonus(true, true), 5);
}

#[test]
fn affix_amounts_round() {
    assert_eq!(lifesteal_amount(10), 3);
    assert_eq!(lifesteal_amount(15), 5);
    assert_eq!(cleave_amount(7), 4);
    assert_eq!(cleave_amount(8), 4);
}

#[test]
fn heals_and_support() {
    assert_eq!(hero_heal(10, 2, false, false), 12);
    assert_eq!(hero_heal(10, 2, true, false), 10);
    assert_eq!(hero_heal(10, 2, false, true), 0);
    assert_eq!(support_amount(5, 3, 2, false, false), 10);
    assert_eq!(support_amount(5, 3, 2, true, false), 9);
    assert_eq!(support_amount(-20, 3, 2, true, false), -14);
    assert_eq!(support_amount(5, 3, 2, false, true), 0);
    assert_eq!(enemy_heal_amount(4, 9), 8);
    assert_eq!(enemy_heal_amount(4, -9), 0);
}

#[test]
fn drop_tables() {
    assert_eq!(rarity_for_roll(49), GearRarity::Common);
    assert_eq!(rarity_for_roll(50), GearRarity::Uncommon);
    assert_eq!(rarity_for_roll(75), GearRarity::Rare);
    assert_eq!(rarity_for_roll(90), GearRarity::Epic);
    assert_eq!(rarity_for_roll(98), GearRarity::Legendary);
    assert_eq!(slot_for_roll(0), GearSlot::Weapon);
    assert_eq!(slot_for_roll(1), GearSlot::Armor);
    assert_eq!(slot_for_roll(2), GearSlot::Accessory);
    assert_eq!(affix_for_roll(GearRarity::Rare, 0), Some(BehavioralAffix::Lifesteal));
    assert_eq!(affix_for_roll(GearRarity::Legendary, 2), Some(BehavioralAffix::CleaveOnHit));
    assert_eq!(affix_for_roll(GearRarity::Uncommon, 0), None);
}

#[test]
fn completion_check_orders_failure_first() {
    let ip = MissionProgress::InProgress;
    assert_eq!(check_mission_completion(ip, &vec![5, 0], &vec![true, false]), MissionProgress::InProgress);
    assert_eq!(check_mission_completion(ip, &vec![5, 0], &vec![true, true]), MissionProgress::Complete);
    assert_eq!(check_mission_completion(ip, &vec![0, -3], &vec![true, true]), MissionProgress::Failed);
    assert_eq!(check_mission_completion(ip, &vec![], &vec![true]), MissionProgress::Complete);
    assert_eq!(check_mission_completion(ip, &vec![4], &vec![]), MissionProgress::InProgress);
    assert_eq!(
        check_mission_completion(MissionProgress::Complete, &vec![0], &vec![false]),
        MissionProgress::Complete
    );
}

#[test]
fn test_gear_rarity_and_affixes() {
    // 1. Rarity stat multipliers.
    let weapon_path = GearPath {
        class: HeroClass::Warrior,
        slot: GearSlot::Weapon,
        tiers: vec![GearTier {
            name: "Basic Sword".to_string(),
            tier: 1,
            stats: GearStats { attack: 10, defense: 2, hp: 5 },
            gold_cost: 10,
            material_cost: vec![],
            armory_level_required: 1,
        }],
    };
    let db = EquipmentDatabase(vec![weapon_path]);
    let mut eq = HeroEquipment::default();
    eq.weapon_tier = 1;
    eq.weapon_rarity = GearRarity::Common;
    assert_eq!(eq.total_stats(&db, HeroClass::Warrior).attack, 10);
    eq.weapon_rarity = GearRarity::Uncommon;
    assert_eq!(eq.total_stats(&db, HeroClass::Warrior).attack, 12);
    eq.weapon_rarity = GearRarity::Rare;
    assert_eq!(eq.total_stats(&db, HeroClass::Warrior).attack, 15);
    eq.weapon_rarity = GearRarity::Epic;
    assert_eq!(eq.total_stats(&db, HeroClass::Warrior).attack, 20);
    eq.weapon_rarity = GearRarity::Legendary;
    assert_eq!(eq.total_stats(&db, HeroClass::Warrior).attack, 25);

    // 2. The initiative affix: both tokens are queued.
    let init_gear = HeroEquipment {
        weapon_tier: 1,
        weapon_rarity: GearRarity::Rare,
        weapon_affix: Some(BehavioralAffix::Initiative),
        ..Default::default()
    };
    let plain_gear = HeroEquipment::default();
    let candidates = vec![
        (1, 10, init_gear.has_affix(BehavioralAffix::Initiative)),
        (2, 10, plain_gear.has_affix(BehavioralAffix::Initiative)),
    ];
    assert_eq!(roll_turn_order(5, 0, &candidates).len(), 2);

    // 3. Lifesteal: a warrior (attack 20, 10 of 100 hit points) strikes a rat
    // (defense 0) standing next to it; every roll hits, and the affix heals.
    let hero = AiHero { id: 1, class: HeroClass::Warrior, wisdom: 10, traits: vec![], room: Some(0), hp: 10, max_hp: 100 };
    let rat = (9u64, Some(0usize), 100, 100);
    assert_eq!(decide_action(&hero, &vec![rat], &vec![], &DungeonMap { width: 1, height: 1, tiles: vec![Tile::Floor], rooms: vec![] }, &RoomStatus { visited: vec![], cleared: vec![] }, &vec![]), HeroAction::Attack(9));
    let lifesteal_gear = HeroEquipment {
        weapon_tier: 1,
        weapon_rarity: GearRarity::Rare,
        weapon_affix: Some(BehavioralAffix::Lifesteal),
        ..Default::default()
    };
    assert!(lifesteal_gear.has_affix(BehavioralAffix::Lifesteal));
    let mut rng = StdRng::seed_from_u64(8);
    let d20 = rng.random_range(1..=20);
    assert!(attack_hits(d20, 20, 0, 0));
    let damage = strike_damage(Strike::Basic, 20, rng.random_range(1..=4), d20 == 20, false);
    let hp = heal_capped(10, lifesteal_amount(damage), 100);
    assert!(hp > 10, "Lifesteal should have healed the hero, HP is {}", hp);

    // 4. Cleave: the rat next to the struck one takes splash damage.
    let (x, y) = (4u32, 4u32);
    let main = (21u64, (x + 1, y));
    let cleaved = (22u64, (x + 1, y + 1));
    let splashed = cleave_targets(main.0, main.1, &vec![main, cleaved]);
    assert_eq!(splashed, vec![22]);
    let cleave = cleave_amount(damage);
    assert!(cleave > 0);
    let cleaved_hp = 100 - cleave;
    assert!(cleaved_hp < 100, "Cleaved target should have taken splash damage, HP is {}", cleaved_hp);
}

#[test]
fn cleave_splashes_only_touching_enemies() {
    let struck = (1u64, (5u32, 5u32));
    let enemies = vec![struck, (2, (5, 6)), (3, (6, 6)), (4, (4, 5)), (5, (5, 5)), (6, (7, 5))];
    assert_eq!(cleave_targets(1, (5, 5), &enemies), vec![2, 4]);
    assert_eq!(heal_capped(95, 10, 100), 100);
    assert_eq!(take_hit(3, 5), 0);
}
