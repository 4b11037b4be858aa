use guild_forge::equipment::{EquipmentDatabase, GearRarity, HeroEquipment};
use guild_forge::hero::data::{ClassDef, HeroClass, StatWeights};
use guild_forge::hero::epithet::{check_epithet, format_hero_name, Epithet};
use guild_forge::hero::generation::roll_growth;
use guild_forge::hero::history::HeroHistory;
use guild_forge::hero::perk::{get_earned_perks, VeteranPerk};
use guild_forge::hero::portrait::{composite_portrait, HeroPortrait, Rgb8};
use guild_forge::hero::progression::{
    apply_growth_tick, award_xp, Fatigue, HeroGrowth, HeroInfo, HeroStatProgress, HeroStats,
};
use guild_forge::hero::status::format_countdown;
use guild_forge::localization::StringTable;
use guild_forge::mission::entities::hero_token_stats;
use rand::rngs::StdRng;
use rand::SeedableRng;

fn titles() -> StringTable {
    StringTable::from_ron(
        r#"{
            "epithet.undying": "the Undying",
            "epithet.twice_lost": "the Twice-Lost",
            "epithet.hundred_mission": "Hundred-Mission",
            "epithet.slimebane": "Slimebane",
            "epithet.savior": "the Savior",
            "epithet.veteran": "the Veteran",
            "epithet.goldfinder": "Goldfinder",
        }"#,
    )
    .unwrap()
}

#[test]
fn test_format_hero_name() {
    let t = titles();
    assert_eq!(format_hero_name("Sera", None, &t), "Sera");
    assert_eq!(format_hero_name("Sera", Some(&Epithet(None)), &t), "Sera");
    assert_eq!(
        format_hero_name("Sera", Some(&Epithet(Some("the Twice-Lost".to_string()))), &t),
        "Sera the Twice-Lost"
    );
    assert_eq!(
        format_hero_name("Hera", Some(&Epithet(Some("Hundred-Mission".to_string()))), &t),
        "Hundred-Mission Hera"
    );
    assert_eq!(format_hero_name("Garr", Some(&Epithet(Some("Slimebane".to_string()))), &t), "Garr Slimebane");
}

#[test]
fn test_check_epithet() {
    let t = titles();
    let mut hist = HeroHistory::new();
    assert_eq!(check_epithet(&hist, &t), None);
    hist.kills = 10;
    assert_eq!(check_epithet(&hist, &t), Some("Slimebane".to_string()));
    hist.rescues_given = 1;
    assert_eq!(check_epithet(&hist, &t), Some("Slimebane".to_string()));
    hist.near_deaths = 2;
    assert_eq!(check_epithet(&hist, &t), Some("the Twice-Lost".to_string()));
    hist.near_deaths = 3;
    assert_eq!(check_epithet(&hist, &t), Some("the Undying".to_string()));
}

fn warrior() -> ClassDef {
    ClassDef {
        id: HeroClass::Warrior,
        name: "Test".to_string(),
        description: String::new(),
        stat_weights: StatWeights { str: 3, dex: 1, con: 3, int: 0, wis: 1, cha: 1 },
        starting_abilities: vec![],
    }
}

#[test]
fn roll_growth_at_quality_zero_equals_class_floor() {
    let mut rng = StdRng::seed_from_u64(42);
    let g = roll_growth(&warrior(), 0, &mut rng);
    assert_eq!(g.strength, 600);
    assert_eq!(g.dexterity, 200);
    assert_eq!(g.constitution, 600);
    assert_eq!(g.intelligence, 0);
    assert_eq!(g.wisdom, 200);
    assert_eq!(g.charisma, 200);
}

#[test]
fn roll_growth_at_quality_one_caps_at_floor_plus_max_random() {
    for seed in 0..200 {
        let mut rng = StdRng::seed_from_u64(seed);
        let g = roll_growth(&warrior(), 1000, &mut rng);
        assert!(g.strength >= 600 && g.strength <= 1600);
        assert!(g.intelligence <= 1000);
    }
}

#[test]
fn roll_growth_at_quality_half_caps_at_floor_plus_half_max() {
    for seed in 0..200 {
        let mut rng = StdRng::seed_from_u64(seed);
        let g = roll_growth(&warrior(), 500, &mut rng);
        assert!(g.strength <= 1100);
        assert!(g.intelligence <= 500);
    }
}

fn zero_stats() -> HeroStats {
    HeroStats { strength: 0, dexterity: 0, constitution: 0, intelligence: 0, wisdom: 0, charisma: 0 }
}

fn growth_str(s: u32) -> HeroGrowth {
    HeroGrowth { strength: s, dexterity: 0, constitution: 0, intelligence: 0, wisdom: 0, charisma: 0 }
}

fn info_at(level: u32, xp: u32, xp_to_next: u32) -> HeroInfo {
    HeroInfo { name: "T".to_string(), class: HeroClass::Warrior, level, xp, xp_to_next }
}

#[test]
fn apply_growth_tick_rate_zero_never_grows() {
    let mut stats = zero_stats();
    let mut prog = HeroStatProgress::default();
    let growth = growth_str(0);
    for _ in 0..50 {
        apply_growth_tick(&mut stats, &growth, &mut prog);
    }
    assert_eq!(stats.strength, 0);
    assert_eq!(stats.intelligence, 0);
}

#[test]
fn apply_growth_tick_rate_half_gains_one_every_two_levels() {
    let mut stats = zero_stats();
    let mut prog = HeroStatProgress::default();
    let growth = growth_str(500);
    apply_growth_tick(&mut stats, &growth, &mut prog);
    assert_eq!(stats.strength, 0);
    apply_growth_tick(&mut stats, &growth, &mut prog);
    assert_eq!(stats.strength, 1);
    apply_growth_tick(&mut stats, &growth, &mut prog);
    assert_eq!(stats.strength, 1);
    apply_growth_tick(&mut stats, &growth, &mut prog);
    assert_eq!(stats.strength, 2);
}

#[test]
fn apply_growth_tick_rate_0_3_gains_three_over_ten_levels() {
    let mut stats = zero_stats();
    let mut prog = HeroStatProgress::default();
    let growth = growth_str(300);
    for _ in 0..10 {
        apply_growth_tick(&mut stats, &growth, &mut prog);
    }
    assert_eq!(stats.strength, 3);
}

#[test]
fn award_xp_multi_level_applies_growth_per_level() {
    let mut info = info_at(1, 0, 100);
    let mut stats = zero_stats();
    let mut prog = HeroStatProgress::default();
    let mut fatigue: Option<Fatigue> = None;
    let ups = award_xp(&mut info, &mut stats, &growth_str(1000), &mut prog, &mut fatigue, 500);
    assert_eq!(ups, 3);
    assert_eq!(info.level, 4);
    assert_eq!(stats.strength, 3);
    assert_eq!(info.xp, 25);
}

#[test]
fn award_xp_partial_accumulator_carries_forward() {
    let mut info = info_at(1, 0, 100);
    let mut stats = zero_stats();
    let mut prog = HeroStatProgress::default();
    let mut fatigue: Option<Fatigue> = None;
    let growth = growth_str(600);
    award_xp(&mut info, &mut stats, &growth, &mut prog, &mut fatigue, 100);
    assert_eq!(info.level, 2);
    assert_eq!(stats.strength, 0);
    assert_eq!(prog.strength, 600);
    award_xp(&mut info, &mut stats, &growth, &mut prog, &mut fatigue, 150);
    assert_eq!(info.level, 3);
    assert_eq!(stats.strength, 1);
    assert_eq!(prog.strength, 200);
}

#[test]
fn apply_growth_tick_advances_all_six_stats() {
    let mut stats = zero_stats();
    let mut prog = HeroStatProgress::default();
    let growth = HeroGrowth {
        strength: 1000,
        dexterity: 1000,
        constitution: 1000,
        intelligence: 1000,
        wisdom: 1000,
        charisma: 1000,
    };
    apply_growth_tick(&mut stats, &growth, &mut prog);
    assert_eq!(stats.strength, 1);
    assert_eq!(stats.dexterity, 1);
    assert_eq!(stats.constitution, 1);
    assert_eq!(stats.intelligence, 1);
    assert_eq!(stats.wisdom, 1);
    assert_eq!(stats.charisma, 1);
}

#[test]
fn fatigue_max_scaling_and_levelup_proportionate() {
    let f = Fatigue { current: 50_000, max_base: 100_000 };
    assert_eq!(f.max(1, 10), 120_000);
    assert_eq!(f.max(2, 10), 125_000);
    let mut info = info_at(1, 0, 100);
    let mut stats = HeroStats { strength: 10, dexterity: 10, constitution: 10, intelligence: 10, wisdom: 10, charisma: 10 };
    let mut prog = HeroStatProgress::default();
    let mut fatigue = Some(f);
    award_xp(&mut info, &mut stats, &growth_str(0), &mut prog, &mut fatigue, 100);
    assert_eq!(info.level, 2);
    assert_eq!(fatigue.unwrap().current, 55_000);
}

#[test]
fn test_perk_thresholds() {
    let mut history = HeroHistory::new();
    assert!(get_earned_perks(&history).is_empty());
    history.rescues_given = 3;
    assert_eq!(get_earned_perks(&history), vec![VeteranPerk::RescueSpecialist]);
    history.near_deaths = 3;
    assert_eq!(get_earned_perks(&history), vec![VeteranPerk::RescueSpecialist, VeteranPerk::DeathDefier]);
    history.kills = 20;
    assert_eq!(
        get_earned_perks(&history),
        vec![VeteranPerk::RescueSpecialist, VeteranPerk::DeathDefier, VeteranPerk::Slayer]
    );
}

#[test]
fn test_perk_cap() {
    let mut history = HeroHistory::new();
    history.rescues_given = 3;
    history.near_deaths = 3;
    history.kills = 20;
    history.missions_run = 10;
    history.lifetime_gold = 1000;
    let earned = get_earned_perks(&history);
    assert_eq!(earned.len(), 3);
    assert_eq!(earned, vec![VeteranPerk::RescueSpecialist, VeteranPerk::DeathDefier, VeteranPerk::Slayer]);
}

#[test]
fn test_perk_apply_bonuses() {
    let (mut hp, mut attack, mut defense, mut speed) = (100, 10, 5, 3);
    VeteranPerk::RescueSpecialist.apply_bonuses(&mut hp, &mut attack, &mut defense, &mut speed);
    assert_eq!(hp, 110);
    assert_eq!(attack, 10);
    assert_eq!(defense, 5);
    assert_eq!(speed, 3);
    VeteranPerk::DeathDefier.apply_bonuses(&mut hp, &mut attack, &mut defense, &mut speed);
    assert_eq!(hp, 110);
    assert_eq!(attack, 10);
    assert_eq!(defense, 7);
    assert_eq!(speed, 3);
    VeteranPerk::Slayer.apply_bonuses(&mut hp, &mut attack, &mut defense, &mut speed);
    assert_eq!(hp, 110);
    assert_eq!(attack, 12);
    assert_eq!(defense, 7);
    assert_eq!(speed, 3);
    VeteranPerk::DungeonVanguard.apply_bonuses(&mut hp, &mut attack, &mut defense, &mut speed);
    assert_eq!(hp, 110);
    assert_eq!(attack, 12);
    assert_eq!(defense, 7);
    assert_eq!(speed, 4);
    VeteranPerk::TreasureHunter.apply_bonuses(&mut hp, &mut attack, &mut defense, &mut speed);
    assert_eq!(hp, 115);
    assert_eq!(attack, 13);
    assert_eq!(defense, 7);
    assert_eq!(speed, 4);
}

#[test]
fn test_perk_combat_stats_application() {
    let mut history = HeroHistory::new();
    history.rescues_given = 3;
    history.kills = 20;
    let info = info_at(1, 0, 100);
    let stats = HeroStats { strength: 10, dexterity: 10, constitution: 10, intelligence: 10, wisdom: 10, charisma: 10 };
    let fatigue = Fatigue { current: 100_000, max_base: 100_000 };
    let equipment = HeroEquipment::default();
    let db = EquipmentDatabase(vec![]);
    let c = hero_token_stats(&info, &stats, Some(&equipment), &fatigue, false, Some(&history), &db);
    assert_eq!(c.max_hp, 38);
    assert_eq!(c.hp, 38);
    assert_eq!(c.attack, 12);
    assert_eq!(c.defense, 10);
}

fn portrait(hair_idx: u32) -> HeroPortrait {
    HeroPortrait { base_idx: 0, hair_idx, hair_color: Rgb8 { r: 255, g: 0, b: 0 }, gear_idx: 0 }
}

#[test]
fn test_portrait_generation() {
    let img = composite_portrait(&portrait(1), None);
    assert_eq!(img.len(), 16 * 16 * 4);
    assert_eq!(img[3], 0);
}

#[test]
fn test_portrait_equipment_override() {
    let p = portrait(4);
    let idx = (1 * 16 + 4) * 4;
    let img_no_armor = composite_portrait(&p, None);
    assert_eq!(img_no_armor[idx + 3], 0);
    let equipment = HeroEquipment { armor_tier: 1, armor_rarity: GearRarity::Common, ..Default::default() };
    let img_with_armor = composite_portrait(&p, Some(&equipment));
    assert_eq!(img_with_armor[idx + 3], 255);
}

#[test]
fn format_countdown_formats_whole_minutes() {
    assert_eq!(format_countdown(120_000), "2:00");
}

#[test]
fn format_countdown_pads_seconds() {
    assert_eq!(format_countdown(65_000), "1:05");
}

#[test]
fn format_countdown_rounds_up_partial_second() {
    assert_eq!(format_countdown(59_200), "1:00");
}

#[test]
fn format_countdown_clamps_negative_to_zero() {
    assert_eq!(format_countdown(-3_000), "0:00");
    assert_eq!(format_countdown(0), "0:00");
}

use guild_forge::hero::generation::{spawn_random_hero, spawn_starter_heroes, STARTING_GOLD};
use guild_forge::hero::status::Missing;
use guild_forge::hero::status_tick::{drain_stamina, hero_returned, heroes_returning, recover_stamina};
use guild_forge::economy::Gold;
use guild_forge::hero::data::{ClassDatabase, HeroTrait, NameDatabase, NamePool, TraitDatabase, TraitDef};

#[test]
fn stamina_recovers_faster_with_a_tavern_and_stops_at_max() {
    let mut f = Fatigue { current: 50_000, max_base: 100_000 };
    recover_stamina(&mut f, 1, 10, 2_000, 0);
    assert_eq!(f.current, 51_000);
    recover_stamina(&mut f, 1, 10, 2_000, 10);
    assert_eq!(f.current, 53_000);
    recover_stamina(&mut f, 1, 10, 1_000_000, 0);
    assert_eq!(f.current, 120_000);
    recover_stamina(&mut f, 1, 10, 0, 0);
    assert_eq!(f.current, 120_000);
}

#[test]
fn stamina_drains_on_missions_down_to_zero() {
    let mut f = Fatigue { current: 1_000, max_base: 100_000 };
    drain_stamina(&mut f, 1_000);
    assert_eq!(f.current, 800);
    drain_stamina(&mut f, 100_000);
    assert_eq!(f.current, 0);
}

#[test]
fn missing_heroes_return_unless_rescued() {
    let missing = vec![(1, Missing { expires_at_ms: 100 }), (2, Missing { expires_at_ms: 500 }), (3, Missing { expires_at_ms: 50 })];
    assert_eq!(heroes_returning(200, &missing, &vec![3]), vec![1]);
    assert_eq!(heroes_returning(600, &missing, &vec![]), vec![1, 2, 3]);
}

#[test]
fn returning_hero_gets_a_line_and_a_toast() {
    let mut h = HeroHistory::new();
    let (title, body) = hero_returned(&mut h, "Sera", Some(&Epithet(Some("Slimebane".to_string()))), &titles());
    assert_eq!(title, "Sera Slimebane has returned");
    assert_eq!(body, "Injured — stats reduced while they recover.");
    assert_eq!(h.timeline.last().unwrap(), "Returned after being missing (gear lost)");
}

fn dbs() -> (ClassDatabase, TraitDatabase, NameDatabase) {
    let t = |id: HeroTrait| TraitDef {
        id,
        name: String::new(),
        description: String::new(),
        stat_modifiers: StatWeights { str: 0, dex: 0, con: 0, int: 0, wis: 0, cha: 0 },
        tags: vec![],
    };
    (
        ClassDatabase(vec![warrior()]),
        TraitDatabase(vec![t(HeroTrait::Brave), t(HeroTrait::Lucky)]),
        NameDatabase(NamePool { first_names: vec!["Sera".to_string()], surnames: vec!["Vale".to_string()] }),
    )
}

#[test]
fn new_game_gets_two_heroes_and_starting_gold() {
    let (c, t, n) = dbs();
    let mut gold = Gold(0);
    let mut rng = StdRng::seed_from_u64(1);
    let heroes = spawn_starter_heroes(0, false, &c, &t, &n, &mut gold, &mut rng);
    assert_eq!(heroes.len(), 2);
    assert_eq!(gold.0, STARTING_GOLD);
    assert_eq!(heroes[0].info.name, "Sera Vale");
    assert_eq!(heroes[0].info.level, 1);
    let again = spawn_starter_heroes(2, false, &c, &t, &n, &mut gold, &mut rng);
    assert!(again.is_empty());
    let saved = spawn_starter_heroes(0, true, &c, &t, &n, &mut gold, &mut rng);
    assert!(saved.is_empty());
}

#[test]
fn roll_growth_treats_negative_weights_as_none() {
    let mut class = warrior();
    class.stat_weights = StatWeights { str: -2, dex: 1, con: 3, int: -1, wis: 1, cha: 1 };
    let mut rng = StdRng::seed_from_u64(7);
    let g = roll_growth(&class, 0, &mut rng);
    assert_eq!(g.strength, 0);
    assert_eq!(g.intelligence, 0);
    assert_eq!(g.constitution, 600);
    for seed in 0..50 {
        let mut rng = StdRng::seed_from_u64(seed);
        let g = roll_growth(&class, 1000, &mut rng);
        assert!(g.strength < 1000);
    }
}

#[test]
fn a_starting_hero_may_roll_negative_weights_and_modifiers() {
    let mut class = warrior();
    class.stat_weights = StatWeights { str: -3, dex: 2, con: 0, int: -1, wis: 0, cha: 0 };
    let t = |id: HeroTrait, m: i32| TraitDef {
        id,
        name: String::new(),
        description: String::new(),
        stat_modifiers: StatWeights { str: m, dex: m, con: m, int: m, wis: m, cha: m },
        tags: vec![],
    };
    let traits = TraitDatabase(vec![t(HeroTrait::Brave, -10), t(HeroTrait::Lucky, -10)]);
    let names = NameDatabase(NamePool { first_names: vec!["Ada".to_string()], surnames: vec!["Fenn".to_string()] });
    let mut rng = StdRng::seed_from_u64(9);
    let h = spawn_random_hero(&ClassDatabase(vec![class]), &traits, &names, &mut rng);
    assert_eq!(h.info.name, "Ada Fenn");
    let mods = -10 * h.traits.0.len() as i32;
    // Base eight plus once or twice the weight, then every trait's modifier.
    assert!(h.stats.strength == 8 - 3 + mods || h.stats.strength == 8 - 6 + mods);
    assert!(h.stats.dexterity == 8 + 2 + mods || h.stats.dexterity == 8 + 4 + mods);
    assert_eq!(h.stats.constitution, 8 + mods);
    if h.traits.0.len() == 2 {
        assert_ne!(h.traits.0[0], h.traits.0[1]);
    }
}
