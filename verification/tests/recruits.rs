use guild_forge::buildings::GuildBuildings;
use guild_forge::economy::Gold;
use guild_forge::hero::data::HeroClass;
use guild_forge::hero::portrait::{HeroPortrait, Rgb8};
use guild_forge::hero::progression::{HeroGrowth, HeroStats};
use guild_forge::localization::StringTable;
use guild_forge::recruiting::{
    clamp_starter_cost, hire_applicant, hire_toast, Applicant, ApplicantBoard, HireError, ARRIVAL_INTERVAL_MS,
};

#[test]
fn first_seeded_applicant_is_affordable() {
    assert_eq!(clamp_starter_cost(120), 50);
    assert_eq!(clamp_starter_cost(50), 50);
    assert_eq!(clamp_starter_cost(35), 35);
}

fn applicant(name: &str, cost: u32, class: HeroClass) -> Applicant {
    Applicant {
        name: name.to_string(),
        class,
        traits: vec![],
        stats: HeroStats { strength: 10, dexterity: 10, constitution: 10, intelligence: 10, wisdom: 10, charisma: 10 },
        growth: HeroGrowth { strength: 0, dexterity: 0, constitution: 0, intelligence: 0, wisdom: 0, charisma: 0 },
        hire_cost: cost,
        time_remaining_ms: 14_400_000,
        portrait: HeroPortrait { base_idx: 0, hair_idx: 0, hair_color: Rgb8 { r: 0, g: 0, b: 0 }, gear_idx: 0 },
    }
}

#[test]
fn new_board_is_empty_with_an_hour_to_the_next_arrival() {
    let b = ApplicantBoard::new();
    assert!(b.applicants.is_empty());
    assert_eq!(b.next_arrival_ms, ARRIVAL_INTERVAL_MS);
}

#[test]
fn hire_refusals() {
    let buildings = GuildBuildings::new();
    let mut board = ApplicantBoard::new();
    board.applicants.push(applicant("Sera", 140, HeroClass::Ranger));
    let mut gold = Gold(100);
    assert_eq!(hire_applicant(&mut board, 3, &mut gold, 0, &buildings).err(), Some(HireError::InvalidIndex));
    assert_eq!(hire_applicant(&mut board, 0, &mut gold, 3, &buildings).err(), Some(HireError::RosterFull));
    assert_eq!(hire_applicant(&mut board, 0, &mut gold, 0, &buildings).err(), Some(HireError::NotEnoughGold));
    assert_eq!(gold.0, 100);
    assert_eq!(board.applicants.len(), 1);
}

#[test]
fn hire_pays_and_makes_a_fresh_hero() {
    let buildings = GuildBuildings::new();
    let mut board = ApplicantBoard::new();
    board.applicants.push(applicant("Sera", 40, HeroClass::Ranger));
    board.applicants.push(applicant("Garr", 60, HeroClass::Warrior));
    let mut gold = Gold(100);
    let hero = hire_applicant(&mut board, 1, &mut gold, 2, &buildings).ok().unwrap();
    assert_eq!(gold.0, 40);
    assert_eq!(board.applicants.len(), 1);
    assert_eq!(board.applicants[0].name, "Sera");
    assert_eq!(hero.info.name, "Garr");
    assert_eq!(hero.info.level, 1);
    assert_eq!(hero.info.xp_to_next, 100);
    assert_eq!(hero.move_range.base, 3);
    assert_eq!(hero.fatigue.current, 100_000);
}

#[test]
fn hire_toast_names_hero_class_and_cost() {
    let t = StringTable::from_ron(
        r#"{"recruit.hired_toast": "{name} joins the guild!", "recruit.hired_body": "A {class} for {cost} gold"}"#,
    )
    .unwrap();
    let (title, body) = hire_toast(&t, "Sera", HeroClass::Ranger, 140);
    assert_eq!(title, "Sera joins the guild!");
    assert_eq!(body, "A Ranger for 140 gold");
}

use guild_forge::hero::data::{ClassDatabase, ClassDef, HeroTrait, NameDatabase, NamePool, StatWeights, TraitDatabase, TraitDef};
use guild_forge::recruiting::{seed_applicant_board, tick_applicant_board};
use guild_forge::reputation::Reputation;
use rand::rngs::StdRng;
use rand::SeedableRng;

fn dbs() -> (ClassDatabase, TraitDatabase, NameDatabase) {
    let t = |id: HeroTrait| TraitDef {
        id,
        name: String::new(),
        description: String::new(),
        stat_modifiers: StatWeights { str: 0, dex: 0, con: 0, int: 0, wis: 0, cha: 0 },
        tags: vec![],
    };
    (
        ClassDatabase(vec![ClassDef {
            id: HeroClass::Mage,
            name: "Mage".to_string(),
            description: String::new(),
            stat_weights: StatWeights { str: 0, dex: 1, con: 1, int: 3, wis: 2, cha: 1 },
            starting_abilities: vec![],
        }]),
        TraitDatabase(vec![t(HeroTrait::Brave), t(HeroTrait::Lucky)]),
        NameDatabase(NamePool { first_names: vec!["Ada".to_string()], surnames: vec!["Quill".to_string()] }),
    )
}

#[test]
fn seeding_adds_two_applicants_with_an_affordable_first() {
    let (c, t, n) = dbs();
    let buildings = GuildBuildings::new();
    let mut board = ApplicantBoard::new();
    let mut rng = StdRng::seed_from_u64(3);
    assert!(seed_applicant_board(&mut board, false, &Reputation(0), &buildings, &c, &t, &n, &mut rng));
    assert_eq!(board.applicants.len(), 2);
    assert!(board.applicants[0].hire_cost <= 50);
    let s = board.applicants[1].stats;
    let total = s.strength + s.dexterity + s.constitution + s.intelligence + s.wisdom + s.charisma;
    assert_eq!(board.applicants[1].hire_cost, 20 + 2 * total as u32);
    assert!(!seed_applicant_board(&mut board, false, &Reputation(0), &buildings, &c, &t, &n, &mut rng));
    let mut fresh = ApplicantBoard::new();
    assert!(!seed_applicant_board(&mut fresh, true, &Reputation(0), &buildings, &c, &t, &n, &mut rng));
}

#[test]
fn tick_expires_applicants_and_brings_new_ones_on_the_hour() {
    let (c, t, n) = dbs();
    let buildings = GuildBuildings::new();
    let mut board = ApplicantBoard::new();
    board.applicants.push(applicant("Old", 40, HeroClass::Ranger));
    board.applicants[0].time_remaining_ms = 1_000;
    board.applicants.push(applicant("Young", 40, HeroClass::Ranger));
    let mut rng = StdRng::seed_from_u64(5);
    let arrived = tick_applicant_board(&mut board, 2_000, &Reputation(0), &buildings, &c, &t, &n, &mut rng);
    assert!(!arrived);
    assert_eq!(board.applicants.len(), 1);
    assert_eq!(board.applicants[0].name, "Young");
    assert_eq!(board.applicants[0].time_remaining_ms, 14_400_000 - 2_000);
    assert_eq!(board.next_arrival_ms, ARRIVAL_INTERVAL_MS - 2_000);
    let arrived = tick_applicant_board(&mut board, ARRIVAL_INTERVAL_MS, &Reputation(0), &buildings, &c, &t, &n, &mut rng);
    assert!(arrived);
    assert_eq!(board.applicants.len(), 2);
    assert_eq!(board.applicants[1].name, "Ada Quill");
    assert_eq!(board.next_arrival_ms, ARRIVAL_INTERVAL_MS);
}

#[test]
fn full_board_takes_no_arrival() {
    let (c, t, n) = dbs();
    let buildings = GuildBuildings::new();
    let mut board = ApplicantBoard::new();
    for name in ["A", "B", "C"] {
        board.applicants.push(applicant(name, 40, HeroClass::Ranger));
    }
    let mut rng = StdRng::seed_from_u64(9);
    let arrived = tick_applicant_board(&mut board, ARRIVAL_INTERVAL_MS, &Reputation(0), &buildings, &c, &t, &n, &mut rng);
    assert!(!arrived);
    assert_eq!(board.applicants.len(), 3);
    assert_eq!(board.next_arrival_ms, ARRIVAL_INTERVAL_MS);
}
