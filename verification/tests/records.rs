use guild_forge::hero::epithet::Epithet;
use guild_forge::hero::history::HeroHistory;
use guild_forge::hero::tracking::{
    token_name, track_hero_history, LogEvent, LogPayload, MissionState, RosterEntry, TokenState,
};
use guild_forge::localization::StringTable;
use guild_forge::mission::data::AbilityDatabase;

fn titles() -> StringTable {
    StringTable::from_ron(
        r#"{"epithet.slimebane": "Slimebane", "epithet.hundred_mission": "Hundred-Mission", "epithet.twice_lost": "the Twice-Lost", "epithet.undying": "the Undying", "epithet.veteran": "the Veteran", "epithet.savior": "the Savior", "epithet.goldfinder": "Goldfinder"}"#,
    )
    .unwrap()
}

fn torgar(history: HeroHistory) -> RosterEntry {
    RosterEntry { id: 7, name: "Torgar Strong".to_string(), history, epithet: Epithet(None) }
}

fn caves(hp: i32) -> MissionState {
    MissionState {
        id: 1,
        name: "Test Caves".to_string(),
        party: vec![7],
        tokens: vec![TokenState { hero: 7, hp, max_hp: 50 }],
    }
}

fn ev(payload: LogPayload) -> LogEvent {
    LogEvent { mission: 1, payload }
}

fn hit(attacker: &str, defender: &str) -> LogEvent {
    ev(LogPayload::Attack { attacker: attacker.to_string(), defender: defender.to_string(), is_hit: true })
}

fn death(name: &str) -> LogEvent {
    ev(LogPayload::Death { name: name.to_string(), is_enemy: true })
}

#[test]
fn test_chronicle_history_accumulation() {
    let mut heroes = vec![torgar(HeroHistory::new())];
    assert_eq!(heroes[0].history.missions_run, 0);
    assert_eq!(heroes[0].history.timeline.len(), 1);
    assert_eq!(heroes[0].history.timeline[0], "Joined the guild");
    let events = vec![
        hit("Torgar Strong", "Orc"),
        death("Orc"),
        ev(LogPayload::ChestOpened { hero_name: "Torgar Strong".to_string(), gold: 50 }),
        ev(LogPayload::Loot { gold: 100 }),
    ];
    let mut low = Vec::new();
    track_hero_history(&mut heroes, &mut low, &events, &vec![caves(50)], &AbilityDatabase(vec![]), &titles());
    let hist = &heroes[0].history;
    assert_eq!(hist.missions_run, 1);
    assert_eq!(hist.kills, 1);
    assert_eq!(hist.lifetime_gold, 150);
    assert_eq!(hist.timeline.len(), 4);
    assert_eq!(hist.timeline[1], "Defeated Orc");
    assert_eq!(hist.timeline[2], "Found 50 gold in a loot chest");
    assert_eq!(hist.timeline[3], "Completed mission: Test Caves");
}

#[test]
fn test_epithet_mid_session_trigger() {
    let mut hist = HeroHistory::new();
    hist.kills = 9;
    let mut heroes = vec![torgar(hist)];
    let events = vec![hit("Torgar Strong", "Orc"), death("Orc")];
    let mut low = Vec::new();
    let t = titles();
    let retitled = track_hero_history(&mut heroes, &mut low, &events, &vec![caves(50)], &AbilityDatabase(vec![]), &t);
    assert_eq!(heroes[0].epithet.0, Some("Slimebane".to_string()));
    assert_eq!(heroes[0].history.kills, 10);
    assert!(heroes[0].history.timeline.contains(&"Earned the title: Slimebane".to_string()));
    assert_eq!(retitled, vec![7]);
    assert_eq!(token_name(&heroes[0].name, Some(&heroes[0].epithet), &t), "Hero Token: Torgar Strong Slimebane");
}

#[test]
fn near_death_is_counted_when_the_hero_survives() {
    let mut heroes = vec![torgar(HeroHistory::new())];
    let mut low = Vec::new();
    let t = titles();
    let missions = vec![caves(10)];
    track_hero_history(&mut heroes, &mut low, &vec![hit("Orc", "Torgar Strong")], &missions, &AbilityDatabase(vec![]), &t);
    assert_eq!(low, vec![(1, 7)]);
    track_hero_history(&mut heroes, &mut low, &vec![ev(LogPayload::Loot { gold: 0 })], &missions, &AbilityDatabase(vec![]), &t);
    assert!(low.is_empty());
    let hist = &heroes[0].history;
    assert_eq!(hist.near_deaths, 1);
    assert_eq!(hist.timeline[2], "Survived a near-death experience in Test Caves");
}

#[test]
fn boss_kill_names_the_mission_and_failure_marks_missing() {
    let mut heroes = vec![torgar(HeroHistory::new())];
    let mut low = Vec::new();
    let t = titles();
    let events = vec![hit("Torgar Strong", "Boss Rat"), death("Boss Rat"), ev(LogPayload::Failure)];
    track_hero_history(&mut heroes, &mut low, &events, &vec![caves(0)], &AbilityDatabase(vec![]), &t);
    let hist = &heroes[0].history;
    assert_eq!(hist.timeline[1], "Defeated the boss Boss Rat in Test Caves");
    assert_eq!(hist.timeline[2], "Went missing in mission: Test Caves");
    assert_eq!(hist.missions_run, 1);
}

#[test]
fn kill_without_a_known_attacker_counts_for_no_one() {
    let mut heroes = vec![torgar(HeroHistory::new())];
    let mut low = Vec::new();
    track_hero_history(&mut heroes, &mut low, &vec![death("Orc")], &vec![], &AbilityDatabase(vec![]), &titles());
    assert_eq!(heroes[0].history.kills, 0);
    assert_eq!(heroes[0].history.timeline.len(), 1);
}
