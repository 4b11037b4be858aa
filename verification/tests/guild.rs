use guild_forge::buildings::{BuildingType, GuildBuildings};
use guild_forge::music::{music_track, target_state, MusicState};

#[test]
fn mission_cap_grows_with_war_room() {
    let mut buildings = GuildBuildings::new();
    assert_eq!(buildings.mission_cap(), 3);
    buildings.set_level(BuildingType::WarRoom, 2);
    assert_eq!(buildings.mission_cap(), 5);
}

#[test]
fn can_dispatch_boundaries() {
    let buildings = GuildBuildings::new();
    assert!(buildings.can_dispatch(0));
    assert!(buildings.can_dispatch(2));
    assert!(!buildings.can_dispatch(3));
    assert!(!buildings.can_dispatch(4));
}

#[test]
fn target_state_decision_table() {
    assert_eq!(target_state(false, true, true), MusicState::Guild);
    assert_eq!(target_state(true, false, false), MusicState::Exploration);
    assert_eq!(target_state(true, true, false), MusicState::Combat);
    assert_eq!(target_state(true, true, true), MusicState::Boss);
    assert_eq!(target_state(true, false, true), MusicState::Boss);
}

#[test]
fn every_state_has_a_track() {
    for state in [MusicState::Guild, MusicState::Exploration, MusicState::Combat, MusicState::Boss] {
        let (path, speed) = music_track(state);
        assert!(path.ends_with(".ogg"));
        assert!(speed > 0);
    }
    assert_eq!(music_track(MusicState::Boss).1, 125);
}

use guild_forge::colors::hex_channels;
use guild_forge::crash_reporting::{format_crash_report, format_location, LogRingLayer};

#[test]
fn test_log_ring_captures_logs() {
    let mut ring = LogRingLayer::new();
    ring.clear();
    ring.push_line("[INFO] test log".to_string());
    assert_eq!(ring.len(), 1);
    assert_eq!(ring.get(0), "[INFO] test log");
}

#[test]
fn log_ring_keeps_the_latest_two_hundred() {
    let mut ring = LogRingLayer::new();
    for i in 0..205 {
        ring.on_event("INFO", "game", &format!("line {}", i));
    }
    assert_eq!(ring.len(), 200);
    assert_eq!(ring.get(0), "[INFO ] [game]: line 5");
    assert_eq!(ring.get(199), "[INFO ] [game]: line 204");
}

#[test]
fn crash_report_layout() {
    let loc = format_location("src/main.rs", 12, 5);
    assert_eq!(loc, "src/main.rs:12:5");
    let r = format_crash_report("0.1.0", 42, &loc, "boom", "a\nb", "bt");
    assert_eq!(
        r,
        "Guild Forge Crash Report\n=======================\nVersion: 0.1.0\nTime (UNIX Epoch): 42s\nLocation: src/main.rs:12:5\nPanic Message: boom\n\nRecent Logs:\n-----------------------\na\nb\n\nBacktrace:\n-----------------------\nbt"
    );
}

#[test]
fn hex_colors_split_into_bytes() {
    assert_eq!(hex_channels(0xFF8000), (255, 128, 0));
    assert_eq!(hex_channels(0xFFFFFF), (255, 255, 255));
    assert_eq!(hex_channels(0x000000), (0, 0, 0));
    assert_eq!(hex_channels(0x64748b), (0x64, 0x74, 0x8b));
}
