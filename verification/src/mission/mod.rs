pub mod ai;
pub mod combat;
pub mod connectivity;
pub mod data;
pub mod dungeon;
pub mod entities;
pub mod pathfinding;
pub mod sequential;
pub mod tempo;
pub mod tileset;
pub mod turn;

use vstd::prelude::*;

verus! {

/// The current state of a mission.
#[derive(Debug, Clone, Copy, PartialEq, Eq, Structural)]
pub enum MissionProgress {
    InProgress,
    Complete,
    Failed,
}

/// A rescue mission: the missing heroes it is for, and whether their
/// dropped gear was found on the way.
pub struct RescueMission {
    pub rescue_heroes: Vec<u64>,
    pub gear_recovered: bool,
}

} // verus!
