pub mod data;
pub mod epithet;
pub mod generation;
pub mod history;
pub mod perk;
pub mod portrait;
pub mod progression;
pub mod status;
pub mod status_tick;
pub mod tracking;
