pub mod mission;
pub mod reputation;
pub mod localization;
pub mod text;
pub mod crash_reporting;
pub mod hero;
pub mod economy;
pub mod materials;
pub mod buildings;
pub mod equipment;
pub mod rng;
pub mod recruiting;
pub mod music;
pub mod colors;
