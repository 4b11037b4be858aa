//! Veteran perks: lasting bonuses unlocked by a hero's history.

use vstd::prelude::*;

use super::history::HeroHistory;
use crate::localization::{tr_spec, StringTable};

verus! {

#[derive(Debug, Clone, Copy, PartialEq, Eq, Structural)]
pub enum VeteranPerk {
    /// Survived 3 rescues given: +10% Max HP.
    RescueSpecialist,
    /// Survived 3 near-deaths: +2 Defense.
    DeathDefier,
    /// Defeated 20 enemies: +2 Attack.
    Slayer,
    /// Completed 10 missions: +1 Speed.
    DungeonVanguard,
    /// Amassed 1000 lifetime gold: +1 Attack, +5% Max HP.
    TreasureHunter,
}

/// The string-table key of a perk's name.
pub open spec fn perk_name_key(p: VeteranPerk) -> Seq<char> {
    match p {
        VeteranPerk::RescueSpecialist => "perk.rescue_specialist"@,
        VeteranPerk::DeathDefier => "perk.death_defier"@,
        VeteranPerk::Slayer => "perk.slayer"@,
        VeteranPerk::DungeonVanguard => "perk.dungeon_vanguard"@,
        VeteranPerk::TreasureHunter => "perk.treasure_hunter"@,
    }
}

/// The string-table key of a perk's description.
pub open spec fn perk_description_key(p: VeteranPerk) -> Seq<char> {
    match p {
        VeteranPerk::RescueSpecialist => "perk.rescue_specialist.desc"@,
        VeteranPerk::DeathDefier => "perk.death_defier.desc"@,
        VeteranPerk::Slayer => "perk.slayer.desc"@,
        VeteranPerk::DungeonVanguard => "perk.dungeon_vanguard.desc"@,
        VeteranPerk::TreasureHunter => "perk.treasure_hunter.desc"@,
    }
}

/// `x * percent / 100`, rounded down.
pub open spec fn percent_floor(x: int, percent: int) -> int {
    let p = x * percent;
    if p >= 0 {
        p / 100
    } else {
        -((-p + 99) / 100)
    }
}

/// Bound on hit points for which percentage bonuses stay inside `i32`.
pub const HP_BOUND: i32 = 10000000;

/// Scale hit points by a percentage, rounding down.
pub fn scale_hp(hp: i32, percent: i32) -> (r: i32)
    requires
        -HP_BOUND <= hp <= HP_BOUND,
        100 <= percent <= 110,
    ensures
        r == percent_floor(hp as int, percent as int),
        -2 * HP_BOUND <= r <= 2 * HP_BOUND,
{
    assert(-11 * HP_BOUND * 10 <= hp * percent <= 11 * HP_BOUND * 10) by (nonlinear_arith)
        requires
            -HP_BOUND <= hp <= HP_BOUND,
            100 <= percent <= 110,
    ;
    let p = hp * percent;
    if p >= 0 {
        p / 100
    } else {
        -((-p + 99) / 100)
    }
}

impl VeteranPerk {
    /// The perk's name, from the string table.
    pub fn name(&self, table: &StringTable) -> (s: String)
        ensures
            s@ == tr_spec(table.view_entries(), perk_name_key(*self)),
    {
        match self {
            VeteranPerk::RescueSpecialist => table.tr("perk.rescue_specialist"),
            VeteranPerk::DeathDefier => table.tr("perk.death_defier"),
            VeteranPerk::Slayer => table.tr("perk.slayer"),
            VeteranPerk::DungeonVanguard => table.tr("perk.dungeon_vanguard"),
            VeteranPerk::TreasureHunter => table.tr("perk.treasure_hunter"),
        }
    }

    /// The perk's description, from the string table.
    pub fn description(&self, table: &StringTable) -> (s: String)
        ensures
            s@ == tr_spec(table.view_entries(), perk_description_key(*self)),
    {
        match self {
            VeteranPerk::RescueSpecialist => table.tr("perk.rescue_specialist.desc"),
            VeteranPerk::DeathDefier => table.tr("perk.death_defier.desc"),
            VeteranPerk::Slayer => table.tr("perk.slayer.desc"),
            VeteranPerk::DungeonVanguard => table.tr("perk.dungeon_vanguard.desc"),
            VeteranPerk::TreasureHunter => table.tr("perk.treasure_hunter.desc"),
        }
    }

    /// Apply the perk's bonus to a token's combat stats.
    pub fn apply_bonuses(&self, hp: &mut i32, attack: &mut i32, defense: &mut i32, speed: &mut i32)
        requires
            -HP_BOUND <= *old(hp) <= HP_BOUND,
            *old(attack) <= i32::MAX - 2,
            *old(defense) <= i32::MAX - 2,
            *old(speed) <= i32::MAX - 1,
        ensures
            *final(hp) == match *self {
                VeteranPerk::RescueSpecialist => percent_floor(*old(hp) as int, 110),
                VeteranPerk::TreasureHunter => percent_floor(*old(hp) as int, 105),
                _ => *old(hp) as int,
            },
            *final(attack) == match *self {
                VeteranPerk::Slayer => *old(attack) + 2,
                VeteranPerk::TreasureHunter => *old(attack) + 1,
                _ => *old(attack) as int,
            },
            *final(defense) == match *self {
                VeteranPerk::DeathDefier => *old(defense) + 2,
                _ => *old(defense) as int,
            },
            *final(speed) == match *self {
                VeteranPerk::DungeonVanguard => *old(speed) + 1,
                _ => *old(speed) as int,
            },
    {
        match self {
            VeteranPerk::RescueSpecialist => {
                *hp = scale_hp(*hp, 110);
            },
            VeteranPerk::DeathDefier => {
                *defense = *defense + 2;
            },
            VeteranPerk::Slayer => {
                *attack = *attack + 2;
            },
            VeteranPerk::DungeonVanguard => {
                *speed = *speed + 1;
            },
            VeteranPerk::TreasureHunter => {
                *attack = *attack + 1;
                *hp = scale_hp(*hp, 105);
            },
        }
    }
}

/// Every perk a history qualifies for, in declaration order.
pub open spec fn qualifying_perks(h: HeroHistory) -> Seq<VeteranPerk> {
    let s0 = Seq::<VeteranPerk>::empty();
    let s1 = if h.rescues_given >= 3 { s0.push(VeteranPerk::RescueSpecialist) } else { s0 };
    let s2 = if h.near_deaths >= 3 { s1.push(VeteranPerk::DeathDefier) } else { s1 };
    let s3 = if h.kills >= 20 { s2.push(VeteranPerk::Slayer) } else { s2 };
    let s4 = if h.missions_run >= 10 { s3.push(VeteranPerk::DungeonVanguard) } else { s3 };
    if h.lifetime_gold >= 1000 { s4.push(VeteranPerk::TreasureHunter) } else { s4 }
}

/// The most perks a hero holds at once.
pub const MAX_PERKS: usize = 3;

/// The perks a history has earned: the first three it qualifies for.
pub fn get_earned_perks(history: &HeroHistory) -> (perks: Vec<VeteranPerk>)
    ensures
        perks@ == if qualifying_perks(*history).len() > MAX_PERKS {
            qualifying_perks(*history).take(MAX_PERKS as int)
        } else {
            qualifying_perks(*history)
        },
        perks@.len() <= MAX_PERKS,
{
    let mut perks: Vec<VeteranPerk> = Vec::new();
    if history.rescues_given >= 3 {
        perks.push(VeteranPerk::RescueSpecialist);
    }
    if history.near_deaths >= 3 {
        perks.push(VeteranPerk::DeathDefier);
    }
    if history.kills >= 20 {
        perks.push(VeteranPerk::Slayer);
    }
    if history.missions_run >= 10 {
        perks.push(VeteranPerk::DungeonVanguard);
    }
    if history.lifetime_gold >= 1000 {
        perks.push(VeteranPerk::TreasureHunter);
    }
    assert(perks@ =~= qualifying_perks(*history));
    perks.truncate(MAX_PERKS);
    perks
}

} // verus!
