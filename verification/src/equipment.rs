//! Equipment: gear definitions, crafting, and combat bonuses.

use vstd::prelude::*;

use crate::buildings::{BuildingType, GuildBuildings};
use crate::economy::Gold;
use crate::hero::data::HeroClass;
use crate::localization::{tr_spec, StringTable};
use crate::materials::{affords_each, spend_each, MaterialType, Materials};

verus! {

/// Which slot a piece of gear occupies.
#[derive(Debug, Clone, Copy, PartialEq, Eq, Hash, Structural)]
pub enum GearSlot {
    Weapon,
    Armor,
    Accessory,
}

/// The string-table key of a slot's label.
pub open spec fn slot_label_key(s: GearSlot) -> Seq<char> {
    match s {
        GearSlot::Weapon => "equipment.weapon"@,
        GearSlot::Armor => "equipment.armor"@,
        GearSlot::Accessory => "equipment.accessory"@,
    }
}

impl GearSlot {
    /// Every slot, in order.
    pub fn all() -> (v: Vec<GearSlot>)
        ensures
            v@ == seq![GearSlot::Weapon, GearSlot::Armor, GearSlot::Accessory],
    {
        let v = vec![GearSlot::Weapon, GearSlot::Armor, GearSlot::Accessory];
        assert(v@ =~= seq![GearSlot::Weapon, GearSlot::Armor, GearSlot::Accessory]);
        v
    }

    /// The slot's label, from the string table.
    pub fn label(&self, table: &StringTable) -> (s: String)
        ensures
            s@ == tr_spec(table.view_entries(), slot_label_key(*self)),
    {
        match self {
            GearSlot::Weapon => table.tr("equipment.weapon"),
            GearSlot::Armor => table.tr("equipment.armor"),
            GearSlot::Accessory => table.tr("equipment.accessory"),
        }
    }
}

/// Tiers of gear rarity.
#[derive(Debug, Clone, Copy, PartialEq, Eq, Structural, Default)]
pub enum GearRarity {
    #[default]
    Common,
    Uncommon,
    Rare,
    Epic,
    Legendary,
}

/// A rarity's stat multiplier, in tenths.
pub open spec fn rarity_tenths(r: GearRarity) -> int {
    match r {
        GearRarity::Common => 10,
        GearRarity::Uncommon => 12,
        GearRarity::Rare => 15,
        GearRarity::Epic => 20,
        GearRarity::Legendary => 25,
    }
}

/// A rarity's rank, Common being 0 and Legendary 4.
pub open spec fn rarity_rank(r: GearRarity) -> u32 {
    match r {
        GearRarity::Common => 0,
        GearRarity::Uncommon => 1,
        GearRarity::Rare => 2,
        GearRarity::Epic => 3,
        GearRarity::Legendary => 4,
    }
}

/// The string-table key of a rarity's name.
pub open spec fn rarity_name_key(r: GearRarity) -> Seq<char> {
    match r {
        GearRarity::Common => "rarity.common"@,
        GearRarity::Uncommon => "rarity.uncommon"@,
        GearRarity::Rare => "rarity.rare"@,
        GearRarity::Epic => "rarity.epic"@,
        GearRarity::Legendary => "rarity.legendary"@,
    }
}

impl GearRarity {
    /// The rarity's name, from the string table.
    pub fn name(&self, table: &StringTable) -> (s: String)
        ensures
            s@ == tr_spec(table.view_entries(), rarity_name_key(*self)),
    {
        match self {
            GearRarity::Common => table.tr("rarity.common"),
            GearRarity::Uncommon => table.tr("rarity.uncommon"),
            GearRarity::Rare => table.tr("rarity.rare"),
            GearRarity::Epic => table.tr("rarity.epic"),
            GearRarity::Legendary => table.tr("rarity.legendary"),
        }
    }

    /// The stat multiplier in tenths: 1.0, 1.2, 1.5, 2.0 and 2.5 from
    /// Common to Legendary.
    pub fn stat_multiplier_tenths(&self) -> (m: i32)
        ensures
            m == rarity_tenths(*self),
    {
        match self {
            GearRarity::Common => 10,
            GearRarity::Uncommon => 12,
            GearRarity::Rare => 15,
            GearRarity::Epic => 20,
            GearRarity::Legendary => 25,
        }
    }

    /// The rarity's rank, Common being 0.
    pub fn rank(&self) -> (r: u32)
        ensures
            r == rarity_rank(*self),
    {
        match self {
            GearRarity::Common => 0,
            GearRarity::Uncommon => 1,
            GearRarity::Rare => 2,
            GearRarity::Epic => 3,
            GearRarity::Legendary => 4,
        }
    }
}

/// Behavioral affixes that modify simulation actions.
#[derive(Debug, Clone, Copy, PartialEq, Eq, Structural)]
pub enum BehavioralAffix {
    Lifesteal,
    Initiative,
    CleaveOnHit,
}

/// Stat bonuses granted by a piece of gear.
#[derive(Debug, Clone, Copy, Default)]
pub struct GearStats {
    pub attack: i32,
    pub defense: i32,
    pub hp: i32,
}

/// One tier within a gear upgrade path.
#[derive(Debug, Clone)]
pub struct GearTier {
    pub name: String,
    pub tier: u32,
    pub stats: GearStats,
    pub gold_cost: u32,
    pub material_cost: Vec<(MaterialType, u32)>,
    pub armory_level_required: u32,
}

/// A full upgrade path for a class+slot combination.
#[derive(Debug, Clone)]
pub struct GearPath {
    pub class: HeroClass,
    pub slot: GearSlot,
    pub tiers: Vec<GearTier>,
}

/// Database of all gear paths, loaded at startup.
#[derive(Debug, Clone)]
pub struct EquipmentDatabase(pub Vec<GearPath>);

/// Index of the first path for `class` and `slot`, if any.
pub open spec fn first_path(paths: Seq<GearPath>, class: HeroClass, slot: GearSlot) -> Option<int> {
    if exists|i: int| 0 <= i < paths.len() && paths[i].class == class && paths[i].slot == slot {
        Some(
            choose|i: int|
                0 <= i < paths.len() && paths[i].class == class && paths[i].slot == slot && forall|j: int|
                    0 <= j < i ==> !(paths[j].class == class && paths[j].slot == slot),
        )
    } else {
        None
    }
}

/// Bound on gear stats that keeps every sum of bonuses inside `i32`.
pub const GEAR_STAT_BOUND: i32 = 1000000;

impl EquipmentDatabase {
    /// Every gear stat is within `GEAR_STAT_BOUND` in absolute value.
    pub open spec fn stats_bounded(&self) -> bool {
        forall|i: int, k: int|
            0 <= i < self.0@.len() && 0 <= k < self.0@[i].tiers@.len() ==> {
                let s = #[trigger] self.0@[i].tiers@[k].stats;
                &&& -GEAR_STAT_BOUND <= s.attack <= GEAR_STAT_BOUND
                &&& -GEAR_STAT_BOUND <= s.defense <= GEAR_STAT_BOUND
                &&& -GEAR_STAT_BOUND <= s.hp <= GEAR_STAT_BOUND
            }
    }

    /// Position of the gear path for a class and slot: the first one listed.
    pub fn position(&self, class: HeroClass, slot: GearSlot) -> (r: Option<usize>)
        ensures
            match r {
                Some(i) => i < self.0@.len() && first_path(self.0@, class, slot) == Some(i as int),
                None => first_path(self.0@, class, slot) is None,
            },
    {
        let mut i: usize = 0;
        while i < self.0.len()
            invariant
                i <= self.0@.len(),
                forall|j: int| 0 <= j < i ==> !(self.0@[j].class == class && self.0@[j].slot == slot),
            decreases self.0@.len() - i,
        {
            if self.0[i].class == class && self.0[i].slot == slot {
                proof {
                    let p = self.0@;
                    let c = choose|c: int|
                        0 <= c < p.len() && p[c].class == class && p[c].slot == slot && forall|j: int|
                            0 <= j < c ==> !(p[j].class == class && p[j].slot == slot);
                    assert(0 <= c < p.len() && p[c].class == class && p[c].slot == slot && forall|j: int|
                        0 <= j < c ==> !(p[j].class == class && p[j].slot == slot));
                    if c < i {
                        assert(!(p[c].class == class && p[c].slot == slot));
                    }
                    if (i as int) < c {
                        assert(!(p[i as int].class == class && p[i as int].slot == slot));
                    }
                }
                return Some(i);
            }
            i += 1;
        }
        None
    }

    /// Look up the gear path for a given class and slot.
    pub fn get_path(&self, class: HeroClass, slot: GearSlot) -> (r: Option<&GearPath>)
        ensures
            match r {
                Some(p) => first_path(self.0@, class, slot) matches Some(i) && self.0@[i] == *p,
                None => first_path(self.0@, class, slot) is None,
            },
    {
        match self.position(class, slot) {
            Some(i) => Some(&self.0[i]),
            None => None,
        }
    }
}

/// `v` times `tenths / 10`, rounded half away from zero.
pub open spec fn scale_round(v: int, tenths: int) -> int {
    let p = v * tenths;
    if p >= 0 {
        (p + 5) / 10
    } else {
        -((-p + 5) / 10)
    }
}

/// Multiply a stat by a rarity multiplier in tenths, rounding half away from zero.
pub fn scale_stat(v: i32, tenths: i32) -> (r: i32)
    requires
        -GEAR_STAT_BOUND <= v <= GEAR_STAT_BOUND,
        0 <= tenths <= 25,
    ensures
        r == scale_round(v as int, tenths as int),
        -3 * GEAR_STAT_BOUND <= r <= 3 * GEAR_STAT_BOUND,
{
    assert(-25 * GEAR_STAT_BOUND <= v * tenths <= 25 * GEAR_STAT_BOUND) by (nonlinear_arith)
        requires
            -GEAR_STAT_BOUND <= v <= GEAR_STAT_BOUND,
            0 <= tenths <= 25,
    ;
    let p = v * tenths;
    if p >= 0 {
        (p + 5) / 10
    } else {
        -((-p + 5) / 10)
    }
}

/// Tracks a hero's current gear tier in each slot.
#[derive(Debug, Clone, Copy, Default)]
pub struct HeroEquipment {
    pub weapon_tier: u32,
    pub weapon_rarity: GearRarity,
    pub weapon_affix: Option<BehavioralAffix>,
    pub armor_tier: u32,
    pub armor_rarity: GearRarity,
    pub armor_affix: Option<BehavioralAffix>,
    pub accessory_tier: u32,
    pub accessory_rarity: GearRarity,
    pub accessory_affix: Option<BehavioralAffix>,
}

impl HeroEquipment {
    /// The tier in a slot.
    pub open spec fn tier_of(&self, slot: GearSlot) -> u32 {
        match slot {
            GearSlot::Weapon => self.weapon_tier,
            GearSlot::Armor => self.armor_tier,
            GearSlot::Accessory => self.accessory_tier,
        }
    }

    /// The rarity in a slot.
    pub open spec fn rarity_of(&self, slot: GearSlot) -> GearRarity {
        match slot {
            GearSlot::Weapon => self.weapon_rarity,
            GearSlot::Armor => self.armor_rarity,
            GearSlot::Accessory => self.accessory_rarity,
        }
    }

    /// Nothing equipped.
    pub fn empty() -> (e: HeroEquipment)
        ensures
            e.weapon_tier == 0 && e.armor_tier == 0 && e.accessory_tier == 0,
            e.weapon_rarity == GearRarity::Common && e.armor_rarity == GearRarity::Common
                && e.accessory_rarity == GearRarity::Common,
            e.weapon_affix is None && e.armor_affix is None && e.accessory_affix is None,
    {
        HeroEquipment {
            weapon_tier: 0,
            weapon_rarity: GearRarity::Common,
            weapon_affix: None,
            armor_tier: 0,
            armor_rarity: GearRarity::Common,
            armor_affix: None,
            accessory_tier: 0,
            accessory_rarity: GearRarity::Common,
            accessory_affix: None,
        }
    }

    /// Get the current tier for a slot.
    pub fn tier(&self, slot: GearSlot) -> (t: u32)
        ensures
            t == self.tier_of(slot),
    {
        match slot {
            GearSlot::Weapon => self.weapon_tier,
            GearSlot::Armor => self.armor_tier,
            GearSlot::Accessory => self.accessory_tier,
        }
    }

    /// The rarity for a slot.
    pub fn rarity(&self, slot: GearSlot) -> (r: GearRarity)
        ensures
            r == self.rarity_of(slot),
    {
        match slot {
            GearSlot::Weapon => self.weapon_rarity,
            GearSlot::Armor => self.armor_rarity,
            GearSlot::Accessory => self.accessory_rarity,
        }
    }

    /// Set the tier for a slot; every other field stays.
    pub fn set_tier(&mut self, slot: GearSlot, tier: u32)
        ensures
            final(self).tier_of(slot) == tier,
            forall|s: GearSlot| s != slot ==> final(self).tier_of(s) == old(self).tier_of(s),
            final(self).weapon_rarity == old(self).weapon_rarity,
            final(self).armor_rarity == old(self).armor_rarity,
            final(self).accessory_rarity == old(self).accessory_rarity,
            final(self).weapon_affix == old(self).weapon_affix,
            final(self).armor_affix == old(self).armor_affix,
            final(self).accessory_affix == old(self).accessory_affix,
    {
        match slot {
            GearSlot::Weapon => self.weapon_tier = tier,
            GearSlot::Armor => self.armor_tier = tier,
            GearSlot::Accessory => self.accessory_tier = tier,
        }
    }

    /// Check if the hero has the specified affix on any gear slot.
    pub fn has_affix(&self, affix: BehavioralAffix) -> (b: bool)
        ensures
            b == (self.weapon_affix == Some(affix) || self.armor_affix == Some(affix)
                || self.accessory_affix == Some(affix)),
    {
        let w = match self.weapon_affix {
            Some(a) => a == affix,
            None => false,
        };
        let ar = match self.armor_affix {
            Some(a) => a == affix,
            None => false,
        };
        let ac = match self.accessory_affix {
            Some(a) => a == affix,
            None => false,
        };
        w || ar || ac
    }

    /// The bonus of one slot: the scaled stats of its tier, when the hero has
    /// a tier there and the class's path lists it.
    pub open spec fn slot_bonus(&self, db: EquipmentDatabase, class: HeroClass, slot: GearSlot) -> (
        int,
        int,
        int,
    ) {
        let tier = self.tier_of(slot);
        if tier == 0 {
            (0, 0, 0)
        } else {
            match first_path(db.0@, class, slot) {
                None => (0, 0, 0),
                Some(i) => {
                    let tiers = db.0@[i].tiers@;
                    if tier - 1 < tiers.len() {
                        let s = tiers[tier - 1].stats;
                        let m = rarity_tenths(self.rarity_of(slot));
                        (scale_round(s.attack as int, m), scale_round(s.defense as int, m), scale_round(
                            s.hp as int,
                            m,
                        ))
                    } else {
                        (0, 0, 0)
                    }
                },
            }
        }
    }

    /// The bonuses of all three slots summed: (attack, defense, hit points).
    pub open spec fn total_bonus(&self, db: EquipmentDatabase, class: HeroClass) -> (int, int, int) {
        let w = self.slot_bonus(db, class, GearSlot::Weapon);
        let a = self.slot_bonus(db, class, GearSlot::Armor);
        let c = self.slot_bonus(db, class, GearSlot::Accessory);
        (w.0 + a.0 + c.0, w.1 + a.1 + c.1, w.2 + a.2 + c.2)
    }

    /// Sum up all stat bonuses from equipped gear tiers, applying rarity
    /// multipliers (rounded half away from zero).
    pub fn total_stats(&self, db: &EquipmentDatabase, class: HeroClass) -> (t: GearStats)
        requires
            db.stats_bounded(),
        ensures
            t.attack == self.total_bonus(*db, class).0,
            t.defense == self.total_bonus(*db, class).1,
            t.hp == self.total_bonus(*db, class).2,
            -9 * GEAR_STAT_BOUND <= t.attack <= 9 * GEAR_STAT_BOUND,
            -9 * GEAR_STAT_BOUND <= t.defense <= 9 * GEAR_STAT_BOUND,
            -9 * GEAR_STAT_BOUND <= t.hp <= 9 * GEAR_STAT_BOUND,
    {
        let w = self.slot_stats(db, class, GearSlot::Weapon);
        let a = self.slot_stats(db, class, GearSlot::Armor);
        let c = self.slot_stats(db, class, GearSlot::Accessory);
        GearStats {
            attack: w.attack + a.attack + c.attack,
            defense: w.defense + a.defense + c.defense,
            hp: w.hp + a.hp + c.hp,
        }
    }

    /// The bonus of one slot.
    pub fn slot_stats(&self, db: &EquipmentDatabase, class: HeroClass, slot: GearSlot) -> (t: GearStats)
        requires
            db.stats_bounded(),
        ensures
            t.attack == self.slot_bonus(*db, class, slot).0,
            t.defense == self.slot_bonus(*db, class, slot).1,
            t.hp == self.slot_bonus(*db, class, slot).2,
            -3 * GEAR_STAT_BOUND <= t.attack <= 3 * GEAR_STAT_BOUND,
            -3 * GEAR_STAT_BOUND <= t.defense <= 3 * GEAR_STAT_BOUND,
            -3 * GEAR_STAT_BOUND <= t.hp <= 3 * GEAR_STAT_BOUND,
    {
        let zero = GearStats { attack: 0, defense: 0, hp: 0 };
        let tier = self.tier(slot);
        if tier == 0 {
            return zero;
        }
        let idx = match db.position(class, slot) {
            Some(i) => i,
            None => {
                return zero;
            },
        };
        let path = &db.0[idx];
        let k = (tier - 1) as usize;
        if k >= path.tiers.len() {
            return zero;
        }
        let s = path.tiers[k].stats;
        assert(s == db.0@[idx as int].tiers@[k as int].stats);
        let m = self.rarity(slot).stat_multiplier_tenths();
        GearStats {
            attack: scale_stat(s.attack, m),
            defense: scale_stat(s.defense, m),
            hp: scale_stat(s.hp, m),
        }
    }
}

/// Why crafting did not happen.
#[derive(Debug, Clone, Copy, PartialEq, Eq, Structural)]
pub enum CraftError {
    /// No gear path exists for the hero's class and the slot.
    NoGearPath,
    /// The slot is already at the path's last tier.
    MaxTier,
    /// The armory's level is below the tier's requirement.
    ArmoryTooLow,
    /// Not enough gold.
    NotEnoughGold,
    /// Some material is short.
    NotEnoughMaterials,
}

/// Craft the next tier of gear in `slot`, paying gold and materials.
/// Returns the index of the path crafted from and the new tier.
pub fn craft_gear(
    equipment: &mut HeroEquipment,
    class: HeroClass,
    slot: GearSlot,
    db: &EquipmentDatabase,
    buildings: &GuildBuildings,
    gold: &mut Gold,
    materials: &mut Materials,
) -> (r: Result<(usize, u32), CraftError>)
    requires
        old(equipment).tier_of(slot) < u32::MAX,
        buildings.wf(),
        old(materials).wf(),
    ensures
        final(materials).wf(),
        ({
            let next = old(equipment).tier_of(slot) + 1;
            match first_path(db.0@, class, slot) {
                None => r == Err::<(usize, u32), CraftError>(CraftError::NoGearPath),
                Some(i) => {
                    let tiers = db.0@[i].tiers@;
                    if next - 1 >= tiers.len() {
                        r == Err::<(usize, u32), CraftError>(CraftError::MaxTier)
                    } else {
                        let def = tiers[next - 1];
                        if buildings.level_of(BuildingType::Armory) < def.armory_level_required {
                            r == Err::<(usize, u32), CraftError>(CraftError::ArmoryTooLow)
                        } else if old(gold).0 < def.gold_cost {
                            r == Err::<(usize, u32), CraftError>(CraftError::NotEnoughGold)
                        } else if !affords_each(old(materials).view(), def.material_cost@) {
                            r == Err::<(usize, u32), CraftError>(CraftError::NotEnoughMaterials)
                        } else {
                            &&& r == Ok::<(usize, u32), CraftError>((i as usize, next as u32))
                            &&& final(gold).0 == old(gold).0 - def.gold_cost
                            &&& final(materials).view() == spend_each(old(materials).view(), def.material_cost@)
                            &&& final(equipment).tier_of(slot) == next
                            &&& forall|s: GearSlot| s != slot ==> #[trigger] final(equipment).tier_of(s)
                                == old(equipment).tier_of(s)
                        }
                    }
                },
            }
        }),
        r is Err ==> (final(gold).0 == old(gold).0 && *final(materials) == *old(materials)
            && *final(equipment) == *old(equipment)),
{
    let current_tier = equipment.tier(slot);
    let next_tier = current_tier + 1;
    let idx = match db.position(class, slot) {
        Some(i) => i,
        None => {
            return Err(CraftError::NoGearPath);
        },
    };
    let path = &db.0[idx];
    let k = (next_tier - 1) as usize;
    if k >= path.tiers.len() {
        return Err(CraftError::MaxTier);
    }
    let tier_def = &path.tiers[k];
    let armory_level = buildings.level(BuildingType::Armory);
    if armory_level < tier_def.armory_level_required {
        return Err(CraftError::ArmoryTooLow);
    }
    if gold.0 < tier_def.gold_cost {
        return Err(CraftError::NotEnoughGold);
    }
    if !materials.affords_each(&tier_def.material_cost) {
        return Err(CraftError::NotEnoughMaterials);
    }
    gold.0 = gold.0 - tier_def.gold_cost;
    materials.spend_each(&tier_def.material_cost);
    equipment.set_tier(slot, next_tier);
    Ok((idx, next_tier))
}

} // verus!
