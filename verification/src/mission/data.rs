//! Mission data definitions: enemies, templates, modifiers, events and abilities.

use vstd::prelude::*;

use crate::hero::data::HeroTrait;
use crate::materials::MaterialType;

verus! {

/// The kinds of enemy a mission can hold.
#[derive(Debug, Clone, Copy, PartialEq, Eq, Hash, Structural)]
pub enum EnemyType {
    Goblin,
    Skeleton,
    Slime,
    Orc,
    BossRat,
    GiantRat,
    GoblinArcher,
    GoblinShaman,
    SpiderSwarmer,
}

/// How an enemy picks its targets and moves.
#[derive(Debug, Clone, Copy, PartialEq, Eq, Hash, Structural)]
pub enum EnemyBehavior {
    Standard,
    Skirmisher,
    Swarmer,
    Shaman,
}

/// The families enemies belong to, which biomes allow.
#[derive(Debug, Clone, Copy, PartialEq, Eq, Hash, Structural)]
pub enum EnemyFamily {
    Goblinoid,
    Undead,
}

/// The display name of an enemy type.
pub open spec fn enemy_name(e: EnemyType) -> Seq<char> {
    match e {
        EnemyType::Goblin => "Goblin"@,
        EnemyType::Skeleton => "Skeleton"@,
        EnemyType::Slime => "Slime"@,
        EnemyType::Orc => "Orc"@,
        EnemyType::BossRat => "Boss Rat"@,
        EnemyType::GiantRat => "Giant Rat"@,
        EnemyType::GoblinArcher => "Goblin Archer"@,
        EnemyType::GoblinShaman => "Goblin Shaman"@,
        EnemyType::SpiderSwarmer => "Spider Swarmer"@,
    }
}

/// The family of an enemy type: skeletons are undead, the rest goblinoid.
pub open spec fn enemy_family(e: EnemyType) -> EnemyFamily {
    if e == EnemyType::Skeleton {
        EnemyFamily::Undead
    } else {
        EnemyFamily::Goblinoid
    }
}

/// The initiative speed of each enemy type.
pub open spec fn enemy_speed_of(e: EnemyType) -> i32 {
    match e {
        EnemyType::Goblin => 14,
        EnemyType::BossRat => 13,
        EnemyType::Skeleton => 8,
        EnemyType::Slime => 5,
        EnemyType::Orc => 10,
        EnemyType::GiantRat => 12,
        EnemyType::GoblinArcher => 13,
        EnemyType::GoblinShaman => 11,
        EnemyType::SpiderSwarmer => 16,
    }
}

impl EnemyType {
    /// Whether this is a boss enemy.
    pub fn is_boss(&self) -> (b: bool)
        ensures
            b == (*self == EnemyType::BossRat),
    {
        match self {
            EnemyType::BossRat => true,
            _ => false,
        }
    }

    /// The display name of the enemy type.
    pub fn name(&self) -> (s: &'static str)
        ensures
            s@ == enemy_name(*self),
    {
        match self {
            EnemyType::Goblin => "Goblin",
            EnemyType::Skeleton => "Skeleton",
            EnemyType::Slime => "Slime",
            EnemyType::Orc => "Orc",
            EnemyType::BossRat => "Boss Rat",
            EnemyType::GiantRat => "Giant Rat",
            EnemyType::GoblinArcher => "Goblin Archer",
            EnemyType::GoblinShaman => "Goblin Shaman",
            EnemyType::SpiderSwarmer => "Spider Swarmer",
        }
    }

    /// The family this enemy type belongs to.
    pub fn family(&self) -> (f: EnemyFamily)
        ensures
            f == enemy_family(*self),
    {
        match self {
            EnemyType::Skeleton => EnemyFamily::Undead,
            _ => EnemyFamily::Goblinoid,
        }
    }

    /// The initiative speed a token of this type gets.
    pub fn speed(&self) -> (s: i32)
        ensures
            s == enemy_speed_of(*self),
    {
        match self {
            EnemyType::Goblin => 14,
            EnemyType::BossRat => 13,
            EnemyType::Skeleton => 8,
            EnemyType::Slime => 5,
            EnemyType::Orc => 10,
            EnemyType::GiantRat => 12,
            EnemyType::GoblinArcher => 13,
            EnemyType::GoblinShaman => 11,
            EnemyType::SpiderSwarmer => 16,
        }
    }
}

/// One enemy kind as the database describes it.
#[derive(Debug, Clone)]
pub struct EnemyDef {
    pub id: EnemyType,
    pub name: String,
    pub hp: i32,
    pub attack: i32,
    pub defense: i32,
    pub xp_reward: u32,
    pub abilities: Vec<String>,
    pub behavior: EnemyBehavior,
    pub attack_range: u32,
}

/// The range of gold a mission pays.
#[derive(Debug, Clone, Copy)]
pub struct GoldReward {
    pub min: u32,
    pub max: u32,
}

/// Mission modifiers that change the rules of a dungeon run.
#[derive(Debug, Clone, Copy, PartialEq, Eq, Hash, Structural)]
pub enum MissionModifier {
    Foggy,
    Infested,
    CursedGround,
    Bountiful,
    Trapped,
}

/// The display name of a modifier.
pub open spec fn modifier_name(m: MissionModifier) -> Seq<char> {
    match m {
        MissionModifier::Foggy => "Foggy"@,
        MissionModifier::Infested => "Infested"@,
        MissionModifier::CursedGround => "Cursed Ground"@,
        MissionModifier::Bountiful => "Bountiful"@,
        MissionModifier::Trapped => "Trapped"@,
    }
}

impl MissionModifier {
    /// The display name of the modifier.
    pub fn name(&self) -> (s: &'static str)
        ensures
            s@ == modifier_name(*self),
    {
        match self {
            MissionModifier::Foggy => "Foggy",
            MissionModifier::Infested => "Infested",
            MissionModifier::CursedGround => "Cursed Ground",
            MissionModifier::Bountiful => "Bountiful",
            MissionModifier::Trapped => "Trapped",
        }
    }
}

/// Whether `m` occurs among the modifiers.
pub fn has_modifier(modifiers: &[MissionModifier], m: MissionModifier) -> (b: bool)
    ensures
        b == modifiers@.contains(m),
{
    let mut i: usize = 0;
    while i < modifiers.len()
        invariant
            i <= modifiers@.len(),
            forall|j: int| 0 <= j < i ==> modifiers@[j] != m,
        decreases modifiers@.len() - i,
    {
        if modifiers[i] == m {
            assert(modifiers@[i as int] == m);
            return true;
        }
        i += 1;
    }
    false
}

/// The biome a mission takes place in.
#[derive(Debug, Clone, Copy, PartialEq, Eq, Hash, Structural)]
pub enum BiomeType {
    Dungeon,
    Crypt,
}

/// The enemy families a biome allows.
pub open spec fn biome_families(b: BiomeType) -> Seq<EnemyFamily> {
    match b {
        BiomeType::Dungeon => seq![EnemyFamily::Goblinoid],
        BiomeType::Crypt => seq![EnemyFamily::Undead, EnemyFamily::Goblinoid],
    }
}

impl BiomeType {
    /// The enemy families this biome allows.
    pub fn allowed_families(&self) -> (v: Vec<EnemyFamily>)
        ensures
            v@ == biome_families(*self),
    {
        match self {
            BiomeType::Dungeon => vec![EnemyFamily::Goblinoid],
            BiomeType::Crypt => vec![EnemyFamily::Undead, EnemyFamily::Goblinoid],
        }
    }
}

/// A mission template: what a mission of this kind holds and pays.
#[derive(Debug, Clone)]
pub struct MissionTemplate {
    pub id: String,
    pub name: String,
    pub description: String,
    pub difficulty: u32,
    pub enemy_types: Vec<(EnemyType, u32)>,
    pub rooms_min: u32,
    pub rooms_max: u32,
    pub gold_reward: GoldReward,
    pub xp_bonus: u32,
    pub reputation_required: u32,
    pub reputation_reward: u32,
    pub material_drops: Vec<(MaterialType, u32, u32)>,
    pub allowed_modifiers: Vec<MissionModifier>,
    pub biome: BiomeType,
}

/// The kinds of mid-mission event.
#[derive(Debug, Clone, Copy, PartialEq, Eq, Hash, Structural)]
pub enum EventType {
    Shrine,
    Ambush,
    HiddenChamber,
}

/// The stat a mid-mission event checks.
#[derive(Debug, Clone, Copy, PartialEq, Eq, Hash, Structural)]
pub enum EventCheckStat {
    Strength,
    Dexterity,
    Constitution,
    Intelligence,
    Wisdom,
    Charisma,
}

/// A mid-mission event as the database describes it.
#[derive(Debug, Clone)]
pub struct MissionEventDef {
    pub id: String,
    pub name: String,
    pub description: String,
    pub event_type: EventType,
    pub check_stat: EventCheckStat,
    pub check_difficulty: i32,
    pub success_text: String,
    pub failure_text: String,
    pub priority_trait: Option<HeroTrait>,
}

/// All mid-mission events.
pub struct EventDatabase(pub Vec<MissionEventDef>);

/// All enemy definitions.
pub struct EnemyDatabase(pub Vec<EnemyDef>);

/// All mission templates.
pub struct MissionTemplateDatabase(pub Vec<MissionTemplate>);

impl EnemyDatabase {
    /// The definition of an enemy type: the first one listed.
    pub fn get(&self, enemy_type: EnemyType) -> (r: Option<&EnemyDef>)
        ensures
            match r {
                Some(d) => exists|i: int|
                    0 <= i < self.0@.len() && self.0@[i] == *d && d.id == enemy_type && forall|j: int|
                        0 <= j < i ==> self.0@[j].id != enemy_type,
                None => forall|i: int| 0 <= i < self.0@.len() ==> self.0@[i].id != enemy_type,
            },
    {
        let mut i: usize = 0;
        while i < self.0.len()
            invariant
                i <= self.0@.len(),
                forall|j: int| 0 <= j < i ==> self.0@[j].id != enemy_type,
            decreases self.0@.len() - i,
        {
            if self.0[i].id == enemy_type {
                return Some(&self.0[i]);
            }
            i += 1;
        }
        None
    }
}

/// What an ability does.
#[derive(Debug, Clone, Copy, PartialEq, Eq, Hash, Structural)]
pub enum AbilityEffect {
    Damage,
    Heal,
    Shield,
    Buff,
    Debuff,
}

/// When the AI chooses to use an ability: always, or once hit points fall
/// below a share of the maximum, in hundredths.
#[derive(Debug, Clone, Copy, PartialEq, Eq, Hash, Structural)]
pub enum AiPriorityRule {
    Always,
    HpBelowPercent(u32),
}

/// An ability as the database describes it.
#[derive(Debug, Clone)]
pub struct AbilityDef {
    pub id: String,
    pub name: String,
    pub description: String,
    pub range: u32,
    pub cooldown: u32,
    pub effect: AbilityEffect,
    pub ai_priority: AiPriorityRule,
    pub is_signature: bool,
}

/// All ability definitions.
pub struct AbilityDatabase(pub Vec<AbilityDef>);

/// The index of the first ability with an id, if any.
pub open spec fn first_ability(defs: Seq<AbilityDef>, id: Seq<char>) -> Option<int> {
    if exists|i: int| 0 <= i < defs.len() && defs[i].id@ == id {
        Some(choose|i: int| 0 <= i < defs.len() && defs[i].id@ == id && forall|j: int| 0 <= j < i ==> defs[j].id@ != id)
    } else {
        None
    }
}

pub proof fn lemma_first_ability(defs: Seq<AbilityDef>, id: Seq<char>, i: int)
    requires
        0 <= i < defs.len(),
        defs[i].id@ == id,
        forall|j: int| 0 <= j < i ==> defs[j].id@ != id,
    ensures
        first_ability(defs, id) == Some(i),
{
    let c = choose|c: int| 0 <= c < defs.len() && defs[c].id@ == id && forall|j: int| 0 <= j < c ==> defs[j].id@ != id;
    assert(0 <= c < defs.len() && defs[c].id@ == id && forall|j: int| 0 <= j < c ==> defs[j].id@ != id);
    if c < i {
        assert(defs[c].id@ != id);
    }
    if i < c {
        assert(defs[i].id@ != id);
    }
}

impl AbilityDatabase {
    /// The definition of an ability: the first one with that id.
    pub fn get(&self, id: &String) -> (r: Option<&AbilityDef>)
        ensures
            match r {
                Some(d) => first_ability(self.0@, id@) matches Some(i) && 0 <= i < self.0@.len() && self.0@[i] == *d,
                None => first_ability(self.0@, id@) is None,
            },
    {
        let mut i: usize = 0;
        while i < self.0.len()
            invariant
                i <= self.0@.len(),
                forall|j: int| 0 <= j < i ==> self.0@[j].id@ != id@,
            decreases self.0@.len() - i,
        {
            if self.0[i].id == *id {
                proof {
                    lemma_first_ability(self.0@, id@, i as int);
                }
                return Some(&self.0[i]);
            }
            i += 1;
        }
        None
    }
}

} // verus!
