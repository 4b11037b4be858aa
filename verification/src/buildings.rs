//! Guild buildings: their levels, the caps they raise, and upgrades.

use vstd::prelude::*;

use crate::economy::Gold;
use crate::localization::{args_view, interpolate, tr_spec, StringTable};
use crate::materials::{affords_each, spend_each, MaterialType, Materials};
use crate::text::{decimal, u64_to_string};

verus! {

/// Number of building types.
pub const BUILDING_COUNT: usize = 7;

#[derive(Debug, Clone, Copy, PartialEq, Eq, Hash, Structural)]
pub enum BuildingType {
    Armory,
    TrainingGrounds,
    Barracks,
    RecruitmentOffice,
    Workshop,
    Tavern,
    WarRoom,
}

/// Position of a building type in the list of all buildings.
pub open spec fn building_index(b: BuildingType) -> int {
    match b {
        BuildingType::Armory => 0,
        BuildingType::TrainingGrounds => 1,
        BuildingType::Barracks => 2,
        BuildingType::RecruitmentOffice => 3,
        BuildingType::Workshop => 4,
        BuildingType::Tavern => 5,
        BuildingType::WarRoom => 6,
    }
}

/// The string-table key of a building's name.
pub open spec fn building_name_key(b: BuildingType) -> Seq<char> {
    match b {
        BuildingType::Armory => "building.armory"@,
        BuildingType::TrainingGrounds => "building.training_grounds"@,
        BuildingType::Barracks => "building.barracks"@,
        BuildingType::RecruitmentOffice => "building.recruitment_office"@,
        BuildingType::Workshop => "building.workshop"@,
        BuildingType::Tavern => "building.tavern"@,
        BuildingType::WarRoom => "building.war_room"@,
    }
}

/// The string-table key of a building's description.
pub open spec fn building_description_key(b: BuildingType) -> Seq<char> {
    match b {
        BuildingType::Armory => "building.armory.desc"@,
        BuildingType::TrainingGrounds => "building.training_grounds.desc"@,
        BuildingType::Barracks => "building.barracks.desc"@,
        BuildingType::RecruitmentOffice => "building.recruitment_office.desc"@,
        BuildingType::Workshop => "building.workshop.desc"@,
        BuildingType::Tavern => "building.tavern.desc"@,
        BuildingType::WarRoom => "building.war_room.desc"@,
    }
}

impl BuildingType {
    /// Position of the building type in the list of all buildings.
    pub fn index(&self) -> (i: usize)
        ensures
            i == building_index(*self),
            i < BUILDING_COUNT,
    {
        match self {
            BuildingType::Armory => 0,
            BuildingType::TrainingGrounds => 1,
            BuildingType::Barracks => 2,
            BuildingType::RecruitmentOffice => 3,
            BuildingType::Workshop => 4,
            BuildingType::Tavern => 5,
            BuildingType::WarRoom => 6,
        }
    }

    /// Every building type, in order.
    pub fn all() -> (v: Vec<BuildingType>)
        ensures
            v@.len() == BUILDING_COUNT,
            forall|i: int| 0 <= i < v@.len() ==> building_index(#[trigger] v@[i]) == i,
    {
        vec![
            BuildingType::Armory,
            BuildingType::TrainingGrounds,
            BuildingType::Barracks,
            BuildingType::RecruitmentOffice,
            BuildingType::Workshop,
            BuildingType::Tavern,
            BuildingType::WarRoom,
        ]
    }

    /// The string-table key of the building's name.
    pub fn name_key(&self) -> (s: &'static str)
        ensures
            s@ == building_name_key(*self),
    {
        match self {
            BuildingType::Armory => "building.armory",
            BuildingType::TrainingGrounds => "building.training_grounds",
            BuildingType::Barracks => "building.barracks",
            BuildingType::RecruitmentOffice => "building.recruitment_office",
            BuildingType::Workshop => "building.workshop",
            BuildingType::Tavern => "building.tavern",
            BuildingType::WarRoom => "building.war_room",
        }
    }

    /// The string-table key of the building's description.
    pub fn description_key(&self) -> (s: &'static str)
        ensures
            s@ == building_description_key(*self),
    {
        match self {
            BuildingType::Armory => "building.armory.desc",
            BuildingType::TrainingGrounds => "building.training_grounds.desc",
            BuildingType::Barracks => "building.barracks.desc",
            BuildingType::RecruitmentOffice => "building.recruitment_office.desc",
            BuildingType::Workshop => "building.workshop.desc",
            BuildingType::Tavern => "building.tavern.desc",
            BuildingType::WarRoom => "building.war_room.desc",
        }
    }

    /// The building's name, from the string table.
    pub fn name(&self, table: &StringTable) -> (s: String)
        ensures
            s@ == tr_spec(table.view_entries(), building_name_key(*self)),
    {
        table.tr(self.name_key())
    }

    /// The building's description, from the string table.
    pub fn description(&self, table: &StringTable) -> (s: String)
        ensures
            s@ == tr_spec(table.view_entries(), building_description_key(*self)),
    {
        table.tr(self.description_key())
    }
}

/// The price of one building level.
#[derive(Debug, Clone)]
pub struct BuildingCost {
    pub gold: u32,
    pub materials: Vec<(MaterialType, u32)>,
}

/// A building's upgrade path.
#[derive(Debug, Clone)]
pub struct BuildingDef {
    pub id: BuildingType,
    pub level_costs: Vec<BuildingCost>,
    pub max_level: u32,
}

/// Every building definition, loaded at startup.
#[derive(Debug, Clone)]
pub struct BuildingDatabase(pub Vec<BuildingDef>);

/// Index of the first definition of `b`, if any.
pub open spec fn first_def(defs: Seq<BuildingDef>, b: BuildingType) -> Option<int> {
    if exists|i: int| 0 <= i < defs.len() && defs[i].id == b {
        Some(choose|i: int| 0 <= i < defs.len() && defs[i].id == b && forall|j: int| 0 <= j < i ==> defs[j].id != b)
    } else {
        None
    }
}

/// The first definition of `b` is at `i`.
pub proof fn lemma_first_def(defs: Seq<BuildingDef>, b: BuildingType, i: int)
    requires
        0 <= i < defs.len(),
        defs[i].id == b,
        forall|j: int| 0 <= j < i ==> defs[j].id != b,
    ensures
        first_def(defs, b) == Some(i),
{
    let c = choose|c: int| 0 <= c < defs.len() && defs[c].id == b && forall|j: int| 0 <= j < c ==> defs[j].id != b;
    assert(0 <= c < defs.len() && defs[c].id == b && forall|j: int| 0 <= j < c ==> defs[j].id != b);
    if c < i {
        assert(defs[c].id != b);
    }
    if i < c {
        assert(defs[i].id != b);
    }
}

impl BuildingDatabase {
    /// Every definition lists a cost for each level below its maximum.
    pub open spec fn wf(&self) -> bool {
        forall|i: int| 0 <= i < self.0@.len() ==> #[trigger] self.0@[i].level_costs@.len() >= self.0@[i].max_level
    }

    /// Position of the first definition of `building`, if any.
    pub fn position(&self, building: BuildingType) -> (r: Option<usize>)
        ensures
            match r {
                Some(i) => first_def(self.0@, building) == Some(i as int) && i < self.0@.len(),
                None => first_def(self.0@, building) is None,
            },
    {
        let mut i: usize = 0;
        while i < self.0.len()
            invariant
                i <= self.0@.len(),
                forall|j: int| 0 <= j < i ==> self.0@[j].id != building,
            decreases self.0@.len() - i,
        {
            if self.0[i].id == building {
                proof {
                    lemma_first_def(self.0@, building, i as int);
                }
                return Some(i);
            }
            i += 1;
        }
        None
    }

    /// The first definition of `building`, if any.
    pub fn get(&self, building: BuildingType) -> (r: Option<&BuildingDef>)
        ensures
            match r {
                Some(d) => exists|i: int|
                    0 <= i < self.0@.len() && self.0@[i] == *d && d.id == building && forall|j: int|
                        0 <= j < i ==> self.0@[j].id != building,
                None => forall|j: int| 0 <= j < self.0@.len() ==> self.0@[j].id != building,
            },
    {
        let mut i: usize = 0;
        while i < self.0.len()
            invariant
                i <= self.0@.len(),
                forall|j: int| 0 <= j < i ==> self.0@[j].id != building,
            decreases self.0@.len() - i,
        {
            if self.0[i].id == building {
                return Some(&self.0[i]);
            }
            i += 1;
        }
        None
    }
}

/// The level of each building, indexed by `building_index`.
#[derive(Debug, Clone)]
pub struct GuildBuildings {
    levels: Vec<u32>,
}

impl GuildBuildings {
    /// The level of each building, indexed by `building_index`.
    pub closed spec fn view(&self) -> Seq<u32> {
        self.levels@
    }

    /// One level per building type.
    pub closed spec fn wf(&self) -> bool {
        self.levels@.len() == BUILDING_COUNT
    }

    /// The level of building `b`.
    pub open spec fn level_of(&self, b: BuildingType) -> u32 {
        self.view()[building_index(b)]
    }

    /// Every building at level 0.
    pub fn new() -> (r: GuildBuildings)
        ensures
            r.wf(),
            r.view().len() == BUILDING_COUNT,
            forall|i: int| 0 <= i < BUILDING_COUNT ==> #[trigger] r.view()[i] == 0,
    {
        let mut levels: Vec<u32> = Vec::new();
        let mut i: usize = 0;
        while i < BUILDING_COUNT
            invariant
                i <= BUILDING_COUNT,
                levels@.len() == i,
                forall|j: int| 0 <= j < i ==> levels@[j] == 0,
            decreases BUILDING_COUNT - i,
        {
            levels.push(0);
            i += 1;
        }
        GuildBuildings { levels }
    }

    /// The level of a building.
    pub fn level(&self, building: BuildingType) -> (l: u32)
        requires
            self.wf(),
        ensures
            l == self.level_of(building),
    {
        self.levels[building.index()]
    }

    /// Set the level of a building.
    pub fn set_level(&mut self, building: BuildingType, level: u32)
        requires
            old(self).wf(),
        ensures
            final(self).wf(),
            final(self).view() == old(self).view().update(building_index(building), level),
    {
        self.levels.set(building.index(), level);
    }

    /// How many heroes the roster holds: 3, plus 2 per Barracks level.
    pub fn roster_cap(&self) -> (c: u32)
        requires
            self.wf(),
            3 + 2 * self.level_of(BuildingType::Barracks) <= u32::MAX,
        ensures
            c == 3 + 2 * self.level_of(BuildingType::Barracks),
    {
        3 + self.level(BuildingType::Barracks) * 2
    }

    /// How many applicants the board holds: 3, plus 1 per Recruitment Office level.
    pub fn max_applicants(&self) -> (c: u32)
        requires
            self.wf(),
            3 + self.level_of(BuildingType::RecruitmentOffice) <= u32::MAX,
        ensures
            c == 3 + self.level_of(BuildingType::RecruitmentOffice),
    {
        3 + self.level(BuildingType::RecruitmentOffice)
    }

    /// How many missions may run concurrently. War Room raises the ceiling.
    pub fn mission_cap(&self) -> (c: u32)
        requires
            self.wf(),
            3 + self.level_of(BuildingType::WarRoom) <= u32::MAX,
        ensures
            c == 3 + self.level_of(BuildingType::WarRoom),
    {
        3 + self.level(BuildingType::WarRoom)
    }

    /// Whether another mission may be dispatched.
    pub fn can_dispatch(&self, active_missions: usize) -> (b: bool)
        requires
            self.wf(),
            3 + self.level_of(BuildingType::WarRoom) <= u32::MAX,
        ensures
            b == (active_missions < 3 + self.level_of(BuildingType::WarRoom)),
    {
        (active_missions as u64) < (self.mission_cap() as u64)
    }
}

/// Why an upgrade did not happen.
#[derive(Debug, Clone, Copy, PartialEq, Eq, Structural)]
pub enum UpgradeError {
    /// The database has no definition for the building.
    Unknown,
    /// The building is already at its maximum level.
    MaxLevel,
    /// Not enough gold for the next level.
    NotEnoughGold,
    /// Some material of the next level's cost is short.
    NotEnoughMaterials,
}

/// Upgrade a building by one level, paying its cost. Returns the new level.
pub fn upgrade_building(
    buildings: &mut GuildBuildings,
    db: &BuildingDatabase,
    building: BuildingType,
    gold: &mut Gold,
    materials: &mut Materials,
) -> (r: Result<u32, UpgradeError>)
    requires
        old(buildings).wf(),
        old(materials).wf(),
        db.wf(),
    ensures
        final(buildings).wf(),
        final(materials).wf(),
        ({
            let level = old(buildings).level_of(building);
            match first_def(db.0@, building) {
                None => r == Err::<u32, UpgradeError>(UpgradeError::Unknown),
                Some(i) => {
                    let def = db.0@[i];
                    if level >= def.max_level {
                        r == Err::<u32, UpgradeError>(UpgradeError::MaxLevel)
                    } else {
                        let cost = def.level_costs@[level as int];
                        if old(gold).0 < cost.gold {
                            r == Err::<u32, UpgradeError>(UpgradeError::NotEnoughGold)
                        } else if !affords_each(old(materials).view(), cost.materials@) {
                            r == Err::<u32, UpgradeError>(UpgradeError::NotEnoughMaterials)
                        } else {
                            &&& r == Ok::<u32, UpgradeError>((level + 1) as u32)
                            &&& final(gold).0 == old(gold).0 - cost.gold
                            &&& final(materials).view() == spend_each(old(materials).view(), cost.materials@)
                            &&& final(buildings).view() == old(buildings).view().update(
                                building_index(building),
                                (level + 1) as u32,
                            )
                        }
                    }
                },
            }
        }),
        r is Err ==> final(gold).0 == old(gold).0 && *final(materials) == *old(materials)
            && *final(buildings) == *old(buildings),
{
    let current_level = buildings.level(building);
    let idx = match db.position(building) {
        Some(i) => i,
        None => {
            return Err(UpgradeError::Unknown);
        },
    };
    let def = &db.0[idx];
    assert(def.level_costs@.len() >= def.max_level);
    if current_level >= def.max_level {
        return Err(UpgradeError::MaxLevel);
    }
    let cost = &def.level_costs[current_level as usize];
    if gold.0 < cost.gold {
        return Err(UpgradeError::NotEnoughGold);
    }
    if !materials.affords_each(&cost.materials) {
        return Err(UpgradeError::NotEnoughMaterials);
    }
    gold.0 = gold.0 - cost.gold;
    materials.spend_each(&cost.materials);
    let new_level = current_level + 1;
    buildings.set_level(building, new_level);
    Ok(new_level)
}

/// The upgrade toast: title and body, from the string table.
pub fn upgrade_toast(table: &StringTable, building: BuildingType, new_level: u32) -> (r: (String, String))
    ensures
        r.0@ == interpolate(
            tr_spec(table.view_entries(), "building.upgraded_toast"@),
            seq![("name"@, tr_spec(table.view_entries(), building_name_key(building)))],
        ),
        r.1@ == interpolate(
            tr_spec(table.view_entries(), "building.upgraded_body"@),
            seq![("level"@, decimal(new_level as nat))],
        ),
{
    let name = building.name(table);
    let level = u64_to_string(new_level as u64);
    let title_args = [("name", name.as_str())];
    let title = table.trf("building.upgraded_toast", &title_args);
    let body_args = [("level", level.as_str())];
    let body = table.trf("building.upgraded_body", &body_args);
    proof {
        assert(args_view(title_args@) =~= seq![("name"@, name@)]);
        assert(args_view(body_args@) =~= seq![("level"@, level@)]);
    }
    (title, body)
}

} // verus!
