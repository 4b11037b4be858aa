//! Hero data definitions: classes, traits and the databases loaded at startup.

use vstd::prelude::*;

verus! {

/// The class of a hero, determining their stat growth and abilities.
#[derive(Debug, Clone, Copy, PartialEq, Eq, Hash, Structural)]
pub enum HeroClass {
    Warrior,
    Rogue,
    Mage,
    Cleric,
    Ranger,
}

impl HeroClass {
    /// The display name of the class.
    pub fn name(&self) -> (s: &'static str)
        ensures
            s@ == class_name(*self),
    {
        match self {
            HeroClass::Warrior => "Warrior",
            HeroClass::Rogue => "Rogue",
            HeroClass::Mage => "Mage",
            HeroClass::Cleric => "Cleric",
            HeroClass::Ranger => "Ranger",
        }
    }
}

/// The display name of a class.
pub open spec fn class_name(c: HeroClass) -> Seq<char> {
    match c {
        HeroClass::Warrior => "Warrior"@,
        HeroClass::Rogue => "Rogue"@,
        HeroClass::Mage => "Mage"@,
        HeroClass::Cleric => "Cleric"@,
        HeroClass::Ranger => "Ranger"@,
    }
}

/// A personality trait that affects hero behavior and stat growth.
#[derive(Debug, Clone, Copy, PartialEq, Eq, Hash, Structural)]
pub enum HeroTrait {
    Brave,
    Cautious,
    Greedy,
    Loner,
    Leader,
    Cursed,
    Lucky,
}

/// The display name of a trait.
pub open spec fn trait_name(t: HeroTrait) -> Seq<char> {
    match t {
        HeroTrait::Brave => "Brave"@,
        HeroTrait::Cautious => "Cautious"@,
        HeroTrait::Greedy => "Greedy"@,
        HeroTrait::Loner => "Loner"@,
        HeroTrait::Leader => "Leader"@,
        HeroTrait::Cursed => "Cursed"@,
        HeroTrait::Lucky => "Lucky"@,
    }
}

impl HeroTrait {
    /// The display name of the trait.
    pub fn name(&self) -> (s: &'static str)
        ensures
            s@ == trait_name(*self),
    {
        match self {
            HeroTrait::Brave => "Brave",
            HeroTrait::Cautious => "Cautious",
            HeroTrait::Greedy => "Greedy",
            HeroTrait::Loner => "Loner",
            HeroTrait::Leader => "Leader",
            HeroTrait::Cursed => "Cursed",
            HeroTrait::Lucky => "Lucky",
        }
    }
}

/// Weighted stat distribution used for class growth and trait modifiers.
#[derive(Debug, Clone, Copy)]
pub struct StatWeights {
    pub str: i32,
    pub dex: i32,
    pub con: i32,
    pub int: i32,
    pub wis: i32,
    pub cha: i32,
}

/// A class definition loaded from the data files.
#[derive(Debug, Clone)]
pub struct ClassDef {
    pub id: HeroClass,
    pub name: String,
    pub description: String,
    pub stat_weights: StatWeights,
    pub starting_abilities: Vec<String>,
}

/// A trait definition loaded from the data files.
#[derive(Debug, Clone)]
pub struct TraitDef {
    pub id: HeroTrait,
    pub name: String,
    pub description: String,
    pub stat_modifiers: StatWeights,
    pub tags: Vec<String>,
}

/// Name generation pools.
#[derive(Debug, Clone)]
pub struct NamePool {
    pub first_names: Vec<String>,
    pub surnames: Vec<String>,
}

/// Database of class definitions, loaded at startup.
pub struct ClassDatabase(pub Vec<ClassDef>);

/// Database of trait definitions, loaded at startup.
pub struct TraitDatabase(pub Vec<TraitDef>);

/// Database of name pools for hero generation.
pub struct NameDatabase(pub NamePool);

impl ClassDatabase {
    /// The first definition of `class`, if any.
    pub fn get(&self, class: HeroClass) -> (r: Option<&ClassDef>)
        ensures
            match r {
                Some(d) => exists|i: int|
                    0 <= i < self.0@.len() && self.0@[i] == *d && d.id == class && forall|j: int|
                        0 <= j < i ==> self.0@[j].id != class,
                None => forall|j: int| 0 <= j < self.0@.len() ==> self.0@[j].id != class,
            },
    {
        let mut i: usize = 0;
        while i < self.0.len()
            invariant
                i <= self.0@.len(),
                forall|j: int| 0 <= j < i ==> self.0@[j].id != class,
            decreases self.0@.len() - i,
        {
            if self.0[i].id == class {
                return Some(&self.0[i]);
            }
            i += 1;
        }
        None
    }
}

impl TraitDatabase {
    /// The first definition of `hero_trait`, if any.
    pub fn get(&self, hero_trait: HeroTrait) -> (r: Option<&TraitDef>)
        ensures
            match r {
                Some(d) => exists|i: int|
                    0 <= i < self.0@.len() && self.0@[i] == *d && d.id == hero_trait && forall|j: int|
                        0 <= j < i ==> self.0@[j].id != hero_trait,
                None => forall|j: int| 0 <= j < self.0@.len() ==> self.0@[j].id != hero_trait,
            },
    {
        let mut i: usize = 0;
        while i < self.0.len()
            invariant
                i <= self.0@.len(),
                forall|j: int| 0 <= j < i ==> self.0@[j].id != hero_trait,
            decreases self.0@.len() - i,
        {
            if self.0[i].id == hero_trait {
                return Some(&self.0[i]);
            }
            i += 1;
        }
        None
    }
}


/// Whether `t` is among the traits.
pub fn has_trait(traits: &Vec<HeroTrait>, t: HeroTrait) -> (b: bool)
    ensures
        b == traits@.contains(t),
{
    let mut i: usize = 0;
    while i < traits.len()
        invariant
            i <= traits@.len(),
            forall|j: int| 0 <= j < i ==> traits@[j] != t,
        decreases traits@.len() - i,
    {
        if traits[i] == t {
            assert(traits@[i as int] == t);
            return true;
        }
        i += 1;
    }
    false
}

} // verus!
