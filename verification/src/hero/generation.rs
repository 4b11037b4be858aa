//! Rolling new heroes: class, traits, name, stats, growth and looks.
//!
//! Growth rates and quality are in thousandths; durations in milliseconds.

use vstd::prelude::*;

use crate::economy::Gold;
use crate::equipment::HeroEquipment;
use crate::mission::entities::{base_move_range, MoveRange};
use crate::rng::{random_index, random_u32, random_u32_inclusive};
use rand::rngs::StdRng;

use super::data::{ClassDatabase, ClassDef, HeroClass, HeroTrait, NameDatabase, StatWeights, TraitDatabase};
use super::epithet::Epithet;
use super::history::HeroHistory;
use super::portrait::HeroPortrait;
use super::progression::{Fatigue, HeroGrowth, HeroInfo, HeroStatProgress, HeroStats, HeroTraits};

verus! {

/// Growth floor per point of class weight, in thousandths.
pub const FLOOR_PER_WEIGHT: u32 = 200;

/// The largest random share of growth (before quality scales it), in thousandths.
pub const MAX_RANDOM_GROWTH: u32 = 1000;

/// Bound on class weights and trait modifiers.
pub const WEIGHT_BOUND: i32 = 1000;

/// Weights within the bound, none negative.
pub open spec fn weights_ok(w: StatWeights) -> bool {
    &&& 0 <= w.str <= WEIGHT_BOUND
    &&& 0 <= w.dex <= WEIGHT_BOUND
    &&& 0 <= w.con <= WEIGHT_BOUND
    &&& 0 <= w.int <= WEIGHT_BOUND
    &&& 0 <= w.wis <= WEIGHT_BOUND
    &&& 0 <= w.cha <= WEIGHT_BOUND
}

/// Weights within the bound; a negative weight counts as none.
pub open spec fn weights_bounded(w: StatWeights) -> bool {
    &&& w.str <= WEIGHT_BOUND
    &&& w.dex <= WEIGHT_BOUND
    &&& w.con <= WEIGHT_BOUND
    &&& w.int <= WEIGHT_BOUND
    &&& w.wis <= WEIGHT_BOUND
    &&& w.cha <= WEIGHT_BOUND
}

/// The growth floor of a class weight: a fifth of a point per weight.
pub open spec fn growth_floor(weight: i32) -> int {
    (if weight >= 0 { weight as int } else { 0int }) * FLOOR_PER_WEIGHT
}

/// A growth rate the roll may give: the floor, plus less than `quality`
/// (none at quality zero).
pub open spec fn growth_in_range(g: u32, weight: i32, quality: int) -> bool {
    growth_floor(weight) <= g && (g < growth_floor(weight) + quality || (quality == 0 && g == growth_floor(weight)))
}

fn roll_one(weight: i32, q: u32, rng: &mut StdRng) -> (g: u32)
    requires
        weight <= WEIGHT_BOUND,
        q <= 1000,
    ensures
        growth_in_range(g, weight, q as int),
        g <= 1000 * WEIGHT_BOUND,
{
    let floor: u32 = if weight >= 0 {
        (weight as u32) * FLOOR_PER_WEIGHT
    } else {
        0
    };
    let r = random_u32(rng, 0, MAX_RANDOM_GROWTH);
    assert(r * q <= 999 * 1000) by (nonlinear_arith)
        requires
            r < 1000,
            q <= 1000,
    ;
    let portion = (r * q) / 1000;
    assert(portion < q || (q == 0 && portion == 0)) by (nonlinear_arith)
        requires
            r < 1000,
            q <= 1000,
            portion == (r * q) / 1000,
    ;
    floor + portion
}

/// Roll the growth of a new hero of a class: each stat a fifth of a point
/// per point of class weight, plus a random share below `quality`
/// thousandths (clamped to one point). A negative weight gives no floor.
pub fn roll_growth(class_def: &ClassDef, quality: u32, rng: &mut StdRng) -> (g: HeroGrowth)
    requires
        weights_bounded(class_def.stat_weights),
    ensures
        ({
            let q = if quality > 1000 { 1000int } else { quality as int };
            let w = class_def.stat_weights;
            &&& growth_in_range(g.strength, w.str, q)
            &&& growth_in_range(g.dexterity, w.dex, q)
            &&& growth_in_range(g.constitution, w.con, q)
            &&& growth_in_range(g.intelligence, w.int, q)
            &&& growth_in_range(g.wisdom, w.wis, q)
            &&& growth_in_range(g.charisma, w.cha, q)
        }),
        g.wf(),
{
    let q = if quality > 1000 { 1000 } else { quality };
    let w = class_def.stat_weights;
    HeroGrowth {
        strength: roll_one(w.str, q, rng),
        dexterity: roll_one(w.dex, q, rng),
        constitution: roll_one(w.con, q, rng),
        intelligence: roll_one(w.int, q, rng),
        wisdom: roll_one(w.wis, q, rng),
        charisma: roll_one(w.cha, q, rng),
    }
}

/// One or two traits drawn from the database, never the same entry twice.
pub fn roll_traits(trait_db: &TraitDatabase, rng: &mut StdRng) -> (traits: Vec<HeroTrait>)
    requires
        trait_db.0@.len() >= 2,
    ensures
        1 <= traits@.len() <= 2,
        traits@.len() == 1 ==> exists|i: int| 0 <= i < trait_db.0@.len() && traits@[0] == trait_db.0@[i].id,
        traits@.len() == 2 ==> exists|i: int, j: int|
            0 <= i < trait_db.0@.len() && 0 <= j < trait_db.0@.len() && i != j && traits@[0] == trait_db.0@[i].id
                && traits@[1] == trait_db.0@[j].id,
{
    let n = trait_db.0.len();
    let count = random_u32_inclusive(rng, 1, 2);
    let i = random_index(rng, n);
    let mut traits: Vec<HeroTrait> = Vec::new();
    traits.push(trait_db.0[i].id);
    if count == 2 {
        let k = random_index(rng, n - 1);
        let j = if k >= i { k + 1 } else { k };
        traits.push(trait_db.0[j].id);
        assert(traits@[0] == trait_db.0@[i as int].id && traits@[1] == trait_db.0@[j as int].id);
    }
    traits
}

/// A random "First Last" name from the name pools.
pub fn roll_name(name_db: &NameDatabase, rng: &mut StdRng) -> (name: String)
    requires
        name_db.0.first_names@.len() > 0,
        name_db.0.surnames@.len() > 0,
    ensures
        exists|i: int, j: int|
            0 <= i < name_db.0.first_names@.len() && 0 <= j < name_db.0.surnames@.len() && name@
                == name_db.0.first_names@[i]@ + " "@ + name_db.0.surnames@[j]@,
{
    let i = random_index(rng, name_db.0.first_names.len());
    let j = random_index(rng, name_db.0.surnames.len());
    let mut name = name_db.0.first_names[i].clone();
    name.append(" ");
    name.append(name_db.0.surnames[j].as_str());
    name
}

/// The bound on weights and modifiers below which no rolled stat can leave `i32`.
pub const WIDE_BOUND: i32 = 268435456;

/// Class weights a starting hero can be rolled with: none above the growth
/// bound, none so negative that a roll could leave `i32`.
pub open spec fn weights_wide(w: StatWeights) -> bool {
    &&& -WIDE_BOUND <= w.str <= WEIGHT_BOUND
    &&& -WIDE_BOUND <= w.dex <= WEIGHT_BOUND
    &&& -WIDE_BOUND <= w.con <= WEIGHT_BOUND
    &&& -WIDE_BOUND <= w.int <= WEIGHT_BOUND
    &&& -WIDE_BOUND <= w.wis <= WEIGHT_BOUND
    &&& -WIDE_BOUND <= w.cha <= WEIGHT_BOUND
}

/// Trait modifiers small enough that two of them keep every stat in `i32`.
pub open spec fn modifiers_wide(w: StatWeights) -> bool {
    &&& -WIDE_BOUND <= w.str <= WIDE_BOUND
    &&& -WIDE_BOUND <= w.dex <= WIDE_BOUND
    &&& -WIDE_BOUND <= w.con <= WIDE_BOUND
    &&& -WIDE_BOUND <= w.int <= WIDE_BOUND
    &&& -WIDE_BOUND <= w.wis <= WIDE_BOUND
    &&& -WIDE_BOUND <= w.cha <= WIDE_BOUND
}

/// Databases a starting hero can be rolled from: some class, at least two
/// traits (with one the roll for a second would never end), some first
/// names and surnames, and weights and modifiers that keep stats in `i32`.
pub open spec fn hero_dbs_ok(class_db: ClassDatabase, trait_db: TraitDatabase, name_db: NameDatabase) -> bool {
    &&& class_db.0@.len() > 0
    &&& trait_db.0@.len() >= 2
    &&& name_db.0.first_names@.len() > 0
    &&& name_db.0.surnames@.len() > 0
    &&& forall|i: int| 0 <= i < class_db.0@.len() ==> weights_wide(#[trigger] class_db.0@[i].stat_weights)
    &&& forall|i: int| 0 <= i < trait_db.0@.len() ==> modifiers_wide(#[trigger] trait_db.0@[i].stat_modifiers)
}

/// Trait modifiers within the bound.
pub open spec fn modifiers_ok(w: StatWeights) -> bool {
    &&& -4 <= w.str <= WEIGHT_BOUND
    &&& -4 <= w.dex <= WEIGHT_BOUND
    &&& -4 <= w.con <= WEIGHT_BOUND
    &&& -4 <= w.int <= WEIGHT_BOUND
    &&& -4 <= w.wis <= WEIGHT_BOUND
    &&& -4 <= w.cha <= WEIGHT_BOUND
}

/// Databases new heroes can be rolled from: some class, at least two
/// traits, some first names and surnames, and weights and modifiers within
/// their bounds.
pub open spec fn rolling_dbs_ok(class_db: ClassDatabase, trait_db: TraitDatabase, name_db: NameDatabase) -> bool {
    &&& class_db.0@.len() > 0
    &&& trait_db.0@.len() >= 2
    &&& name_db.0.first_names@.len() > 0
    &&& name_db.0.surnames@.len() > 0
    &&& forall|i: int| 0 <= i < class_db.0@.len() ==> weights_ok(#[trigger] class_db.0@[i].stat_weights)
    &&& forall|i: int| 0 <= i < trait_db.0@.len() ==> modifiers_ok(#[trigger] trait_db.0@[i].stat_modifiers)
}

/// A stat the roll may give: the base plus once or twice the class weight.
pub open spec fn stat_rolled(v: i32, base: i32, weight: i32) -> bool {
    v == base + weight || v == base + 2 * weight
}

fn roll_stat(base: i32, weight: i32, rng: &mut StdRng) -> (v: i32)
    requires
        0 <= base <= 20,
        -WIDE_BOUND <= weight <= WEIGHT_BOUND,
    ensures
        stat_rolled(v, base, weight),
        weight >= 0 ==> base <= v <= base + 2 * WEIGHT_BOUND,
        base - 2 * WIDE_BOUND <= v <= base + 2 * WEIGHT_BOUND,
{
    let r = random_u32_inclusive(rng, 1, 2);
    if r == 1 {
        base + weight
    } else {
        base + weight * 2
    }
}

/// Stats from a base plus the class weights, each once or twice, at random.
pub open spec fn stats_rolled(s: HeroStats, base: i32, w: StatWeights) -> bool {
    &&& stat_rolled(s.strength, base, w.str)
    &&& stat_rolled(s.dexterity, base, w.dex)
    &&& stat_rolled(s.constitution, base, w.con)
    &&& stat_rolled(s.intelligence, base, w.int)
    &&& stat_rolled(s.wisdom, base, w.wis)
    &&& stat_rolled(s.charisma, base, w.cha)
}

/// Stats with a trait's modifiers added.
pub open spec fn with_modifiers(s: HeroStats, m: StatWeights) -> HeroStats {
    HeroStats {
        strength: (s.strength + m.str) as i32,
        dexterity: (s.dexterity + m.dex) as i32,
        constitution: (s.constitution + m.con) as i32,
        intelligence: (s.intelligence + m.int) as i32,
        wisdom: (s.wisdom + m.wis) as i32,
        charisma: (s.charisma + m.cha) as i32,
    }
}

/// The index of the first definition of a trait, if any.
pub open spec fn first_trait(defs: Seq<super::data::TraitDef>, t: HeroTrait) -> Option<int> {
    if exists|i: int| 0 <= i < defs.len() && defs[i].id == t {
        Some(choose|i: int| 0 <= i < defs.len() && defs[i].id == t && forall|j: int| 0 <= j < i ==> defs[j].id != t)
    } else {
        None
    }
}

/// The modifier of the first definition of a trait (none without one).
pub open spec fn trait_modifier(defs: Seq<super::data::TraitDef>, t: HeroTrait) -> Option<StatWeights> {
    match first_trait(defs, t) {
        Some(i) => Some(defs[i].stat_modifiers),
        None => None,
    }
}

/// Stats after each trait's modifiers, in order.
pub open spec fn modified_stats(s: HeroStats, defs: Seq<super::data::TraitDef>, traits: Seq<HeroTrait>) -> HeroStats
    decreases traits.len(),
{
    if traits.len() == 0 {
        s
    } else {
        let prev = modified_stats(s, defs, traits.drop_last());
        match trait_modifier(defs, traits.last()) {
            Some(m) => with_modifiers(prev, m),
            None => prev,
        }
    }
}

proof fn lemma_trait_modifier(defs: Seq<super::data::TraitDef>, t: HeroTrait, i: int)
    requires
        0 <= i < defs.len(),
        defs[i].id == t,
        forall|j: int| 0 <= j < i ==> defs[j].id != t,
    ensures
        first_trait(defs, t) == Some(i),
        trait_modifier(defs, t) == Some(defs[i].stat_modifiers),
{
    let c = choose|c: int| 0 <= c < defs.len() && defs[c].id == t && forall|j: int| 0 <= j < c ==> defs[j].id != t;
    assert(0 <= c < defs.len() && defs[c].id == t && forall|j: int| 0 <= j < c ==> defs[j].id != t);
    if c < i {
        assert(defs[c].id != t);
    }
    if i < c {
        assert(defs[i].id != t);
    }
}

/// Stats rolled from a base and class weights, then modified by traits.
pub open spec fn stats_from(s: HeroStats, base: i32, w: StatWeights, defs: Seq<super::data::TraitDef>, traits: Seq<HeroTrait>) -> bool {
    exists|r: HeroStats| stats_rolled(r, base, w) && s == modified_stats(r, defs, traits)
}

/// Every stat between `lo` and `hi`.
pub open spec fn stats_within(s: HeroStats, lo: int, hi: int) -> bool {
    &&& lo <= s.strength <= hi
    &&& lo <= s.dexterity <= hi
    &&& lo <= s.constitution <= hi
    &&& lo <= s.intelligence <= hi
    &&& lo <= s.wisdom <= hi
    &&& lo <= s.charisma <= hi
}

fn add_modifiers(s: HeroStats, m: StatWeights) -> (r: HeroStats)
    requires
        stats_within(s, -3 * WIDE_BOUND, 3 * WIDE_BOUND),
        modifiers_wide(m),
    ensures
        r == with_modifiers(s, m),
{
    HeroStats {
        strength: s.strength + m.str,
        dexterity: s.dexterity + m.dex,
        constitution: s.constitution + m.con,
        intelligence: s.intelligence + m.int,
        wisdom: s.wisdom + m.wis,
        charisma: s.charisma + m.cha,
    }
}

/// Roll a hero's stats: the base plus each class weight once or twice, then
/// each trait's modifiers.
#[verifier::spinoff_prover]
#[verifier::rlimit(40)]
pub fn roll_stats(base: i32, class_def: &ClassDef, traits: &Vec<HeroTrait>, trait_db: &TraitDatabase, rng: &mut StdRng) -> (s: HeroStats)
    requires
        8 <= base <= 20,
        weights_wide(class_def.stat_weights),
        traits@.len() <= 2,
        forall|i: int| 0 <= i < trait_db.0@.len() ==> modifiers_wide(#[trigger] trait_db.0@[i].stat_modifiers),
    ensures
        stats_from(s, base, class_def.stat_weights, trait_db.0@, traits@),
        weights_ok(class_def.stat_weights) && (forall|i: int| 0 <= i < trait_db.0@.len() ==> modifiers_ok(#[trigger] trait_db.0@[i].stat_modifiers))
            ==> s.strength + s.dexterity + s.constitution + s.intelligence + s.wisdom + s.charisma >= 0
            && s.strength + s.dexterity + s.constitution + s.intelligence + s.wisdom + s.charisma <= 6 * (20 + 4 * WEIGHT_BOUND),
{
    let ghost narrow = weights_ok(class_def.stat_weights) && (forall|i: int| 0 <= i < trait_db.0@.len() ==> modifiers_ok(#[trigger] trait_db.0@[i].stat_modifiers));
    let w = class_def.stat_weights;
    let rolled = HeroStats {
        strength: roll_stat(base, w.str, rng),
        dexterity: roll_stat(base, w.dex, rng),
        constitution: roll_stat(base, w.con, rng),
        intelligence: roll_stat(base, w.int, rng),
        wisdom: roll_stat(base, w.wis, rng),
        charisma: roll_stat(base, w.cha, rng),
    };
    let mut s = rolled;
    let mut k: usize = 0;
    while k < traits.len()
        invariant
            k <= traits@.len(),
            traits@.len() <= 2,
            0 <= base <= 20,
            forall|i: int| 0 <= i < trait_db.0@.len() ==> modifiers_wide(#[trigger] trait_db.0@[i].stat_modifiers),
            narrow ==> forall|i: int| 0 <= i < trait_db.0@.len() ==> modifiers_ok(#[trigger] trait_db.0@[i].stat_modifiers),
            s == modified_stats(rolled, trait_db.0@, traits@.take(k as int)),
            stats_within(s, base - 2 * WIDE_BOUND - WIDE_BOUND * k, base + 2 * WEIGHT_BOUND + WIDE_BOUND * k),
            narrow ==> stats_within(s, base - 4 * k, base + 2 * WEIGHT_BOUND + WEIGHT_BOUND * k),
        decreases traits@.len() - k,
    {
        assert(traits@.take(k + 1).drop_last() =~= traits@.take(k as int));
        let t = traits[k];
        match trait_db.get(t) {
            Some(def) => {
                proof {
                    let i = choose|i: int|
                        0 <= i < trait_db.0@.len() && trait_db.0@[i] == *def && def.id == t && forall|j: int|
                            0 <= j < i ==> trait_db.0@[j].id != t;
                    lemma_trait_modifier(trait_db.0@, t, i);
                    assert(modifiers_wide(trait_db.0@[i].stat_modifiers));
                    if narrow {
                        assert(modifiers_ok(trait_db.0@[i].stat_modifiers));
                    }
                }
                s = add_modifiers(s, def.stat_modifiers);
            },
            None => {},
        }
        k += 1;
    }
    assert(traits@.take(traits@.len() as int) =~= traits@);
    assert(stats_rolled(rolled, base, class_def.stat_weights));
    s
}

/// Everything a newly hired or starting hero begins with.
#[derive(Debug, Clone)]
pub struct NewHero {
    pub info: HeroInfo,
    pub stats: HeroStats,
    pub traits: HeroTraits,
    pub equipment: HeroEquipment,
    pub growth: HeroGrowth,
    pub progress: HeroStatProgress,
    pub fatigue: Fatigue,
    pub move_range: MoveRange,
    pub history: HeroHistory,
    pub epithet: Epithet,
    pub portrait: HeroPortrait,
}

/// A fresh level-one hero: no experience, a hundred to the next level, no
/// gear, no growth carried, full stamina (a hundred points), the class's
/// move range, an empty history and no title.
pub open spec fn fresh_hero(h: NewHero, name: Seq<char>, class: HeroClass, stats: HeroStats, traits: Seq<HeroTrait>, growth: HeroGrowth, portrait: HeroPortrait) -> bool {
    &&& h.info.name@ == name
    &&& h.info.class == class
    &&& h.info.level == 1
    &&& h.info.xp == 0
    &&& h.info.xp_to_next == 100
    &&& h.stats == stats
    &&& h.traits.0@ == traits
    &&& h.equipment.weapon_tier == 0 && h.equipment.armor_tier == 0 && h.equipment.accessory_tier == 0
    &&& h.equipment.weapon_affix is None && h.equipment.armor_affix is None && h.equipment.accessory_affix is None
    &&& h.growth == growth
    &&& h.progress == (HeroStatProgress { strength: 0, dexterity: 0, constitution: 0, intelligence: 0, wisdom: 0, charisma: 0 })
    &&& h.fatigue == (Fatigue { current: 100000, max_base: 100000 })
    &&& h.move_range.base == (if class == HeroClass::Rogue || class == HeroClass::Ranger { 4u32 } else { 3u32 })
    &&& h.move_range.bonus == 0
    &&& h.history.missions_run == 0 && h.history.kills == 0 && h.history.near_deaths == 0
    &&& h.history.rescues_given == 0 && h.history.rescues_received == 0 && h.history.lifetime_gold == 0
    &&& h.epithet.0 is None
    &&& h.portrait == portrait
}

/// Make the record of a fresh level-one hero.
pub fn make_hero(name: String, class: HeroClass, stats: HeroStats, traits: Vec<HeroTrait>, growth: HeroGrowth, portrait: HeroPortrait) -> (h: NewHero)
    ensures
        fresh_hero(h, name@, class, stats, traits@, growth, portrait),
{
    NewHero {
        info: HeroInfo { name, class, level: 1, xp: 0, xp_to_next: 100 },
        stats,
        traits: HeroTraits(traits),
        equipment: HeroEquipment::empty(),
        growth,
        progress: HeroStatProgress { strength: 0, dexterity: 0, constitution: 0, intelligence: 0, wisdom: 0, charisma: 0 },
        fatigue: Fatigue { current: 100000, max_base: 100000 },
        move_range: base_move_range(class),
        history: HeroHistory::new(),
        epithet: Epithet(None),
        portrait,
    }
}

/// What every randomly rolled hero is: of a class from the database with
/// stats rolled for it from a base of eight, one or two traits, a fresh
/// level-one record, growth in range, full stamina and no title.
pub open spec fn rolled_hero(h: NewHero, class_db: ClassDatabase, trait_db: TraitDatabase) -> bool {
    &&& exists|c: int| 0 <= c < class_db.0@.len() && h.info.class == class_db.0@[c].id
            && stats_from(h.stats, 8, class_db.0@[c].stat_weights, trait_db.0@, h.traits.0@)
    &&& 1 <= h.traits.0@.len() <= 2
    &&& h.info.level == 1 && h.info.xp == 0 && h.info.xp_to_next == 100
    &&& h.growth.wf()
    &&& h.fatigue == (Fatigue { current: 100000, max_base: 100000 })
    &&& h.epithet.0 is None
}

/// A name drawn from the pools: a first name, a space and a surname.
pub open spec fn pooled_name(name: Seq<char>, name_db: NameDatabase) -> bool {
    exists|i: int, j: int|
        0 <= i < name_db.0.first_names@.len() && 0 <= j < name_db.0.surnames@.len() && name == name_db.0.first_names@[i]@ + " "@
            + name_db.0.surnames@[j]@
}

/// Traits drawn from the table: one entry, or two different entries.
pub open spec fn drawn_traits(traits: Seq<HeroTrait>, trait_db: TraitDatabase) -> bool {
    &&& traits.len() == 1 ==> exists|i: int| 0 <= i < trait_db.0@.len() && traits[0] == trait_db.0@[i].id
    &&& traits.len() == 2 ==> exists|i: int, j: int|
        0 <= i < trait_db.0@.len() && 0 <= j < trait_db.0@.len() && i != j && traits[0] == trait_db.0@[i].id && traits[1]
            == trait_db.0@[j].id
}

/// Roll a random starting hero: a class, one or two traits, a name, stats
/// from a base of eight, growth at half quality, and random looks.
pub fn spawn_random_hero(class_db: &ClassDatabase, trait_db: &TraitDatabase, name_db: &NameDatabase, rng: &mut StdRng) -> (h: NewHero)
    requires
        hero_dbs_ok(*class_db, *trait_db, *name_db),
    ensures
        rolled_hero(h, *class_db, *trait_db),
        pooled_name(h.info.name@, *name_db),
        drawn_traits(h.traits.0@, *trait_db),
{
    let c = random_index(rng, class_db.0.len());
    let class_def = &class_db.0[c];
    assert(weights_wide(class_db.0@[c as int].stat_weights));
    let traits = roll_traits(trait_db, rng);
    let name = roll_name(name_db, rng);
    let stats = roll_stats(8, class_def, &traits, trait_db, rng);
    let growth = roll_growth(class_def, 500, rng);
    let portrait = HeroPortrait::random(rng);
    let h = make_hero(name, class_def.id, stats, traits, growth, portrait);
    assert(stats_from(h.stats, 8, class_db.0@[c as int].stat_weights, trait_db.0@, h.traits.0@));
    h
}

/// The gold a new game starts with: enough to hire the first applicant.
pub const STARTING_GOLD: u32 = 60;

/// How many heroes a new game starts with.
pub const STARTER_HEROES: usize = 2;

/// Start a new game's roster: with no heroes yet and no save, two random
/// heroes and the starting gold; otherwise nothing changes.
#[verifier::spinoff_prover]
#[verifier::rlimit(60)]
pub fn spawn_starter_heroes(
    hero_count: usize,
    has_save: bool,
    class_db: &ClassDatabase,
    trait_db: &TraitDatabase,
    name_db: &NameDatabase,
    gold: &mut Gold,
    rng: &mut StdRng,
) -> (heroes: Vec<NewHero>)
    requires
        hero_dbs_ok(*class_db, *trait_db, *name_db),
    ensures
        hero_count == 0 && !has_save ==> {
            &&& heroes@.len() == STARTER_HEROES
            &&& forall|i: int| 0 <= i < heroes@.len() ==> rolled_hero(#[trigger] heroes@[i], *class_db, *trait_db)
            &&& final(gold).0 == STARTING_GOLD
        },
        !(hero_count == 0 && !has_save) ==> heroes@.len() == 0 && final(gold).0 == old(gold).0,
{
    let mut heroes: Vec<NewHero> = Vec::new();
    if hero_count > 0 || has_save {
        return heroes;
    }
    let a = spawn_random_hero(class_db, trait_db, name_db, rng);
    let b = spawn_random_hero(class_db, trait_db, name_db, rng);
    heroes.push(a);
    heroes.push(b);
    gold.0 = STARTING_GOLD;
    heroes
}

} // verus!
