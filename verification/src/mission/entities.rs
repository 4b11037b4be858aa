//! Mission tokens: the plain data of heroes, enemies and chests inside a
//! dungeon run, and how tokens are made from heroes and mission templates.

use vstd::prelude::*;

use crate::equipment::{first_path, rarity_tenths, scale_round, EquipmentDatabase, GearSlot, HeroEquipment};
use crate::hero::data::{ClassDatabase, HeroClass};
use crate::hero::history::HeroHistory;
use crate::hero::perk::{get_earned_perks, percent_floor, VeteranPerk, MAX_PERKS};
use crate::hero::progression::{Fatigue, HeroInfo, HeroStats};
use crate::rng::random_index;
use crate::text::starts_with_str;
use rand::rngs::StdRng;

use super::data::{enemy_speed_of, has_modifier, EnemyBehavior, EnemyDatabase, EnemyDef, EnemyType, MissionModifier, MissionTemplate};
use super::dungeon::{DungeonMap, Pos, RoomType};

verus! {

/// A tile position on the dungeon grid.
#[derive(Debug, Clone, Copy)]
pub struct GridPosition {
    pub x: u32,
    pub y: u32,
}

/// A path a token is walking, and how far along it is.
#[derive(Debug, Clone)]
pub struct MoveTarget {
    pub path: Vec<Pos>,
    pub path_index: usize,
}

/// Combat numbers of a token.
#[derive(Debug, Clone, Copy)]
pub struct CombatStats {
    pub hp: i32,
    pub max_hp: i32,
    pub attack: i32,
    pub defense: i32,
    pub speed: i32,
}

/// How many tiles a token may move in a turn.
#[derive(Debug, Clone, Copy)]
pub struct MoveRange {
    pub base: u32,
    pub bonus: u32,
}

impl MoveRange {
    /// The full range: base plus bonus.
    pub fn max(&self) -> (m: u32)
        requires
            self.base + self.bonus <= u32::MAX,
        ensures
            m == self.base + self.bonus,
    {
        self.base + self.bonus
    }
}

/// How many mid-mission events have fired, and how many may.
#[derive(Debug, Clone, Copy)]
pub struct MissionEventsState {
    pub events_fired: u32,
    pub max_events: u32,
}

/// The order in which tokens act this round, by token id.
#[derive(Debug, Clone)]
pub struct MissionTurnQueue {
    pub queue: Vec<u64>,
    pub active_index: usize,
    pub round_count: u64,
    pub combat_round_count: u32,
}

impl MissionTurnQueue {
    /// An empty queue, before the first round.
    pub fn new() -> (q: MissionTurnQueue)
        ensures
            q.queue@.len() == 0,
            q.active_index == 0,
            q.round_count == 0,
            q.combat_round_count == 0,
    {
        MissionTurnQueue { queue: Vec::new(), active_index: 0, round_count: 0, combat_round_count: 0 }
    }
}

/// An ability a token holds, and the turns until it is ready again.
#[derive(Debug, Clone)]
pub struct ActiveAbilityState {
    pub ability_id: String,
    pub remaining_cooldown: u32,
}

/// The abilities a token holds.
#[derive(Debug, Clone)]
pub struct ActiveAbilities {
    pub abilities: Vec<ActiveAbilityState>,
}

/// A hero's token, naming the hero on the roster by id.
#[derive(Debug, Clone, Copy)]
pub struct HeroToken(pub u64);

/// An enemy's token.
#[derive(Debug, Clone, Copy)]
pub struct EnemyToken {
    pub enemy_type: EnemyType,
    pub xp_reward: u32,
}

/// How an enemy token fights.
#[derive(Debug, Clone, Copy)]
pub struct EnemyAI {
    pub behavior: EnemyBehavior,
    pub attack_range: u32,
}

/// A chest in a treasure room.
#[derive(Debug, Clone, Copy)]
pub struct LootChest {
    pub gold_reward: u32,
    pub opened: bool,
}

/// The room a token stands in, if any.
#[derive(Debug, Clone, Copy)]
pub struct InRoom(pub Option<usize>);

/// Tiles a token moved through this turn, for the renderer to replay.
#[derive(Debug, Clone)]
pub struct VisualPathHistory {
    pub waypoints: Vec<Pos>,
}

/// Tiles the renderer still has to walk a token through.
#[derive(Debug, Clone)]
pub struct VisualPathQueue {
    pub waypoints: Vec<Pos>,
    pub current_target: Option<Pos>,
}

/// A hit, heal or shield shown over a token.
#[derive(Debug, Clone)]
pub struct VisualHit {
    pub amount: i32,
    pub is_hit: bool,
    pub is_crit: bool,
    pub effect_type: String,
    pub source: Option<u64>,
    pub is_signature: bool,
}

/// Which rooms of a mission's dungeon have been visited and cleared.
#[derive(Debug, Clone)]
pub struct RoomStatus {
    pub visited: Vec<bool>,
    pub cleared: Vec<bool>,
}

impl RoomStatus {
    /// Status for a fresh dungeon: nothing cleared, and only the entrance
    /// (the first room marked so) visited.
    pub fn new_for_dungeon(map: &DungeonMap) -> (s: RoomStatus)
        ensures
            s.visited@.len() == map.rooms@.len(),
            s.cleared@.len() == map.rooms@.len(),
            forall|i: int| 0 <= i < map.rooms@.len() ==> !#[trigger] s.cleared@[i],
            forall|i: int|
                0 <= i < map.rooms@.len() ==> (#[trigger] s.visited@[i] <==> map.spec_entrance_index() == Some(i)),
    {
        let n = map.rooms.len();
        let mut visited: Vec<bool> = Vec::new();
        let mut cleared: Vec<bool> = Vec::new();
        let mut i: usize = 0;
        while i < n
            invariant
                i <= n,
                n == map.rooms@.len(),
                visited@.len() == i,
                cleared@.len() == i,
                forall|j: int| 0 <= j < i ==> !visited@[j] && !cleared@[j],
            decreases n - i,
        {
            visited.push(false);
            cleared.push(false);
            i += 1;
        }
        let e = map.entrance_index();
        proof {
            lemma_entrance_index(*map, e);
        }
        match e {
            Some(e) => {
                visited.set(e, true);
            },
            None => {},
        }
        RoomStatus { visited, cleared }
    }
}

pub proof fn lemma_entrance_index(map: DungeonMap, r: Option<usize>)
    requires
        match r {
            Some(i) => i < map.rooms@.len() && map.rooms@[i as int].room_type == RoomType::Entrance
                && forall|j: int| 0 <= j < i ==> map.rooms@[j].room_type != RoomType::Entrance,
            None => forall|j: int|
                0 <= j < map.rooms@.len() ==> map.rooms@[j].room_type != RoomType::Entrance,
        },
    ensures
        map.spec_entrance_index() == match r {
            Some(i) => Some(i as int),
            None => None::<int>,
        },
{
    let rooms = map.rooms@;
    match r {
        Some(i) => {
            let c = choose|c: int|
                0 <= c < rooms.len() && rooms[c].room_type == RoomType::Entrance && forall|j: int|
                    0 <= j < c ==> rooms[j].room_type != RoomType::Entrance;
            assert(0 <= c < rooms.len() && rooms[c].room_type == RoomType::Entrance);
            if c < i {
                assert(rooms[c].room_type != RoomType::Entrance);
            }
            if (i as int) < c {
                assert(rooms[i as int].room_type != RoomType::Entrance);
            }
        },
        None => {},
    }
}

/// Bound on the stats a token is made from, inside which no sum overflows.
pub const TOKEN_STAT_BOUND: i32 = 100000;

/// A stat as it counts in a mission: three quarters when injured, half when
/// exhausted, both when both, rounded down.
pub open spec fn effective_stat(v: i32, injured: bool, exhausted: bool) -> int {
    (v * (if injured { 3int } else { 4int }) * (if exhausted { 1int } else { 2int })) / 8
}

/// Integer division rounding toward zero, as Rust's `/` does.
pub open spec fn trunc_div(a: int, b: int) -> int {
    if a >= 0 {
        a / b
    } else {
        -((-a) / b)
    }
}

fn effective_stat_of(v: i32, injured: bool, exhausted: bool) -> (r: i32)
    requires
        -TOKEN_STAT_BOUND <= v <= TOKEN_STAT_BOUND,
    ensures
        r == effective_stat(v, injured, exhausted),
        -TOKEN_STAT_BOUND <= r <= TOKEN_STAT_BOUND,
{
    let a: i64 = if injured { 3 } else { 4 };
    let b: i64 = if exhausted { 1 } else { 2 };
    assert(-8 * TOKEN_STAT_BOUND <= v * a * b <= 8 * TOKEN_STAT_BOUND) by (nonlinear_arith)
        requires
            -TOKEN_STAT_BOUND <= v <= TOKEN_STAT_BOUND,
            1 <= a <= 4,
            1 <= b <= 2,
    ;
    let p: i64 = (v as i64) * a * b;
    if p >= 0 {
        (p / 8) as i32
    } else {
        let q: i64 = (-p + 7) / 8;
        assert(-q == p / 8) by (nonlinear_arith)
            requires
                p < 0,
                q == (-p + 7) / 8,
        ;
        (-q) as i32
    }
}

fn half_toward_zero(a: i32) -> (r: i32)
    requires
        -4 * TOKEN_STAT_BOUND <= a <= 4 * TOKEN_STAT_BOUND,
    ensures
        r == trunc_div(a as int, 2),
{
    if a >= 0 {
        a / 2
    } else {
        -((-a) / 2)
    }
}

/// Hit points, attack and defense of a hero's token before perks and gear:
/// three hit points per point of constitution plus five per level, attack
/// the mean of strength and dexterity, defense that of constitution and
/// dexterity (means rounding toward zero), all from the effective stats.
pub open spec fn base_token_stats(info: HeroInfo, stats: HeroStats, injured: bool, exhausted: bool) -> (int, int, int) {
    let s = effective_stat(stats.strength, injured, exhausted);
    let d = effective_stat(stats.dexterity, injured, exhausted);
    let c = effective_stat(stats.constitution, injured, exhausted);
    (c * 3 + info.level * 5, trunc_div(s + d, 2), trunc_div(c + d, 2))
}

/// The stats a token can be made from.
pub open spec fn token_inputs_ok(info: HeroInfo, stats: HeroStats) -> bool {
    &&& -TOKEN_STAT_BOUND <= stats.strength <= TOKEN_STAT_BOUND
    &&& -TOKEN_STAT_BOUND <= stats.dexterity <= TOKEN_STAT_BOUND
    &&& -TOKEN_STAT_BOUND <= stats.constitution <= TOKEN_STAT_BOUND
    &&& info.level <= TOKEN_STAT_BOUND
}

/// Whether a hero with this stamina is exhausted (none left; full when unknown).
pub open spec fn is_exhausted(fatigue: Option<&Fatigue>) -> bool {
    match fatigue {
        Some(f) => f.current <= 0,
        None => false,
    }
}

/// Hit points, attack and defense of a hero's token: the base stats plus
/// the bonuses of the hero's gear.
pub fn calculate_hero_token_stats(
    info: &HeroInfo,
    stats: &HeroStats,
    equipment: Option<&HeroEquipment>,
    fatigue: Option<&Fatigue>,
    is_injured: bool,
    equipment_db: &EquipmentDatabase,
) -> (r: (i32, i32, i32))
    requires
        token_inputs_ok(*info, *stats),
        equipment_db.stats_bounded(),
    ensures
        ({
            let b = base_token_stats(*info, *stats, is_injured, is_exhausted(fatigue));
            let g = match equipment {
                Some(eq) => {
                    let t = eq.total_bonus(*equipment_db, info.class);
                    (t.2, t.0, t.1)
                },
                None => (0, 0, 0),
            };
            r.0 == b.0 + g.0 && r.1 == b.1 + g.1 && r.2 == b.2 + g.2
        }),
{
    let exhausted = match fatigue {
        Some(f) => f.current <= 0,
        None => false,
    };
    let s = effective_stat_of(stats.strength, is_injured, exhausted);
    let d = effective_stat_of(stats.dexterity, is_injured, exhausted);
    let c = effective_stat_of(stats.constitution, is_injured, exhausted);
    let mut hp = c * 3 + (info.level as i32) * 5;
    let mut attack = half_toward_zero(s + d);
    let mut defense = half_toward_zero(c + d);
    match equipment {
        Some(eq) => {
            let g = eq.total_stats(equipment_db, info.class);
            attack = attack + g.attack;
            defense = defense + g.defense;
            hp = hp + g.hp;
        },
        None => {},
    }
    (hp, attack, defense)
}

/// One perk's bonuses applied to (hit points, attack, defense, speed).
pub open spec fn perk_applied(p: VeteranPerk, s: (int, int, int, int)) -> (int, int, int, int) {
    match p {
        VeteranPerk::RescueSpecialist => (percent_floor(s.0, 110), s.1, s.2, s.3),
        VeteranPerk::DeathDefier => (s.0, s.1, s.2 + 2, s.3),
        VeteranPerk::Slayer => (s.0, s.1 + 2, s.2, s.3),
        VeteranPerk::DungeonVanguard => (s.0, s.1, s.2, s.3 + 1),
        VeteranPerk::TreasureHunter => (percent_floor(s.0, 105), s.1 + 1, s.2, s.3),
    }
}

/// Perks applied in order.
pub open spec fn perks_applied(perks: Seq<VeteranPerk>, s: (int, int, int, int)) -> (int, int, int, int)
    decreases perks.len(),
{
    if perks.len() == 0 {
        s
    } else {
        perk_applied(perks.last(), perks_applied(perks.drop_last(), s))
    }
}

/// The stats of a hero's token as it enters a dungeon: base stats, speed
/// equal to effective dexterity, the earned perks applied in order, then the
/// gear bonuses; hit points start full.
pub open spec fn entering_token_stats(
    info: HeroInfo,
    stats: HeroStats,
    equipment: Option<&HeroEquipment>,
    fatigue: Fatigue,
    injured: bool,
    perks: Seq<VeteranPerk>,
    db: EquipmentDatabase,
) -> (int, int, int, int) {
    let exhausted = fatigue.current <= 0;
    let b = base_token_stats(info, stats, injured, exhausted);
    let p = perks_applied(perks, (b.0, b.1, b.2, effective_stat(stats.dexterity, injured, exhausted)));
    match equipment {
        Some(eq) => {
            let t = eq.total_bonus(db, info.class);
            (p.0 + t.2, p.1 + t.0, p.2 + t.1, p.3)
        },
        None => p,
    }
}

/// Gear adds to a token exactly what it grants, stat by stat: beside the
/// same hero without gear, the token has the gear's total attack bonus more
/// attack, its defense bonus more defense, its hit-point bonus more hit
/// points, and the same speed. The bonuses are those of the gear's tiers,
/// each slot's attack, defense and hit points scaled by its rarity.
pub proof fn lemma_gear_adds_its_own_stats(
    info: HeroInfo,
    stats: HeroStats,
    eq: &HeroEquipment,
    fatigue: Fatigue,
    injured: bool,
    perks: Seq<VeteranPerk>,
    db: EquipmentDatabase,
)
    ensures
        ({
            let with = entering_token_stats(info, stats, Some(eq), fatigue, injured, perks, db);
            let without = entering_token_stats(info, stats, None, fatigue, injured, perks, db);
            let w = eq.slot_bonus(db, info.class, GearSlot::Weapon);
            let a = eq.slot_bonus(db, info.class, GearSlot::Armor);
            let c = eq.slot_bonus(db, info.class, GearSlot::Accessory);
            &&& with.1 - without.1 == w.0 + a.0 + c.0
            &&& with.2 - without.2 == w.1 + a.1 + c.1
            &&& with.0 - without.0 == w.2 + a.2 + c.2
            &&& with.3 == without.3
        }),
        forall|slot: GearSlot| {
            let tier = #[trigger] eq.tier_of(slot);
            let b = eq.slot_bonus(db, info.class, slot);
            match first_path(db.0@, info.class, slot) {
                Some(i) => tier >= 1 && tier - 1 < db.0@[i].tiers@.len() ==> {
                    let st = db.0@[i].tiers@[tier - 1].stats;
                    let m = rarity_tenths(eq.rarity_of(slot));
                    &&& b.0 == scale_round(st.attack as int, m)
                    &&& b.1 == scale_round(st.defense as int, m)
                    &&& b.2 == scale_round(st.hp as int, m)
                },
                None => b == (0int, 0int, 0int),
            }
        },
{
}

/// The perks a history has earned.
pub open spec fn earned_perks(h: HeroHistory) -> Seq<VeteranPerk> {
    let q = crate::hero::perk::qualifying_perks(h);
    if q.len() > MAX_PERKS {
        q.take(MAX_PERKS as int)
    } else {
        q
    }
}

/// The combat stats of a hero's token as it enters a dungeon.
pub fn hero_token_stats(
    info: &HeroInfo,
    stats: &HeroStats,
    equipment: Option<&HeroEquipment>,
    fatigue: &Fatigue,
    is_injured: bool,
    history: Option<&HeroHistory>,
    equipment_db: &EquipmentDatabase,
) -> (c: CombatStats)
    requires
        token_inputs_ok(*info, *stats),
        equipment_db.stats_bounded(),
    ensures
        ({
            let perks = match history {
                Some(h) => earned_perks(*h),
                None => Seq::empty(),
            };
            let e = entering_token_stats(*info, *stats, equipment, *fatigue, is_injured, perks, *equipment_db);
            &&& c.hp == e.0 && c.max_hp == e.0
            &&& c.attack == e.1
            &&& c.defense == e.2
            &&& c.speed == e.3
        }),
{
    let exhausted = fatigue.current <= 0;
    let s = effective_stat_of(stats.strength, is_injured, exhausted);
    let d = effective_stat_of(stats.dexterity, is_injured, exhausted);
    let con = effective_stat_of(stats.constitution, is_injured, exhausted);
    let mut hp = con * 3 + (info.level as i32) * 5;
    let mut attack = half_toward_zero(s + d);
    let mut defense = half_toward_zero(con + d);
    let mut speed = d;
    let perks: Vec<VeteranPerk> = match history {
        Some(h) => get_earned_perks(h),
        None => Vec::new(),
    };
    let ghost start = (hp as int, attack as int, defense as int, speed as int);
    let mut k: usize = 0;
    while k < perks.len()
        invariant
            k <= perks@.len(),
            perks@.len() <= MAX_PERKS,
            (hp as int, attack as int, defense as int, speed as int) == perks_applied(perks@.take(k as int), start),
            -1000000 * (k + 1) <= hp <= 1000000 * (k + 1),
            -1000000 <= attack <= 1000000 + 2 * k,
            -1000000 <= defense <= 1000000 + 2 * k,
            -1000000 <= speed <= 1000000 + k,
        decreases perks@.len() - k,
    {
        assert(perks@.take(k + 1).drop_last() =~= perks@.take(k as int));
        let ghost before = (hp as int, attack as int, defense as int, speed as int);
        let p = perks[k];
        p.apply_bonuses(&mut hp, &mut attack, &mut defense, &mut speed);
        proof {
            assert(perks@.take(k + 1).last() == p);
            if p == VeteranPerk::RescueSpecialist {
                assert(percent_floor(before.0, 110) <= 1000000 * (k + 2)) by (nonlinear_arith)
                    requires
                        before.0 <= 1000000 * (k + 1),
                        k <= 3,
                ;
                assert(percent_floor(before.0, 110) >= -1000000 * (k + 2)) by (nonlinear_arith)
                    requires
                        before.0 >= -1000000 * (k + 1),
                        k <= 3,
                ;
            }
            if p == VeteranPerk::TreasureHunter {
                assert(percent_floor(before.0, 105) <= 1000000 * (k + 2)) by (nonlinear_arith)
                    requires
                        before.0 <= 1000000 * (k + 1),
                        k <= 3,
                ;
                assert(percent_floor(before.0, 105) >= -1000000 * (k + 2)) by (nonlinear_arith)
                    requires
                        before.0 >= -1000000 * (k + 1),
                        k <= 3,
                ;
            }
        }
        k += 1;
    }
    assert(perks@.take(perks@.len() as int) =~= perks@);
    match equipment {
        Some(eq) => {
            let g = eq.total_stats(equipment_db, info.class);
            attack = attack + g.attack;
            defense = defense + g.defense;
            hp = hp + g.hp;
        },
        None => {},
    }
    CombatStats { hp, max_hp: hp, attack, defense, speed }
}

/// Where the `i`-th hero of a party starts: around the entrance center,
/// in a two-wide block one tile up and left of it, kept on the grid.
pub open spec fn spawn_position(center: Pos, i: int, width: u32, height: u32) -> (int, int) {
    let ox = (i % 2) - 1;
    let oy = (i / 2) - 1;
    let x = center.0 + ox;
    let y = center.1 + oy;
    (
        if x < 0 { 0 } else if x > width - 1 { width - 1 } else { x },
        if y < 0 { 0 } else if y > height - 1 { height - 1 } else { y },
    )
}

/// The start tile of the `i`-th hero of a party.
pub fn hero_spawn_position(center: Pos, i: usize, width: u32, height: u32) -> (p: Pos)
    requires
        1 <= width <= i32::MAX,
        1 <= height <= i32::MAX,
        center.0 <= i32::MAX,
        center.1 <= i32::MAX,
        i <= i32::MAX,
    ensures
        p.0 == spawn_position(center, i as int, width, height).0,
        p.1 == spawn_position(center, i as int, width, height).1,
{
    let ox: i64 = (i % 2) as i64 - 1;
    let oy: i64 = (i / 2) as i64 - 1;
    let x: i64 = center.0 as i64 + ox;
    let y: i64 = center.1 as i64 + oy;
    let cx: i64 = if x < 0 {
        0
    } else if x > width as i64 - 1 {
        width as i64 - 1
    } else {
        x
    };
    let cy: i64 = if y < 0 {
        0
    } else if y > height as i64 - 1 {
        height as i64 - 1
    } else {
        y
    };
    (cx as u32, cy as u32)
}

/// The move range a class starts with: four for rogues and rangers, three
/// for the rest.
pub fn base_move_range(class: HeroClass) -> (m: MoveRange)
    ensures
        m.base == (if class == HeroClass::Rogue || class == HeroClass::Ranger { 4u32 } else { 3u32 }),
        m.bonus == 0,
{
    match class {
        HeroClass::Rogue | HeroClass::Ranger => MoveRange { base: 4, bonus: 0 },
        _ => MoveRange { base: 3, bonus: 0 },
    }
}

/// The abilities a hero of a class starts a mission with, all ready.
pub fn starting_abilities(class_db: Option<&ClassDatabase>, class: HeroClass) -> (a: ActiveAbilities)
    ensures
        match class_db {
            Some(db) => if exists|i: int| 0 <= i < db.0@.len() && #[trigger] db.0@[i].id == class {
                exists|i: int| {
                    &&& 0 <= i < db.0@.len()
                    &&& #[trigger] db.0@[i].id == class
                    &&& forall|j: int| 0 <= j < i ==> db.0@[j].id != class
                    &&& a.abilities@.len() == db.0@[i].starting_abilities@.len()
                    &&& forall|k: int| 0 <= k < a.abilities@.len() ==> (#[trigger] a.abilities@[k]).ability_id@ == db.0@[i].starting_abilities@[k]@ && a.abilities@[k].remaining_cooldown == 0
                }
            } else {
                a.abilities@.len() == 0
            },
            None => a.abilities@.len() == 0,
        },
{
    let mut abilities: Vec<ActiveAbilityState> = Vec::new();
    match class_db {
        Some(db) => match db.get(class) {
            Some(def) => {
                let mut k: usize = 0;
                while k < def.starting_abilities.len()
                    invariant
                        k <= def.starting_abilities@.len(),
                        abilities@.len() == k,
                        forall|j: int| 0 <= j < k ==> (#[trigger] abilities@[j]).ability_id@ == def.starting_abilities@[j]@ && abilities@[j].remaining_cooldown == 0,
                    decreases def.starting_abilities@.len() - k,
                {
                    abilities.push(ActiveAbilityState { ability_id: def.starting_abilities[k].clone(), remaining_cooldown: 0 });
                    k += 1;
                }
            },
            None => {},
        },
        None => {},
    }
    ActiveAbilities { abilities }
}

/// The gold in a treasure chest: 150 on a bountiful mission, else 100.
pub fn chest_gold(bountiful: bool) -> (g: u32)
    ensures
        g == (if bountiful { 150u32 } else { 100u32 }),
{
    if bountiful {
        150
    } else {
        100
    }
}

/// How many enemies of a kind an infested mission holds: half again, at
/// least one more.
pub open spec fn infested_count(count: u32) -> int {
    count + (if count / 2 >= 1 { count / 2 } else { 1 })
}

/// An enemy token to be placed in the dungeon.
#[derive(Debug, Clone)]
pub struct EnemySpawn {
    pub enemy_type: EnemyType,
    pub name: String,
    pub xp_reward: u32,
    pub behavior: EnemyBehavior,
    pub attack_range: u32,
    pub pos: GridPosition,
    pub room: usize,
    pub stats: CombatStats,
    pub abilities: ActiveAbilities,
}

/// How many enemies of one template entry spawn: none without a
/// definition, the template's count, or the infested count.
pub open spec fn entry_spawn_count(defs: Seq<EnemyDef>, entry: (EnemyType, u32), infested: bool) -> int {
    if exists|i: int| 0 <= i < defs.len() && defs[i].id == entry.0 {
        if infested {
            infested_count(entry.1)
        } else {
            entry.1 as int
        }
    } else {
        0
    }
}

/// The enemy types spawned, in order, for the first `k` template entries.
pub open spec fn spawn_types(entries: Seq<(EnemyType, u32)>, defs: Seq<EnemyDef>, infested: bool) -> Seq<EnemyType>
    decreases entries.len(),
{
    if entries.len() == 0 {
        Seq::empty()
    } else {
        let e = entries.last();
        spawn_types(entries.drop_last(), defs, infested) + Seq::new(
            entry_spawn_count(defs, e, infested) as nat,
            |j: int| e.0,
        )
    }
}

/// The first boss room, if any.
pub open spec fn first_boss_room(rooms: Seq<crate::mission::dungeon::Room>) -> Option<int> {
    if exists|i: int| 0 <= i < rooms.len() && rooms[i].room_type == RoomType::Boss {
        Some(
            choose|i: int|
                0 <= i < rooms.len() && rooms[i].room_type == RoomType::Boss && forall|j: int|
                    0 <= j < i ==> rooms[j].room_type != RoomType::Boss,
        )
    } else {
        None
    }
}

fn boss_room_index(map: &DungeonMap) -> (r: Option<usize>)
    ensures
        match r {
            Some(i) => first_boss_room(map.rooms@) == Some(i as int) && i < map.rooms@.len(),
            None => first_boss_room(map.rooms@) is None,
        },
{
    let mut i: usize = 0;
    while i < map.rooms.len()
        invariant
            i <= map.rooms@.len(),
            forall|j: int| 0 <= j < i ==> map.rooms@[j].room_type != RoomType::Boss,
        decreases map.rooms@.len() - i,
    {
        if map.rooms[i].room_type == RoomType::Boss {
            proof {
                let rooms = map.rooms@;
                let c = choose|c: int|
                    0 <= c < rooms.len() && rooms[c].room_type == RoomType::Boss && forall|j: int|
                        0 <= j < c ==> rooms[j].room_type != RoomType::Boss;
                assert(0 <= c < rooms.len() && rooms[c].room_type == RoomType::Boss && forall|j: int|
                    0 <= j < c ==> rooms[j].room_type != RoomType::Boss);
                if c < i {
                    assert(rooms[c].room_type != RoomType::Boss);
                }
                if (i as int) < c {
                    assert(rooms[i as int].room_type != RoomType::Boss);
                }
            }
            return Some(i);
        }
        i += 1;
    }
    None
}


/// `i` is the first definition of `t` among the enemy definitions.
pub open spec fn is_first_def(defs: Seq<EnemyDef>, t: EnemyType, i: int) -> bool {
    &&& 0 <= i < defs.len()
    &&& defs[i].id == t
    &&& forall|j: int| 0 <= j < i ==> defs[j].id != t
}

/// The spawn carries what the definition says of its kind: name, reward,
/// behavior, range, full hit points, attack, defense, the kind's speed, and
/// its abilities, all ready.
pub open spec fn spawn_from_def(s: EnemySpawn, d: EnemyDef) -> bool {
    &&& s.name@ == d.name@
    &&& s.xp_reward == d.xp_reward
    &&& s.behavior == d.behavior
    &&& s.attack_range == d.attack_range
    &&& s.stats.hp == d.hp
    &&& s.stats.max_hp == d.hp
    &&& s.stats.attack == d.attack
    &&& s.stats.defense == d.defense
    &&& s.stats.speed == enemy_speed_of(s.enemy_type)
    &&& s.abilities.abilities@.len() == d.abilities@.len()
    &&& forall|k: int|
        0 <= k < d.abilities@.len() ==> (#[trigger] s.abilities.abilities@[k]).ability_id@ == d.abilities@[k]@
            && s.abilities.abilities@[k].remaining_cooldown == 0
}

/// Where a spawn stands: a boss in the first boss room when there is one,
/// anyone else in a room other than the entrance; on a walkable tile of the
/// room, or at its center when the room has none.
pub open spec fn spawn_placed(map: DungeonMap, s: EnemySpawn) -> bool {
    let rooms = map.rooms@;
    &&& 0 <= s.room < rooms.len()
    &&& if s.enemy_type == EnemyType::BossRat && first_boss_room(rooms) is Some {
        s.room == first_boss_room(rooms).unwrap()
    } else {
        rooms[s.room as int].room_type != RoomType::Entrance
    }
    &&& {
        let room = rooms[s.room as int];
        if exists|q: Pos| room.contains(q.0 as int, q.1 as int) && #[trigger] map.walkable(q) {
            room.contains(s.pos.x as int, s.pos.y as int) && map.walkable((s.pos.x, s.pos.y))
        } else {
            s.pos.x == room.spec_center().0 && s.pos.y == room.spec_center().1
        }
    }
}

fn enemy_rooms(map: &DungeonMap) -> (v: Vec<usize>)
    ensures
        forall|k: int| 0 <= k < v@.len() ==> v@[k] < map.rooms@.len() && map.rooms@[v@[k] as int].room_type
            != RoomType::Entrance,
        (exists|i: int| 0 <= i < map.rooms@.len() && map.rooms@[i].room_type != RoomType::Entrance) ==> v@.len() > 0,
{
    let mut v: Vec<usize> = Vec::new();
    let mut i: usize = 0;
    while i < map.rooms.len()
        invariant
            i <= map.rooms@.len(),
            forall|k: int| 0 <= k < v@.len() ==> v@[k] < map.rooms@.len() && map.rooms@[v@[k] as int].room_type
                != RoomType::Entrance,
            (exists|j: int| 0 <= j < i && map.rooms@[j].room_type != RoomType::Entrance) ==> v@.len() > 0,
        decreases map.rooms@.len() - i,
    {
        if map.rooms[i].room_type != RoomType::Entrance {
            v.push(i);
        }
        i += 1;
    }
    v
}

/// Place the enemies of a mission template: for each kind the template
/// lists and the database defines, its count (half again, at least one
/// more, when the mission is infested), bosses in the boss room and the
/// rest in random rooms other than the entrance. No enemy spawns when every
/// room is the entrance.
pub fn spawn_enemies_for_mission(
    map: &DungeonMap,
    template: &MissionTemplate,
    enemy_db: &EnemyDatabase,
    modifiers: &[MissionModifier],
    rng: &mut StdRng,
) -> (spawns: Vec<EnemySpawn>)
    requires
        crate::mission::dungeon::grid_ok(*map),
        forall|k: int| 0 <= k < template.enemy_types@.len() ==> (#[trigger] template.enemy_types@[k]).1 <= 1000000000,
    ensures
        ({
            let infested = modifiers@.contains(MissionModifier::Infested);
            let any_room = exists|i: int| 0 <= i < map.rooms@.len() && map.rooms@[i].room_type != RoomType::Entrance;
            let types = if any_room { spawn_types(template.enemy_types@, enemy_db.0@, infested) } else { Seq::empty() };
            &&& spawns@.len() == types.len()
            &&& forall|k: int| 0 <= k < spawns@.len() ==> (#[trigger] spawns@[k]).enemy_type == types[k]
            &&& forall|k: int| 0 <= k < spawns@.len() ==> spawn_placed(*map, #[trigger] spawns@[k])
            &&& forall|k: int| 0 <= k < spawns@.len() ==> exists|i: int|
                is_first_def(enemy_db.0@, (#[trigger] spawns@[k]).enemy_type, i) && spawn_from_def(spawns@[k], enemy_db.0@[i])
        }),
{
    let infested = has_modifier(modifiers, MissionModifier::Infested);
    let rooms = enemy_rooms(map);
    let mut spawns: Vec<EnemySpawn> = Vec::new();
    if rooms.len() == 0 {
        return spawns;
    }
    assert(map.rooms@[rooms@[0] as int].room_type != RoomType::Entrance);
    let boss_room = boss_room_index(map);
    let entries = &template.enemy_types;
    let mut e: usize = 0;
    while e < entries.len()
        invariant
            crate::mission::dungeon::grid_ok(*map),
            forall|k: int| 0 <= k < entries@.len() ==> (#[trigger] entries@[k]).1 <= 1000000000,
            entries == &template.enemy_types,
            infested == modifiers@.contains(MissionModifier::Infested),
            rooms@.len() > 0,
            forall|k: int| 0 <= k < rooms@.len() ==> rooms@[k] < map.rooms@.len() && map.rooms@[rooms@[k] as int].room_type
                != RoomType::Entrance,
            match boss_room {
                Some(i) => first_boss_room(map.rooms@) == Some(i as int) && i < map.rooms@.len(),
                None => first_boss_room(map.rooms@) is None,
            },
            e <= entries@.len(),
            spawns@.len() == spawn_types(entries@.take(e as int), enemy_db.0@, infested).len(),
            forall|k: int| 0 <= k < spawns@.len() ==> (#[trigger] spawns@[k]).enemy_type == spawn_types(entries@.take(e as int), enemy_db.0@, infested)[k],
            forall|k: int| 0 <= k < spawns@.len() ==> spawn_placed(*map, #[trigger] spawns@[k]),
            forall|k: int| 0 <= k < spawns@.len() ==> exists|i: int|
                is_first_def(enemy_db.0@, (#[trigger] spawns@[k]).enemy_type, i) && spawn_from_def(spawns@[k], enemy_db.0@[i]),
        decreases entries@.len() - e,
    {
        let (enemy_type, count) = entries[e];
        let ghost before = spawns@;
        let ghost prefix = spawn_types(entries@.take(e as int), enemy_db.0@, infested);
        assert(entries@.take(e + 1).drop_last() =~= entries@.take(e as int));
        assert(entries@.take(e + 1).last() == (enemy_type, count));
        match enemy_db.get(enemy_type) {
            None => {
                assert(entry_spawn_count(enemy_db.0@, (enemy_type, count), infested) == 0);
                assert(spawn_types(entries@.take(e + 1), enemy_db.0@, infested) =~= prefix);
            },
            Some(def) => {
                let ghost di = choose|i: int|
                    0 <= i < enemy_db.0@.len() && enemy_db.0@[i] == *def && def.id == enemy_type && forall|j: int|
                        0 <= j < i ==> enemy_db.0@[j].id != enemy_type;
                assert(is_first_def(enemy_db.0@, enemy_type, di));
                let total: u32 = if infested {
                    count + (if count / 2 >= 1 { count / 2 } else { 1 })
                } else {
                    count
                };
                assert(total == entry_spawn_count(enemy_db.0@, (enemy_type, count), infested));
                let mut c: u32 = 0;
                while c < total
                    invariant
                        crate::mission::dungeon::grid_ok(*map),
                        rooms@.len() > 0,
                        forall|k: int| 0 <= k < rooms@.len() ==> rooms@[k] < map.rooms@.len() && map.rooms@[rooms@[k] as int].room_type
                            != RoomType::Entrance,
                        match boss_room {
                            Some(i) => first_boss_room(map.rooms@) == Some(i as int) && i < map.rooms@.len(),
                            None => first_boss_room(map.rooms@) is None,
                        },
                        is_first_def(enemy_db.0@, enemy_type, di),
                        enemy_db.0@[di] == *def,
                        c <= total,
                        spawns@.len() == before.len() + c,
                        forall|k: int| 0 <= k < before.len() ==> spawns@[k] == before[k],
                        forall|k: int| before.len() <= k < spawns@.len() ==> (#[trigger] spawns@[k]).enemy_type == enemy_type,
                        forall|k: int| 0 <= k < spawns@.len() ==> spawn_placed(*map, #[trigger] spawns@[k]),
                        forall|k: int| 0 <= k < before.len() ==> exists|i: int|
                            is_first_def(enemy_db.0@, (#[trigger] spawns@[k]).enemy_type, i) && spawn_from_def(spawns@[k], enemy_db.0@[i]),
                        forall|k: int| before.len() <= k < spawns@.len() ==> spawn_from_def(#[trigger] spawns@[k], enemy_db.0@[di]),
                    decreases total - c,
                {
                    let room_idx: usize = if enemy_type.is_boss() && boss_room.is_some() {
                        match boss_room {
                            Some(b) => b,
                            None => 0,
                        }
                    } else {
                        rooms[random_index(rng, rooms.len())]
                    };
                    proof {
                        assert(crate::mission::dungeon::room_ok(map.rooms@[room_idx as int], map.width, map.height));
                    }
                    let pos = match map.random_walkable_in_room(room_idx, rng) {
                        Some(p) => p,
                        None => map.rooms[room_idx].center(),
                    };
                    let mut abilities: Vec<ActiveAbilityState> = Vec::new();
                    let mut a: usize = 0;
                    while a < def.abilities.len()
                        invariant
                            a <= def.abilities@.len(),
                            abilities@.len() == a,
                            forall|j: int| 0 <= j < a ==> (#[trigger] abilities@[j]).ability_id@ == def.abilities@[j]@ && abilities@[j].remaining_cooldown == 0,
                        decreases def.abilities@.len() - a,
                    {
                        abilities.push(ActiveAbilityState { ability_id: def.abilities[a].clone(), remaining_cooldown: 0 });
                        a += 1;
                    }
                    let s = EnemySpawn {
                        enemy_type,
                        name: def.name.clone(),
                        xp_reward: def.xp_reward,
                        behavior: def.behavior,
                        attack_range: def.attack_range,
                        pos: GridPosition { x: pos.0, y: pos.1 },
                        room: room_idx,
                        stats: CombatStats {
                            hp: def.hp,
                            max_hp: def.hp,
                            attack: def.attack,
                            defense: def.defense,
                            speed: enemy_type.speed(),
                        },
                        abilities: ActiveAbilities { abilities },
                    };
                    assert(spawn_placed(*map, s));
                    assert(spawn_from_def(s, enemy_db.0@[di]));
                    spawns.push(s);
                    c += 1;
                }
                proof {
                    let added = Seq::new(total as nat, |j: int| enemy_type);
                    assert(spawn_types(entries@.take(e + 1), enemy_db.0@, infested) =~= prefix + added);
                    assert forall|k: int| 0 <= k < spawns@.len() implies (#[trigger] spawns@[k]).enemy_type == spawn_types(entries@.take(e + 1), enemy_db.0@, infested)[k] by {
                        if k < before.len() {
                            assert(spawns@[k] == before[k]);
                        }
                    }
                    assert forall|k: int| before.len() <= k < spawns@.len() implies exists|i: int|
                        is_first_def(enemy_db.0@, (#[trigger] spawns@[k]).enemy_type, i) && spawn_from_def(spawns@[k], enemy_db.0@[i]) by {
                        assert(is_first_def(enemy_db.0@, spawns@[k].enemy_type, di));
                    }
                }
            },
        }
        e += 1;
    }
    assert(entries@.take(entries@.len() as int) =~= entries@);
    spawns
}

/// Whether `s` begins with `p`.
pub open spec fn has_prefix(s: Seq<char>, p: Seq<char>) -> bool {
    p.len() <= s.len() && s.subrange(0, p.len() as int) == p
}

/// A token's name as the log shows it: without the "Hero Token: " or
/// "Enemy: " it was given on the map; `default` for a token without one.
pub open spec fn clean_name_of(name: Option<Seq<char>>, default: Seq<char>) -> Seq<char> {
    match name {
        Some(s) => if has_prefix(s, "Hero Token: "@) {
            s.subrange("Hero Token: "@.len() as int, s.len() as int)
        } else if has_prefix(s, "Enemy: "@) {
            s.subrange("Enemy: "@.len() as int, s.len() as int)
        } else {
            s
        },
        None => default,
    }
}

/// A token's name as the log shows it.
pub fn clean_name(name: Option<&str>, default: &str) -> (s: String)
    ensures
        s@ == clean_name_of(
            match name {
                Some(n) => Some(n@),
                None => None,
            },
            default@,
        ),
{
    match name {
        Some(n) => {
            let len = n.unicode_len();
            if starts_with_str(n, "Hero Token: ") {
                let p = "Hero Token: ".unicode_len();
                String::from_str(n.substring_char(p, len))
            } else if starts_with_str(n, "Enemy: ") {
                let p = "Enemy: ".unicode_len();
                String::from_str(n.substring_char(p, len))
            } else {
                String::from_str(n)
            }
        },
        None => String::from_str(default),
    }
}

} // verus!
