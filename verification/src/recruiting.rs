//! The applicant board: who applies to join the guild, what they cost, how
//! long they wait, and hiring them.
//!
//! Quality is in thousandths; times in milliseconds.

use vstd::prelude::*;

use crate::buildings::{BuildingType, GuildBuildings};
use crate::hero::data::{class_name, ClassDatabase, HeroClass, HeroTrait, NameDatabase, TraitDatabase};
use crate::economy::Gold;
use crate::hero::generation::{fresh_hero, make_hero, STARTER_HEROES, STARTING_GOLD, roll_growth, roll_name, roll_stats, roll_traits, rolling_dbs_ok, stats_from, weights_ok, NewHero};
use crate::hero::portrait::HeroPortrait;
use crate::hero::progression::{HeroGrowth, HeroStats};
use crate::localization::{args_view, interpolate, tr_spec, StringTable};
use crate::reputation::{reputation_tier, Reputation};
use crate::rng::{random_i32_inclusive, random_index, random_u32_inclusive};
use crate::text::{decimal, u64_to_string};
use rand::rngs::StdRng;

verus! {

/// Time between applicant arrivals: an hour.
pub const ARRIVAL_INTERVAL_MS: i64 = 3600000;

/// Shortest time an applicant waits: four hours.
pub const MIN_AVAILABILITY_MS: u32 = 14400000;

/// Longest time an applicant waits: eight hours.
pub const MAX_AVAILABILITY_MS: u32 = 28800000;

/// Reputation tiers and office levels that make the best quality.
pub const MAX_QUALITY_INPUT: u32 = 6;

/// Random spread of quality either way, in thousandths.
pub const QUALITY_JITTER: i32 = 200;

/// The most the first applicant of a new game costs.
pub const STARTER_APPLICANT_MAX_COST: u32 = 50;

/// Someone who wants to join the guild.
#[derive(Debug, Clone)]
pub struct Applicant {
    pub name: String,
    pub class: HeroClass,
    pub traits: Vec<HeroTrait>,
    pub stats: HeroStats,
    pub growth: HeroGrowth,
    pub hire_cost: u32,
    pub time_remaining_ms: i64,
    pub portrait: HeroPortrait,
}

/// The applicants waiting, and the time until the next one arrives.
#[derive(Debug, Clone)]
pub struct ApplicantBoard {
    pub applicants: Vec<Applicant>,
    pub next_arrival_ms: i64,
}

impl ApplicantBoard {
    /// An empty board, the next applicant an hour away.
    pub fn new() -> (b: ApplicantBoard)
        ensures
            b.applicants@.len() == 0,
            b.next_arrival_ms == ARRIVAL_INTERVAL_MS,
    {
        ApplicantBoard { applicants: Vec::new(), next_arrival_ms: ARRIVAL_INTERVAL_MS }
    }
}

/// The sum of a hero's six stats.
pub open spec fn stat_total(s: HeroStats) -> int {
    s.strength + s.dexterity + s.constitution + s.intelligence + s.wisdom + s.charisma
}

/// What an applicant costs: twenty gold plus two per stat point.
pub open spec fn hire_cost_of(s: HeroStats) -> int {
    20 + 2 * stat_total(s)
}

/// The quality of an applicant's growth before jitter: reputation tiers
/// past the first plus the recruitment office's level, out of six, in
/// thousandths (rounded down).
pub open spec fn quality_base(tier: u32, office: u32) -> int {
    ((tier - 1 + office) * 1000) / MAX_QUALITY_INPUT as int
}

/// Quality kept between zero and one.
pub open spec fn clamp_quality(q: int) -> int {
    if q < 0 {
        0
    } else if q > 1000 {
        1000
    } else {
        q
    }
}

/// What every rolled applicant is: of a class from the database, with stats
/// rolled for that class from a base of eight plus the reputation tiers past
/// the first, one or two traits, the price those stats set, a wait of four
/// to eight hours, and growth in range.
pub open spec fn rolled_applicant(a: Applicant, tier: int, class_db: ClassDatabase, trait_db: TraitDatabase) -> bool {
    &&& exists|c: int| 0 <= c < class_db.0@.len() && a.class == class_db.0@[c].id
            && stats_from(a.stats, (8 + tier - 1) as i32, class_db.0@[c].stat_weights, trait_db.0@, a.traits@)
    &&& 1 <= a.traits@.len() <= 2
    &&& a.hire_cost == hire_cost_of(a.stats)
    &&& MIN_AVAILABILITY_MS <= a.time_remaining_ms <= MAX_AVAILABILITY_MS
    &&& a.growth.wf()
}

/// Roll an applicant: a class, one or two traits, a name, stats from a base
/// of eight plus the reputation tiers past the first, a price from those
/// stats, a waiting time of four to eight hours, growth at the quality the
/// guild's reputation and recruitment office earn (give or take a fifth),
/// and random looks.
#[verifier::spinoff_prover]
#[verifier::rlimit(40)]
pub fn generate_applicant(
    reputation: &Reputation,
    buildings: &GuildBuildings,
    class_db: &ClassDatabase,
    trait_db: &TraitDatabase,
    name_db: &NameDatabase,
    rng: &mut StdRng,
) -> (a: Applicant)
    requires
        rolling_dbs_ok(*class_db, *trait_db, *name_db),
        buildings.wf(),
        buildings.level_of(BuildingType::RecruitmentOffice) <= 1000000,
    ensures
        rolled_applicant(a, reputation_tier(reputation.0) as int, *class_db, *trait_db),
{
    let c = random_index(rng, class_db.0.len());
    let class_def = &class_db.0[c];
    assert(weights_ok(class_db.0@[c as int].stat_weights));
    let traits = roll_traits(trait_db, rng);
    let name = roll_name(name_db, rng);
    let tier = reputation.tier();
    let base: i32 = 8 + (tier as i32 - 1);
    let stats = roll_stats(base, class_def, &traits, trait_db, rng);
    let total: i64 = stats.strength as i64 + stats.dexterity as i64 + stats.constitution as i64 + stats.intelligence as i64
        + stats.wisdom as i64 + stats.charisma as i64;
    let hire_cost: u32 = 20 + (total as u32) * 2;
    let time_remaining_ms = random_u32_inclusive(rng, MIN_AVAILABILITY_MS, MAX_AVAILABILITY_MS) as i64;
    let office = buildings.level(BuildingType::RecruitmentOffice);
    let q_base: i64 = (((tier - 1) as i64 + office as i64) * 1000) / (MAX_QUALITY_INPUT as i64);
    let jitter = random_i32_inclusive(rng, -QUALITY_JITTER, QUALITY_JITTER);
    let q = q_base + jitter as i64;
    let quality: u32 = if q < 0 {
        0
    } else if q > 1000 {
        1000
    } else {
        q as u32
    };
    let growth = roll_growth(class_def, quality, rng);
    let portrait = HeroPortrait::random(rng);
    assert(stats_from(stats, (8 + tier - 1) as i32, class_db.0@[c as int].stat_weights, trait_db.0@, traits@));
    Applicant {
        name,
        class: class_def.id,
        traits,
        stats,
        growth,
        hire_cost,
        time_remaining_ms,
        portrait,
    }
}

/// A starting applicant's cost, capped at the starter maximum.
pub fn clamp_starter_cost(cost: u32) -> (c: u32)
    ensures
        c == (if cost < STARTER_APPLICANT_MAX_COST { cost } else { STARTER_APPLICANT_MAX_COST }),
{
    if cost < STARTER_APPLICANT_MAX_COST {
        cost
    } else {
        STARTER_APPLICANT_MAX_COST
    }
}

/// `a` with `t` left to wait.
pub open spec fn with_time(a: Applicant, t: i64) -> Applicant {
    Applicant { time_remaining_ms: t, ..a }
}

/// `after` is what stays of `before` once `dt_ms` has passed: every
/// applicant with time left, in order, each one's time cut by `dt_ms`.
pub open spec fn still_waiting(before: Seq<Applicant>, after: Seq<Applicant>, dt_ms: int) -> bool {
    exists|idx: Seq<int>| waiting_at(before, after, dt_ms, idx)
}

/// `after[a]` is `before[idx[a]]` with its time cut, `idx` rising and
/// naming exactly the applicants with time left.
pub open spec fn waiting_at(before: Seq<Applicant>, after: Seq<Applicant>, dt_ms: int, idx: Seq<int>) -> bool {
    &&& idx.len() == after.len()
    &&& forall|a: int, b: int| 0 <= a < b < idx.len() ==> idx[a] < idx[b]
    &&& forall|a: int| 0 <= a < idx.len() ==> 0 <= #[trigger] idx[a] < before.len()
    &&& forall|a: int| 0 <= a < idx.len() ==> #[trigger] after[a] == with_time(before[idx[a]], (before[idx[a]].time_remaining_ms - dt_ms) as i64)
    &&& forall|i: int| 0 <= i < before.len() ==> (before[i].time_remaining_ms - dt_ms > 0 <==> #[trigger] idx.contains(i))
}

proof fn lemma_rising_len(idx: Seq<int>, n: int)
    requires
        n >= 0,
        forall|a: int, b: int| 0 <= a < b < idx.len() ==> idx[a] < idx[b],
        forall|a: int| 0 <= a < idx.len() ==> 0 <= #[trigger] idx[a] < n,
    ensures
        idx.len() <= n,
    decreases idx.len(),
{
    if idx.len() > 0 {
        let last = idx.last();
        let rest = idx.drop_last();
        assert(0 <= idx[idx.len() - 1] < n);
        assert forall|a: int| 0 <= a < rest.len() implies 0 <= #[trigger] rest[a] < last by {
            assert(rest[a] == idx[a]);
            assert(0 <= idx[a]);
            assert(idx[a] < idx[idx.len() - 1]);
        }
        assert forall|a: int, b: int| 0 <= a < b < rest.len() implies rest[a] < rest[b] by {
            assert(idx[a] < idx[b]);
        }
        lemma_rising_len(rest, last);
    }
}

/// The bound on times and durations the board handles (about thirty years).
pub const TIME_BOUND: i64 = 1000000000000;

/// Advance the board by `dt_ms`: waiting times run down and expired
/// applicants leave; the arrival timer runs down, and when it runs out it
/// restarts and, if the board has room, a new applicant arrives at the end.
pub fn tick_applicant_board(
    board: &mut ApplicantBoard,
    dt_ms: i64,
    reputation: &Reputation,
    buildings: &GuildBuildings,
    class_db: &ClassDatabase,
    trait_db: &TraitDatabase,
    name_db: &NameDatabase,
    rng: &mut StdRng,
) -> (arrived: bool)
    requires
        0 <= dt_ms <= TIME_BOUND,
        -TIME_BOUND <= old(board).next_arrival_ms <= TIME_BOUND,
        forall|k: int| 0 <= k < old(board).applicants@.len()
            ==> -TIME_BOUND <= (#[trigger] old(board).applicants@[k]).time_remaining_ms <= TIME_BOUND,
        rolling_dbs_ok(*class_db, *trait_db, *name_db),
        buildings.wf(),
        buildings.level_of(BuildingType::RecruitmentOffice) <= 1000000,
    ensures
        ({
            let kept = if arrived { final(board).applicants@.drop_last() } else { final(board).applicants@ };
            &&& still_waiting(old(board).applicants@, kept, dt_ms as int)
            &&& arrived <==> (old(board).next_arrival_ms - dt_ms <= 0
                && kept.len() < 3 + buildings.level_of(BuildingType::RecruitmentOffice))
        }),
        old(board).applicants@.len() <= 3 + buildings.level_of(BuildingType::RecruitmentOffice)
            ==> final(board).applicants@.len() <= 3 + buildings.level_of(BuildingType::RecruitmentOffice),
        arrived ==> rolled_applicant(final(board).applicants@.last(), reputation_tier(reputation.0) as int, *class_db, *trait_db),
        old(board).next_arrival_ms - dt_ms > 0 ==> final(board).next_arrival_ms == old(board).next_arrival_ms - dt_ms,
        old(board).next_arrival_ms - dt_ms <= 0 ==> final(board).next_arrival_ms == ARRIVAL_INTERVAL_MS,
{
    let ghost before = board.applicants@;
    let mut rest: Vec<Applicant> = Vec::new();
    std::mem::swap(&mut rest, &mut board.applicants);
    let mut kept: Vec<Applicant> = Vec::new();
    let ghost mut idx: Seq<int> = Seq::empty();
    let count = rest.len();
    let ghost n = before.len();
    assert(n == count);
    let mut k: usize = 0;
    while rest.len() > 0
        invariant
            n == before.len(),
            n <= usize::MAX,
            rest@ == before.subrange(k as int, n as int),
            k <= n,
            0 <= dt_ms <= TIME_BOUND,
            forall|j: int| 0 <= j < before.len() ==> -TIME_BOUND <= (#[trigger] before[j]).time_remaining_ms <= TIME_BOUND,
            idx.len() == kept@.len(),
            forall|a: int, b: int| 0 <= a < b < idx.len() ==> idx[a] < idx[b],
            forall|a: int| 0 <= a < idx.len() ==> 0 <= #[trigger] idx[a] < k,
            forall|a: int| 0 <= a < idx.len() ==> #[trigger] kept@[a] == with_time(before[idx[a]], (before[idx[a]].time_remaining_ms - dt_ms) as i64),
            forall|i: int| 0 <= i < k ==> (before[i].time_remaining_ms - dt_ms > 0 <==> #[trigger] idx.contains(i)),
        decreases rest.len(),
    {
        let mut a = rest.remove(0);
        assert(a == before[k as int]);
        let left = a.time_remaining_ms - dt_ms;
        if left > 0 {
            a.time_remaining_ms = left;
            kept.push(a);
            proof {
                assert forall|i: int| 0 <= i < k + 1 implies (before[i].time_remaining_ms - dt_ms > 0 <==> #[trigger] idx.push(k as int).contains(i)) by {
                    if i < k {
                        if idx.contains(i) {
                            let j = choose|j: int| 0 <= j < idx.len() && idx[j] == i;
                            assert(idx.push(k as int)[j] == i);
                        }
                        if idx.push(k as int).contains(i) {
                            let j = choose|j: int| 0 <= j < idx.len() + 1 && idx.push(k as int)[j] == i;
                            assert(j < idx.len());
                            assert(idx[j] == i);
                        }
                    } else {
                        assert(idx.push(k as int)[idx.len() as int] == i);
                    }
                }
                idx = idx.push(k as int);
            }
        } else {
            proof {
                assert(!idx.contains(k as int));
            }
        }
        k += 1;
    }
    proof {
        assert(waiting_at(before, kept@, dt_ms as int, idx));
        lemma_rising_len(idx, n as int);
    }
    board.applicants = kept;
    let mut arrived = false;
    let timer = board.next_arrival_ms - dt_ms;
    if timer <= 0 {
        board.next_arrival_ms = ARRIVAL_INTERVAL_MS;
        let max = buildings.max_applicants();
        if (board.applicants.len() as u64) < (max as u64) {
            let a = generate_applicant(reputation, buildings, class_db, trait_db, name_db, rng);
            let ghost kept_now = board.applicants@;
            board.applicants.push(a);
            assert(board.applicants@.drop_last() == kept_now);
            arrived = true;
        }
    } else {
        board.next_arrival_ms = timer;
    }
    arrived
}

/// Seed a new game's board with two applicants, the first one's cost
/// capped at the starter maximum. A board that already has applicants, or a
/// game that has a save, is left alone.
pub fn seed_applicant_board(
    board: &mut ApplicantBoard,
    has_save: bool,
    reputation: &Reputation,
    buildings: &GuildBuildings,
    class_db: &ClassDatabase,
    trait_db: &TraitDatabase,
    name_db: &NameDatabase,
    rng: &mut StdRng,
) -> (seeded: bool)
    requires
        rolling_dbs_ok(*class_db, *trait_db, *name_db),
        buildings.wf(),
        buildings.level_of(BuildingType::RecruitmentOffice) <= 1000000,
    ensures
        seeded == (old(board).applicants@.len() == 0 && !has_save),
        !seeded ==> *final(board) == *old(board),
        seeded ==> {
            &&& final(board).next_arrival_ms == old(board).next_arrival_ms
            &&& final(board).applicants@.len() == 2
            &&& rolled_applicant(
                with_cost(final(board).applicants@[0], hire_cost_of(final(board).applicants@[0].stats) as u32),
                reputation_tier(reputation.0) as int, *class_db, *trait_db)
            &&& final(board).applicants@[0].hire_cost == (if hire_cost_of(final(board).applicants@[0].stats) < STARTER_APPLICANT_MAX_COST {
                hire_cost_of(final(board).applicants@[0].stats)
            } else {
                STARTER_APPLICANT_MAX_COST as int
            })
            &&& rolled_applicant(final(board).applicants@[1], reputation_tier(reputation.0) as int, *class_db, *trait_db)
        },
{
    if board.applicants.len() > 0 || has_save {
        return false;
    }
    let mut first = generate_applicant(reputation, buildings, class_db, trait_db, name_db, rng);
    let second = generate_applicant(reputation, buildings, class_db, trait_db, name_db, rng);
    let ghost rolled = first;
    first.hire_cost = clamp_starter_cost(first.hire_cost);
    assert(with_cost(first, hire_cost_of(first.stats) as u32) == rolled);
    board.applicants.push(first);
    board.applicants.push(second);
    true
}

/// `a` at price `c`.
pub open spec fn with_cost(a: Applicant, c: u32) -> Applicant {
    Applicant { hire_cost: c, ..a }
}

/// Why a hire was refused.
#[derive(Debug, Clone, Copy, PartialEq, Eq, Structural)]
pub enum HireError {
    /// No applicant at that place on the board.
    InvalidIndex,
    /// The roster has no room.
    RosterFull,
    /// The guild cannot pay.
    NotEnoughGold,
}

/// Whether hiring the applicant at `idx` goes through: there is one there,
/// the roster has room, and the guild's gold covers the price.
pub open spec fn hire_allowed(board: ApplicantBoard, idx: int, gold: u32, hero_count: u32, buildings: GuildBuildings) -> bool {
    &&& 0 <= idx < board.applicants@.len()
    &&& hero_count < 3 + 2 * buildings.level_of(BuildingType::Barracks)
    &&& gold >= board.applicants@[idx].hire_cost
}

/// Hire the applicant at `idx`: refused if there is none there, if the
/// roster (`hero_count` heroes) is full, or if the guild's gold does not
/// cover the price; otherwise the price is paid, the applicant leaves the
/// board and joins as a fresh level-one hero.
pub fn hire_applicant(
    board: &mut ApplicantBoard,
    idx: usize,
    gold: &mut Gold,
    hero_count: u32,
    buildings: &GuildBuildings,
) -> (r: Result<NewHero, HireError>)
    requires
        buildings.wf(),
        3 + 2 * buildings.level_of(BuildingType::Barracks) <= u32::MAX,
    ensures
        idx >= old(board).applicants@.len() ==> r == Err::<NewHero, HireError>(HireError::InvalidIndex),
        idx < old(board).applicants@.len() && hero_count >= 3 + 2 * buildings.level_of(BuildingType::Barracks)
            ==> r == Err::<NewHero, HireError>(HireError::RosterFull),
        idx < old(board).applicants@.len() && hero_count < 3 + 2 * buildings.level_of(BuildingType::Barracks)
            && old(gold).0 < old(board).applicants@[idx as int].hire_cost
            ==> r == Err::<NewHero, HireError>(HireError::NotEnoughGold),
        r is Ok <==> hire_allowed(*old(board), idx as int, old(gold).0, hero_count, *buildings),
        r is Err ==> *final(board) == *old(board) && *final(gold) == *old(gold),
        r matches Ok(h) ==> {
            let a = old(board).applicants@[idx as int];
            &&& idx < old(board).applicants@.len()
            &&& hero_count < 3 + 2 * buildings.level_of(BuildingType::Barracks)
            &&& old(gold).0 >= a.hire_cost
            &&& final(gold).0 == old(gold).0 - a.hire_cost
            &&& final(board).applicants@ == old(board).applicants@.remove(idx as int)
            &&& final(board).next_arrival_ms == old(board).next_arrival_ms
            &&& fresh_hero(h, a.name@, a.class, a.stats, a.traits@, a.growth, a.portrait)
        },
{
    if idx >= board.applicants.len() {
        return Err(HireError::InvalidIndex);
    }
    if hero_count >= buildings.roster_cap() {
        return Err(HireError::RosterFull);
    }
    let cost = board.applicants[idx].hire_cost;
    if gold.0 < cost {
        return Err(HireError::NotEnoughGold);
    }
    gold.0 = gold.0 - cost;
    let a = board.applicants.remove(idx);
    let Applicant { name, class, traits, stats, growth, portrait, .. } = a;
    Ok(make_hero(name, class, stats, traits, growth, portrait))
}

/// The toast for a hire: a title naming the hero, a body giving the class
/// and the price.
pub fn hire_toast(table: &StringTable, name: &str, class: HeroClass, cost: u32) -> (r: (String, String))
    ensures
        r.0@ == interpolate(tr_spec(table.view_entries(), "recruit.hired_toast"@), seq![("name"@, name@)]),
        r.1@ == interpolate(
            tr_spec(table.view_entries(), "recruit.hired_body"@),
            seq![("class"@, class_name(class)), ("cost"@, decimal(cost as nat))],
        ),
{
    let title_args = [("name", name)];
    let title = table.trf("recruit.hired_toast", &title_args);
    let cost_text = u64_to_string(cost as u64);
    let body_args = [("class", class.name()), ("cost", cost_text.as_str())];
    let body = table.trf("recruit.hired_body", &body_args);
    proof {
        assert(args_view(title_args@) =~= seq![("name"@, name@)]);
        assert(args_view(body_args@) =~= seq![("class"@, class_name(class)), ("cost"@, decimal(cost as nat))]);
    }
    (title, body)
}

/// A new game can always make its first hire: after the board is seeded,
/// the first applicant is affordable with the starting gold and the starter
/// roster leaves room, with no building yet raised.
pub proof fn lemma_first_hire_affordable(board: ApplicantBoard, buildings: GuildBuildings)
    requires
        board.applicants@.len() >= 1,
        board.applicants@[0].hire_cost <= STARTER_APPLICANT_MAX_COST,
        buildings.level_of(BuildingType::Barracks) == 0,
    ensures
        hire_allowed(board, 0, STARTING_GOLD, STARTER_HEROES as u32, buildings),
{
}

} // verus!
