//! Hero identity, stats, growth and experience.
//!
//! Growth rates and their fractional accumulators are kept in thousandths of
//! a stat point; fatigue in thousandths of a stamina point.

use vstd::prelude::*;

use super::data::{HeroClass, HeroTrait};

verus! {

/// Core identity information for a hero.
#[derive(Debug, Clone)]
pub struct HeroInfo {
    pub name: String,
    pub class: HeroClass,
    pub level: u32,
    pub xp: u32,
    pub xp_to_next: u32,
}

/// The six core stats for a hero.
#[derive(Debug, Clone, Copy)]
pub struct HeroStats {
    pub strength: i32,
    pub dexterity: i32,
    pub constitution: i32,
    pub intelligence: i32,
    pub wisdom: i32,
    pub charisma: i32,
}

/// Personality traits that affect behavior and stat growth.
#[derive(Debug, Clone)]
pub struct HeroTraits(pub Vec<HeroTrait>);

/// Per-stat growth rate, in thousandths of a point per level. Rolled once at
/// hire time; fixed for the hero's lifetime.
#[derive(Debug, Clone, Copy)]
pub struct HeroGrowth {
    pub strength: u32,
    pub dexterity: u32,
    pub constitution: u32,
    pub intelligence: u32,
    pub wisdom: u32,
    pub charisma: u32,
}

/// Fractional accumulator per stat, in thousandths. On level-up the growth
/// rate is added; the whole points flow into `HeroStats` and the remainder
/// is kept for the next level.
#[derive(Debug, Clone, Copy, Default)]
pub struct HeroStatProgress {
    pub strength: u32,
    pub dexterity: u32,
    pub constitution: u32,
    pub intelligence: u32,
    pub wisdom: u32,
    pub charisma: u32,
}

/// The largest growth rate: a thousand points per level.
pub const MAX_GROWTH_RATE: u32 = 1000000;

impl HeroGrowth {
    /// Every rate is at most `MAX_GROWTH_RATE`.
    pub open spec fn wf(&self) -> bool {
        &&& self.strength <= MAX_GROWTH_RATE
        &&& self.dexterity <= MAX_GROWTH_RATE
        &&& self.constitution <= MAX_GROWTH_RATE
        &&& self.intelligence <= MAX_GROWTH_RATE
        &&& self.wisdom <= MAX_GROWTH_RATE
        &&& self.charisma <= MAX_GROWTH_RATE
    }
}

impl HeroStatProgress {
    /// Every accumulator holds less than one whole point.
    pub open spec fn wf(&self) -> bool {
        &&& self.strength < 1000
        &&& self.dexterity < 1000
        &&& self.constitution < 1000
        &&& self.intelligence < 1000
        &&& self.wisdom < 1000
        &&& self.charisma < 1000
    }
}

/// A stat after `k` growth ticks from accumulator `acc`.
pub open spec fn grown(stat: i32, acc: u32, rate: u32, k: nat) -> int {
    stat + (acc + k * rate) / 1000
}

/// An accumulator after `k` growth ticks.
pub open spec fn acc_after(acc: u32, rate: u32, k: nat) -> int {
    (acc + k * rate) % 1000
}

/// Every stat stays inside `i32` over `k` growth ticks.
pub open spec fn growth_fits(s: HeroStats, g: HeroGrowth, p: HeroStatProgress, k: nat) -> bool {
    &&& grown(s.strength, p.strength, g.strength, k) <= i32::MAX
    &&& grown(s.dexterity, p.dexterity, g.dexterity, k) <= i32::MAX
    &&& grown(s.constitution, p.constitution, g.constitution, k) <= i32::MAX
    &&& grown(s.intelligence, p.intelligence, g.intelligence, k) <= i32::MAX
    &&& grown(s.wisdom, p.wisdom, g.wisdom, k) <= i32::MAX
    &&& grown(s.charisma, p.charisma, g.charisma, k) <= i32::MAX
}

/// `(s1, p1)` is `(s0, p0)` after `k` growth ticks with rates `g`.
pub open spec fn grew_by(
    s0: HeroStats,
    p0: HeroStatProgress,
    g: HeroGrowth,
    k: nat,
    s1: HeroStats,
    p1: HeroStatProgress,
) -> bool {
    &&& s1.strength == grown(s0.strength, p0.strength, g.strength, k)
    &&& s1.dexterity == grown(s0.dexterity, p0.dexterity, g.dexterity, k)
    &&& s1.constitution == grown(s0.constitution, p0.constitution, g.constitution, k)
    &&& s1.intelligence == grown(s0.intelligence, p0.intelligence, g.intelligence, k)
    &&& s1.wisdom == grown(s0.wisdom, p0.wisdom, g.wisdom, k)
    &&& s1.charisma == grown(s0.charisma, p0.charisma, g.charisma, k)
    &&& p1.strength == acc_after(p0.strength, g.strength, k)
    &&& p1.dexterity == acc_after(p0.dexterity, g.dexterity, k)
    &&& p1.constitution == acc_after(p0.constitution, g.constitution, k)
    &&& p1.intelligence == acc_after(p0.intelligence, g.intelligence, k)
    &&& p1.wisdom == acc_after(p0.wisdom, g.wisdom, k)
    &&& p1.charisma == acc_after(p0.charisma, g.charisma, k)
}

proof fn lemma_grow_step(stat: i32, acc0: u32, rate: u32, k: nat)
    requires
        rate <= MAX_GROWTH_RATE,
        acc0 < 1000,
    ensures
        grown(stat, acc0, rate, k) + (acc_after(acc0, rate, k) + rate) / 1000 == grown(stat, acc0, rate, k + 1),
        (acc_after(acc0, rate, k) + rate) % 1000 == acc_after(acc0, rate, k + 1),
{
    let x = acc0 + k * rate;
    assert(acc0 + (k + 1) * rate == x + rate) by (nonlinear_arith)
        requires
            x == acc0 + k * rate,
    ;
    assert((x % 1000 + rate) / 1000 + x / 1000 == (x + rate) / 1000) by (nonlinear_arith)
        requires
            x >= 0,
            rate >= 0,
    ;
    assert((x % 1000 + rate) % 1000 == (x + rate) % 1000) by (nonlinear_arith)
        requires
            x >= 0,
            rate >= 0,
    ;
}

proof fn lemma_grow_monotone(stat: i32, acc0: u32, rate: u32, k: nat, n: nat)
    requires
        k <= n,
    ensures
        grown(stat, acc0, rate, k) <= grown(stat, acc0, rate, n),
{
    assert(acc0 + k * rate <= acc0 + n * rate) by (nonlinear_arith)
        requires
            k <= n,
    ;
    assert((acc0 + k * rate) / 1000 <= (acc0 + n * rate) / 1000) by (nonlinear_arith)
        requires
            acc0 + k * rate <= acc0 + n * rate,
            acc0 + k * rate >= 0,
    ;
}

/// One growth tick of one stat: the accumulator takes the rate, the whole
/// points go to the stat.
fn tick(stat: &mut i32, rate: u32, acc: &mut u32)
    requires
        rate <= MAX_GROWTH_RATE,
        *old(acc) < 1000,
        *old(stat) + (*old(acc) + rate) / 1000 <= i32::MAX,
    ensures
        *final(stat) == *old(stat) + (*old(acc) + rate) / 1000,
        *final(acc) == (*old(acc) + rate) % 1000,
{
    let total = *acc + rate;
    let gained = total / 1000;
    *stat = *stat + gained as i32;
    *acc = total - gained * 1000;
}

/// Apply one level's worth of growth: accumulator += rate, the whole part
/// flows into the stats, the fractional part stays in the accumulator.
pub fn apply_growth_tick(stats: &mut HeroStats, growth: &HeroGrowth, progress: &mut HeroStatProgress)
    requires
        growth.wf(),
        old(progress).wf(),
        growth_fits(*old(stats), *growth, *old(progress), 1),
    ensures
        final(progress).wf(),
        grew_by(*old(stats), *old(progress), *growth, 1, *final(stats), *final(progress)),
{
    proof {
        lemma_grow_step(stats.strength, progress.strength, growth.strength, 0);
        lemma_grow_step(stats.dexterity, progress.dexterity, growth.dexterity, 0);
        lemma_grow_step(stats.constitution, progress.constitution, growth.constitution, 0);
        lemma_grow_step(stats.intelligence, progress.intelligence, growth.intelligence, 0);
        lemma_grow_step(stats.wisdom, progress.wisdom, growth.wisdom, 0);
        lemma_grow_step(stats.charisma, progress.charisma, growth.charisma, 0);
    }
    tick(&mut stats.strength, growth.strength, &mut progress.strength);
    tick(&mut stats.dexterity, growth.dexterity, &mut progress.dexterity);
    tick(&mut stats.constitution, growth.constitution, &mut progress.constitution);
    tick(&mut stats.intelligence, growth.intelligence, &mut progress.intelligence);
    tick(&mut stats.wisdom, growth.wisdom, &mut progress.wisdom);
    tick(&mut stats.charisma, growth.charisma, &mut progress.charisma);
}

/// Growth ticks compose: `k` ticks and then one more from where they left
/// off are `k + 1` ticks from the start. So over `k` calls of
/// `apply_growth_tick` each stat gains `(acc + k * rate) / 1000` whole
/// points and its accumulator keeps `(acc + k * rate) % 1000`.
pub proof fn lemma_growth_ticks_compose(
    s0: HeroStats,
    p0: HeroStatProgress,
    g: HeroGrowth,
    k: nat,
    s1: HeroStats,
    p1: HeroStatProgress,
    s2: HeroStats,
    p2: HeroStatProgress,
)
    requires
        g.wf(),
        p0.wf(),
        grew_by(s0, p0, g, k, s1, p1),
        grew_by(s1, p1, g, 1, s2, p2),
    ensures
        grew_by(s0, p0, g, k + 1, s2, p2),
{
    lemma_grow_step(s0.strength, p0.strength, g.strength, k);
    lemma_grow_step(s0.dexterity, p0.dexterity, g.dexterity, k);
    lemma_grow_step(s0.constitution, p0.constitution, g.constitution, k);
    lemma_grow_step(s0.intelligence, p0.intelligence, g.intelligence, k);
    lemma_grow_step(s0.wisdom, p0.wisdom, g.wisdom, k);
    lemma_grow_step(s0.charisma, p0.charisma, g.charisma, k);
}

/// Stamina, in thousandths of a point.
#[derive(Debug, Clone, Copy)]
pub struct Fatigue {
    pub current: i64,
    pub max_base: i64,
}

/// Bound on stamina values that keeps every sum inside `i64`.
pub const FATIGUE_BOUND: i64 = 1000000000000000;

/// Maximum stamina: the base, plus 5 per level past the first, plus 2 per
/// point of constitution (in thousandths).
pub open spec fn fatigue_max(max_base: i64, level: u32, constitution: i32) -> int {
    max_base + (if level >= 1 {
        level - 1
    } else {
        0
    }) * 5000 + constitution * 2000
}

impl Fatigue {
    /// Stamina values within `FATIGUE_BOUND`.
    pub open spec fn wf(&self) -> bool {
        -FATIGUE_BOUND <= self.current <= FATIGUE_BOUND && -FATIGUE_BOUND <= self.max_base <= FATIGUE_BOUND
    }

    /// Maximum stamina at a level and constitution.
    pub fn max(&self, level: u32, constitution: i32) -> (m: i64)
        requires
            self.wf(),
        ensures
            m == fatigue_max(self.max_base, level, constitution),
    {
        let past = if level >= 1 {
            level - 1
        } else {
            0
        };
        self.max_base + (past as i64) * 5000 + (constitution as i64) * 2000
    }
}

/// Level-ups from `xp` points against a requirement of `next`, each level
/// raising the requirement by half.
pub open spec fn levels_gained(xp: nat, next: nat) -> nat
    decreases xp,
{
    if next > 0 && xp >= next {
        1 + levels_gained((xp - next) as nat, next + next / 2)
    } else {
        0
    }
}

/// Experience left after the level-ups.
pub open spec fn xp_left(xp: nat, next: nat) -> nat
    decreases xp,
{
    if next > 0 && xp >= next {
        xp_left((xp - next) as nat, next + next / 2)
    } else {
        xp
    }
}

/// The requirement after the level-ups.
pub open spec fn next_after(xp: nat, next: nat) -> nat
    decreases xp,
{
    if next > 0 && xp >= next {
        next_after((xp - next) as nat, next + next / 2)
    } else {
        next
    }
}

/// Every requirement reached along the level-ups fits in a `u32`.
pub open spec fn curve_fits(xp: nat, next: nat) -> bool
    decreases xp,
{
    if next > 0 && xp >= next {
        next + next / 2 <= u32::MAX && curve_fits((xp - next) as nat, next + next / 2)
    } else {
        true
    }
}

/// Everything `award_xp` computes stays inside its integer types.
pub open spec fn award_fits(
    info: HeroInfo,
    stats: HeroStats,
    growth: HeroGrowth,
    progress: HeroStatProgress,
    xp: u32,
) -> bool {
    let total = info.xp + xp;
    let k = levels_gained(total as nat, info.xp_to_next as nat);
    &&& total <= u32::MAX
    &&& info.xp_to_next > 0
    &&& curve_fits(total as nat, info.xp_to_next as nat)
    &&& info.level + k <= u32::MAX
    &&& growth_fits(stats, growth, progress, k)
}

/// Award XP to a hero and apply any resulting level-ups (including stat
/// growth). With a fatigue record, the current stamina rises by however much
/// the maximum rose. Returns the number of level-ups that occurred.
pub fn award_xp(
    info: &mut HeroInfo,
    stats: &mut HeroStats,
    growth: &HeroGrowth,
    progress: &mut HeroStatProgress,
    fatigue: &mut Option<Fatigue>,
    xp: u32,
) -> (ups: u32)
    requires
        growth.wf(),
        old(progress).wf(),
        *old(fatigue) matches Some(f) ==> f.wf(),
        award_fits(*old(info), *old(stats), *growth, *old(progress), xp),
    ensures
        ({
            let total = (old(info).xp + xp) as nat;
            let next = old(info).xp_to_next as nat;
            let k = levels_gained(total, next);
            &&& ups == k
            &&& final(info).level == old(info).level + k
            &&& final(info).xp == xp_left(total, next)
            &&& final(info).xp_to_next == next_after(total, next)
            &&& final(info).name == old(info).name
            &&& final(info).class == old(info).class
            &&& grew_by(*old(stats), *old(progress), *growth, k, *final(stats), *final(progress))
            &&& final(progress).wf()
            &&& match *old(fatigue) {
                None => *final(fatigue) is None,
                Some(f0) => *final(fatigue) matches Some(f1) && f1.max_base == f0.max_base && {
                    let old_max = fatigue_max(f0.max_base, old(info).level, old(stats).constitution);
                    let new_max = fatigue_max(f0.max_base, final(info).level, final(stats).constitution);
                    f1.current == if k > 0 && new_max - old_max > 0 {
                        f0.current + new_max - old_max
                    } else {
                        f0.current as int
                    }
                },
            }
        }),
{
    let ghost total = (info.xp + xp) as nat;
    let ghost next0 = info.xp_to_next as nat;
    let ghost k_total = levels_gained(total, next0);
    let ghost s0 = *stats;
    let ghost p0 = *progress;
    let ghost level0 = info.level;
    let ghost info0 = *info;
    let old_max: i64 = match fatigue {
        Some(f) => f.max(info.level, stats.constitution),
        None => 0,
    };
    info.xp = info.xp + xp;
    let mut level_ups: u32 = 0;
    while info.xp >= info.xp_to_next
        invariant
            growth.wf(),
            progress.wf(),
            info.xp_to_next > 0,
            level_ups as nat + levels_gained(info.xp as nat, info.xp_to_next as nat) == k_total,
            xp_left(info.xp as nat, info.xp_to_next as nat) == xp_left(total, next0),
            next_after(info.xp as nat, info.xp_to_next as nat) == next_after(total, next0),
            curve_fits(info.xp as nat, info.xp_to_next as nat),
            info.level == level0 + level_ups,
            info.name == info0.name,
            info.class == info0.class,
            level0 + k_total <= u32::MAX,
            grew_by(s0, p0, *growth, level_ups as nat, *stats, *progress),
            growth_fits(s0, *growth, p0, k_total),
            p0.wf(),
        decreases info.xp,
    {
        info.xp = info.xp - info.xp_to_next;
        info.level = info.level + 1;
        info.xp_to_next = info.xp_to_next + info.xp_to_next / 2;
        proof {
            let k = level_ups as nat;
            assert(k + 1 <= k_total);
            lemma_grow_step(s0.strength, p0.strength, growth.strength, k);
            lemma_grow_step(s0.dexterity, p0.dexterity, growth.dexterity, k);
            lemma_grow_step(s0.constitution, p0.constitution, growth.constitution, k);
            lemma_grow_step(s0.intelligence, p0.intelligence, growth.intelligence, k);
            lemma_grow_step(s0.wisdom, p0.wisdom, growth.wisdom, k);
            lemma_grow_step(s0.charisma, p0.charisma, growth.charisma, k);
            lemma_grow_monotone(s0.strength, p0.strength, growth.strength, k + 1, k_total);
            lemma_grow_monotone(s0.dexterity, p0.dexterity, growth.dexterity, k + 1, k_total);
            lemma_grow_monotone(s0.constitution, p0.constitution, growth.constitution, k + 1, k_total);
            lemma_grow_monotone(s0.intelligence, p0.intelligence, growth.intelligence, k + 1, k_total);
            lemma_grow_monotone(s0.wisdom, p0.wisdom, growth.wisdom, k + 1, k_total);
            lemma_grow_monotone(s0.charisma, p0.charisma, growth.charisma, k + 1, k_total);
        }
        apply_growth_tick(stats, growth, progress);
        level_ups = level_ups + 1;
    }
    if level_ups > 0 {
        match fatigue {
            Some(f) => {
                let new_max = f.max(info.level, stats.constitution);
                let diff = new_max - old_max;
                if diff > 0 {
                    f.current = f.current + diff;
                }
            },
            None => {},
        }
    }
    level_ups
}

} // verus!
