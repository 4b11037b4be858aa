//! The passage of time for heroes at home and away: stamina recovering in
//! the guild (faster with a better Tavern) or draining on a mission, and
//! missing heroes coming back injured.
//!
//! Stamina is in thousandths of a point; times in milliseconds.

use vstd::prelude::*;

use super::epithet::{epithet_view, format_hero_name, hero_display_name, Epithet};
use super::history::HeroHistory;
use super::progression::{fatigue_max, Fatigue, FATIGUE_BOUND};
use super::status::Missing;
use crate::localization::{tr_spec, StringTable};

verus! {

/// The bound on a time step.
pub const STEP_BOUND_MS: i64 = 1000000000;

/// Stamina recovered at home over `dt_ms`: half a point a second, a tenth
/// faster per Tavern level (in thousandths, rounded down).
pub open spec fn recovery_amount(dt_ms: int, tavern: int) -> int {
    dt_ms * (10 + tavern) / 20
}

/// Recover a resting hero's stamina over `dt_ms`: up by the recovery
/// amount, but not past their maximum; a hero at or above it, or a step of
/// no time, is left alone.
pub fn recover_stamina(fatigue: &mut Fatigue, level: u32, constitution: i32, dt_ms: i64, tavern_level: u32)
    requires
        old(fatigue).wf(),
        dt_ms <= STEP_BOUND_MS,
        tavern_level <= 1000000,
    ensures
        final(fatigue).max_base == old(fatigue).max_base,
        final(fatigue).current == (if dt_ms > 0 && old(fatigue).current < fatigue_max(old(fatigue).max_base, level, constitution) {
            if old(fatigue).current + recovery_amount(dt_ms as int, tavern_level as int) < fatigue_max(old(fatigue).max_base, level, constitution) {
                old(fatigue).current + recovery_amount(dt_ms as int, tavern_level as int)
            } else {
                fatigue_max(old(fatigue).max_base, level, constitution)
            }
        } else {
            old(fatigue).current as int
        }),
{
    if dt_ms <= 0 {
        return;
    }
    let max = fatigue.max(level, constitution);
    if fatigue.current < max {
        assert(dt_ms * (10 + tavern_level) <= 1000000000 * 1000010) by (nonlinear_arith)
            requires
                0 < dt_ms <= 1000000000,
                tavern_level <= 1000000,
        ;
        assert(dt_ms * (10 + tavern_level) >= 0) by (nonlinear_arith)
            requires
                0 < dt_ms,
        ;
        let amount: i64 = dt_ms * (10 + tavern_level as i64) / 20;
        let next = fatigue.current + amount;
        fatigue.current = if next < max {
            next
        } else {
            max
        };
    }
}

/// Stamina drained on a mission over `dt_ms`: a fifth of a point a second
/// (in thousandths, rounded down).
pub open spec fn drain_amount(dt_ms: int) -> int {
    dt_ms / 5
}

/// Drain a hero's stamina on a mission over `dt_ms`, not below zero; a
/// hero with none left, or a step of no time, is left alone.
pub fn drain_stamina(fatigue: &mut Fatigue, dt_ms: i64)
    requires
        old(fatigue).wf(),
        dt_ms <= STEP_BOUND_MS,
    ensures
        final(fatigue).max_base == old(fatigue).max_base,
        final(fatigue).current == (if dt_ms > 0 && old(fatigue).current > 0 {
            if old(fatigue).current - drain_amount(dt_ms as int) > 0 {
                old(fatigue).current - drain_amount(dt_ms as int)
            } else {
                0
            }
        } else {
            old(fatigue).current as int
        }),
{
    if dt_ms <= 0 {
        return;
    }
    if fatigue.current > 0 {
        let next = fatigue.current - dt_ms / 5;
        fatigue.current = if next > 0 {
            next
        } else {
            0
        };
    }
}

/// The heroes, by id, whose Missing time is up at `now_ms` and who are not
/// being rescued, in order.
pub open spec fn returning(now_ms: i64, missing: Seq<(u64, Missing)>, rescued: Seq<u64>) -> Seq<u64>
    decreases missing.len(),
{
    if missing.len() == 0 {
        Seq::empty()
    } else {
        let rest = returning(now_ms, missing.drop_last(), rescued);
        let (id, m) = missing.last();
        if !rescued.contains(id) && now_ms >= m.expires_at_ms {
            rest.push(id)
        } else {
            rest
        }
    }
}

fn listed(ids: &Vec<u64>, id: u64) -> (b: bool)
    ensures
        b == ids@.contains(id),
{
    let mut i: usize = 0;
    while i < ids.len()
        invariant
            i <= ids@.len(),
            forall|j: int| 0 <= j < i ==> ids@[j] != id,
        decreases ids@.len() - i,
    {
        if ids[i] == id {
            return true;
        }
        i += 1;
    }
    false
}

/// The missing heroes who come back now: their time is up and no rescue
/// mission is under way for them.
pub fn heroes_returning(now_ms: i64, missing: &Vec<(u64, Missing)>, rescued: &Vec<u64>) -> (ids: Vec<u64>)
    ensures
        ids@ == returning(now_ms, missing@, rescued@),
{
    let mut ids: Vec<u64> = Vec::new();
    let mut i: usize = 0;
    while i < missing.len()
        invariant
            i <= missing@.len(),
            ids@ == returning(now_ms, missing@.subrange(0, i as int), rescued@),
        decreases missing@.len() - i,
    {
        assert(missing@.subrange(0, i + 1).drop_last() =~= missing@.subrange(0, i as int));
        let (id, m) = missing[i];
        if !listed(rescued, id) && now_ms >= m.expires_at_ms {
            ids.push(id);
        }
        i += 1;
    }
    assert(missing@.subrange(0, missing@.len() as int) =~= missing@);
    ids
}

/// The timeline line of a hero back from being missing.
pub open spec fn returned_line() -> Seq<char> {
    "Returned after being missing (gear lost)"@
}

/// A hero comes back from being missing: their timeline says so, and the
/// toast (title and body) tells the player, with the hero's titled name.
pub fn hero_returned(
    history: &mut HeroHistory,
    name: &str,
    epithet: Option<&Epithet>,
    table: &StringTable,
) -> (toast: (String, String))
    ensures
        final(history).timeline@.len() == old(history).timeline@.len() + 1,
        final(history).timeline@.last()@ == returned_line(),
        final(history).timeline@.drop_last() == old(history).timeline@,
        final(history).missions_run == old(history).missions_run,
        final(history).kills == old(history).kills,
        final(history).near_deaths == old(history).near_deaths,
        final(history).rescues_given == old(history).rescues_given,
        final(history).rescues_received == old(history).rescues_received,
        final(history).lifetime_gold == old(history).lifetime_gold,
        toast.0@ == hero_display_name(name@, epithet_view(epithet), tr_spec(table.view_entries(), "epithet.hundred_mission"@))
            + " has returned"@,
        toast.1@ == "Injured — stats reduced while they recover."@,
{
    history.add_timeline_entry(String::from_str("Returned after being missing (gear lost)"));
    let mut title = format_hero_name(name, epithet, table);
    title.append(" has returned");
    (title, String::from_str("Injured — stats reduced while they recover."))
}

} // verus!
