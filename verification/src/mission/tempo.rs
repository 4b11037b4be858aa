//! How fast the simulation of the watched mission runs: slowly while heroes
//! and enemies are within reach of each other, quickly while exploring.

use vstd::prelude::*;

use super::entities::GridPosition;
use super::sequential::{dist, manhattan};
use crate::hero::data::HeroClass;

verus! {

/// How far a hero of this class acts: rangers six tiles, mages five, the
/// rest one.
pub open spec fn action_range(class: HeroClass) -> u32 {
    match class {
        HeroClass::Ranger => 6,
        HeroClass::Mage => 5,
        _ => 1,
    }
}

/// How far a hero of this class acts.
pub fn hero_action_range(class: &HeroClass) -> (r: u32)
    ensures
        r == action_range(*class),
{
    match class {
        HeroClass::Ranger => 6,
        HeroClass::Mage => 5,
        _ => 1,
    }
}

/// Whether some hero has some enemy within their reach.
pub open spec fn overlaps(heroes: Seq<(GridPosition, u32)>, enemies: Seq<GridPosition>) -> bool {
    exists|i: int, j: int|
        0 <= i < heroes.len() && 0 <= j < enemies.len()
            && #[trigger] dist((heroes[i].0.x, heroes[i].0.y), (enemies[j].x, enemies[j].y)) <= heroes[i].1
}

/// Whether some hero (position, reach) has some enemy within reach.
pub fn combat_overlap(heroes: &Vec<(GridPosition, u32)>, enemies: &Vec<GridPosition>) -> (b: bool)
    ensures
        b == overlaps(heroes@, enemies@),
{
    let mut i: usize = 0;
    while i < heroes.len()
        invariant
            i <= heroes@.len(),
            forall|a: int, j: int|
                0 <= a < i && 0 <= j < enemies@.len() ==> #[trigger] dist(
                    (heroes@[a].0.x, heroes@[a].0.y),
                    (enemies@[j].x, enemies@[j].y),
                ) > heroes@[a].1,
        decreases heroes@.len() - i,
    {
        let (h, reach) = heroes[i];
        let mut j: usize = 0;
        while j < enemies.len()
            invariant
                i < heroes@.len(),
                (h, reach) == heroes@[i as int],
                j <= enemies@.len(),
                forall|k: int| 0 <= k < j ==> #[trigger] dist((h.x, h.y), (enemies@[k].x, enemies@[k].y)) > reach,
            decreases enemies@.len() - j,
        {
            let e = enemies[j];
            if manhattan((h.x, h.y), (e.x, e.y)) <= reach as u64 {
                assert(dist((heroes@[i as int].0.x, heroes@[i as int].0.y), (enemies@[j as int].x, enemies@[j as int].y)) <= heroes@[i as int].1);
                return true;
            }
            j += 1;
        }
        i += 1;
    }
    false
}

/// The heroes' positions with their reach.
pub open spec fn reaches(heroes: Seq<(GridPosition, HeroClass)>) -> Seq<(GridPosition, u32)> {
    heroes.map_values(|h: (GridPosition, HeroClass)| (h.0, action_range(h.1)))
}

/// Simulation step while in combat, in microseconds (one and a half steps a second).
pub const COMBAT_STEP_US: u64 = 666667;

/// Simulation step while exploring, in microseconds (six steps a second).
pub const EXPLORE_STEP_US: u64 = 166667;

/// The simulation step for the watched mission: the combat step when some
/// hero has an enemy within their class's reach, else the exploring step.
pub fn simulation_step_us(heroes: &Vec<(GridPosition, HeroClass)>, enemies: &Vec<GridPosition>) -> (us: u64)
    ensures
        us == (if overlaps(reaches(heroes@), enemies@) {
            COMBAT_STEP_US
        } else {
            EXPLORE_STEP_US
        }),
{
    let mut ranged: Vec<(GridPosition, u32)> = Vec::new();
    let mut i: usize = 0;
    while i < heroes.len()
        invariant
            i <= heroes@.len(),
            ranged@ == reaches(heroes@.subrange(0, i as int)),
        decreases heroes@.len() - i,
    {
        let (p, c) = heroes[i];
        ranged.push((p, hero_action_range(&c)));
        i += 1;
        assert(ranged@ =~= reaches(heroes@.subrange(0, i as int)));
    }
    assert(heroes@.subrange(0, heroes@.len() as int) =~= heroes@);
    if combat_overlap(&ranged, enemies) {
        COMBAT_STEP_US
    } else {
        EXPLORE_STEP_US
    }
}

} // verus!
