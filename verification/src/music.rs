//! Music states: which layer plays (guild, exploration, combat, boss), and
//! the track for each.

use vstd::prelude::*;

use crate::hero::data::HeroClass;
use crate::mission::data::EnemyType;
use crate::mission::entities::GridPosition;
use crate::mission::tempo::{combat_overlap, hero_action_range, overlaps, reaches};

verus! {

/// Which music layer should be audible.
#[derive(Debug, Clone, Copy, PartialEq, Eq, Structural, Default)]
pub enum MusicState {
    #[default]
    Guild,
    Exploration,
    Combat,
    Boss,
}

/// The music state: the guild's outside a watched mission; in one, the
/// boss's when a boss is within reach, combat's when an enemy is, else
/// exploration's.
pub open spec fn target_music(viewing_mission: bool, in_combat: bool, boss_in_range: bool) -> MusicState {
    if !viewing_mission {
        MusicState::Guild
    } else if boss_in_range {
        MusicState::Boss
    } else if in_combat {
        MusicState::Combat
    } else {
        MusicState::Exploration
    }
}

/// Decide the music state. Boss wins over combat; mission states only apply
/// while actually watching a mission.
pub fn target_state(viewing_mission: bool, in_combat: bool, boss_in_range: bool) -> (s: MusicState)
    ensures
        s == target_music(viewing_mission, in_combat, boss_in_range),
{
    if !viewing_mission {
        MusicState::Guild
    } else if boss_in_range {
        MusicState::Boss
    } else if in_combat {
        MusicState::Combat
    } else {
        MusicState::Exploration
    }
}

/// The track of each state, and its playback speed in hundredths; the boss
/// layer plays the combat track a quarter faster.
pub open spec fn track_of(s: MusicState) -> (Seq<char>, u32) {
    match s {
        MusicState::Guild => ("audio/music/Fluffing A Duck.ogg"@, 100),
        MusicState::Exploration => ("audio/music/Fluffing A Duck.ogg"@, 100),
        MusicState::Combat => ("audio/music/Monkeys Spinning Monkeys.ogg"@, 100),
        MusicState::Boss => ("audio/music/Monkeys Spinning Monkeys.ogg"@, 125),
    }
}

/// The asset path of a state's track and its playback speed in hundredths.
pub fn music_track(s: MusicState) -> (t: (&'static str, u32))
    ensures
        t.0@ == track_of(s).0,
        t.1 == track_of(s).1,
{
    match s {
        MusicState::Guild => ("audio/music/Fluffing A Duck.ogg", 100),
        MusicState::Exploration => ("audio/music/Fluffing A Duck.ogg", 100),
        MusicState::Combat => ("audio/music/Monkeys Spinning Monkeys.ogg", 100),
        MusicState::Boss => ("audio/music/Monkeys Spinning Monkeys.ogg", 125),
    }
}

/// The enemies' positions.
pub open spec fn enemy_positions(enemies: Seq<(GridPosition, EnemyType)>) -> Seq<GridPosition> {
    enemies.map_values(|e: (GridPosition, EnemyType)| e.0)
}

/// The bosses' positions, in order.
pub open spec fn boss_positions(enemies: Seq<(GridPosition, EnemyType)>) -> Seq<GridPosition>
    decreases enemies.len(),
{
    if enemies.len() == 0 {
        Seq::empty()
    } else {
        let rest = boss_positions(enemies.drop_last());
        if enemies.last().1 == EnemyType::BossRat {
            rest.push(enemies.last().0)
        } else {
            rest
        }
    }
}

/// The music state for what the player sees: whether a mission is watched,
/// and its heroes' and enemies' tokens.
pub fn music_state_for(
    viewing: bool,
    heroes: &Vec<(GridPosition, HeroClass)>,
    enemies: &Vec<(GridPosition, EnemyType)>,
) -> (s: MusicState)
    ensures
        s == target_music(
            viewing,
            viewing && overlaps(reaches(heroes@), enemy_positions(enemies@)),
            viewing && overlaps(reaches(heroes@), boss_positions(enemies@)),
        ),
{
    if !viewing {
        return MusicState::Guild;
    }
    let mut ranged: Vec<(GridPosition, u32)> = Vec::new();
    let mut i: usize = 0;
    while i < heroes.len()
        invariant
            i <= heroes@.len(),
            ranged@ == reaches(heroes@.subrange(0, i as int)),
        decreases heroes@.len() - i,
    {
        let (p, c) = heroes[i];
        ranged.push((p, hero_action_range(&c)));
        i += 1;
        assert(ranged@ =~= reaches(heroes@.subrange(0, i as int)));
    }
    assert(heroes@.subrange(0, heroes@.len() as int) =~= heroes@);
    let mut foes: Vec<GridPosition> = Vec::new();
    let mut bosses: Vec<GridPosition> = Vec::new();
    let mut j: usize = 0;
    while j < enemies.len()
        invariant
            j <= enemies@.len(),
            foes@ == enemy_positions(enemies@.subrange(0, j as int)),
            bosses@ == boss_positions(enemies@.subrange(0, j as int)),
        decreases enemies@.len() - j,
    {
        let (p, t) = enemies[j];
        assert(enemies@.subrange(0, j + 1).drop_last() =~= enemies@.subrange(0, j as int));
        foes.push(p);
        if t.is_boss() {
            bosses.push(p);
        }
        j += 1;
        assert(foes@ =~= enemy_positions(enemies@.subrange(0, j as int)));
    }
    assert(enemies@.subrange(0, enemies@.len() as int) =~= enemies@);
    let in_combat = combat_overlap(&ranged, &foes);
    let boss_in_range = combat_overlap(&ranged, &bosses);
    target_state(true, in_combat, boss_in_range)
}

} // verus!
