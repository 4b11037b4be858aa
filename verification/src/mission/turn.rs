//! One token's turn in a mission round: which token acts next, and what
//! its turn does to the board. An enemy winds down or lands a boss's
//! telegraphed slam, steps back as a skirmisher, casts (the boss's slam,
//! summons and enrage, a strike, a heal, a shield), strikes or steps
//! closer; a hero carries out the plan decided for it: a step, a strike
//! (with lifesteal and cleave), a damaging ability, a heal, a shield, a
//! rallying cry or mass heal, or opening a chest.

use vstd::prelude::*;

use rand::rngs::StdRng;

use crate::hero::tracking::LogPayload;
use crate::equipment::{rarity_rank, BehavioralAffix, GearRarity, GearSlot};
use crate::rng::{random_i32_inclusive, random_ratio, random_u32};
use crate::text::same_text;
use super::ai::HeroAction;
use super::data::{first_ability, AbilityDatabase, AbilityDef, AbilityEffect, AiPriorityRule, EnemyBehavior};
use super::dungeon::{adjacent, DungeonMap, Pos};
use super::entities::{ActiveAbilityState, CombatStats, MissionTurnQueue};
use super::pathfinding::{reachable, search_fits};
use super::sequential::{
    affix_for_roll, area_targets, attack_hits, cast_of, choose_enemy_cast, cleave_amount, dist, kite_of, drop_rarity, enemy_damage, enemy_damage_of,
    enemy_heal_amount, enemy_target, hero_heal, hero_step, kite_tile, lemma_neighbour_adjacent, lifesteal_amount,
    manhattan, neighbour, rarity_for_roll, slot_for_roll, step_nearer, strike_damage, support_amount, support_of,
    swarm_count, swarmer_bonus, telegraph_tick, tick_cooldowns, AllyView, CastTarget, EnemyTurnView, EnemyView,
    HeroView, Strike, ROLL_BOUND, SLAM_DAMAGE,
};

verus! {

/// A token on the board as a turn sees it.
#[derive(Debug, Clone, Copy)]
pub struct TurnToken {
    pub id: u64,
    pub enemy: bool,
    pub behavior: EnemyBehavior,
    pub attack_range: u32,
    pub pos: Pos,
    pub room: Option<usize>,
    pub stats: CombatStats,
    /// A boss's slam winding up: the room it lands in and the turns left.
    pub telegraph: Option<(usize, u32)>,
    pub enraged: bool,
}

/// A treasure chest on the board: the gold it holds and whether it was opened.
#[derive(Debug, Clone, Copy)]
pub struct TurnChest {
    pub id: u64,
    pub gold: u32,
    pub opened: bool,
}

/// A piece of gear a chest gave up.
#[derive(Debug, Clone, Copy)]
pub struct GearFind {
    pub slot: GearSlot,
    pub rarity: GearRarity,
    pub affix: Option<BehavioralAffix>,
}

/// A mission's board between turns: the map, the round's queue, the tokens
/// and, for each token, its abilities; `next_id` is the id the next
/// summoned token gets; the chests, and the guild's gold.
pub struct TurnSim {
    pub map: DungeonMap,
    pub queue: MissionTurnQueue,
    pub tokens: Vec<TurnToken>,
    pub abilities: Vec<Vec<ActiveAbilityState>>,
    pub next_id: u64,
    pub chests: Vec<TurnChest>,
    pub gold: u32,
}

/// What a hero does on its turn, as its decision gave it: step toward a
/// tile, strike an enemy with a basic attack (with the lifesteal and
/// cleave affixes of its gear) or a damaging ability (a
/// meteor also hits the enemies next to the target, a volley those within
/// two tiles of it), heal a hero, heal or shield a hero with an ability,
/// rally or mass-heal the heroes around it (an ability names the slot of
/// its entry in the hero's list and the cooldown it then waits) (each with its roll bonus and whether
/// it is a loner near an ally; a heal also whether the ground is cursed),
/// open a chest (`gear`: whether a gear table is loaded, so that it may
/// drop gear), or hold.
#[derive(Debug, Clone, Copy)]
pub enum HeroPlan {
    Advance(Pos),
    Strike { target: u64, bonus: i32, loner_near_ally: bool, lifesteal: bool, cleave: bool },
    Ability { strike: Strike, target: u64, bonus: i32, loner_near_ally: bool, cooldown: Option<(usize, u32)> },
    Aid { target: u64, shield: bool, bonus: i32, loner_near_ally: bool, cooldown: Option<(usize, u32)> },
    Heal { target: u64, bonus: i32, loner_near_ally: bool, cursed: bool },
    Support { mass_heal: bool, bonus: i32, loner_near_ally: bool, cursed: bool, cooldown: Option<(usize, u32)> },
    OpenChest { chest: u64, gear: bool },
    Hold,
}

/// No two tokens share an id.
pub open spec fn ids_unique(tokens: Seq<TurnToken>) -> bool {
    forall|a: int, b: int| 0 <= a < tokens.len() && 0 <= b < tokens.len() && a != b ==> tokens[a].id != tokens[b].id
}

/// A token whose numbers fit every roll and whose tile is in range.
pub open spec fn token_fits(t: TurnToken) -> bool {
    &&& -ROLL_BOUND <= t.stats.hp <= ROLL_BOUND
    &&& -ROLL_BOUND <= t.stats.max_hp <= ROLL_BOUND
    &&& -ROLL_BOUND <= t.stats.attack <= ROLL_BOUND
    &&& -ROLL_BOUND <= t.stats.defense <= ROLL_BOUND
    &&& t.pos.0 < i32::MAX
    &&& t.pos.1 < i32::MAX
    &&& (t.telegraph matches Some(tg) ==> tg.1 >= 1)
}

/// A board a turn can be played on: the map is well formed and small
/// enough to search, every token has its ability list, ids are unique and
/// below `next_id`, numbers fit the rolls, and rooms and counts leave room
/// for two more tokens.
pub open spec fn turn_ok(sim: TurnSim) -> bool {
    &&& sim.map.wf()
    &&& search_fits(sim.map)
    &&& sim.map.width < i32::MAX
    &&& sim.map.height < i32::MAX
    &&& forall|r: int| 0 <= r < sim.map.rooms@.len() ==> (#[trigger] sim.map.rooms@[r]).x + sim.map.rooms@[r].w < i32::MAX
        && sim.map.rooms@[r].y + sim.map.rooms@[r].h < i32::MAX
    &&& sim.abilities@.len() == sim.tokens@.len()
    &&& sim.tokens@.len() + 2 <= ROLL_BOUND
    &&& sim.queue.queue@.len() + 2 <= usize::MAX
    &&& ids_unique(sim.tokens@)
    &&& forall|k: int| 0 <= k < sim.tokens@.len() ==> token_fits(#[trigger] sim.tokens@[k]) && sim.tokens@[k].id < sim.next_id
    &&& sim.next_id <= u64::MAX - 2
    &&& forall|k: int| 0 <= k < sim.tokens@.len() ==> ((#[trigger] sim.tokens@[k]).room matches Some(r) ==> r < sim.map.rooms@.len())
    &&& forall|k: int| 0 <= k < sim.chests@.len() ==> sim.gold + (#[trigger] sim.chests@[k]).gold <= u32::MAX
}

/// Some living token has this id.
pub open spec fn alive_in(tokens: Seq<TurnToken>, id: u64) -> bool {
    exists|i: int| 0 <= i < tokens.len() && (#[trigger] tokens[i]).id == id && tokens[i].stats.hp > 0
}

/// Queue position `j` names a living token.
pub open spec fn ready(sim: TurnSim, j: int) -> bool {
    0 <= j < sim.queue.queue@.len() && alive_in(sim.tokens@, sim.queue.queue@[j])
}

/// Queue position `j` is the next to act: the first from the active index
/// that names a living token.
pub open spec fn is_next(sim: TurnSim, j: int) -> bool {
    &&& sim.queue.active_index <= j
    &&& ready(sim, j)
    &&& forall|k: int| sim.queue.active_index <= k < j ==> !ready(sim, k)
}

/// The slot of the token with an id.
pub fn find_slot(tokens: &Vec<TurnToken>, id: u64) -> (r: Option<usize>)
    ensures
        match r {
            Some(i) => i < tokens@.len() && tokens@[i as int].id == id,
            None => forall|i: int| 0 <= i < tokens@.len() ==> (#[trigger] tokens@[i]).id != id,
        },
{
    let mut k: usize = 0;
    while k < tokens.len()
        invariant
            k <= tokens@.len(),
            forall|i: int| 0 <= i < k ==> (#[trigger] tokens@[i]).id != id,
        decreases tokens@.len() - k,
    {
        if tokens[k].id == id {
            return Some(k);
        }
        k += 1;
    }
    None
}

/// The token whose turn comes next: its queue position and slot, skipping
/// queue entries whose token is dead or gone; none when no living token is
/// left in the round.
pub fn next_actor(sim: &TurnSim) -> (r: Option<(usize, usize)>)
    requires
        ids_unique(sim.tokens@),
    ensures
        match r {
            Some((j, i)) => is_next(*sim, j as int) && i < sim.tokens@.len() && sim.tokens@[i as int].id == sim.queue.queue@[j as int]
                && sim.tokens@[i as int].stats.hp > 0,
            None => forall|k: int| sim.queue.active_index <= k < sim.queue.queue@.len() ==> !ready(*sim, k),
        },
{
    let mut j: usize = sim.queue.active_index;
    while j < sim.queue.queue.len()
        invariant
            ids_unique(sim.tokens@),
            sim.queue.active_index <= j,
            forall|k: int| sim.queue.active_index <= k < j ==> !ready(*sim, k),
        decreases sim.queue.queue@.len() - j,
    {
        let id = sim.queue.queue[j];
        match find_slot(&sim.tokens, id) {
            Some(i) => {
                if sim.tokens[i].stats.hp > 0 {
                    assert(ready(*sim, j as int));
                    return Some((j, i));
                }
                assert(!alive_in(sim.tokens@, id)) by {
                    if alive_in(sim.tokens@, id) {
                        let w = choose|w: int| 0 <= w < sim.tokens@.len() && (#[trigger] sim.tokens@[w]).id == id && sim.tokens@[w].stats.hp > 0;
                        assert(w != i as int);
                    }
                }
            },
            None => {},
        }
        j += 1;
    }
    None
}

/// The token with its hit points replaced.
pub open spec fn with_hp(t: TurnToken, hp: i32) -> TurnToken {
    TurnToken {
        id: t.id,
        enemy: t.enemy,
        behavior: t.behavior,
        attack_range: t.attack_range,
        pos: t.pos,
        room: t.room,
        stats: CombatStats { hp: hp, max_hp: t.stats.max_hp, attack: t.stats.attack, defense: t.stats.defense, speed: t.stats.speed },
        telegraph: t.telegraph,
        enraged: t.enraged,
    }
}

/// The token moved to a tile in a room.
pub open spec fn moved_to(t: TurnToken, pos: Pos, room: Option<usize>) -> TurnToken {
    TurnToken { pos: pos, room: room, ..t }
}

/// A hero's hit points after a slam lands on `room`: a living hero there
/// loses the slam damage, down to zero at most.
pub open spec fn slam_hp(t: TurnToken, room: usize) -> i32 {
    if !t.enemy && t.stats.hp > 0 && t.room == Some(room) {
        if t.stats.hp > SLAM_DAMAGE { (t.stats.hp - SLAM_DAMAGE) as i32 } else { 0 }
    } else {
        t.stats.hp
    }
}

fn set_hp(tokens: &mut Vec<TurnToken>, i: usize, hp: i32)
    requires
        i < old(tokens)@.len(),
    ensures
        final(tokens)@ == old(tokens)@.update(i as int, with_hp(old(tokens)@[i as int], hp)),
{
    let mut t = tokens[i];
    t.stats.hp = hp;
    tokens.set(i, t);
}

/// The slam lands: every living hero in `room` loses the slam damage.
fn slam_room(tokens: &mut Vec<TurnToken>, room: usize) -> (log: Vec<LogPayload>)
    ensures
        final(tokens)@.len() == old(tokens)@.len(),
        forall|k: int| 0 <= k < old(tokens)@.len() ==> #[trigger] final(tokens)@[k] == with_hp(old(tokens)@[k], slam_hp(old(tokens)@[k], room)),
{
    let ghost t0 = tokens@;
    let mut log: Vec<LogPayload> = Vec::new();
    let mut k: usize = 0;
    while k < tokens.len()
        invariant
            k <= tokens@.len(),
            tokens@.len() == t0.len(),
            forall|j: int| 0 <= j < k ==> #[trigger] tokens@[j] == with_hp(t0[j], slam_hp(t0[j], room)),
            forall|j: int| k <= j < t0.len() ==> #[trigger] tokens@[j] == t0[j],
        decreases tokens@.len() - k,
    {
        let t = tokens[k];
        let hit = !t.enemy && t.stats.hp > 0 && match t.room {
            Some(r) => r == room,
            None => false,
        };
        if hit {
            let hp = if t.stats.hp > SLAM_DAMAGE { t.stats.hp - SLAM_DAMAGE } else { 0 };
            set_hp(tokens, k, hp);
            log.push(LogPayload::Attack { attacker: String::new(), defender: String::new(), is_hit: true });
            if hp == 0 {
                log.push(LogPayload::Death { name: String::new(), is_enemy: false });
            }
        } else {
            proof {
                assert(with_hp(t0[k as int], slam_hp(t0[k as int], room)) == t0[k as int]);
            }
        }
        k += 1;
    }
    log
}

fn set_telegraph(tokens: &mut Vec<TurnToken>, i: usize, tg: Option<(usize, u32)>)
    requires
        i < old(tokens)@.len(),
    ensures
        final(tokens)@ == old(tokens)@.update(i as int, TurnToken { telegraph: tg, ..old(tokens)@[i as int] }),
{
    let mut t = tokens[i];
    t.telegraph = tg;
    tokens.set(i, t);
}

fn set_enraged(tokens: &mut Vec<TurnToken>, i: usize)
    requires
        i < old(tokens)@.len(),
    ensures
        final(tokens)@ == old(tokens)@.update(i as int, TurnToken { enraged: true, ..old(tokens)@[i as int] }),
{
    let mut t = tokens[i];
    t.enraged = true;
    tokens.set(i, t);
}

fn move_token(tokens: &mut Vec<TurnToken>, map: &DungeonMap, i: usize, to: Pos)
    requires
        i < old(tokens)@.len(),
    ensures
        exists|room: Option<usize>| final(tokens)@ == old(tokens)@.update(i as int, moved_to(old(tokens)@[i as int], to, room)),
{
    let room = map.room_at(to.0, to.1);
    let mut t = tokens[i];
    t.pos = to;
    t.room = room;
    tokens.set(i, t);
    assert(tokens@ == old(tokens)@.update(i as int, moved_to(old(tokens)@[i as int], to, room)));
}

proof fn lemma_swarm_bounded(s: Seq<EnemyView>, me: u64, target: Pos)
    ensures
        swarm_count(s, me, target) <= s.len(),
    decreases s.len(),
{
    if s.len() > 0 {
        lemma_swarm_bounded(s.drop_last(), me, target);
    }
}

/// The enemy tokens as a swarmer counts them, in slot order.
pub open spec fn enemy_views_of(tokens: Seq<TurnToken>) -> Seq<EnemyView>
    decreases tokens.len(),
{
    if tokens.len() == 0 {
        Seq::empty()
    } else {
        let prev = enemy_views_of(tokens.drop_last());
        let t = tokens.last();
        if t.enemy { prev.push(EnemyView { id: t.id, pos: t.pos, hp: t.stats.hp }) } else { prev }
    }
}

proof fn lemma_enemy_views_len(tokens: Seq<TurnToken>)
    ensures
        enemy_views_of(tokens).len() <= tokens.len(),
    decreases tokens.len(),
{
    if tokens.len() > 0 {
        lemma_enemy_views_len(tokens.drop_last());
    }
}

/// The swarm bonus of the enemy in slot `i` striking the token in slot `t`:
/// one per other living enemy next to the target, for a swarmer.
pub open spec fn strike_bonus(tokens: Seq<TurnToken>, i: int, t: int) -> i32 {
    if tokens[i].behavior == EnemyBehavior::Swarmer {
        swarm_count(enemy_views_of(tokens), tokens[i].id, tokens[t].pos) as i32
    } else {
        0
    }
}

fn enemy_views(tokens: &Vec<TurnToken>) -> (v: Vec<EnemyView>)
    ensures
        v@ == enemy_views_of(tokens@),
        v@.len() <= tokens@.len(),
{
    let mut v: Vec<EnemyView> = Vec::new();
    let mut k: usize = 0;
    while k < tokens.len()
        invariant
            k <= tokens@.len(),
            v@ == enemy_views_of(tokens@.take(k as int)),
        decreases tokens@.len() - k,
    {
        assert(tokens@.take(k + 1).drop_last() =~= tokens@.take(k as int));
        let t = tokens[k];
        if t.enemy {
            v.push(EnemyView { id: t.id, pos: t.pos, hp: t.stats.hp });
        }
        k += 1;
    }
    assert(tokens@.take(tokens@.len() as int) =~= tokens@);
    proof {
        lemma_enemy_views_len(tokens@);
    }
    v
}

/// The enemy in slot `i` struck the token in slot `t`: only its hit points
/// changed, and either it was missed or it lost the enemy's damage for a
/// roll in `lo..=hi` (at least `floor`, doubled when enraged, plus the swarm
/// bonus, doubled on a critical hit).
pub open spec fn enemy_hit(before: Seq<TurnToken>, after: Seq<TurnToken>, i: int, t: int, floor: i32, lo: i32, hi: i32) -> bool {
    let a = before[i];
    &&& after == before.update(t, with_hp(before[t], after[t].stats.hp))
    &&& after[t].stats.hp == before[t].stats.hp || exists|roll: i32, crit: bool|
        lo <= roll <= hi && after[t].stats.hp == before[t].stats.hp - #[trigger] enemy_damage_of(
            a.stats.attack,
            roll,
            floor,
            a.enraged,
            strike_bonus(before, i, t),
            crit,
        )
}

/// A hit took from `before` down to `after`, by no more than a roll can deal.
pub open spec fn took_hit(before: i32, after: i32) -> bool {
    after <= before && before - after <= 8 * ROLL_BOUND
}

/// An enemy in slot `i` attacks the token in slot `t`: a d20 plus its
/// attack (and, for a swarmer, one per other living enemy next to the
/// target) against ten plus the target's defense; a hit deals half the
/// attack plus a roll in `lo..=hi` (at least `floor`), doubled when
/// enraged, plus the swarm bonus, doubled on a natural 20.
fn enemy_strike(tokens: &mut Vec<TurnToken>, i: usize, t: usize, floor: i32, lo: i32, hi: i32, rng: &mut StdRng) -> (log: Vec<LogPayload>)
    requires
        i < old(tokens)@.len(),
        t < old(tokens)@.len(),
        old(tokens)@.len() <= ROLL_BOUND,
        token_fits(old(tokens)@[i as int]),
        token_fits(old(tokens)@[t as int]),
        1 <= floor <= 2,
        0 <= lo <= hi <= 20,
    ensures
        exists|hp: i32|
            final(tokens)@ == old(tokens)@.update(t as int, with_hp(old(tokens)@[t as int], hp)) && took_hit(old(tokens)@[t as int].stats.hp, hp),
        enemy_hit(old(tokens)@, final(tokens)@, i as int, t as int, floor, lo, hi),
{
    let me = tokens[i];
    let target = tokens[t];
    let bonus: i32 = match me.behavior {
        EnemyBehavior::Swarmer => {
            let views = enemy_views(tokens);
            let b = swarmer_bonus(&views, me.id, target.pos);
            proof {
                lemma_swarm_bounded(views@, me.id, target.pos);
            }
            b
        },
        _ => 0,
    };
    let d20 = random_i32_inclusive(rng, 1, 20);
    let hit = attack_hits(d20, me.stats.attack, bonus, target.stats.defense);
    let mut log: Vec<LogPayload> = Vec::new();
    if hit {
        let roll = random_i32_inclusive(rng, lo, hi);
        let dmg = enemy_damage(me.stats.attack, roll, floor, me.enraged, bonus, d20 == 20);
        assert(1 <= dmg <= 5 * ROLL_BOUND);
        assert(bonus == strike_bonus(old(tokens)@, i as int, t as int));
        assert(dmg == enemy_damage_of(me.stats.attack, roll, floor, me.enraged, strike_bonus(old(tokens)@, i as int, t as int), d20 == 20));
        let hp = target.stats.hp - dmg;
        set_hp(tokens, t, hp);
        assert(tokens@ == old(tokens)@.update(t as int, with_hp(old(tokens)@[t as int], hp)) && took_hit(old(tokens)@[t as int].stats.hp, hp));
        log.push(LogPayload::Attack { attacker: String::new(), defender: String::new(), is_hit: true });
        if hp <= 0 {
            log.push(LogPayload::Death { name: String::new(), is_enemy: false });
        }
    } else {
        assert(old(tokens)@.update(t as int, with_hp(old(tokens)@[t as int], target.stats.hp)) =~= old(tokens)@);
        assert(tokens@ == old(tokens)@.update(t as int, with_hp(old(tokens)@[t as int], target.stats.hp))
            && took_hit(old(tokens)@[t as int].stats.hp, target.stats.hp));
        log.push(LogPayload::Attack { attacker: String::new(), defender: String::new(), is_hit: false });
    }
    log
}

/// A hero in slot `i` strikes the token in slot `t`: a d20 plus its attack
/// and bonus against ten plus the target's defense; a hit deals the
/// strike's damage with a roll in `lo..=hi`, doubled on a natural 20, cut
/// to nine tenths for a loner near an ally.
fn hero_strike(
    tokens: &mut Vec<TurnToken>,
    i: usize,
    t: usize,
    strike: Strike,
    lo: i32,
    hi: i32,
    bonus: i32,
    loner_near_ally: bool,
    rng: &mut StdRng,
) -> (r: (Vec<LogPayload>, i32))
    requires
        i < old(tokens)@.len(),
        t < old(tokens)@.len(),
        token_fits(old(tokens)@[i as int]),
        token_fits(old(tokens)@[t as int]),
        -ROLL_BOUND <= bonus <= ROLL_BOUND,
        0 <= lo <= hi <= 20,
    ensures
        exists|hp: i32|
            final(tokens)@ == old(tokens)@.update(t as int, with_hp(old(tokens)@[t as int], hp)) && took_hit(old(tokens)@[t as int].stats.hp, hp),
        0 <= r.1 <= 8 * ROLL_BOUND,
        final(tokens)@[t as int].stats.hp == old(tokens)@[t as int].stats.hp - r.1,
{
    let me = tokens[i];
    let target = tokens[t];
    let d20 = random_i32_inclusive(rng, 1, 20);
    let hit = attack_hits(d20, me.stats.attack, bonus, target.stats.defense);
    let mut log: Vec<LogPayload> = Vec::new();
    let mut dealt: i32 = 0;
    if hit {
        let roll = random_i32_inclusive(rng, lo, hi);
        let dmg = strike_damage(strike, me.stats.attack, roll, d20 == 20, loner_near_ally);
        assert(0 <= dmg <= 8 * ROLL_BOUND);
        let hp = target.stats.hp - dmg;
        dealt = dmg;
        set_hp(tokens, t, hp);
        assert(tokens@ == old(tokens)@.update(t as int, with_hp(old(tokens)@[t as int], hp)) && took_hit(old(tokens)@[t as int].stats.hp, hp));
        log.push(LogPayload::Attack { attacker: String::new(), defender: String::new(), is_hit: true });
        if hp <= 0 {
            log.push(LogPayload::Death { name: String::new(), is_enemy: true });
        }
    } else {
        assert(old(tokens)@.update(t as int, with_hp(old(tokens)@[t as int], target.stats.hp)) =~= old(tokens)@);
        assert(tokens@ == old(tokens)@.update(t as int, with_hp(old(tokens)@[t as int], target.stats.hp))
            && took_hit(old(tokens)@[t as int].stats.hp, target.stats.hp));
        log.push(LogPayload::Attack { attacker: String::new(), defender: String::new(), is_hit: false });
    }
    (log, dealt)
}

/// The fields a turn never changes: who the token is and its numbers other
/// than hit points.
pub open spec fn kept(a: TurnToken, b: TurnToken) -> bool {
    &&& a.id == b.id
    &&& a.enemy == b.enemy
    &&& a.behavior == b.behavior
    &&& a.attack_range == b.attack_range
    &&& a.stats.max_hp == b.stats.max_hp
    &&& a.stats.attack == b.stats.attack
    &&& a.stats.defense == b.stats.defense
    &&& a.stats.speed == b.stats.speed
}

/// A token that did not act: only its hit points may have changed.
pub open spec fn still(a: TurnToken, b: TurnToken) -> bool {
    &&& kept(a, b)
    &&& a.pos == b.pos
    &&& a.room == b.room
    &&& a.telegraph == b.telegraph
    &&& a.enraged == b.enraged
}

/// The token in slot `i` acted; every other token stood still, and none left.
pub open spec fn others_hold(before: Seq<TurnToken>, after: Seq<TurnToken>, i: int) -> bool {
    &&& after.len() >= before.len()
    &&& kept(before[i], after[i])
    &&& forall|k: int| 0 <= k < before.len() && k != i ==> still(before[k], #[trigger] after[k])
}

/// A token stayed on its tile or stepped onto a walkable neighbour.
pub open spec fn step_or_stay(map: DungeonMap, a: Pos, b: Pos) -> bool {
    a == b || (adjacent(a, b) && map.walkable(b))
}

/// A giant rat a boss summons.
pub open spec fn giant_rat(id: u64, pos: Pos, room: Option<usize>) -> TurnToken {
    TurnToken {
        id: id,
        enemy: true,
        behavior: EnemyBehavior::Swarmer,
        attack_range: 1,
        pos: pos,
        room: room,
        stats: CombatStats { hp: 10, max_hp: 10, attack: 2, defense: 1, speed: 12 },
        telegraph: None,
        enraged: false,
    }
}

/// Two giant rats joined the board in `room`, with the next two ids, and
/// joined the round's queue after everyone else.
pub open spec fn rats_joined(before: TurnSim, after: TurnSim, room: usize) -> bool {
    let n = before.tokens@.len() as int;
    &&& after.tokens@.len() == n + 2
    &&& after.tokens@[n] == giant_rat(before.next_id, after.tokens@[n].pos, Some(room))
    &&& after.tokens@[n + 1] == giant_rat((before.next_id + 1) as u64, after.tokens@[n + 1].pos, Some(room))
    &&& after.queue.queue@ == before.queue.queue@.push(before.next_id).push((before.next_id + 1) as u64)
    &&& after.next_id == before.next_id + 2
    &&& after.abilities@.len() == n + 2
    &&& after.abilities@[n]@.len() == 0
    &&& after.abilities@[n + 1]@.len() == 0
}

fn set_cooldown(abilities: &mut Vec<Vec<ActiveAbilityState>>, i: usize, k: usize, cooldown: u32)
    requires
        i < old(abilities)@.len(),
        k < old(abilities)@[i as int]@.len(),
    ensures
        final(abilities)@.len() == old(abilities)@.len(),
        forall|j: int| 0 <= j < old(abilities)@.len() && j != i ==> #[trigger] final(abilities)@[j] == old(abilities)@[j],
        final(abilities)@[i as int]@.len() == old(abilities)@[i as int]@.len(),
        final(abilities)@[i as int]@[k as int].remaining_cooldown == cooldown,
        forall|m: int| 0 <= m < old(abilities)@[i as int]@.len() && m != k ==> #[trigger] final(abilities)@[i as int]@[m] == old(abilities)@[i as int]@[m],
{
    let mut list = abilities.remove(i);
    let id = list[k].ability_id.clone();
    list.set(k, ActiveAbilityState { ability_id: id, remaining_cooldown: cooldown });
    abilities.insert(i, list);
}

fn tick_abilities_of(abilities: &mut Vec<Vec<ActiveAbilityState>>, i: usize)
    requires
        i < old(abilities)@.len(),
    ensures
        final(abilities)@.len() == old(abilities)@.len(),
        forall|j: int| 0 <= j < old(abilities)@.len() && j != i ==> #[trigger] final(abilities)@[j] == old(abilities)@[j],
        final(abilities)@[i as int]@.len() == old(abilities)@[i as int]@.len(),
        forall|k: int|
            0 <= k < old(abilities)@[i as int]@.len() ==> (#[trigger] final(abilities)@[i as int]@[k]).remaining_cooldown == if old(
                abilities,
            )@[i as int]@[k].remaining_cooldown > 0 {
                (old(abilities)@[i as int]@[k].remaining_cooldown - 1) as u32
            } else {
                0u32
            },
        forall|k: int|
            0 <= k < old(abilities)@[i as int]@.len() ==> (#[trigger] final(abilities)@[i as int]@[k]).ability_id@ == old(
                abilities,
            )@[i as int]@[k].ability_id@,
{
    let mut list = abilities.remove(i);
    tick_cooldowns(&mut list);
    abilities.insert(i, list);
}

/// The heroes as enemies see them, with the slot each came from.
fn hero_views(tokens: &Vec<TurnToken>) -> (r: (Vec<HeroView>, Vec<usize>))
    ensures
        r.0@.len() == r.1@.len(),
        forall|h: int|
            0 <= h < r.1@.len() ==> {
                let s = #[trigger] r.1@[h];
                &&& s < tokens@.len()
                &&& !tokens@[s as int].enemy
                &&& r.0@[h] == HeroView { hp: tokens@[s as int].stats.hp, room: tokens@[s as int].room, pos: tokens@[s as int].pos }
            },
{
    let mut views: Vec<HeroView> = Vec::new();
    let mut slots: Vec<usize> = Vec::new();
    let mut k: usize = 0;
    while k < tokens.len()
        invariant
            k <= tokens@.len(),
            views@.len() == slots@.len(),
            forall|h: int|
                0 <= h < slots@.len() ==> {
                    let s = #[trigger] slots@[h];
                    &&& s < tokens@.len()
                    &&& !tokens@[s as int].enemy
                    &&& views@[h] == HeroView { hp: tokens@[s as int].stats.hp, room: tokens@[s as int].room, pos: tokens@[s as int].pos }
                },
        decreases tokens@.len() - k,
    {
        let t = tokens[k];
        if !t.enemy {
            views.push(HeroView { hp: t.stats.hp, room: t.room, pos: t.pos });
            slots.push(k);
        }
        k += 1;
    }
    (views, slots)
}

/// A hero an enemy in `room` may aim at: alive and in the same room.
pub open spec fn aimable(t: TurnToken, room: Option<usize>) -> bool {
    !t.enemy && t.stats.hp > 0 && room is Some && t.room == room
}

/// What an enemy aims by: distance for a swarmer, hit points otherwise.
pub open spec fn aim_key(swarmer: bool, from: Pos, t: TurnToken) -> int {
    if swarmer { dist(from, t.pos) } else { t.stats.hp as int }
}

/// The slot an enemy at `from` in `room` aims at: among the heroes it may
/// aim at, the least by its key, the first in slot order on a tie.
pub open spec fn enemy_aim(tokens: Seq<TurnToken>, swarmer: bool, from: Pos, room: Option<usize>) -> Option<int>
    decreases tokens.len(),
{
    if tokens.len() == 0 {
        None
    } else {
        let prev = enemy_aim(tokens.drop_last(), swarmer, from, room);
        let l = tokens.len() - 1;
        if aimable(tokens[l], room) && (prev matches Some(p) ==> aim_key(swarmer, from, tokens[l]) < aim_key(swarmer, from, tokens[p])) {
            Some(l)
        } else {
            prev
        }
    }
}

proof fn lemma_aim_in_range(tokens: Seq<TurnToken>, swarmer: bool, from: Pos, room: Option<usize>)
    ensures
        enemy_aim(tokens, swarmer, from, room) matches Some(a) ==> 0 <= a < tokens.len() && aimable(tokens[a], room),
    decreases tokens.len(),
{
    if tokens.len() > 0 {
        lemma_aim_in_range(tokens.drop_last(), swarmer, from, room);
    }
}

fn aim_at(tokens: &Vec<TurnToken>, swarmer: bool, from: Pos, room: Option<usize>) -> (r: Option<usize>)
    ensures
        match r {
            Some(a) => enemy_aim(tokens@, swarmer, from, room) == Some(a as int),
            None => enemy_aim(tokens@, swarmer, from, room) is None,
        },
{
    let mut best: Option<usize> = None;
    let mut best_key: i64 = 0;
    let mut k: usize = 0;
    while k < tokens.len()
        invariant
            k <= tokens@.len(),
            match best {
                Some(a) => enemy_aim(tokens@.take(k as int), swarmer, from, room) == Some(a as int) && a < k && best_key == aim_key(
                    swarmer,
                    from,
                    tokens@[a as int],
                ),
                None => enemy_aim(tokens@.take(k as int), swarmer, from, room) is None,
            },
        decreases tokens@.len() - k,
    {
        let ghost tk = tokens@.take(k + 1);
        assert(tk.drop_last() =~= tokens@.take(k as int));
        assert(tk[k as int] == tokens@[k as int]);
        proof {
            match best {
                Some(a) => {
                    assert(tk[a as int] == tokens@[a as int]);
                },
                None => {},
            }
        }
        let t = tokens[k];
        let ok = !t.enemy && t.stats.hp > 0 && room.is_some() && match (t.room, room) {
            (Some(x), Some(y)) => x == y,
            _ => false,
        };
        if ok {
            let key: i64 = if swarmer { manhattan(from, t.pos) as i64 } else { t.stats.hp as i64 };
            let better = match best {
                None => true,
                Some(_) => key < best_key,
            };
            if better {
                best = Some(k);
                best_key = key;
            }
        }
        k += 1;
    }
    assert(tokens@.take(tokens@.len() as int) =~= tokens@);
    best
}

/// The enemies as a healer sees them, in slot order.
pub open spec fn allies_of(tokens: Seq<TurnToken>) -> Seq<AllyView>
    decreases tokens.len(),
{
    if tokens.len() == 0 {
        Seq::empty()
    } else {
        let prev = allies_of(tokens.drop_last());
        let t = tokens.last();
        if t.enemy {
            prev.push(AllyView { id: t.id, pos: t.pos, room: t.room, hp: t.stats.hp, max_hp: t.stats.max_hp })
        } else {
            prev
        }
    }
}

fn ally_views(tokens: &Vec<TurnToken>) -> (v: Vec<AllyView>)
    ensures
        v@ == allies_of(tokens@),
{
    let mut v: Vec<AllyView> = Vec::new();
    let mut k: usize = 0;
    while k < tokens.len()
        invariant
            k <= tokens@.len(),
            v@ == allies_of(tokens@.take(k as int)),
        decreases tokens@.len() - k,
    {
        assert(tokens@.take(k + 1).drop_last() =~= tokens@.take(k as int));
        let t = tokens[k];
        if t.enemy {
            v.push(AllyView { id: t.id, pos: t.pos, room: t.room, hp: t.stats.hp, max_hp: t.stats.max_hp });
        }
        k += 1;
    }
    assert(tokens@.take(tokens@.len() as int) =~= tokens@);
    v
}

/// Some hero token, living or not, is in the room (no room matches no room).
pub open spec fn heroes_in(tokens: Seq<TurnToken>, room: Option<usize>) -> bool {
    exists|k: int| 0 <= k < tokens.len() && !(#[trigger] tokens[k]).enemy && tokens[k].room == room
}

fn hero_in_room(tokens: &Vec<TurnToken>, room: Option<usize>) -> (b: bool)
    ensures
        b == heroes_in(tokens@, room),
{
    let mut k: usize = 0;
    while k < tokens.len()
        invariant
            k <= tokens@.len(),
            forall|j: int| 0 <= j < k ==> !(!(#[trigger] tokens@[j]).enemy && tokens@[j].room == room),
        decreases tokens@.len() - k,
    {
        let t = tokens[k];
        if !t.enemy && t.room == room {
            assert(!tokens@[k as int].enemy && tokens@[k as int].room == room);
            return true;
        }
        k += 1;
    }
    false
}

/// What an enemy in slot `i` knows as it picks an ability, aiming at `target`.
pub open spec fn turn_view(sim: TurnSim, i: int, target: Option<int>) -> EnemyTurnView {
    let a = sim.tokens@[i];
    EnemyTurnView {
        pos: a.pos,
        room: a.room,
        hp: a.stats.hp,
        max_hp: a.stats.max_hp,
        heroes_in_room: heroes_in(sim.tokens@, a.room),
        combat_round_count: sim.queue.combat_round_count,
        enraged: a.enraged,
        target: match target {
            Some(t) => Some((sim.tokens@[t].id, sim.tokens@[t].pos)),
            None => None,
        },
    }
}

/// A boss summons two giant rats into `room`, each on a walkable tile of
/// the room chosen at random; they join the end of the round's queue.
fn summon_rats(sim: &mut TurnSim, room: usize, rng: &mut StdRng)
    requires
        turn_ok(*old(sim)),
        room < old(sim).map.rooms@.len(),
    ensures
        rats_joined(*old(sim), *final(sim), room),
        final(sim).map == old(sim).map,
        final(sim).chests@ == old(sim).chests@,
        final(sim).gold == old(sim).gold,
        final(sim).queue.active_index == old(sim).queue.active_index,
        final(sim).queue.round_count == old(sim).queue.round_count,
        final(sim).queue.combat_round_count == old(sim).queue.combat_round_count,
        final(sim).tokens@.subrange(0, old(sim).tokens@.len() as int) == old(sim).tokens@,
        final(sim).abilities@.subrange(0, old(sim).abilities@.len() as int) == old(sim).abilities@,
{
    let mut m: u64 = 0;
    while m < 2
        invariant
            0 <= m <= 2,
            turn_ok(*old(sim)),
            room < old(sim).map.rooms@.len(),
            sim.map == old(sim).map,
            sim.chests@ == old(sim).chests@,
            sim.gold == old(sim).gold,
            sim.queue.active_index == old(sim).queue.active_index,
            sim.queue.round_count == old(sim).queue.round_count,
            sim.queue.combat_round_count == old(sim).queue.combat_round_count,
            sim.next_id == old(sim).next_id + m,
            sim.tokens@.len() == old(sim).tokens@.len() + m,
            sim.abilities@.len() == old(sim).abilities@.len() + m,
            sim.queue.queue@.len() == old(sim).queue.queue@.len() + m,
            sim.tokens@.subrange(0, old(sim).tokens@.len() as int) == old(sim).tokens@,
            sim.abilities@.subrange(0, old(sim).abilities@.len() as int) == old(sim).abilities@,
            sim.queue.queue@.subrange(0, old(sim).queue.queue@.len() as int) == old(sim).queue.queue@,
            forall|q: int| 0 <= q < m ==> {
                let t = #[trigger] sim.tokens@[old(sim).tokens@.len() + q];
                &&& t == giant_rat((old(sim).next_id + q) as u64, t.pos, Some(room))
                &&& sim.queue.queue@[old(sim).queue.queue@.len() + q] == old(sim).next_id + q
                &&& sim.abilities@[old(sim).abilities@.len() + q]@.len() == 0
            },
        decreases 2 - m,
    {
        let r = sim.map.rooms[room];
        assert(r.x + r.w <= u32::MAX && r.y + r.h <= u32::MAX);
        let pos = match sim.map.random_walkable_in_room(room, rng) {
            Some(p) => p,
            None => r.center(),
        };
        let id = sim.next_id;
        sim.tokens.push(TurnToken {
            id: id,
            enemy: true,
            behavior: EnemyBehavior::Swarmer,
            attack_range: 1,
            pos: pos,
            room: Some(room),
            stats: CombatStats { hp: 10, max_hp: 10, attack: 2, defense: 1, speed: 12 },
            telegraph: None,
            enraged: false,
        });
        sim.abilities.push(Vec::new());
        sim.queue.queue.push(id);
        sim.next_id = id + 1;
        m += 1;
        proof {
            assert(sim.tokens@.subrange(0, old(sim).tokens@.len() as int) =~= old(sim).tokens@);
            assert(sim.abilities@.subrange(0, old(sim).abilities@.len() as int) =~= old(sim).abilities@);
            assert(sim.queue.queue@.subrange(0, old(sim).queue.queue@.len() as int) =~= old(sim).queue.queue@);
        }
    }
    let ghost n = old(sim).tokens@.len() as int;
    let ghost qn = old(sim).queue.queue@.len() as int;
    assert(sim.tokens@[n + 0] == giant_rat((old(sim).next_id + 0) as u64, sim.tokens@[n + 0].pos, Some(room)));
    assert(sim.tokens@[n + 1] == giant_rat((old(sim).next_id + 1) as u64, sim.tokens@[n + 1].pos, Some(room)));
    assert forall|j: int| 0 <= j < qn implies sim.queue.queue@[j] == old(sim).queue.queue@[j] by {
        assert(sim.queue.queue@.subrange(0, qn)[j] == sim.queue.queue@[j]);
    }
    assert(sim.queue.queue@ =~= old(sim).queue.queue@.push(old(sim).next_id).push((old(sim).next_id + 1) as u64));
    assert(sim.abilities@[n + 0]@.len() == 0);
    assert(sim.abilities@[n + 1]@.len() == 0);
}

/// The ability table an enemy's choice can read: every hit-point rule is a
/// share it can compare.
pub open spec fn db_ok(db: Option<&AbilityDatabase>) -> bool {
    db matches Some(d) ==> forall|i: int| 0 <= i < d.0@.len() ==> match (#[trigger] d.0@[i]).ai_priority {
        AiPriorityRule::HpBelowPercent(p) => p <= 100000,
        AiPriorityRule::Always => true,
    }
}

/// What a cast does on the board.
#[derive(Debug, Clone, Copy)]
pub enum CastKind {
    Slam,
    Summon,
    Enrage,
    Strike { floor: i32, lo: i32, hi: i32 },
    Mend,
    Shield,
    Nothing,
}

/// The definitions in an ability table, if one is loaded.
pub open spec fn defs_of(db: Option<&AbilityDatabase>) -> Option<Seq<AbilityDef>> {
    match db {
        Some(d) => Some(d.0@),
        None => None,
    }
}

/// What casting the ability with id `id` does: the boss's slam, summon and
/// enrage by name; a slash strikes; any other ability by its definition's
/// effect (a power shot strikes harder); nothing without a definition.
pub open spec fn kind_of(id: Seq<char>, defs: Option<Seq<AbilityDef>>) -> CastKind {
    if id == "Boss Slam"@ {
        CastKind::Slam
    } else if id == "Boss Summon"@ {
        CastKind::Summon
    } else if id == "Boss Enrage"@ {
        CastKind::Enrage
    } else if id == "Slash"@ {
        CastKind::Strike { floor: 1, lo: 1, hi: 3 }
    } else {
        match defs {
            Some(d) => match first_ability(d, id) {
                Some(x) => match d[x].effect {
                    AbilityEffect::Damage | AbilityEffect::Debuff => if id == "Power Shot"@ {
                        CastKind::Strike { floor: 2, lo: 2, hi: 5 }
                    } else {
                        CastKind::Strike { floor: 1, lo: 1, hi: 3 }
                    },
                    AbilityEffect::Heal => CastKind::Mend,
                    AbilityEffect::Shield | AbilityEffect::Buff => CastKind::Shield,
                },
                None => CastKind::Nothing,
            },
            None => CastKind::Nothing,
        }
    }
}

/// The cooldown an ability waits after it is cast: its definition's, or
/// three turns without one.
pub open spec fn cooldown_of(id: Seq<char>, defs: Option<Seq<AbilityDef>>) -> u32 {
    match defs {
        Some(d) => match first_ability(d, id) {
            Some(x) => d[x].cooldown,
            None => 3,
        },
        None => 3,
    }
}

/// What casting an ability does, and the cooldown it then waits: the
/// definition's, or three turns when it has none.
fn classify(ab: &ActiveAbilityState, db: Option<&AbilityDatabase>) -> (r: (CastKind, u32))
    ensures
        r.0 == kind_of(ab.ability_id@, defs_of(db)),
        r.1 == cooldown_of(ab.ability_id@, defs_of(db)),
        r.0 matches CastKind::Enrage ==> ab.ability_id@ == "Boss Enrage"@,
        r.0 matches CastKind::Strike { floor, lo, hi } ==> 1 <= floor <= 2 && 0 <= lo <= hi <= 20,
{
    let id = ab.ability_id.as_str();
    let cooldown: u32 = match db {
        Some(d) => match d.get(&ab.ability_id) {
            Some(def) => def.cooldown,
            None => 3,
        },
        None => 3,
    };
    let kind = if same_text(id, "Boss Slam") {
        CastKind::Slam
    } else if same_text(id, "Boss Summon") {
        CastKind::Summon
    } else if same_text(id, "Boss Enrage") {
        CastKind::Enrage
    } else if same_text(id, "Slash") {
        CastKind::Strike { floor: 1, lo: 1, hi: 3 }
    } else {
        match db {
            Some(d) => match d.get(&ab.ability_id) {
                Some(def) => match def.effect {
                    AbilityEffect::Damage | AbilityEffect::Debuff => if same_text(id, "Power Shot") {
                        CastKind::Strike { floor: 2, lo: 2, hi: 5 }
                    } else {
                        CastKind::Strike { floor: 1, lo: 1, hi: 3 }
                    },
                    AbilityEffect::Heal => CastKind::Mend,
                    AbilityEffect::Shield | AbilityEffect::Buff => CastKind::Shield,
                },
                None => CastKind::Nothing,
            },
            None => CastKind::Nothing,
        }
    };
    (kind, cooldown)
}

/// The room a boss's slam lands on: its own, or the first without one.
pub open spec fn slam_room_of(room: Option<usize>) -> usize {
    match room {
        Some(r) => r,
        None => 0,
    }
}

/// The ability an enemy casts from its list `abs`: `r` is the first that
/// would do something now, with what it is cast on, or none when none would.
pub open spec fn cast_pick(
    abs: Seq<ActiveAbilityState>,
    defs: Option<Seq<AbilityDef>>,
    v: EnemyTurnView,
    allies: Seq<AllyView>,
    r: Option<(usize, CastTarget)>,
) -> bool {
    match r {
        Some((k, t)) => k < abs.len() && cast_of(abs[k as int], defs, v, allies) == Some(t) && forall|j: int|
            0 <= j < k ==> cast_of(#[trigger] abs[j], defs, v, allies) is None,
        None => forall|j: int| 0 <= j < abs.len() ==> cast_of(#[trigger] abs[j], defs, v, allies) is None,
    }
}

proof fn lemma_first_cast(abs: Seq<ActiveAbilityState>, defs: Option<Seq<AbilityDef>>, v: EnemyTurnView, allies: Seq<AllyView>, n: int)
    requires
        0 <= n <= abs.len(),
    ensures
        (forall|j: int| 0 <= j < n ==> cast_of(#[trigger] abs[j], defs, v, allies) is None) || exists|k: int|
            0 <= k < n && (#[trigger] cast_of(abs[k], defs, v, allies)) is Some && forall|j: int| 0 <= j < k ==> cast_of(#[trigger] abs[j], defs, v, allies) is None,
    decreases n,
{
    if n > 0 {
        lemma_first_cast(abs, defs, v, allies, n - 1);
        let last = cast_of(abs[n - 1], defs, v, allies);
    }
}

/// An enemy's choice of cast is determined: exactly one `r` is the pick
/// `cast_pick` names, whatever the abilities and the board.
pub proof fn lemma_cast_pick_unique(abs: Seq<ActiveAbilityState>, defs: Option<Seq<AbilityDef>>, v: EnemyTurnView, allies: Seq<AllyView>)
    requires
        abs.len() <= usize::MAX,
    ensures
        exists|r: Option<(usize, CastTarget)>| #[trigger] cast_pick(abs, defs, v, allies, r),
        forall|r1: Option<(usize, CastTarget)>, r2: Option<(usize, CastTarget)>|
            #[trigger] cast_pick(abs, defs, v, allies, r1) && #[trigger] cast_pick(abs, defs, v, allies, r2) ==> r1 == r2,
{
    lemma_first_cast(abs, defs, v, allies, abs.len() as int);
    if forall|j: int| 0 <= j < abs.len() ==> cast_of(#[trigger] abs[j], defs, v, allies) is None {
        assert(cast_pick(abs, defs, v, allies, None));
    } else {
        let k = choose|k: int|
            0 <= k < abs.len() && (#[trigger] cast_of(abs[k], defs, v, allies)) is Some && forall|j: int| 0 <= j < k ==> cast_of(#[trigger] abs[j], defs, v, allies) is None;
        let t = cast_of(abs[k], defs, v, allies)->Some_0;
        assert(cast_pick(abs, defs, v, allies, Some((k as usize, t))));
    }
    assert forall|r1: Option<(usize, CastTarget)>, r2: Option<(usize, CastTarget)>|
        #[trigger] cast_pick(abs, defs, v, allies, r1) && #[trigger] cast_pick(abs, defs, v, allies, r2) implies r1 == r2 by {
        match (r1, r2) {
            (Some((k1, t1)), Some((k2, t2))) => {
                if k1 < k2 {
                    assert(cast_of(abs[k1 as int], defs, v, allies) is None);
                } else if k2 < k1 {
                    assert(cast_of(abs[k2 as int], defs, v, allies) is None);
                }
            },
            (Some((k1, t1)), None) => {
                assert(cast_of(abs[k1 as int], defs, v, allies) is None);
            },
            (None, Some((k2, t2))) => {
                assert(cast_of(abs[k2 as int], defs, v, allies) is None);
            },
            (None, None) => {},
        }
    }
}

/// The enemy in slot `i` struck the hero with id `h`, if there is one: that
/// hero was hit or missed, else nothing changed.
pub open spec fn hero_struck(before: Seq<TurnToken>, after: Seq<TurnToken>, i: int, h: u64, floor: i32, lo: i32, hi: i32) -> bool {
    ||| (forall|t: int| 0 <= t < before.len() && (#[trigger] before[t]).id == h ==> before[t].enemy) && after == before
    ||| exists|t: int| 0 <= t < before.len() && (#[trigger] before[t]).id == h && !before[t].enemy && enemy_hit(before, after, i, t, floor, lo, hi)
}

/// Only enemies' hit points changed.
pub open spec fn enemies_hp_only(before: Seq<TurnToken>, after: Seq<TurnToken>) -> bool {
    &&& after.len() == before.len()
    &&& forall|k: int|
        0 <= k < before.len() ==> #[trigger] after[k] == with_hp(before[k], after[k].stats.hp) && (!before[k].enemy ==> after[k].stats.hp
            == before[k].stats.hp)
}

/// What the enemy in slot `i` casting an ability of `kind` on `target` did:
/// a slam winds up on its room for one turn, a summon brings two giant rats
/// into its room, an enrage enrages it, a strike hits or misses the hero it
/// is cast on, a heal or shield changes only enemies' hit points.
pub open spec fn cast_done(before: TurnSim, after: TurnSim, i: int, kind: CastKind, target: CastTarget) -> bool {
    let a = before.tokens@[i];
    let n = before.tokens@.len() as int;
    let same = after.queue.queue@ == before.queue.queue@ && after.next_id == before.next_id;
    match kind {
        CastKind::Slam => same && after.tokens@ == before.tokens@.update(i, TurnToken { telegraph: Some((slam_room_of(a.room), 1u32)), ..a }),
        CastKind::Summon => match a.room {
            Some(r) => rats_joined(before, after, r) && after.tokens@.subrange(0, n) == before.tokens@,
            None => same && after.tokens@ == before.tokens@,
        },
        CastKind::Enrage => same && after.tokens@ == before.tokens@.update(i, TurnToken { enraged: true, ..a }),
        CastKind::Strike { floor, lo, hi } => same && match target {
            CastTarget::Hero(h) => hero_struck(before.tokens@, after.tokens@, i, h, floor, lo, hi),
            _ => after.tokens@ == before.tokens@,
        },
        CastKind::Mend => same && enemies_hp_only(before.tokens@, after.tokens@),
        CastKind::Shield => same && enemies_hp_only(before.tokens@, after.tokens@),
        CastKind::Nothing => same && after.tokens@ == before.tokens@,
    }
}

/// The turn of the enemy in slot `i` that cast nothing, aiming at `target`:
/// it strikes a target in range (half its attack plus `1..=3`, at least
/// one), else steps one tile along a shortest walk toward it (staying when
/// none leads there), else does nothing.
pub open spec fn plain_done(before: TurnSim, after: TurnSim, i: int, target: Option<int>) -> bool {
    let a = before.tokens@[i];
    let n = before.tokens@.len() as int;
    &&& after.queue.queue@ == before.queue.queue@
    &&& after.next_id == before.next_id
    &&& match target {
        Some(t) => {
            let goal = before.tokens@[t].pos;
            if dist(a.pos, goal) <= a.attack_range {
                enemy_hit(before.tokens@, after.tokens@, i, t, 1, 1, 3)
            } else {
                &&& after.tokens@ == before.tokens@.update(i, moved_to(a, after.tokens@[i].pos, after.tokens@[i].room))
                &&& if a.pos == goal || !reachable(before.map, a.pos, goal) {
                    after.tokens@[i].pos == a.pos
                } else {
                    adjacent(a.pos, after.tokens@[i].pos) && before.map.walkable(after.tokens@[i].pos) && step_nearer(
                        before.map,
                        a.pos,
                        after.tokens@[i].pos,
                        goal,
                    )
                }
            }
        },
        None => after.tokens@ == before.tokens@,
    }
}

/// Where the enemy in slot `i` steps back to: a skirmisher steps back from
/// the closest hero it may aim at, to the tile `kite_of` gives.
pub open spec fn kite_step(before: TurnSim, i: int) -> Option<Pos> {
    let a = before.tokens@[i];
    if a.behavior == EnemyBehavior::Skirmisher {
        match enemy_aim(before.tokens@, true, a.pos, a.room) {
            Some(c) => kite_of(before.map, a.pos, before.tokens@[c].pos),
            None => None,
        }
    } else {
        None
    }
}

/// What the enemy in slot `i` did with the cast `r` picked, aiming at
/// `target`: the ability it cast waits its cooldown and does what its kind
/// does; with none, it strikes or steps toward its target.
pub open spec fn cast_outcome(
    before: TurnSim,
    after: TurnSim,
    i: int,
    abs: Seq<ActiveAbilityState>,
    defs: Option<Seq<AbilityDef>>,
    target: Option<int>,
    r: Option<(usize, CastTarget)>,
) -> bool {
    match r {
        Some((k, ct)) => {
            &&& after.abilities@[i]@.len() == abs.len()
            &&& after.abilities@[i]@[k as int].remaining_cooldown == cooldown_of(abs[k as int].ability_id@, defs)
            &&& cast_done(before, after, i, kind_of(abs[k as int].ability_id@, defs), ct)
        },
        None => plain_done(before, after, i, target),
    }
}

/// What the enemy in slot `i` did, choosing among the abilities `abs`: it
/// steps back when it kites; else it casts the ability `cast_pick` names,
/// aiming at the hero `enemy_aim` names, or strikes or steps toward that
/// hero when it casts nothing.
pub open spec fn enemy_acted(before: TurnSim, after: TurnSim, i: int, abs: Seq<ActiveAbilityState>, defs: Option<Seq<AbilityDef>>) -> bool {
    let a = before.tokens@[i];
    match kite_step(before, i) {
        Some(t) => {
            &&& after.queue.queue@ == before.queue.queue@
            &&& after.next_id == before.next_id
            &&& after.tokens@ == before.tokens@.update(i, moved_to(a, t, after.tokens@[i].room))
        },
        None => {
            let target = enemy_aim(before.tokens@, a.behavior == EnemyBehavior::Swarmer, a.pos, a.room);
            forall|r: Option<(usize, CastTarget)>|
                #[trigger] cast_pick(abs, defs, turn_view(before, i, target), allies_of(before.tokens@), r) ==> cast_outcome(
                    before,
                    after,
                    i,
                    abs,
                    defs,
                    target,
                    r,
                )
        },
    }
}

/// Whether the turn of the enemy in slot `i` leaves the tick going: it
/// winds down a telegraphed slam, kites, or casts an ability; a strike or
/// a step ends the tick.
pub open spec fn enemy_continues(before: TurnSim, i: int, abs: Seq<ActiveAbilityState>, defs: Option<Seq<AbilityDef>>) -> bool {
    let a = before.tokens@[i];
    let target = enemy_aim(before.tokens@, a.behavior == EnemyBehavior::Swarmer, a.pos, a.room);
    ||| a.telegraph is Some
    ||| kite_step(before, i) is Some
    ||| !cast_pick(abs, defs, turn_view(before, i, target), allies_of(before.tokens@), None)
}

/// What an enemy's turn did to the board. A telegraphed slam winds down,
/// and when it lands every living hero in its room loses the slam damage;
/// otherwise the enemy acted alone: no other token moved or changed but
/// for hit points, no hero gained any, the enemy stepped at most one tile,
/// it became enraged only from the eighth combat round on, a slam it begins
/// lands on its own room next turn, and either nobody joined or two giant
/// rats did, in its room; and it acted as `enemy_acted` says.
pub open spec fn enemy_turn_done(before: TurnSim, after: TurnSim, i: int, abs: Seq<ActiveAbilityState>, defs: Option<Seq<AbilityDef>>) -> bool {
    let a = before.tokens@[i];
    let n = before.tokens@.len() as int;
    match a.telegraph {
        Some(tg) => {
            &&& after.queue.queue@ == before.queue.queue@
            &&& after.next_id == before.next_id
            &&& after.abilities@.len() == before.abilities@.len()
            &&& forall|k: int| 0 <= k < before.abilities@.len() && k != i ==> #[trigger] after.abilities@[k] == before.abilities@[k]
            &&& if tg.1 == 1 {
                &&& after.tokens@.len() == n
                &&& forall|k: int| 0 <= k < n && k != i ==> #[trigger] after.tokens@[k] == with_hp(before.tokens@[k], slam_hp(before.tokens@[k], tg.0))
                &&& after.tokens@[i] == TurnToken { telegraph: None, ..a }
            } else {
                after.tokens@ == before.tokens@.update(i, TurnToken { telegraph: Some((tg.0, (tg.1 - 1) as u32)), ..a })
            }
        },
        None => {
            &&& others_hold(before.tokens@, after.tokens@, i)
            &&& forall|k: int| 0 <= k < n && k != i && !before.tokens@[k].enemy ==> (#[trigger] after.tokens@[k]).stats.hp <= before.tokens@[k].stats.hp
            &&& step_or_stay(before.map, a.pos, after.tokens@[i].pos)
            &&& (after.tokens@[i].enraged ==> a.enraged || before.queue.combat_round_count >= 8)
            &&& (after.tokens@[i].telegraph is None || after.tokens@[i].telegraph == Some((
                match a.room {
                    Some(r) => r,
                    None => 0usize,
                },
                1u32,
            )))
            &&& after.abilities@.len() == after.tokens@.len()
            &&& forall|k: int| 0 <= k < n && k != i ==> #[trigger] after.abilities@[k] == before.abilities@[k]
            &&& ((after.tokens@.len() == n && after.queue.queue@ == before.queue.queue@ && after.next_id == before.next_id) || (a.room matches Some(
                r,
            ) && rats_joined(before, after, r)))
            &&& enemy_acted(before, after, i, abs, defs)
        },
    }
}

/// The hit-point effect of a cast: a strike on the hero it targets, a heal
/// on the enemy it targets (up to its maximum), or a shield on the caster.
/// Returns the slot that changed and its new hit points.
fn cast_on_hp(tokens: &mut Vec<TurnToken>, i: usize, kind: CastKind, target: CastTarget, rng: &mut StdRng) -> (r: Option<(usize, i32)>)
    requires
        i < old(tokens)@.len(),
        old(tokens)@[i as int].enemy,
        old(tokens)@.len() <= ROLL_BOUND,
        forall|k: int| 0 <= k < old(tokens)@.len() ==> token_fits(#[trigger] old(tokens)@[k]),
        kind matches CastKind::Strike { floor, lo, hi } ==> 1 <= floor <= 2 && 0 <= lo <= hi <= 20,
        ids_unique(old(tokens)@),
    ensures
        kind matches CastKind::Strike { floor, lo, hi } ==> match target {
            CastTarget::Hero(h) => hero_struck(old(tokens)@, final(tokens)@, i as int, h, floor, lo, hi),
            _ => final(tokens)@ == old(tokens)@,
        },
        (kind is Mend || kind is Shield) ==> (r matches Some(x) ==> old(tokens)@[x.0 as int].enemy),
        match r {
            Some((t, hp)) => t < old(tokens)@.len() && final(tokens)@ == old(tokens)@.update(t as int, with_hp(old(tokens)@[t as int], hp))
                && (!old(tokens)@[t as int].enemy ==> hp <= old(tokens)@[t as int].stats.hp),
            None => final(tokens)@ == old(tokens)@,
        },
{
    let me = tokens[i];
    match (kind, target) {
        (CastKind::Strike { floor, lo, hi }, CastTarget::Hero(id)) => match find_slot(tokens, id) {
            Some(t) => {
                if tokens[t].enemy {
                    return None;
                }
                let ghost before = tokens@;
                let _ = enemy_strike(tokens, i, t, floor, lo, hi, rng);
                let hp = tokens[t].stats.hp;
                proof {
                    let w = choose|w: i32| tokens@ == before.update(t as int, with_hp(before[t as int], w)) && took_hit(before[t as int].stats.hp, w);
                    assert(tokens@[t as int] == with_hp(before[t as int], w));
                    assert(w == hp);
                }
                Some((t, hp))
            },
            None => None,
        },
        (CastKind::Mend, CastTarget::Ally(id)) => match find_slot(tokens, id) {
            Some(a) => {
                let ally = tokens[a];
                if !ally.enemy {
                    return None;
                }
                let roll = random_i32_inclusive(rng, 5, 12);
                let heal = enemy_heal_amount(roll, me.stats.attack);
                let raised = ally.stats.hp + heal;
                let hp = if raised < ally.stats.max_hp { raised } else { ally.stats.max_hp };
                set_hp(tokens, a, hp);
                Some((a, hp))
            },
            None => None,
        },
        (CastKind::Shield, CastTarget::Caster) => {
            let roll = random_i32_inclusive(rng, 3, 6);
            let hp = me.stats.hp + me.stats.defense + roll;
            set_hp(tokens, i, hp);
            Some((i, hp))
        },
        _ => None,
    }
}

/// An enemy's turn: a telegraphed slam winds down (and lands when its time
/// is up); otherwise a skirmisher with a hero within two tiles steps back,
/// else the enemy casts the first ready ability that would do something
/// now, else it strikes its target when in range or steps toward it.
#[verifier::spinoff_prover]
#[verifier::rlimit(100)]
fn enemy_turn(sim: &mut TurnSim, i: usize, db: Option<&AbilityDatabase>, rng: &mut StdRng) -> (r: (Vec<LogPayload>, bool))
    requires
        turn_ok(*old(sim)),
        i < old(sim).tokens@.len(),
        old(sim).tokens@[i as int].enemy,
        db_ok(db),
    ensures
        final(sim).map == old(sim).map,
        final(sim).chests@ == old(sim).chests@,
        final(sim).gold == old(sim).gold,
        final(sim).queue.active_index == old(sim).queue.active_index,
        final(sim).queue.round_count == old(sim).queue.round_count,
        final(sim).queue.combat_round_count == old(sim).queue.combat_round_count,
        enemy_turn_done(*old(sim), *final(sim), i as int, old(sim).abilities@[i as int]@, defs_of(db)),
        r.1 == enemy_continues(*old(sim), i as int, old(sim).abilities@[i as int]@, defs_of(db)),
{
    let me = sim.tokens[i];
    let mut log: Vec<LogPayload> = Vec::new();
    match me.telegraph {
        Some((room, left)) => {
            let (left2, lands) = telegraph_tick(left);
            if lands {
                let landed = slam_room(&mut sim.tokens, room);
                assert(sim.tokens@[i as int] == me);
                set_telegraph(&mut sim.tokens, i, None);
                return (landed, true);
            }
            set_telegraph(&mut sim.tokens, i, Some((room, left2)));
            return (log, true);
        },
        None => {},
    }
    let ghost s0 = *sim;
    // A skirmisher steps back from the closest hero.
    if me.behavior == EnemyBehavior::Skirmisher {
        match aim_at(&sim.tokens, true, me.pos, me.room) {
            Some(c) => {
                proof {
                    lemma_aim_in_range(sim.tokens@, true, me.pos, me.room);
                }
                let threat = sim.tokens[c].pos;
                match kite_tile(&sim.map, me.pos, threat) {
                    Some(t) => {
                        proof {
                            assert(dist(me.pos, threat) <= 2);
                            let k = choose|k: int| 0 <= k < 4 && neighbour(me.pos, k) == Some(t);
                            lemma_neighbour_adjacent(me.pos, k, t);
                        }
                        move_token(&mut sim.tokens, &sim.map, i, t);
                        log.push(LogPayload::Ability {
                            attacker: String::new(),
                            defender: String::new(),
                            ability_name: String::new(),
                            is_hit: true,
                            effect_type: String::new(),
                        });
                        return (log, true);
                    },
                    None => {},
                }
            },
            None => {},
        }
    }
    assert(kite_step(s0, i as int) is None);
    let swarmer = me.behavior == EnemyBehavior::Swarmer;
    let target = aim_at(&sim.tokens, swarmer, me.pos, me.room);
    proof {
        lemma_aim_in_range(sim.tokens@, swarmer, me.pos, me.room);
    }
    let ghost target_spec: Option<int> = match target {
        Some(t) => Some(t as int),
        None => None,
    };
    let view = EnemyTurnView {
        pos: me.pos,
        room: me.room,
        hp: me.stats.hp,
        max_hp: me.stats.max_hp,
        heroes_in_room: hero_in_room(&sim.tokens, me.room),
        combat_round_count: sim.queue.combat_round_count,
        enraged: me.enraged,
        target: match target {
            Some(t) => Some((sim.tokens[t].id, sim.tokens[t].pos)),
            None => None,
        },
    };
    assert(view == turn_view(s0, i as int, target_spec));
    let allies = ally_views(&sim.tokens);
    let cast = choose_enemy_cast(&sim.abilities[i], db, &view, &allies);
    assert(cast_pick(s0.abilities@[i as int]@, defs_of(db), view, allies@, cast));
    let goes_on = cast.is_some();
    proof {
        match cast {
            Some((k, ct)) => {
                assert(cast_of(s0.abilities@[i as int]@[k as int], defs_of(db), view, allies@) == Some(ct));
                assert(!cast_pick(s0.abilities@[i as int]@, defs_of(db), view, allies@, None));
            },
            None => {},
        }
    }
    match cast {
        Some((k, ct)) => {
            let (kind, cooldown) = classify(&sim.abilities[i][k], db);
            proof {
                if (kind matches CastKind::Enrage) {
                    let ab = sim.abilities@[i as int]@[k as int];
                    reveal_strlit("Boss Slam");
                    reveal_strlit("Boss Summon");
                    reveal_strlit("Boss Enrage");
                    assert("Boss Enrage"@.len() != "Boss Slam"@.len());
                    assert("Boss Enrage"@[5] != "Boss Summon"@[5]);
                    assert(ab.ability_id@ != "Boss Slam"@);
                    assert(ab.ability_id@ != "Boss Summon"@);
                    assert(view.combat_round_count >= 8);
                }
            }
            set_cooldown(&mut sim.abilities, i, k, cooldown);
            match kind {
                CastKind::Slam => {
                    let r = match me.room {
                        Some(r) => r,
                        None => 0,
                    };
                    set_telegraph(&mut sim.tokens, i, Some((r, 1)));
                },
                CastKind::Summon => match me.room {
                    Some(r) => {
                        let ghost mid = *sim;
                        summon_rats(sim, r, rng);
                        proof {
                            let n = mid.tokens@.len() as int;
                            assert forall|q: int| 0 <= q < n implies #[trigger] sim.tokens@[q] == mid.tokens@[q] by {
                                assert(sim.tokens@.subrange(0, n)[q] == sim.tokens@[q]);
                            }
                            assert forall|q: int| 0 <= q < n implies #[trigger] sim.abilities@[q] == mid.abilities@[q] by {
                                assert(sim.abilities@.subrange(0, n)[q] == sim.abilities@[q]);
                            }
                        }
                    },
                    None => {},
                },
                CastKind::Enrage => {
                    set_enraged(&mut sim.tokens, i);
                },
                CastKind::Nothing => {},
                _ => {
                    let ghost before = sim.tokens@;
                    let r = cast_on_hp(&mut sim.tokens, i, kind, ct, rng);
                    proof {
                        if (kind is Mend || kind is Shield) {
                            assert forall|q: int| 0 <= q < before.len() implies #[trigger] sim.tokens@[q] == with_hp(before[q], sim.tokens@[q].stats.hp)
                                && (!before[q].enemy ==> sim.tokens@[q].stats.hp == before[q].stats.hp) by {}
                        }
                    }
                },
            }
            log.push(LogPayload::Ability {
                attacker: String::new(),
                defender: String::new(),
                ability_name: String::new(),
                is_hit: true,
                effect_type: String::new(),
            });
        },
        None => match target {
            Some(t) => {
                let tp = sim.tokens[t].pos;
                if manhattan(me.pos, tp) <= me.attack_range as u64 {
                    let ghost before = sim.tokens@;
                    let l = enemy_strike(&mut sim.tokens, i, t, 1, 1, 3, rng);
                    proof {
                        let w = choose|w: i32| sim.tokens@ == before.update(t as int, with_hp(before[t as int], w)) && took_hit(before[t as int].stats.hp, w);
                    }
                    log = l;
                } else {
                    let none: Vec<Pos> = Vec::new();
                    match hero_step(&sim.map, me.pos, tp, false, &none) {
                        Some(st) => {
                            move_token(&mut sim.tokens, &sim.map, i, st);
                        },
                        None => {
                            assert(sim.tokens@ == s0.tokens@.update(i as int, moved_to(me, me.pos, me.room)));
                        },
                    }
                }
            },
            None => {},
        },
    }
    (log, goes_on)
}

/// The bonus of a shield ability plan.
pub open spec fn shield_bonus(plan: HeroPlan) -> i32 {
    match plan {
        HeroPlan::Aid { bonus, .. } => bonus,
        _ => 0,
    }
}

/// Whether a shield ability plan is cast by a loner near an ally.
pub open spec fn shield_loner(plan: HeroPlan) -> bool {
    match plan {
        HeroPlan::Aid { loner_near_ally, .. } => loner_near_ally,
        _ => false,
    }
}

/// A hero's plan whose roll bonus fits a roll.
pub open spec fn plan_ok(plan: HeroPlan) -> bool {
    &&& (plan matches HeroPlan::Strike { bonus, .. } ==> -ROLL_BOUND <= bonus <= ROLL_BOUND)
    &&& (plan matches HeroPlan::Ability { bonus, .. } ==> -ROLL_BOUND <= bonus <= ROLL_BOUND)
    &&& (plan matches HeroPlan::Heal { bonus, .. } ==> 0 <= bonus <= ROLL_BOUND)
    &&& (plan matches HeroPlan::Support { bonus, .. } ==> 0 <= bonus <= ROLL_BOUND)
    &&& (plan matches HeroPlan::Aid { bonus, .. } ==> 0 <= bonus <= ROLL_BOUND)
}

/// The cooldown an ability plan sets: the slot of the ability and its wait.
pub open spec fn plan_cooldown(plan: HeroPlan) -> Option<(usize, u32)> {
    match plan {
        HeroPlan::Ability { cooldown, .. } => cooldown,
        HeroPlan::Aid { cooldown, .. } => cooldown,
        HeroPlan::Support { cooldown, .. } => cooldown,
        _ => None,
    }
}

/// A cooldown one turn closer to ready.
pub open spec fn tick_of(c: u32) -> u32 {
    if c > 0 { (c - 1) as u32 } else { 0 }
}

/// A hero's abilities after its turn: each cooldown one turn closer to
/// ready, but the ability it used (when in its list) waits its cooldown.
pub open spec fn cooled(before: Seq<ActiveAbilityState>, after: Seq<ActiveAbilityState>, used: Option<(usize, u32)>) -> bool {
    &&& after.len() == before.len()
    &&& forall|k: int|
        0 <= k < before.len() ==> (#[trigger] after[k]).remaining_cooldown == match used {
            Some(u) => if u.0 == k { u.1 } else { tick_of(before[k].remaining_cooldown) },
            None => tick_of(before[k].remaining_cooldown),
        }
}

/// The hero a heal plan names, if any.
pub open spec fn healed(plan: HeroPlan, t: TurnToken) -> bool {
    ||| plan matches HeroPlan::Heal { target, .. } && target == t.id
    ||| plan matches HeroPlan::Aid { target, shield, .. } && !shield && target == t.id
}

/// The hero a shield ability names, if any.
pub open spec fn shielded(plan: HeroPlan, t: TurnToken) -> bool {
    plan matches HeroPlan::Aid { target, shield, .. } && shield && target == t.id
}

/// Chest `k` is the one a plan to open chest `c` opens: the first with
/// that id, and still closed.
pub open spec fn opens(chests: Seq<TurnChest>, c: u64, k: int) -> bool {
    &&& 0 <= k < chests.len()
    &&& chests[k].id == c
    &&& !chests[k].opened
    &&& forall|j: int| 0 <= j < k ==> chests[j].id != c
}

/// Opening chest `c`: the chest it names, if still closed, is now open and
/// its gold went to the guild; nothing else changed.
pub open spec fn chest_done(before: TurnSim, after: TurnSim, c: u64) -> bool {
    &&& after.chests@.len() == before.chests@.len()
    &&& forall|k: int|
        0 <= k < before.chests@.len() ==> #[trigger] after.chests@[k] == if opens(before.chests@, c, k) {
            TurnChest { opened: true, ..before.chests@[k] }
        } else {
            before.chests@[k]
        }
    &&& forall|k: int| #[trigger] opens(before.chests@, c, k) ==> after.gold == before.gold + before.chests@[k].gold
    &&& (forall|k: int| !#[trigger] opens(before.chests@, c, k)) ==> after.gold == before.gold
}

/// Gear a chest may give: a rarity some roll below a hundred gives, with an
/// affix exactly when it is rare or better.
pub open spec fn find_ok(g: GearFind) -> bool {
    &&& exists|r: u32| r < 100 && drop_rarity(r) == g.rarity
    &&& (g.affix is Some <==> rarity_rank(g.rarity) >= 2)
}

/// The slot of the first chest with an id.
fn find_chest(chests: &Vec<TurnChest>, id: u64) -> (r: Option<usize>)
    ensures
        match r {
            Some(k) => k < chests@.len() && chests@[k as int].id == id && forall|j: int| 0 <= j < k ==> chests@[j].id != id,
            None => forall|j: int| 0 <= j < chests@.len() ==> (#[trigger] chests@[j]).id != id,
        },
{
    let mut k: usize = 0;
    while k < chests.len()
        invariant
            k <= chests@.len(),
            forall|j: int| 0 <= j < k ==> (#[trigger] chests@[j]).id != id,
        decreases chests@.len() - k,
    {
        if chests[k].id == id {
            return Some(k);
        }
        k += 1;
    }
    None
}

/// A chest drops gear on an even coin: a slot, a rarity, and for rare or
/// better gear an affix, each by a roll.
fn roll_find(rng: &mut StdRng) -> (r: Option<GearFind>)
    ensures
        r matches Some(g) ==> find_ok(g),
{
    if !random_ratio(rng, 1, 2) {
        return None;
    }
    let slot = slot_for_roll(random_u32(rng, 0, 3));
    let rr = random_u32(rng, 0, 100);
    let rarity = rarity_for_roll(rr);
    let affix = if rarity.rank() >= 2 {
        affix_for_roll(rarity, random_u32(rng, 0, 3))
    } else {
        None
    };
    let g = GearFind { slot, rarity, affix };
    assert(rr < 100 && drop_rarity(rr) == g.rarity);
    Some(g)
}

/// Open chest `id`, if it is there and still closed: its gold goes to the
/// guild and, when a gear table is loaded, it may drop gear.
fn open_chest(sim: &mut TurnSim, id: u64, gear: bool, log: &mut Vec<LogPayload>, rng: &mut StdRng) -> (r: Option<GearFind>)
    requires
        turn_ok(*old(sim)),
    ensures
        final(sim).map == old(sim).map,
        final(sim).queue == old(sim).queue,
        final(sim).tokens@ == old(sim).tokens@,
        final(sim).abilities@ == old(sim).abilities@,
        final(sim).next_id == old(sim).next_id,
        chest_done(*old(sim), *final(sim), id),
        r matches Some(g) ==> find_ok(g) && gear && exists|k: int| opens(old(sim).chests@, id, k),
{
    match find_chest(&sim.chests, id) {
        Some(k) => {
            let ch = sim.chests[k];
            if ch.opened {
                assert forall|j: int| !#[trigger] opens(old(sim).chests@, id, j) by {
                    if opens(old(sim).chests@, id, j) {
                        assert(j == k as int);
                    }
                }
                return None;
            }
            assert(opens(old(sim).chests@, id, k as int));
            assert forall|j: int| #[trigger] opens(old(sim).chests@, id, j) implies j == k as int by {}
            assert(sim.gold + sim.chests@[k as int].gold <= u32::MAX);
            sim.chests.set(k, TurnChest { id: ch.id, gold: ch.gold, opened: true });
            sim.gold = sim.gold + ch.gold;
            log.push(LogPayload::ChestOpened { hero_name: String::new(), gold: ch.gold });
            if gear {
                roll_find(rng)
            } else {
                None
            }
        },
        None => None,
    }
}

/// What a hero's turn did to the board: nobody joined and no hero's hit
/// points changed; the hero itself changed only its tile, by one step
/// along a shortest walk toward the tile it advanced to (staying put when
/// it stood there or no walk leads there); when it struck, only enemy hit
/// points fell (and with lifesteal the hero regained some of the damage, up
/// to its maximum), when it healed, only the hero it healed gained, up to its
/// maximum, and when it rallied or mass-healed, only the living heroes it
/// reached changed, each by the support it gave.
pub open spec fn hero_turn_done(before: TurnSim, after: TurnSim, i: int, plan: HeroPlan) -> bool {
    let a = before.tokens@[i];
    let b = after.tokens@[i];
    let n = before.tokens@.len() as int;
    &&& after.tokens@.len() == n
    &&& after.queue.queue@ == before.queue.queue@
    &&& after.next_id == before.next_id
    &&& others_hold(before.tokens@, after.tokens@, i)
    &&& (plan matches HeroPlan::Support { mass_heal, bonus, loner_near_ally, cursed, .. } ==> supported(
        before.tokens@,
        after.tokens@,
        i,
        mass_heal,
        bonus,
        loner_near_ally,
        cursed,
    ))
    &&& !(plan is Support) ==> forall|k: int|
        0 <= k < n ==> (if before.tokens@[k].enemy {
            (#[trigger] after.tokens@[k]).stats.hp <= before.tokens@[k].stats.hp
        } else if healed(plan, before.tokens@[k]) {
            before.tokens@[k].stats.hp <= after.tokens@[k].stats.hp && (after.tokens@[k].stats.hp <= before.tokens@[k].stats.max_hp
                || after.tokens@[k].stats.hp == before.tokens@[k].stats.hp)
        } else if shielded(plan, before.tokens@[k]) {
            (exists|r: i32|
                3 <= r <= 8 && after.tokens@[k].stats.hp == before.tokens@[k].stats.hp + support_of(
                    a.stats.defense,
                    r,
                    shield_bonus(plan),
                    shield_loner(plan),
                    false,
                )) || after.tokens@[k].stats.hp == before.tokens@[k].stats.hp
        } else if k == i && plan matches HeroPlan::Strike { lifesteal: true, .. } {
            after.tokens@[k].stats.hp >= before.tokens@[k].stats.hp || after.tokens@[k].stats.hp == before.tokens@[k].stats.max_hp
        } else {
            after.tokens@[k].stats.hp == before.tokens@[k].stats.hp
        })
    &&& b.telegraph == a.telegraph
    &&& b.enraged == a.enraged
    &&& match plan {
        HeroPlan::Advance(goal) => if a.pos == goal || !reachable(before.map, a.pos, goal) {
            b.pos == a.pos
        } else {
            adjacent(a.pos, b.pos) && before.map.walkable(b.pos) && step_nearer(before.map, a.pos, b.pos, goal)
        },
        _ => b.pos == a.pos,
    }
}

/// The tokens as an area effect reaches them.
fn token_places(tokens: &Vec<TurnToken>) -> (v: Vec<(u64, Pos)>) {
    let mut v: Vec<(u64, Pos)> = Vec::new();
    let mut k: usize = 0;
    while k < tokens.len()
        invariant
            k <= tokens@.len(),
        decreases tokens@.len() - k,
    {
        let t = tokens[k];
        if t.enemy {
            v.push((t.id, t.pos));
        }
        k += 1;
    }
    v
}

/// Only enemy hit points changed, and only downward.
pub open spec fn enemies_hit(before: Seq<TurnToken>, after: Seq<TurnToken>) -> bool {
    &&& after.len() == before.len()
    &&& forall|k: int|
        0 <= k < before.len() ==> #[trigger] after[k] == with_hp(before[k], after[k].stats.hp) && if before[k].enemy {
            after[k].stats.hp <= before[k].stats.hp
        } else {
            after[k].stats.hp == before[k].stats.hp
        }
}

/// A hero in slot `i` uses a damaging ability on enemy `target`: each
/// living enemy it reaches takes a strike of its own, with the roll range
/// of the ability (an assassination `10..=20`, a meteor `5..=15` on the
/// target and its neighbours, a volley `3..=10` on everyone within two
/// tiles of the target, any other ability `1..=4`).
fn hero_ability(tokens: &mut Vec<TurnToken>, i: usize, strike: Strike, target: u64, bonus: i32, loner_near_ally: bool, rng: &mut StdRng) -> (log: Vec<LogPayload>)
    requires
        i < old(tokens)@.len(),
        !old(tokens)@[i as int].enemy,
        forall|k: int| 0 <= k < old(tokens)@.len() ==> token_fits(#[trigger] old(tokens)@[k]),
        -ROLL_BOUND <= bonus <= ROLL_BOUND,
    ensures
        enemies_hit(old(tokens)@, final(tokens)@),
{
    let ghost t0 = tokens@;
    let mut log: Vec<LogPayload> = Vec::new();
    let (lo, hi, radius): (i32, i32, u64) = match strike {
        Strike::Assassinate => (10, 20, 0),
        Strike::Meteor => (5, 15, 1),
        Strike::Volley => (3, 10, 2),
        _ => (1, 4, 0),
    };
    let centre = match find_slot(tokens, target) {
        Some(t) => tokens[t].pos,
        None => {
            assert(enemies_hit(t0, tokens@)) by {
                assert forall|k: int| 0 <= k < t0.len() implies #[trigger] tokens@[k] == with_hp(t0[k], tokens@[k].stats.hp) by {}
            }
            return log;
        },
    };
    let reached: Vec<u64> = if radius == 0 {
        let mut only: Vec<u64> = Vec::new();
        only.push(target);
        only
    } else {
        let places = token_places(tokens);
        area_targets(target, centre, radius, &places)
    };
    let mut q: usize = 0;
    while q < reached.len()
        invariant
            i < t0.len(),
            !t0[i as int].enemy,
            forall|k: int| 0 <= k < t0.len() ==> token_fits(#[trigger] t0[k]),
            -ROLL_BOUND <= bonus <= ROLL_BOUND,
            0 <= lo <= hi <= 20,
            enemies_hit(t0, tokens@),
        decreases reached@.len() - q,
    {
        match find_slot(tokens, reached[q]) {
            Some(t) => {
                let victim = tokens[t];
                if victim.enemy && victim.stats.hp > 0 {
                    let ghost before = tokens@;
                    assert(tokens@[i as int] == with_hp(t0[i as int], tokens@[i as int].stats.hp));
                    assert(token_fits(tokens@[i as int]));
                    assert(tokens@[t as int] == with_hp(t0[t as int], tokens@[t as int].stats.hp));
                    assert(token_fits(tokens@[t as int]));
                    let (l, _) = hero_strike(tokens, i, t, strike, lo, hi, bonus, loner_near_ally, rng);
                    proof {
                        let w = choose|w: i32| tokens@ == before.update(t as int, with_hp(before[t as int], w)) && took_hit(before[t as int].stats.hp, w);
                        assert forall|k: int| 0 <= k < t0.len() implies #[trigger] tokens@[k] == with_hp(t0[k], tokens@[k].stats.hp) && if t0[k].enemy {
                            tokens@[k].stats.hp <= t0[k].stats.hp
                        } else {
                            tokens@[k].stats.hp == t0[k].stats.hp
                        } by {
                            if k == t as int {
                                assert(before[k] == with_hp(t0[k], before[k].stats.hp));
                            } else {
                                assert(tokens@[k] == before[k]);
                            }
                        }
                    }
                    log = l;
                }
            },
            None => {},
        }
        q += 1;
    }
    log
}

/// Hit points after support from hero `c`: a rallying cry adds the
/// caster's defense plus a roll in `10..=20` plus the bonus; a mass heal
/// fills the missing hit points; each cut to nine tenths for a loner near
/// an ally, nothing on cursed ground.
pub open spec fn support_result(caster: TurnToken, t: TurnToken, mass_heal: bool, bonus: i32, loner_near_ally: bool, cursed: bool, after_hp: i32) -> bool {
    if mass_heal {
        let raised = t.stats.hp + support_of((t.stats.max_hp - t.stats.hp) as i32, 0, 0, loner_near_ally, cursed);
        after_hp == if raised < t.stats.max_hp { raised } else { t.stats.max_hp as int }
    } else {
        exists|r: i32| 10 <= r <= 20 && after_hp == t.stats.hp + support_of(caster.stats.defense, r, bonus, loner_near_ally, cursed)
    }
}

/// Who a support ability of hero `i` reaches: itself and every other hero
/// within three tiles (four for a mass heal), if alive.
pub open spec fn reached_by(tokens: Seq<TurnToken>, i: int, k: int, mass_heal: bool) -> bool {
    &&& !tokens[k].enemy
    &&& tokens[k].stats.hp > 0
    &&& (k == i || dist(tokens[i].pos, tokens[k].pos) <= if mass_heal { 4int } else { 3int })
}

/// A support ability of hero `i`: only the heroes it reaches changed, each
/// by its support.
pub open spec fn supported(before: Seq<TurnToken>, after: Seq<TurnToken>, i: int, mass_heal: bool, bonus: i32, loner_near_ally: bool, cursed: bool) -> bool {
    &&& after.len() == before.len()
    &&& forall|k: int|
        0 <= k < before.len() ==> #[trigger] after[k] == with_hp(before[k], after[k].stats.hp) && if reached_by(before, i, k, mass_heal) {
            support_result(before[i], before[k], mass_heal, bonus, loner_near_ally, cursed, after[k].stats.hp)
        } else {
            after[k].stats.hp == before[k].stats.hp
        }
}

fn support_one(tokens: &mut Vec<TurnToken>, k: usize, caster: TurnToken, mass_heal: bool, bonus: i32, loner_near_ally: bool, cursed: bool, rng: &mut StdRng)
    requires
        k < old(tokens)@.len(),
        token_fits(caster),
        token_fits(old(tokens)@[k as int]),
        old(tokens)@[k as int].stats.hp > 0,
        0 <= bonus <= ROLL_BOUND,
    ensures
        exists|hp: i32| final(tokens)@ == old(tokens)@.update(k as int, with_hp(old(tokens)@[k as int], hp))
            && support_result(caster, old(tokens)@[k as int], mass_heal, bonus, loner_near_ally, cursed, hp),
{
    let t = tokens[k];
    let hp = if mass_heal {
        let amount = support_amount(t.stats.max_hp - t.stats.hp, 0, 0, loner_near_ally, cursed);
        let raised = t.stats.hp + amount;
        let filled = if raised < t.stats.max_hp { raised } else { t.stats.max_hp };
        assert(support_result(caster, t, mass_heal, bonus, loner_near_ally, cursed, filled));
        filled
    } else {
        let roll = random_i32_inclusive(rng, 10, 20);
        let amount = support_amount(caster.stats.defense, roll, bonus, loner_near_ally, cursed);
        let raised = t.stats.hp + amount;
        assert(support_result(caster, t, mass_heal, bonus, loner_near_ally, cursed, raised));
        raised
    };
    set_hp(tokens, k, hp);
    assert(tokens@ == old(tokens)@.update(k as int, with_hp(old(tokens)@[k as int], hp))
        && support_result(caster, old(tokens)@[k as int], mass_heal, bonus, loner_near_ally, cursed, hp));
}

/// A hero's rallying cry or mass heal: the caster first, then every other
/// hero it reaches, in slot order.
fn hero_support(tokens: &mut Vec<TurnToken>, i: usize, mass_heal: bool, bonus: i32, loner_near_ally: bool, cursed: bool, rng: &mut StdRng)
    requires
        i < old(tokens)@.len(),
        !old(tokens)@[i as int].enemy,
        old(tokens)@.len() <= ROLL_BOUND,
        forall|k: int| 0 <= k < old(tokens)@.len() ==> token_fits(#[trigger] old(tokens)@[k]),
        0 <= bonus <= ROLL_BOUND,
    ensures
        supported(old(tokens)@, final(tokens)@, i as int, mass_heal, bonus, loner_near_ally, cursed),
{
    let ghost t0 = tokens@;
    let caster = tokens[i];
    let radius: u64 = if mass_heal { 4 } else { 3 };
    let mut k: usize = 0;
    while k <= tokens.len()
        invariant
            i < t0.len(),
            t0.len() <= ROLL_BOUND,
            tokens@.len() == t0.len(),
            caster == t0[i as int],
            radius == if mass_heal { 4u64 } else { 3u64 },
            !t0[i as int].enemy,
            forall|j: int| 0 <= j < t0.len() ==> token_fits(#[trigger] t0[j]),
            0 <= bonus <= ROLL_BOUND,
            k <= t0.len() + 1,
            // slot `i` is done once `k > 0`; every other slot below `k - 1` is done
            forall|j: int|
                0 <= j < t0.len() ==> #[trigger] tokens@[j] == with_hp(t0[j], tokens@[j].stats.hp) && if reached_by(t0, i as int, j, mass_heal)
                    && (if j == i as int { k > 0 } else { j < k as int - 1 }) {
                    support_result(t0[i as int], t0[j], mass_heal, bonus, loner_near_ally, cursed, tokens@[j].stats.hp)
                } else {
                    tokens@[j].stats.hp == t0[j].stats.hp
                },
        decreases t0.len() + 1 - k,
    {
        // step `0` serves the caster, step `s + 1` the slot `s`
        let slot: usize = if k == 0 { i } else { k - 1 };
        let serve = if k == 0 {
            caster.stats.hp > 0
        } else {
            let t = tokens[slot];
            slot != i && !t.enemy && t.stats.hp > 0 && manhattan(caster.pos, t.pos) <= radius
        };
        if serve {
            let ghost before = tokens@;
            assert(tokens@[slot as int] == with_hp(t0[slot as int], tokens@[slot as int].stats.hp));
            assert(tokens@[slot as int].stats.hp == t0[slot as int].stats.hp);
            assert(token_fits(tokens@[slot as int]));
            support_one(tokens, slot, caster, mass_heal, bonus, loner_near_ally, cursed, rng);
            proof {
                let w = choose|w: i32| tokens@ == before.update(slot as int, with_hp(before[slot as int], w))
                    && support_result(caster, before[slot as int], mass_heal, bonus, loner_near_ally, cursed, w);
                assert(before[slot as int] == t0[slot as int]);
                assert(reached_by(t0, i as int, slot as int, mass_heal));
                assert forall|j: int| 0 <= j < t0.len() && j != slot as int implies #[trigger] tokens@[j] == before[j] by {}
            }
        } else {
            proof {
                if 0 <= slot < t0.len() {
                    assert(!reached_by(t0, i as int, slot as int, mass_heal) || (k > 0 && slot == i));
                }
            }
        }
        k += 1;
    }
    proof {
        assert forall|j: int| 0 <= j < t0.len() implies #[trigger] tokens@[j] == with_hp(t0[j], tokens@[j].stats.hp) && if reached_by(t0, i as int, j, mass_heal) {
            support_result(t0[i as int], t0[j], mass_heal, bonus, loner_near_ally, cursed, tokens@[j].stats.hp)
        } else {
            tokens@[j].stats.hp == t0[j].stats.hp
        } by {}
    }
}

/// A cleave: every enemy other than the one struck (`target`, at `at`)
/// standing one tile from it loses `amount`.
fn cleave_around(tokens: &mut Vec<TurnToken>, target: u64, at: Pos, amount: i32)
    requires
        0 <= amount <= 4 * ROLL_BOUND,
        forall|k: int| 0 <= k < old(tokens)@.len() ==> -10 * ROLL_BOUND <= (#[trigger] old(tokens)@[k]).stats.hp,
    ensures
        enemies_hit(old(tokens)@, final(tokens)@),
{
    let ghost t0 = tokens@;
    let mut k: usize = 0;
    while k < tokens.len()
        invariant
            k <= tokens@.len(),
            0 <= amount <= 4 * ROLL_BOUND,
            enemies_hit(t0, tokens@),
            forall|j: int| k <= j < t0.len() ==> #[trigger] tokens@[j] == t0[j],
            forall|j: int| 0 <= j < t0.len() ==> -10 * ROLL_BOUND <= (#[trigger] t0[j]).stats.hp,
        decreases tokens@.len() - k,
    {
        let e = tokens[k];
        if e.enemy && e.id != target && manhattan(e.pos, at) == 1 {
            let ghost before = tokens@;
            set_hp(tokens, k, e.stats.hp - amount);
            proof {
                assert forall|j: int| 0 <= j < t0.len() implies #[trigger] tokens@[j] == with_hp(t0[j], tokens@[j].stats.hp) && if t0[j].enemy {
                    tokens@[j].stats.hp <= t0[j].stats.hp
                } else {
                    tokens@[j].stats.hp == t0[j].stats.hp
                } by {
                    if j != k as int {
                        assert(tokens@[j] == before[j]);
                    }
                }
            }
        }
        k += 1;
    }
}

/// A hero in slot `i` strikes enemy slot `t` with a basic attack; on a hit,
/// lifesteal returns three tenths of the damage (rounded, up to its
/// maximum) and a cleave deals half of it (rounded) to each enemy next to
/// the target.
fn hero_basic_strike(
    tokens: &mut Vec<TurnToken>,
    i: usize,
    t: usize,
    bonus: i32,
    loner_near_ally: bool,
    lifesteal: bool,
    cleave: bool,
    rng: &mut StdRng,
) -> (log: Vec<LogPayload>)
    requires
        i < old(tokens)@.len(),
        t < old(tokens)@.len(),
        !old(tokens)@[i as int].enemy,
        old(tokens)@[t as int].enemy,
        forall|k: int| 0 <= k < old(tokens)@.len() ==> token_fits(#[trigger] old(tokens)@[k]),
        -ROLL_BOUND <= bonus <= ROLL_BOUND,
    ensures
        final(tokens)@.len() == old(tokens)@.len(),
        forall|k: int|
            0 <= k < old(tokens)@.len() ==> #[trigger] final(tokens)@[k] == with_hp(old(tokens)@[k], final(tokens)@[k].stats.hp) && if old(
                tokens,
            )@[k].enemy {
                final(tokens)@[k].stats.hp <= old(tokens)@[k].stats.hp
            } else if k == i && lifesteal {
                final(tokens)@[k].stats.hp >= old(tokens)@[k].stats.hp || final(tokens)@[k].stats.hp == old(tokens)@[k].stats.max_hp
            } else {
                final(tokens)@[k].stats.hp == old(tokens)@[k].stats.hp
            },
{
    let ghost t0 = tokens@;
    let me = tokens[i];
    let at = tokens[t].pos;
    let target = tokens[t].id;
    let (log, dealt) = hero_strike(tokens, i, t, Strike::Basic, 1, 4, bonus, loner_near_ally, rng);
    proof {
        let w = choose|w: i32| tokens@ == t0.update(t as int, with_hp(t0[t as int], w)) && took_hit(t0[t as int].stats.hp, w);
    }
    if dealt > 0 && lifesteal {
        let heal = lifesteal_amount(dealt);
        if heal > 0 {
            let raised = me.stats.hp + heal;
            let hp = if raised < me.stats.max_hp { raised } else { me.stats.max_hp };
            assert(tokens@[i as int] == me);
            set_hp(tokens, i, hp);
        }
    }
    let ghost t2 = tokens@;
    assert forall|k: int| 0 <= k < t2.len() implies -10 * ROLL_BOUND <= (#[trigger] t2[k]).stats.hp by {
        assert(token_fits(t0[k]));
    }
    if dealt > 0 && cleave {
        let amount = cleave_amount(dealt);
        cleave_around(tokens, target, at, amount);
    }
    log
}

/// A hero's turn: it steps toward the tile it advances to, strikes the
/// enemy it chose, or holds.
fn hero_turn(sim: &mut TurnSim, i: usize, plan: HeroPlan, rng: &mut StdRng) -> (r: (Vec<LogPayload>, Option<GearFind>))
    requires
        turn_ok(*old(sim)),
        i < old(sim).tokens@.len(),
        !old(sim).tokens@[i as int].enemy,
        plan_ok(plan),
    ensures
        final(sim).map == old(sim).map,
        final(sim).queue == old(sim).queue,
        final(sim).abilities@ == old(sim).abilities@,
        hero_turn_done(*old(sim), *final(sim), i as int, plan),
        match plan {
            HeroPlan::OpenChest { chest, .. } => chest_done(*old(sim), *final(sim), chest),
            _ => final(sim).chests@ == old(sim).chests@ && final(sim).gold == old(sim).gold,
        },
        r.1 matches Some(g) ==> find_ok(g) && (plan matches HeroPlan::OpenChest { chest, gear } && gear && exists|k: int| opens(old(sim).chests@, chest, k)),
{
    let me = sim.tokens[i];
    let mut log: Vec<LogPayload> = Vec::new();
    let mut found: Option<GearFind> = None;
    match plan {
        HeroPlan::Advance(goal) => {
            let none: Vec<Pos> = Vec::new();
            match hero_step(&sim.map, me.pos, goal, false, &none) {
                Some(st) => {
                    move_token(&mut sim.tokens, &sim.map, i, st);
                },
                None => {},
            }
        },
        HeroPlan::Strike { target, bonus, loner_near_ally, lifesteal, cleave } => match find_slot(&sim.tokens, target) {
            Some(t) => {
                if sim.tokens[t].enemy {
                    log = hero_basic_strike(&mut sim.tokens, i, t, bonus, loner_near_ally, lifesteal, cleave, rng);
                }
            },
            None => {},
        },
        HeroPlan::Ability { strike, target, bonus, loner_near_ally, .. } => {
            log = hero_ability(&mut sim.tokens, i, strike, target, bonus, loner_near_ally, rng);
        },
        HeroPlan::Aid { target, shield, bonus, loner_near_ally, .. } => match find_slot(&sim.tokens, target) {
            Some(t) => {
                let ally = sim.tokens[t];
                if !ally.enemy && ally.stats.hp > 0 {
                    if shield {
                        let roll = random_i32_inclusive(rng, 3, 8);
                        let amount = support_amount(me.stats.defense, roll, bonus, loner_near_ally, false);
                        let hp = ally.stats.hp + amount;
                        set_hp(&mut sim.tokens, t, hp);
                        assert(3 <= roll <= 8 && sim.tokens@[t as int].stats.hp == old(sim).tokens@[t as int].stats.hp + support_of(
                            old(sim).tokens@[i as int].stats.defense,
                            roll,
                            shield_bonus(plan),
                            shield_loner(plan),
                            false,
                        ));
                    } else {
                        let roll = random_i32_inclusive(rng, 5, 15);
                        let heal = support_amount(me.stats.attack / 2, roll, bonus, loner_near_ally, false);
                        let raised = ally.stats.hp + heal;
                        let hp = if raised < ally.stats.max_hp { raised } else { ally.stats.max_hp };
                        if hp >= ally.stats.hp {
                            set_hp(&mut sim.tokens, t, hp);
                        }
                    }
                    log.push(LogPayload::Other);
                }
            },
            None => {},
        },
        HeroPlan::Support { mass_heal, bonus, loner_near_ally, cursed, .. } => {
            hero_support(&mut sim.tokens, i, mass_heal, bonus, loner_near_ally, cursed, rng);
            log.push(LogPayload::Other);
        },
        HeroPlan::Heal { target, bonus, loner_near_ally, cursed } => match find_slot(&sim.tokens, target) {
            Some(t) => {
                let ally = sim.tokens[t];
                if !ally.enemy && ally.stats.hp > 0 && ally.stats.hp < ally.stats.max_hp {
                    let roll = random_i32_inclusive(rng, 1, 8);
                    let heal = hero_heal(roll, bonus, loner_near_ally, cursed);
                    let raised = ally.stats.hp + heal;
                    let hp = if raised < ally.stats.max_hp { raised } else { ally.stats.max_hp };
                    set_hp(&mut sim.tokens, t, hp);
                    log.push(LogPayload::Other);
                }
            },
            None => {},
        },
        HeroPlan::OpenChest { chest, gear } => {
            found = open_chest(sim, chest, gear, &mut log, rng);
        },
        HeroPlan::Hold => {},
    }
    (log, found)
}

/// An ability list with every cooldown one turn closer to ready: the list
/// an enemy chooses from on its turn.
pub open spec fn readied(abs: Seq<ActiveAbilityState>) -> Seq<ActiveAbilityState> {
    Seq::new(
        abs.len(),
        |k: int| ActiveAbilityState { ability_id: abs[k].ability_id, remaining_cooldown: tick_of(abs[k].remaining_cooldown) },
    )
}

#[verifier::spinoff_prover]
#[verifier::rlimit(100)]
proof fn lemma_pick_readied(
    mid: Seq<ActiveAbilityState>,
    abs: Seq<ActiveAbilityState>,
    defs: Option<Seq<AbilityDef>>,
    v: EnemyTurnView,
    allies: Seq<AllyView>,
)
    requires
        mid.len() == abs.len(),
        forall|k: int|
            0 <= k < abs.len() ==> (#[trigger] mid[k]).ability_id@ == abs[k].ability_id@ && mid[k].remaining_cooldown == tick_of(
                abs[k].remaining_cooldown,
            ),
    ensures
        forall|r: Option<(usize, CastTarget)>| #[trigger] cast_pick(mid, defs, v, allies, r) == cast_pick(readied(abs), defs, v, allies, r),
        forall|k: int| 0 <= k < abs.len() ==> (#[trigger] readied(abs)[k]).ability_id@ == mid[k].ability_id@,
{
    let ra = readied(abs);
    assert forall|j: int|
        #![trigger cast_of(mid[j], defs, v, allies)]
        #![trigger cast_of(ra[j], defs, v, allies)]
        0 <= j < abs.len() implies cast_of(mid[j], defs, v, allies) == cast_of(ra[j], defs, v, allies) by {
        assert(mid[j].ability_id@ == ra[j].ability_id@);
        assert(mid[j].remaining_cooldown == ra[j].remaining_cooldown);
    }
    assert forall|r: Option<(usize, CastTarget)>| #[trigger] cast_pick(mid, defs, v, allies, r) == cast_pick(ra, defs, v, allies, r) by {
        match r {
            Some((k, t)) => {
                if k < abs.len() {
                    assert(cast_of(mid[k as int], defs, v, allies) == cast_of(ra[k as int], defs, v, allies));
                }
            },
            None => {},
        }
    }
}

#[verifier::spinoff_prover]
#[verifier::rlimit(100)]
proof fn lemma_enemy_done_readied(old: TurnSim, mid: TurnSim, fin: TurnSim, i: int, defs: Option<Seq<AbilityDef>>)
    requires
        0 <= i < old.tokens@.len(),
        old.abilities@.len() == old.tokens@.len(),
        i < old.abilities@.len(),
        mid.map == old.map,
        mid.queue == old.queue,
        mid.tokens@ == old.tokens@,
        mid.next_id == old.next_id,
        mid.abilities@.len() == old.abilities@.len(),
        forall|j: int| 0 <= j < old.abilities@.len() && j != i ==> #[trigger] mid.abilities@[j] == old.abilities@[j],
        mid.abilities@[i]@.len() == old.abilities@[i]@.len(),
        forall|k: int|
            0 <= k < old.abilities@[i]@.len() ==> (#[trigger] mid.abilities@[i]@[k]).ability_id@ == old.abilities@[i]@[k].ability_id@
                && mid.abilities@[i]@[k].remaining_cooldown == tick_of(old.abilities@[i]@[k].remaining_cooldown),
        enemy_turn_done(mid, fin, i, mid.abilities@[i]@, defs),
    ensures
        enemy_turn_done(old, fin, i, readied(old.abilities@[i]@), defs),
{
    let a = old.tokens@[i];
    assert(kite_step(old, i) == kite_step(mid, i));
    assert forall|k: int| 0 <= k < old.abilities@.len() && k != i implies #[trigger] fin.abilities@[k] == old.abilities@[k] by {
        assert(mid.abilities@[k] == old.abilities@[k]);
    }
    if a.telegraph is None && kite_step(old, i) is None {
        let target = enemy_aim(old.tokens@, a.behavior == EnemyBehavior::Swarmer, a.pos, a.room);
        let v = turn_view(old, i, target);
        assert(v == turn_view(mid, i, target));
        let allies = allies_of(old.tokens@);
        let ma = mid.abilities@[i]@;
        let ra = readied(old.abilities@[i]@);
        lemma_pick_readied(ma, old.abilities@[i]@, defs, v, allies);
        assert forall|r: Option<(usize, CastTarget)>| #[trigger] cast_pick(ra, defs, v, allies, r) implies cast_outcome(
            old,
            fin,
            i,
            ra,
            defs,
            target,
            r,
        ) by {
            assert(cast_pick(ma, defs, v, allies, r));
            assert(cast_outcome(mid, fin, i, ma, defs, target, r));
            match r {
                Some((k, ct)) => {
                    assert(ra[k as int].ability_id@ == ma[k as int].ability_id@);
                },
                None => {},
            }
        }
        assert(enemy_acted(old, fin, i, ra, defs));
    }
}

/// Play the next token's turn. The queue skips tokens that are dead or
/// gone; the first living one acts, its cooldowns tick, and the active
/// index moves past it. An enemy acts by its own rules; a hero follows
/// `plan`, the decision made for it. Returns the slot of the token that
/// acted (none when no living token was left in the round, which ends it),
/// the log of the turn, the gear a chest gave up, if any, and whether the
/// tick goes on: an enemy that winds down a slam, kites or casts leaves the
/// tick to the next token; every other turn ends it.
#[verifier::spinoff_prover]
#[verifier::rlimit(100)]
pub fn resolve_turn(sim: &mut TurnSim, plan: HeroPlan, db: Option<&AbilityDatabase>, rng: &mut StdRng) -> (r: (
    Option<usize>,
    Vec<LogPayload>,
    Option<GearFind>,
    bool,
))
    requires
        turn_ok(*old(sim)),
        plan_ok(plan),
        db_ok(db),
    ensures
        final(sim).map == old(sim).map,
        final(sim).queue.round_count == old(sim).queue.round_count,
        final(sim).queue.combat_round_count == old(sim).queue.combat_round_count,
        (final(sim).tokens@.len() == old(sim).tokens@.len() && final(sim).queue.queue@.len() == old(sim).queue.queue@.len()) || (
        final(sim).tokens@.len() == old(sim).tokens@.len() + 2 && final(sim).queue.queue@.len() == old(sim).queue.queue@.len() + 2),
        match r.0 {
            None => {
                &&& forall|k: int| old(sim).queue.active_index <= k < old(sim).queue.queue@.len() ==> !ready(*old(sim), k)
                &&& final(sim).queue.active_index == if old(sim).queue.active_index < old(sim).queue.queue@.len() {
                    old(sim).queue.queue@.len() as int
                } else {
                    old(sim).queue.active_index as int
                }
                &&& final(sim).queue.queue@ == old(sim).queue.queue@
                &&& final(sim).tokens@ == old(sim).tokens@
                &&& final(sim).abilities@ == old(sim).abilities@
                &&& final(sim).next_id == old(sim).next_id
                &&& final(sim).chests@ == old(sim).chests@
                &&& final(sim).gold == old(sim).gold
                &&& r.2 is None
                &&& !r.3
            },
            Some(i) => {
                &&& r.3 == (old(sim).tokens@[i as int].enemy && enemy_continues(
                    *old(sim),
                    i as int,
                    readied(old(sim).abilities@[i as int]@),
                    defs_of(db),
                ))
                &&& i < old(sim).tokens@.len()
                &&& old(sim).tokens@[i as int].stats.hp > 0
                &&& exists|j: int| #[trigger] is_next(*old(sim), j) && final(sim).queue.active_index == j + 1 && old(sim).queue.queue@[j] == old(sim).tokens@[i as int].id
                &&& final(sim).abilities@.len() == final(sim).tokens@.len()
                &&& forall|k: int| 0 <= k < old(sim).abilities@.len() && k != i ==> #[trigger] final(sim).abilities@[k] == old(sim).abilities@[k]
                &&& if old(sim).tokens@[i as int].enemy {
                    &&& enemy_turn_done(*old(sim), *final(sim), i as int, readied(old(sim).abilities@[i as int]@), defs_of(db))
                    &&& final(sim).chests@ == old(sim).chests@
                    &&& final(sim).gold == old(sim).gold
                    &&& r.2 is None
                } else {
                    &&& hero_turn_done(*old(sim), *final(sim), i as int, plan)
                    &&& cooled(old(sim).abilities@[i as int]@, final(sim).abilities@[i as int]@, plan_cooldown(plan))
                    &&& match plan {
                        HeroPlan::OpenChest { chest, .. } => chest_done(*old(sim), *final(sim), chest),
                        _ => final(sim).chests@ == old(sim).chests@ && final(sim).gold == old(sim).gold,
                    }
                    &&& (r.2 matches Some(g) ==> find_ok(g) && (plan matches HeroPlan::OpenChest { chest, gear } && gear && exists|k: int|
                        opens(old(sim).chests@, chest, k)))
                }
            },
        },
{
    match next_actor(sim) {
        None => {
            if sim.queue.active_index < sim.queue.queue.len() {
                sim.queue.active_index = sim.queue.queue.len();
            }
            (None, Vec::new(), None, false)
        },
        Some((j, i)) => {
            tick_abilities_of(&mut sim.abilities, i);
            assert(turn_ok(*sim));
            let ghost mid = *sim;
            let (log, found, goes_on) = if sim.tokens[i].enemy {
                let (l, goes_on) = enemy_turn(sim, i, db, rng);
                proof {
                    lemma_enemy_done_readied(*old(sim), mid, *sim, i as int, defs_of(db));
                    let a = mid.tokens@[i as int];
                    let target = enemy_aim(mid.tokens@, a.behavior == EnemyBehavior::Swarmer, a.pos, a.room);
                    lemma_pick_readied(
                        mid.abilities@[i as int]@,
                        old(sim).abilities@[i as int]@,
                        defs_of(db),
                        turn_view(mid, i as int, target),
                        allies_of(mid.tokens@),
                    );
                    assert(turn_view(mid, i as int, target) == turn_view(*old(sim), i as int, target));
                    assert(kite_step(mid, i as int) == kite_step(*old(sim), i as int));
                }
                (l, None, goes_on)
            } else {
                let done = hero_turn(sim, i, plan, rng);
                let used = match plan {
                    HeroPlan::Ability { cooldown, .. } => cooldown,
                    HeroPlan::Aid { cooldown, .. } => cooldown,
                    HeroPlan::Support { cooldown, .. } => cooldown,
                    _ => None,
                };
                match used {
                    Some((k, wait)) => {
                        if k < sim.abilities[i].len() {
                            set_cooldown(&mut sim.abilities, i, k, wait);
                        }
                    },
                    None => {},
                }
                (done.0, done.1, false)
            };
            sim.queue.active_index = j + 1;
            assert(is_next(*old(sim), j as int));
            (Some(i), log, found, goes_on)
        },
    }
}

/// The plan a hero's decision gives its turn: a move to a room heads for
/// the room's centre; an attack strikes that enemy with the hero's roll
/// bonus and gear affixes; a heal heals that hero; holding holds.
pub fn plan_for(
    action: HeroAction,
    map: &DungeonMap,
    bonus: i32,
    loner_near_ally: bool,
    lifesteal: bool,
    cleave: bool,
    cursed: bool,
) -> (p: HeroPlan)
    requires
        action matches HeroAction::MoveTo(r) ==> r < map.rooms@.len() && map.rooms@[r as int].x + map.rooms@[r as int].w <= u32::MAX
            && map.rooms@[r as int].y + map.rooms@[r as int].h <= u32::MAX,
    ensures
        p == match action {
            HeroAction::MoveTo(r) => HeroPlan::Advance(
                (map.rooms@[r as int].spec_center().0 as u32, map.rooms@[r as int].spec_center().1 as u32),
            ),
            HeroAction::Attack(id) => HeroPlan::Strike { target: id, bonus, loner_near_ally, lifesteal, cleave },
            HeroAction::Heal(id) => HeroPlan::Heal { target: id, bonus, loner_near_ally, cursed },
            HeroAction::Hold => HeroPlan::Hold,
        },
{
    match action {
        HeroAction::MoveTo(r) => {
            let c = map.rooms[r].center();
            HeroPlan::Advance(c)
        },
        HeroAction::Attack(id) => HeroPlan::Strike { target: id, bonus, loner_near_ally, lifesteal, cleave },
        HeroAction::Heal(id) => HeroPlan::Heal { target: id, bonus, loner_near_ally, cursed },
        HeroAction::Hold => HeroPlan::Hold,
    }
}

/// The slot of the first entry with id `id` in an ability list.
pub open spec fn ability_slot(abs: Seq<ActiveAbilityState>, id: Seq<char>) -> Option<int> {
    if exists|k: int| 0 <= k < abs.len() && (#[trigger] abs[k]).ability_id@ == id {
        Some(choose|k: int| 0 <= k < abs.len() && (#[trigger] abs[k]).ability_id@ == id && forall|j: int| 0 <= j < k ==> abs[j].ability_id@ != id)
    } else {
        None
    }
}

/// The plan a hero's chosen ability gives its turn, when the table defines
/// it: a rallying cry or mass heal supports the heroes around it; an
/// assassination, meteor or volley strikes `target`; any other ability by
/// its effect strikes, heals or shields `target`. The entry of the ability
/// in the hero's list then waits the definition's cooldown. `roll_bonus`
/// is the hero's bonus to rolls, `leader_bonus` its bonus from a leader.
pub open spec fn ability_plan_of(
    id: Seq<char>,
    defs: Seq<AbilityDef>,
    abs: Seq<ActiveAbilityState>,
    target: u64,
    roll_bonus: i32,
    leader_bonus: i32,
    loner_near_ally: bool,
    cursed: bool,
) -> Option<HeroPlan> {
    match first_ability(defs, id) {
        None => None,
        Some(x) => {
            let cooldown = match ability_slot(abs, id) {
                Some(k) => Some((k as usize, defs[x].cooldown)),
                None => None,
            };
            Some(
                if id == "Rallying Cry"@ {
                    HeroPlan::Support { mass_heal: false, bonus: leader_bonus, loner_near_ally, cursed, cooldown }
                } else if id == "Mass Heal"@ {
                    HeroPlan::Support { mass_heal: true, bonus: 0, loner_near_ally, cursed, cooldown }
                } else if id == "Assassinate"@ {
                    HeroPlan::Ability { strike: Strike::Assassinate, target, bonus: roll_bonus, loner_near_ally, cooldown }
                } else if id == "Meteor"@ {
                    HeroPlan::Ability { strike: Strike::Meteor, target, bonus: roll_bonus, loner_near_ally, cooldown }
                } else if id == "Volley"@ {
                    HeroPlan::Ability { strike: Strike::Volley, target, bonus: roll_bonus, loner_near_ally, cooldown }
                } else {
                    match defs[x].effect {
                        AbilityEffect::Damage | AbilityEffect::Debuff => HeroPlan::Ability {
                            strike: Strike::Ability,
                            target,
                            bonus: roll_bonus,
                            loner_near_ally,
                            cooldown,
                        },
                        AbilityEffect::Heal => HeroPlan::Aid { target, shield: false, bonus: leader_bonus, loner_near_ally, cooldown },
                        AbilityEffect::Shield | AbilityEffect::Buff => HeroPlan::Aid {
                            target,
                            shield: true,
                            bonus: leader_bonus,
                            loner_near_ally,
                            cooldown,
                        },
                    }
                },
            )
        },
    }
}

fn find_ability_slot(abs: &Vec<ActiveAbilityState>, id: &String) -> (r: Option<usize>)
    ensures
        match r {
            Some(k) => ability_slot(abs@, id@) == Some(k as int),
            None => ability_slot(abs@, id@) is None,
        },
{
    let mut k: usize = 0;
    while k < abs.len()
        invariant
            k <= abs@.len(),
            forall|j: int| 0 <= j < k ==> (#[trigger] abs@[j]).ability_id@ != id@,
        decreases abs@.len() - k,
    {
        if same_text(abs[k].ability_id.as_str(), id.as_str()) {
            proof {
                assert(abs@[k as int].ability_id@ == id@);
                let c = choose|c: int| 0 <= c < abs@.len() && (#[trigger] abs@[c]).ability_id@ == id@ && forall|j: int| 0 <= j < c ==> abs@[j].ability_id@ != id@;
                if c < k {
                    assert(abs@[c].ability_id@ != id@);
                }
                if k < c {
                    assert(abs@[k as int].ability_id@ != id@);
                }
            }
            return Some(k);
        }
        k += 1;
    }
    None
}

/// The plan a hero's chosen ability gives its turn (see `ability_plan_of`);
/// none when the table does not define the ability.
pub fn ability_plan(
    ability_id: &String,
    db: &AbilityDatabase,
    abilities: &Vec<ActiveAbilityState>,
    target: u64,
    roll_bonus: i32,
    leader_bonus: i32,
    loner_near_ally: bool,
    cursed: bool,
) -> (p: Option<HeroPlan>)
    ensures
        p == ability_plan_of(ability_id@, db.0@, abilities@, target, roll_bonus, leader_bonus, loner_near_ally, cursed),
{
    let def = match db.get(ability_id) {
        Some(d) => d,
        None => {
            return None;
        },
    };
    let cooldown = match find_ability_slot(abilities, ability_id) {
        Some(k) => Some((k, def.cooldown)),
        None => None,
    };
    let id = ability_id.as_str();
    let plan = if same_text(id, "Rallying Cry") {
        HeroPlan::Support { mass_heal: false, bonus: leader_bonus, loner_near_ally, cursed, cooldown }
    } else if same_text(id, "Mass Heal") {
        HeroPlan::Support { mass_heal: true, bonus: 0, loner_near_ally, cursed, cooldown }
    } else if same_text(id, "Assassinate") {
        HeroPlan::Ability { strike: Strike::Assassinate, target, bonus: roll_bonus, loner_near_ally, cooldown }
    } else if same_text(id, "Meteor") {
        HeroPlan::Ability { strike: Strike::Meteor, target, bonus: roll_bonus, loner_near_ally, cooldown }
    } else if same_text(id, "Volley") {
        HeroPlan::Ability { strike: Strike::Volley, target, bonus: roll_bonus, loner_near_ally, cooldown }
    } else {
        match def.effect {
            AbilityEffect::Damage | AbilityEffect::Debuff => HeroPlan::Ability {
                strike: Strike::Ability,
                target,
                bonus: roll_bonus,
                loner_near_ally,
                cooldown,
            },
            AbilityEffect::Heal => HeroPlan::Aid { target, shield: false, bonus: leader_bonus, loner_near_ally, cooldown },
            AbilityEffect::Shield | AbilityEffect::Buff => HeroPlan::Aid { target, shield: true, bonus: leader_bonus, loner_near_ally, cooldown },
        }
    };
    Some(plan)
}

fn token_fits_check(t: &TurnToken) -> (b: bool)
    ensures
        b == token_fits(*t),
{
    let s = t.stats;
    -ROLL_BOUND <= s.hp && s.hp <= ROLL_BOUND && -ROLL_BOUND <= s.max_hp && s.max_hp <= ROLL_BOUND && -ROLL_BOUND <= s.attack
        && s.attack <= ROLL_BOUND && -ROLL_BOUND <= s.defense && s.defense <= ROLL_BOUND && t.pos.0 < 0x7fff_ffff && t.pos.1 < 0x7fff_ffff
        && match t.telegraph {
        Some(tg) => tg.1 >= 1,
        None => true,
    }
}

/// Whether a turn can be played on the board: `turn_ok`, checked.
pub fn turn_fits(sim: &TurnSim) -> (b: bool)
    ensures
        b == turn_ok(*sim),
{
    let w = sim.map.width as u64;
    let h = sim.map.height as u64;
    assert(w * h <= 0xffff_ffff * 0xffff_ffff) by (nonlinear_arith)
        requires
            w <= 0xffff_ffff,
            h <= 0xffff_ffff,
    ;
    let area = w * h;
    if !(sim.map.tiles.len() as u64 == area && area <= 0xffff_ffff && area + w + h <= 0xffff_ffff) {
        return false;
    }
    if !(sim.map.width < 0x7fff_ffff && sim.map.height < 0x7fff_ffff) {
        return false;
    }
    let mut r: usize = 0;
    while r < sim.map.rooms.len()
        invariant
            r <= sim.map.rooms@.len(),
            forall|q: int| 0 <= q < r ==> (#[trigger] sim.map.rooms@[q]).x + sim.map.rooms@[q].w < i32::MAX && sim.map.rooms@[q].y
                + sim.map.rooms@[q].h < i32::MAX,
        decreases sim.map.rooms@.len() - r,
    {
        let room = sim.map.rooms[r];
        if !((room.x as u64) + (room.w as u64) < 0x7fff_ffff && (room.y as u64) + (room.h as u64) < 0x7fff_ffff) {
            return false;
        }
        r += 1;
    }
    let n = sim.tokens.len();
    if sim.abilities.len() != n || n > (ROLL_BOUND as usize) - 2 || sim.queue.queue.len() > usize::MAX - 2 || sim.next_id > u64::MAX - 2 {
        return false;
    }
    let mut k: usize = 0;
    while k < n
        invariant
            n == sim.tokens@.len(),
            k <= n,
            forall|a: int, b: int| 0 <= a < k && 0 <= b < n && a != b ==> sim.tokens@[a].id != sim.tokens@[b].id,
            forall|q: int| 0 <= q < k ==> token_fits(#[trigger] sim.tokens@[q]) && sim.tokens@[q].id < sim.next_id,
            forall|q: int| 0 <= q < k ==> ((#[trigger] sim.tokens@[q]).room matches Some(x) ==> x < sim.map.rooms@.len()),
        decreases n - k,
    {
        let t = sim.tokens[k];
        if !token_fits_check(&t) || t.id >= sim.next_id {
            return false;
        }
        match t.room {
            Some(x) => {
                if x >= sim.map.rooms.len() {
                    return false;
                }
            },
            None => {},
        }
        let mut m: usize = 0;
        while m < n
            invariant
                n == sim.tokens@.len(),
                k < n,
                m <= n,
                t == sim.tokens@[k as int],
                forall|b: int| 0 <= b < m && b != k ==> sim.tokens@[k as int].id != sim.tokens@[b].id,
            decreases n - m,
        {
            if m != k && sim.tokens[m].id == t.id {
                return false;
            }
            m += 1;
        }
        k += 1;
    }
    let mut c: usize = 0;
    while c < sim.chests.len()
        invariant
            c <= sim.chests@.len(),
            forall|q: int| 0 <= q < c ==> sim.gold + (#[trigger] sim.chests@[q]).gold <= u32::MAX,
        decreases sim.chests@.len() - c,
    {
        if sim.chests[c].gold > u32::MAX - sim.gold {
            return false;
        }
        c += 1;
    }
    true
}

/// Play the enemies' turns of a tick: while the next living token is an
/// enemy, it acts; its turn ends the tick unless it winds down a slam,
/// kites or casts. Stops before a hero's turn, after an enemy's turn that
/// ends the tick, when the round runs out, or when the board no longer
/// fits a turn. Returns the log and whether the tick is over.
pub fn play_enemies(sim: &mut TurnSim, db: Option<&AbilityDatabase>, rng: &mut StdRng) -> (r: (Vec<LogPayload>, bool))
    requires
        db_ok(db),
    ensures
        final(sim).map == old(sim).map,
        final(sim).queue.active_index >= old(sim).queue.active_index,
        !r.1 ==> turn_ok(*final(sim)) && exists|j: int| #[trigger] is_next(*final(sim), j) && exists|i: int|
            0 <= i < final(sim).tokens@.len() && !(#[trigger] final(sim).tokens@[i]).enemy && final(sim).tokens@[i].id
                == final(sim).queue.queue@[j],
        r.1 ==> {
            ||| !turn_ok(*final(sim))
            ||| forall|k: int| final(sim).queue.active_index <= k < final(sim).queue.queue@.len() ==> !ready(*final(sim), k)
            ||| exists|b: TurnSim, i: int|
                #[trigger] enemy_turn_done(b, *final(sim), i, readied(b.abilities@[i]@), defs_of(db)) && 0 <= i < b.tokens@.len()
                    && b.tokens@[i].enemy && !enemy_continues(b, i, readied(b.abilities@[i]@), defs_of(db))
        },
{
    let mut log: Vec<LogPayload> = Vec::new();
    loop
        invariant
            db_ok(db),
            sim.map == old(sim).map,
            sim.queue.active_index >= old(sim).queue.active_index,
        decreases (if sim.tokens@.len() <= ROLL_BOUND { ROLL_BOUND - sim.tokens@.len() } else { 0 }), sim.queue.queue@.len()
            - sim.queue.active_index,
    {
        if !turn_fits(sim) {
            return (log, true);
        }
        let (j, i) = match next_actor(sim) {
            Some(x) => x,
            None => {
                return (log, true);
            },
        };
        if !sim.tokens[i].enemy {
            proof {
                assert(is_next(*sim, j as int));
                assert(!sim.tokens@[i as int].enemy && sim.tokens@[i as int].id == sim.queue.queue@[j as int]);
            }
            return (log, false);
        }
        let ghost before = *sim;
        let (acted, mut lines, _, goes_on) = resolve_turn(sim, HeroPlan::Hold, db, rng);
        log.append(&mut lines);
        if !goes_on {
            proof {
                match acted {
                    Some(a) => {
                        let jj = choose|jj: int| #[trigger] is_next(before, jj) && sim.queue.active_index == jj + 1
                            && before.queue.queue@[jj] == before.tokens@[a as int].id;
                        if jj < j {
                            assert(!ready(before, jj as int));
                        } else if j < jj {
                            assert(!ready(before, j as int));
                        }
                        assert(a == i);
                        assert(enemy_turn_done(before, *sim, a as int, readied(before.abilities@[a as int]@), defs_of(db)));
                    },
                    None => {
                        assert(ready(before, j as int));
                    },
                }
            }
            return (log, true);
        }
        proof {
            assert(sim.queue.active_index > before.queue.active_index);
        }
    }
}

} // verus!
