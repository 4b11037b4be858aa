//! Utility-based hero AI: each possible action gets a score, and the hero
//! takes the best. Scores are exact fractions; class and trait multipliers
//! are in tenths.

use vstd::prelude::*;

use crate::hero::data::{HeroClass, HeroTrait};

use super::dungeon::{DungeonMap, RoomType};
use super::data::{has_modifier, MissionModifier};
use super::entities::RoomStatus;

verus! {

/// The action a hero has decided to take this tick.
#[derive(Debug, Clone, Copy, PartialEq, Eq, Structural)]
pub enum HeroAction {
    /// Move toward a room (index into rooms).
    MoveTo(usize),
    /// Attack an enemy token.
    Attack(u64),
    /// Heal an ally token.
    Heal(u64),
    /// Stay and hold position.
    Hold,
}

/// How much a class likes to attack, in tenths.
pub open spec fn class_attack_tenths(c: HeroClass) -> int {
    match c {
        HeroClass::Warrior => 13,
        HeroClass::Rogue => 11,
        HeroClass::Mage => 12,
        HeroClass::Cleric => 8,
        HeroClass::Ranger => 11,
    }
}

/// How much a class likes to heal, in tenths.
pub open spec fn class_heal_tenths(c: HeroClass) -> int {
    match c {
        HeroClass::Cleric => 15,
        HeroClass::Mage => 6,
        _ => 5,
    }
}

/// How much a class likes to explore, in tenths.
pub open spec fn class_move_tenths(c: HeroClass) -> int {
    match c {
        HeroClass::Ranger => 13,
        HeroClass::Rogue => 12,
        HeroClass::Mage => 9,
        _ => 10,
    }
}

/// How much a class likes to flee, in tenths.
pub open spec fn class_flee_tenths(c: HeroClass) -> int {
    match c {
        HeroClass::Warrior => 7,
        HeroClass::Rogue => 11,
        _ => 10,
    }
}

/// How a trait changes the wish to attack, in tenths.
pub open spec fn trait_attack_tenths(t: HeroTrait, allies_in_room: nat) -> int {
    match t {
        HeroTrait::Brave => 14,
        HeroTrait::Cautious => 8,
        HeroTrait::Cursed => 13,
        HeroTrait::Loner => if allies_in_room == 0 { 13 } else { 8 },
        _ => 10,
    }
}

/// How a trait changes the wish to explore a room, in tenths.
pub open spec fn trait_move_tenths(t: HeroTrait, treasure: bool) -> int {
    match t {
        HeroTrait::Cautious => 7,
        HeroTrait::Greedy => if treasure { 18 } else { 10 },
        _ => 10,
    }
}

/// How a trait changes the wish to flee, in tenths.
pub open spec fn trait_flee_tenths(t: HeroTrait) -> int {
    match t {
        HeroTrait::Brave => 3,
        HeroTrait::Cautious => 15,
        _ => 10,
    }
}

/// Which multiplier table a product of trait multipliers uses.
#[derive(Debug, Clone, Copy, PartialEq, Eq, Structural)]
pub enum Wish {
    Attack,
    Move,
    Flee,
}

/// One trait's multiplier for a wish, in tenths.
pub open spec fn trait_tenths(w: Wish, t: HeroTrait, allies_in_room: nat, treasure: bool) -> int {
    match w {
        Wish::Attack => trait_attack_tenths(t, allies_in_room),
        Wish::Move => trait_move_tenths(t, treasure),
        Wish::Flee => trait_flee_tenths(t),
    }
}

/// The product of every trait's multiplier for a wish, in tenths each.
pub open spec fn trait_product(w: Wish, traits: Seq<HeroTrait>, allies_in_room: nat, treasure: bool) -> int
    decreases traits.len(),
{
    if traits.len() == 0 {
        1
    } else {
        trait_product(w, traits.drop_last(), allies_in_room, treasure) * trait_tenths(w, traits.last(), allies_in_room, treasure)
    }
}

/// `10^k`.
pub open spec fn ten_pow(k: nat) -> int
    decreases k,
{
    if k == 0 {
        1
    } else {
        10 * ten_pow((k - 1) as nat)
    }
}

/// `18^k`.
pub open spec fn eighteen_pow(k: nat) -> int
    decreases k,
{
    if k == 0 {
        1
    } else {
        18 * eighteen_pow((k - 1) as nat)
    }
}

/// Most traits a hero's score takes into account.
pub const MAX_TRAITS: usize = 8;

fn trait_tenths_of(w: Wish, t: HeroTrait, allies_in_room: u64, treasure: bool) -> (m: u64)
    ensures
        m == trait_tenths(w, t, allies_in_room as nat, treasure),
        1 <= m <= 18,
{
    match w {
        Wish::Attack => match t {
            HeroTrait::Brave => 14,
            HeroTrait::Cautious => 8,
            HeroTrait::Cursed => 13,
            HeroTrait::Loner => if allies_in_room == 0 { 13 } else { 8 },
            _ => 10,
        },
        Wish::Move => match t {
            HeroTrait::Cautious => 7,
            HeroTrait::Greedy => if treasure { 18 } else { 10 },
            _ => 10,
        },
        Wish::Flee => match t {
            HeroTrait::Brave => 3,
            HeroTrait::Cautious => 15,
            _ => 10,
        },
    }
}

/// The product of the trait multipliers, and `10^n` for the `n` traits.
fn trait_product_of(w: Wish, traits: &Vec<HeroTrait>, allies_in_room: u64, treasure: bool) -> (r: (u64, u64))
    requires
        traits@.len() <= MAX_TRAITS,
    ensures
        r.0 == trait_product(w, traits@, allies_in_room as nat, treasure),
        r.1 == ten_pow(traits@.len()),
        1 <= r.0 <= eighteen_pow(traits@.len()),
        r.0 <= 11019960576,
        1 <= r.1 <= 100000000,
{
    let mut p: u64 = 1;
    let mut d: u64 = 1;
    let mut k: usize = 0;
    while k < traits.len()
        invariant
            k <= traits@.len(),
            traits@.len() <= MAX_TRAITS,
            p == trait_product(w, traits@.take(k as int), allies_in_room as nat, treasure),
            d == ten_pow(k as nat),
            1 <= p <= eighteen_pow(k as nat),
            1 <= d,
            eighteen_pow(k as nat) <= 11019960576,
            d <= 100000000,
        decreases traits@.len() - k,
    {
        assert(traits@.take(k + 1).drop_last() =~= traits@.take(k as int));
        let m = trait_tenths_of(w, traits[k], allies_in_room, treasure);
        assert(p * m <= eighteen_pow(k as nat) * 18) by (nonlinear_arith)
            requires
                p <= eighteen_pow(k as nat),
                m <= 18,
                1 <= p,
        ;
        assert(1 <= p * m) by (nonlinear_arith)
            requires
                1 <= p,
                1 <= m,
        ;
        p = p * m;
        d = d * 10;
        k += 1;
        proof {
            assert(eighteen_pow(k as nat) == 18 * eighteen_pow((k - 1) as nat));
            assert(ten_pow(k as nat) == 10 * ten_pow((k - 1) as nat));
            reveal_with_fuel(eighteen_pow, 9);
            reveal_with_fuel(ten_pow, 9);
        }
    }
    assert(traits@.take(traits@.len() as int) =~= traits@);
    proof {
        reveal_with_fuel(ten_pow, 9);
        assert(d <= 100000000);
    }
    (p, d)
}

/// A living enemy in the hero's room.
pub open spec fn enemy_here(e: (u64, Option<usize>, i32, i32), room: Option<usize>) -> bool {
    e.2 > 0 && room is Some && e.1 == room
}

/// Another living hero in the room.
pub open spec fn ally_here(a: (u64, Option<usize>, i32, i32), me: u64, room: Option<usize>) -> bool {
    a.0 != me && a.2 > 0 && room is Some && a.1 == room
}

/// An ally in the room who is hurt.
pub open spec fn hurt_ally_here(a: (u64, Option<usize>, i32, i32), me: u64, room: Option<usize>) -> bool {
    ally_here(a, me, room) && a.2 < a.3
}

/// At least one hit point of maximum.
pub open spec fn max_or_one(m: i32) -> int {
    if m >= 1 { m as int } else { 1 }
}

/// Hit points below `num / den` of the maximum.
pub open spec fn below_share(hp: i32, max_hp: i32, num: int, den: int) -> bool {
    hp * den < num * max_or_one(max_hp)
}

/// What the hero knows about itself.
#[derive(Debug, Clone)]
pub struct AiHero {
    pub id: u64,
    pub class: HeroClass,
    pub wisdom: i32,
    pub traits: Vec<HeroTrait>,
    pub room: Option<usize>,
    pub hp: i32,
    pub max_hp: i32,
}

/// Bound on the number of tokens the AI looks at.
pub const AI_TOKEN_BOUND: usize = 1000000;

/// What the AI may be asked about.
pub open spec fn ai_inputs_ok(hero: AiHero, enemies: Seq<(u64, Option<usize>, i32, i32)>, allies: Seq<(u64, Option<usize>, i32, i32)>) -> bool {
    &&& hero.traits@.len() <= MAX_TRAITS
    &&& enemies.len() <= AI_TOKEN_BOUND
    &&& allies.len() <= AI_TOKEN_BOUND
}

/// A fraction `num / den` with `den > 0`.
pub type Score = (int, int);

/// `a > b` for fractions.
pub open spec fn score_gt(a: Score, b: Score) -> bool {
    a.0 * b.1 > b.0 * a.1
}

/// The candidates, in the order the AI weighs them, of which the first
/// that beats everything before it (holding scores ten) wins.
pub open spec fn pick_best(cands: Seq<(Score, HeroAction)>, best: (Score, HeroAction)) -> (Score, HeroAction)
    decreases cands.len(),
{
    if cands.len() == 0 {
        best
    } else {
        let b = pick_best(cands.drop_last(), best);
        let c = cands.last();
        if score_gt(c.0, b.0) { c } else { b }
    }
}

/// Living enemies in the room, counted.
pub open spec fn count_enemies_here(enemies: Seq<(u64, Option<usize>, i32, i32)>, room: Option<usize>) -> nat
    decreases enemies.len(),
{
    if enemies.len() == 0 {
        0
    } else {
        count_enemies_here(enemies.drop_last(), room) + if enemy_here(enemies.last(), room) { 1nat } else { 0nat }
    }
}

/// Living allies in the room, counted.
pub open spec fn count_allies_here(allies: Seq<(u64, Option<usize>, i32, i32)>, me: u64, room: Option<usize>) -> nat
    decreases allies.len(),
{
    if allies.len() == 0 {
        0
    } else {
        count_allies_here(allies.drop_last(), me, room) + if ally_here(allies.last(), me, room) { 1nat } else { 0nat }
    }
}

/// The weakest enemy in the room, the first on a tie.
pub open spec fn weakest_enemy(enemies: Seq<(u64, Option<usize>, i32, i32)>, room: Option<usize>) -> Option<int>
    decreases enemies.len(),
{
    if enemies.len() == 0 {
        None
    } else {
        let prev = weakest_enemy(enemies.drop_last(), room);
        let last = enemies.len() - 1;
        if enemy_here(enemies[last], room) && (prev matches Some(p) ==> enemies[last].2 < enemies[p].2) {
            Some(last)
        } else {
            prev
        }
    }
}

/// The most hurt ally in the room (most hit points missing), the last on a tie.
pub open spec fn most_hurt_ally(allies: Seq<(u64, Option<usize>, i32, i32)>, me: u64, room: Option<usize>) -> Option<int>
    decreases allies.len(),
{
    if allies.len() == 0 {
        None
    } else {
        let prev = most_hurt_ally(allies.drop_last(), me, room);
        let last = allies.len() - 1;
        if hurt_ally_here(allies[last], me, room) && (prev matches Some(p) ==> allies[last].3 - allies[last].2 >= allies[p].3 - allies[p].2) {
            Some(last)
        } else {
            prev
        }
    }
}

/// Whether the room counts as visited (rooms past the list count as visited).
pub open spec fn seen(status: RoomStatus, r: int) -> bool {
    if 0 <= r < status.visited@.len() { status.visited@[r] } else { true }
}

/// Whether the room counts as visited when returning (rooms past the list do not).
pub open spec fn seen_for_return(status: RoomStatus, r: int) -> bool {
    if 0 <= r < status.visited@.len() { status.visited@[r] } else { false }
}

/// Whether the room counts as cleared (rooms past the list do not).
pub open spec fn cleared(status: RoomStatus, r: int) -> bool {
    if 0 <= r < status.cleared@.len() { status.cleared@[r] } else { false }
}

/// Some room other than the boss's is unexplored.
pub open spec fn unexplored_non_boss(map: DungeonMap, status: RoomStatus) -> bool {
    exists|i: int| 0 <= i < map.rooms@.len() && map.rooms@[i].room_type != RoomType::Boss && !seen(status, i)
}

/// The score of exploring room `r`: fifty, ten more for a treasure room,
/// forty less for the boss's while other rooms wait, thirty less when badly
/// hurt; times the class's and every trait's multipliers.
pub open spec fn explore_score(hero: AiHero, map: DungeonMap, status: RoomStatus, r: int) -> Score {
    let room = map.rooms@[r];
    let treasure = room.room_type == RoomType::Treasure;
    let base = 50 + (if treasure { 10int } else { 0int }) - (if room.room_type == RoomType::Boss && unexplored_non_boss(map, status) { 40int } else { 0int })
        - (if below_share(hero.hp, hero.max_hp, 3, 10) { 30int } else { 0int });
    (
        base * class_move_tenths(hero.class) * trait_product(Wish::Move, hero.traits@, 0, treasure),
        10 * ten_pow(hero.traits@.len()),
    )
}

/// The score of going back to a room seen but not cleared: forty-five,
/// twenty less when badly hurt, times the class's wish to attack.
pub open spec fn return_score(hero: AiHero) -> Score {
    ((45 - (if below_share(hero.hp, hero.max_hp, 3, 10) { 20int } else { 0int })) * class_attack_tenths(hero.class), 10)
}

/// The exploration candidates among the first `k` rooms.
pub open spec fn explore_cands(hero: AiHero, map: DungeonMap, status: RoomStatus, k: int) -> Seq<(Score, HeroAction)>
    decreases k,
{
    if k <= 0 {
        Seq::empty()
    } else {
        let prev = explore_cands(hero, map, status, k - 1);
        let r = k - 1;
        if seen(status, r) { prev } else { prev.push((explore_score(hero, map, status, r), HeroAction::MoveTo(r as usize))) }
    }
}

/// The return candidates among the first `k` rooms.
pub open spec fn return_cands(hero: AiHero, status: RoomStatus, k: int) -> Seq<(Score, HeroAction)>
    decreases k,
{
    if k <= 0 {
        Seq::empty()
    } else {
        let prev = return_cands(hero, status, k - 1);
        let r = k - 1;
        if !seen_for_return(status, r) || cleared(status, r) || hero.room == Some(r as usize) {
            prev
        } else {
            prev.push((return_score(hero), HeroAction::MoveTo(r as usize)))
        }
    }
}

/// The attack candidate: the weakest enemy in the room, scored sixty,
/// twenty more when it is nearly dead, ten more per ally in the room, times
/// the class's and every trait's multipliers.
pub open spec fn attack_cands(hero: AiHero, enemies: Seq<(u64, Option<usize>, i32, i32)>, allies: Seq<(u64, Option<usize>, i32, i32)>) -> Seq<(Score, HeroAction)> {
    match weakest_enemy(enemies, hero.room) {
        None => Seq::empty(),
        Some(w) => {
            let n = count_allies_here(allies, hero.id, hero.room);
            let base = 60 + (if below_share(enemies[w].2, enemies[w].3, 3, 10) { 20int } else { 0int }) + 10 * n;
            seq![(
                (base * class_attack_tenths(hero.class) * trait_product(Wish::Attack, hero.traits@, n, false), 10 * ten_pow(hero.traits@.len())),
                HeroAction::Attack(enemies[w].0),
            )]
        },
    }
}

/// The heal candidate, for a cleric or a wise hero, and for nobody on
/// cursed ground: the most hurt ally in
/// the room, scored seventy times the share of hit points it is missing,
/// times the class's wish to heal.
pub open spec fn heal_cands(hero: AiHero, wisdom: i32, allies: Seq<(u64, Option<usize>, i32, i32)>, cursed: bool) -> Seq<(Score, HeroAction)> {
    if !cursed && (hero.class == HeroClass::Cleric || wisdom > 14) {
        match most_hurt_ally(allies, hero.id, hero.room) {
            None => Seq::empty(),
            Some(a) => {
                let m = max_or_one(allies[a].3);
                seq![((70 * (m - allies[a].2) * class_heal_tenths(hero.class), 10 * m), HeroAction::Heal(allies[a].0))]
            },
        }
    } else {
        Seq::empty()
    }
}

/// The first entrance room, if any.
pub open spec fn entrance_of(map: DungeonMap) -> Option<int> {
    map.spec_entrance_index()
}

/// The action the AI picks: the best of attacking, healing, exploring and
/// returning (holding scores ten and wins ties), unless the hero is nearly
/// dead and not at the entrance, and fleeing there (sixty, twenty more
/// against two or more enemies, times the flee multipliers) beats it.
pub open spec fn ai_decision(hero: AiHero, enemies: Seq<(u64, Option<usize>, i32, i32)>, allies: Seq<(u64, Option<usize>, i32, i32)>, map: DungeonMap, status: RoomStatus, cursed: bool) -> HeroAction {
    let n = map.rooms@.len() as int;
    let cands = attack_cands(hero, enemies, allies) + heal_cands(hero, hero.wisdom, allies, cursed) + explore_cands(hero, map, status, n) + return_cands(hero, status, n);
    let best = pick_best(cands, ((10, 1), HeroAction::Hold));
    let entrance = entrance_of(map);
    let at_entrance = entrance matches Some(e) && hero.room == Some(e as usize);
    let flee = ((60 + (if count_enemies_here(enemies, hero.room) >= 2 { 20int } else { 0int })) * class_flee_tenths(hero.class) * trait_product(Wish::Flee, hero.traits@, 0, false), 10 * ten_pow(hero.traits@.len()));
    if below_share(hero.hp, hero.max_hp, 1, 4) && !at_entrance && score_gt(flee, best.0) && entrance is Some {
        HeroAction::MoveTo(entrance.unwrap() as usize)
    } else {
        best.1
    }
}


/// A score small enough to compare without overflow.
pub open spec fn score_ok(s: Score) -> bool {
    -10000000000000000000 <= s.0 <= 10000000000000000000 && 1 <= s.1 <= 100000000000
}

fn score_beats(a: (i128, i128), b: (i128, i128)) -> (r: bool)
    requires
        score_ok((a.0 as int, a.1 as int)),
        score_ok((b.0 as int, b.1 as int)),
    ensures
        r == score_gt((a.0 as int, a.1 as int), (b.0 as int, b.1 as int)),
{
    assert(-1000000000000000000000000000000 <= a.0 * b.1 <= 1000000000000000000000000000000) by (nonlinear_arith)
        requires
            -10000000000000000000 <= a.0 <= 10000000000000000000,
            1 <= b.1 <= 100000000000,
    ;
    assert(-1000000000000000000000000000000 <= b.0 * a.1 <= 1000000000000000000000000000000) by (nonlinear_arith)
        requires
            -10000000000000000000 <= b.0 <= 10000000000000000000,
            1 <= a.1 <= 100000000000,
    ;
    a.0 * b.1 > b.0 * a.1
}

fn class_tenths(w: u8, c: HeroClass) -> (m: i128)
    requires
        w < 4,
    ensures
        m == if w == 0 { class_attack_tenths(c) } else if w == 1 { class_heal_tenths(c) } else if w == 2 { class_move_tenths(c) } else { class_flee_tenths(c) },
        1 <= m <= 15,
{
    if w == 0 {
        match c {
            HeroClass::Warrior => 13,
            HeroClass::Rogue => 11,
            HeroClass::Mage => 12,
            HeroClass::Cleric => 8,
            HeroClass::Ranger => 11,
        }
    } else if w == 1 {
        match c {
            HeroClass::Cleric => 15,
            HeroClass::Mage => 6,
            _ => 5,
        }
    } else if w == 2 {
        match c {
            HeroClass::Ranger => 13,
            HeroClass::Rogue => 12,
            HeroClass::Mage => 9,
            _ => 10,
        }
    } else {
        match c {
            HeroClass::Warrior => 7,
            HeroClass::Rogue => 11,
            _ => 10,
        }
    }
}

fn below(hp: i32, max_hp: i32, num: i64, den: i64) -> (b: bool)
    requires
        1 <= num <= 10,
        1 <= den <= 10,
    ensures
        b == below_share(hp, max_hp, num as int, den as int),
{
    let m: i64 = if max_hp >= 1 { max_hp as i64 } else { 1 };
    assert(-10 * 0x8000_0000 <= hp * den <= 10 * 0x8000_0000) by (nonlinear_arith)
        requires
            i32::MIN <= hp <= i32::MAX,
            1 <= den <= 10,
    ;
    assert(0 <= num * m <= 10 * 0x8000_0000) by (nonlinear_arith)
        requires
            1 <= m <= i32::MAX,
            1 <= num <= 10,
    ;
    (hp as i64) * den < num * m
}

fn same_room(a: Option<usize>, b: Option<usize>) -> (r: bool)
    ensures
        r == (b is Some && a == b),
{
    match (a, b) {
        (Some(x), Some(y)) => x == y,
        _ => false,
    }
}

fn scan_enemies(enemies: &Vec<(u64, Option<usize>, i32, i32)>, room: Option<usize>) -> (r: (u64, Option<usize>))
    requires
        enemies@.len() <= AI_TOKEN_BOUND,
    ensures
        r.0 == count_enemies_here(enemies@, room),
        r.0 <= AI_TOKEN_BOUND,
        r.1 matches Some(w) ==> w < enemies@.len(),
        match r.1 {
            Some(w) => weakest_enemy(enemies@, room) == Some(w as int),
            None => weakest_enemy(enemies@, room) is None,
        },
{
    let mut count: u64 = 0;
    let mut best: Option<usize> = None;
    let mut k: usize = 0;
    while k < enemies.len()
        invariant
            k <= enemies@.len(),
            enemies@.len() <= AI_TOKEN_BOUND,
            count == count_enemies_here(enemies@.take(k as int), room),
            count <= k,
            best matches Some(w) ==> w < k,
            match best {
                Some(w) => weakest_enemy(enemies@.take(k as int), room) == Some(w as int),
                None => weakest_enemy(enemies@.take(k as int), room) is None,
            },
        decreases enemies@.len() - k,
    {
        let ghost t = enemies@.take(k + 1);
        assert(t.drop_last() =~= enemies@.take(k as int));
        assert(t[k as int] == enemies@[k as int]);
        let e = enemies[k];
        if e.2 > 0 && same_room(e.1, room) {
            count = count + 1;
            let better = match best {
                None => true,
                Some(w) => e.2 < enemies[w].2,
            };
            if better {
                best = Some(k);
            }
        }
        k += 1;
    }
    assert(enemies@.take(enemies@.len() as int) =~= enemies@);
    (count, best)
}

fn scan_allies(allies: &Vec<(u64, Option<usize>, i32, i32)>, me: u64, room: Option<usize>) -> (r: (u64, Option<usize>))
    requires
        allies@.len() <= AI_TOKEN_BOUND,
    ensures
        r.0 == count_allies_here(allies@, me, room),
        r.0 <= AI_TOKEN_BOUND,
        r.1 matches Some(w) ==> w < allies@.len() && hurt_ally_here(allies@[w as int], me, room),
        match r.1 {
            Some(w) => most_hurt_ally(allies@, me, room) == Some(w as int),
            None => most_hurt_ally(allies@, me, room) is None,
        },
{
    let mut count: u64 = 0;
    let mut best: Option<usize> = None;
    let mut k: usize = 0;
    while k < allies.len()
        invariant
            k <= allies@.len(),
            allies@.len() <= AI_TOKEN_BOUND,
            count == count_allies_here(allies@.take(k as int), me, room),
            count <= k,
            best matches Some(w) ==> w < k && hurt_ally_here(allies@[w as int], me, room),
            match best {
                Some(w) => most_hurt_ally(allies@.take(k as int), me, room) == Some(w as int),
                None => most_hurt_ally(allies@.take(k as int), me, room) is None,
            },
        decreases allies@.len() - k,
    {
        let ghost t = allies@.take(k + 1);
        assert(t.drop_last() =~= allies@.take(k as int));
        assert(t[k as int] == allies@[k as int]);
        let a = allies[k];
        if a.0 != me && a.2 > 0 && same_room(a.1, room) {
            count = count + 1;
            if a.2 < a.3 {
                let better = match best {
                    None => true,
                    Some(w) => a.3 - a.2 >= allies[w].3 - allies[w].2,
                };
                if better {
                    best = Some(k);
                }
            }
        }
        k += 1;
    }
    assert(allies@.take(allies@.len() as int) =~= allies@);
    (count, best)
}

fn any_unexplored_non_boss(map: &DungeonMap, status: &RoomStatus) -> (b: bool)
    ensures
        b == unexplored_non_boss(*map, *status),
{
    let mut i: usize = 0;
    while i < map.rooms.len()
        invariant
            i <= map.rooms@.len(),
            forall|j: int| 0 <= j < i ==> !(map.rooms@[j].room_type != RoomType::Boss && !seen(*status, j)),
        decreases map.rooms@.len() - i,
    {
        let seen_i = if i < status.visited.len() { status.visited[i] } else { true };
        if map.rooms[i].room_type != RoomType::Boss && !seen_i {
            assert(map.rooms@[i as int].room_type != RoomType::Boss && !seen(*status, i as int));
            return true;
        }
        i += 1;
    }
    false
}

proof fn lemma_pick_push(cands: Seq<(Score, HeroAction)>, c: (Score, HeroAction), init: (Score, HeroAction))
    ensures
        pick_best(cands.push(c), init) == if score_gt(c.0, pick_best(cands, init).0) { c } else { pick_best(cands, init) },
{
    assert(cands.push(c).drop_last() =~= cands);
}

/// The weakest enemy in the room: a living enemy there whose hit points are
/// at most those of every living enemy there, and fewer than those of every
/// such enemy listed before it; none when no living enemy is there.
pub proof fn lemma_weakest_enemy(enemies: Seq<(u64, Option<usize>, i32, i32)>, room: Option<usize>)
    ensures
        match weakest_enemy(enemies, room) {
            Some(w) => {
                &&& 0 <= w < enemies.len()
                &&& enemy_here(enemies[w], room)
                &&& forall|k: int| 0 <= k < enemies.len() && enemy_here(#[trigger] enemies[k], room) ==> enemies[w].2 <= enemies[k].2
                &&& forall|k: int| 0 <= k < w && enemy_here(#[trigger] enemies[k], room) ==> enemies[w].2 < enemies[k].2
            },
            None => forall|k: int| 0 <= k < enemies.len() ==> !enemy_here(#[trigger] enemies[k], room),
        },
    decreases enemies.len(),
{
    if enemies.len() > 0 {
        let rest = enemies.drop_last();
        lemma_weakest_enemy(rest, room);
        let last = enemies.len() - 1;
        assert forall|k: int| 0 <= k < rest.len() implies #[trigger] rest[k] == enemies[k] by {}
        match weakest_enemy(rest, room) {
            Some(p) => {
                assert(rest[p] == enemies[p]);
                if enemy_here(enemies[last], room) && enemies[last].2 < enemies[p].2 {
                    assert forall|k: int| 0 <= k < enemies.len() && enemy_here(#[trigger] enemies[k], room) implies enemies[last].2
                        <= enemies[k].2 by {
                        if k < last {
                            assert(rest[k] == enemies[k]);
                        }
                    }
                    assert forall|k: int| 0 <= k < last && enemy_here(#[trigger] enemies[k], room) implies enemies[last].2
                        < enemies[k].2 by {
                        assert(rest[k] == enemies[k]);
                    }
                } else {
                    assert forall|k: int| 0 <= k < enemies.len() && enemy_here(#[trigger] enemies[k], room) implies enemies[p].2
                        <= enemies[k].2 by {
                        if k < last {
                            assert(rest[k] == enemies[k]);
                        }
                    }
                    assert forall|k: int| 0 <= k < p && enemy_here(#[trigger] enemies[k], room) implies enemies[p].2 < enemies[k].2 by {
                        assert(rest[k] == enemies[k]);
                    }
                }
            },
            None => {
                if enemy_here(enemies[last], room) {
                    assert forall|k: int| 0 <= k < enemies.len() && enemy_here(#[trigger] enemies[k], room) implies enemies[last].2
                        <= enemies[k].2 by {
                        if k < last {
                            assert(rest[k] == enemies[k]);
                        }
                    }
                    assert forall|k: int| 0 <= k < last && enemy_here(#[trigger] enemies[k], room) implies enemies[last].2
                        < enemies[k].2 by {
                        assert(rest[k] == enemies[k]);
                    }
                } else {
                    assert forall|k: int| 0 <= k < enemies.len() implies !enemy_here(#[trigger] enemies[k], room) by {
                        if k < last {
                            assert(rest[k] == enemies[k]);
                        }
                    }
                }
            },
        }
    }
}

proof fn lemma_pick_best_member(cands: Seq<(Score, HeroAction)>, init: (Score, HeroAction))
    ensures
        pick_best(cands, init) == init || exists|i: int| 0 <= i < cands.len() && #[trigger] cands[i] == pick_best(cands, init),
    decreases cands.len(),
{
    if cands.len() > 0 {
        let rest = cands.drop_last();
        lemma_pick_best_member(rest, init);
        if pick_best(cands, init) != init && pick_best(cands, init) != cands.last() {
            let i = choose|i: int| 0 <= i < rest.len() && #[trigger] rest[i] == pick_best(rest, init);
            assert(cands[i] == rest[i]);
        } else if pick_best(cands, init) == cands.last() {
            assert(cands[cands.len() - 1] == cands.last());
        }
    }
}

proof fn lemma_explore_moves(hero: AiHero, map: DungeonMap, status: RoomStatus, k: int)
    ensures
        forall|i: int| 0 <= i < explore_cands(hero, map, status, k).len() ==> (#[trigger] explore_cands(hero, map, status, k)[i]).1 is MoveTo,
    decreases k,
{
    if k > 0 {
        lemma_explore_moves(hero, map, status, k - 1);
    }
}

proof fn lemma_return_moves(hero: AiHero, status: RoomStatus, k: int)
    ensures
        forall|i: int| 0 <= i < return_cands(hero, status, k).len() ==> (#[trigger] return_cands(hero, status, k)[i]).1 is MoveTo,
    decreases k,
{
    if k > 0 {
        lemma_return_moves(hero, status, k - 1);
    }
}

/// A hero that attacks strikes the weakest enemy in its own room: the id it
/// names is that of a living enemy in the room whose hit points are at most
/// those of every living enemy there (the first such on a tie).
pub proof fn lemma_attack_targets_weakest(
    hero: AiHero,
    enemies: Seq<(u64, Option<usize>, i32, i32)>,
    allies: Seq<(u64, Option<usize>, i32, i32)>,
    map: DungeonMap,
    status: RoomStatus,
    cursed: bool,
    id: u64,
)
    requires
        ai_decision(hero, enemies, allies, map, status, cursed) == HeroAction::Attack(id),
    ensures
        exists|w: int|
            0 <= w < enemies.len() && (#[trigger] enemies[w]).0 == id && enemy_here(enemies[w], hero.room) && (forall|k: int|
                0 <= k < enemies.len() && enemy_here(#[trigger] enemies[k], hero.room) ==> enemies[w].2 <= enemies[k].2) && (forall|k: int|
                0 <= k < w && enemy_here(#[trigger] enemies[k], hero.room) ==> enemies[w].2 < enemies[k].2),
{
    let n = map.rooms@.len() as int;
    let a = attack_cands(hero, enemies, allies);
    let h = heal_cands(hero, hero.wisdom, allies, cursed);
    let e = explore_cands(hero, map, status, n);
    let r = return_cands(hero, status, n);
    let cands = a + h + e + r;
    let init: (Score, HeroAction) = ((10, 1), HeroAction::Hold);
    let best = pick_best(cands, init);
    assert(best.1 == HeroAction::Attack(id));
    lemma_pick_best_member(cands, init);
    let i = choose|i: int| 0 <= i < cands.len() && #[trigger] cands[i] == best;
    lemma_explore_moves(hero, map, status, n);
    lemma_return_moves(hero, status, n);
    lemma_weakest_enemy(enemies, hero.room);
    if i < a.len() {
        assert(cands[i] == a[i]);
        let w = weakest_enemy(enemies, hero.room)->Some_0;
        assert(enemies[w].0 == id);
    } else if i < a.len() + h.len() {
        assert(cands[i] == h[i - a.len()]);
    } else if i < a.len() + h.len() + e.len() {
        assert(cands[i] == e[i - a.len() - h.len()]);
    } else {
        assert(cands[i] == r[i - a.len() - h.len() - e.len()]);
    }
}

/// The fraction of a score computed in `i128`.
pub open spec fn as_score(s: (i128, i128)) -> Score {
    (s.0 as int, s.1 as int)
}

/// The explore score of a room, computed.
fn explore_score_of(hero: &AiHero, map: &DungeonMap, status: &RoomStatus, r: usize, boss_waits: bool, badly_hurt: bool) -> (s: (i128, i128))
    requires
        r < map.rooms@.len(),
        hero.traits@.len() <= MAX_TRAITS,
        boss_waits == unexplored_non_boss(*map, *status),
        badly_hurt == below_share(hero.hp, hero.max_hp, 3, 10),
    ensures
        as_score(s) == explore_score(*hero, *map, *status, r as int),
        score_ok(as_score(s)),
{
    let rt = map.rooms[r].room_type;
    let treasure = rt == RoomType::Treasure;
    let (prod, den) = trait_product_of(Wish::Move, &hero.traits, 0, treasure);
    let mut base: i128 = 50;
    if treasure {
        base = base + 10;
    }
    if rt == RoomType::Boss && boss_waits {
        base = base - 40;
    }
    if badly_hurt {
        base = base - 30;
    }
    let c = class_tenths(2, hero.class);
    proof {
        reveal_with_fuel(eighteen_pow, 9);
    }
    assert(-20 * 15 <= base * c <= 60 * 15) by (nonlinear_arith)
        requires
            -20 <= base <= 60,
            1 <= c <= 15,
    ;
    assert(-20 * 15 * 11019960576 <= base * c * prod <= 60 * 15 * 11019960576) by (nonlinear_arith)
        requires
            -20 * 15 <= base * c <= 60 * 15,
            1 <= prod <= 11019960576,
    ;
    (base * c * (prod as i128), 10 * (den as i128))
}

/// Decide what a hero does this tick.
pub fn decide_action(
    hero: &AiHero,
    enemies: &Vec<(u64, Option<usize>, i32, i32)>,
    allies: &Vec<(u64, Option<usize>, i32, i32)>,
    map: &DungeonMap,
    status: &RoomStatus,
    modifiers: &Vec<MissionModifier>,
) -> (a: HeroAction)
    requires
        ai_inputs_ok(*hero, enemies@, allies@),
    ensures
        a == ai_decision(*hero, enemies@, allies@, *map, *status, modifiers@.contains(MissionModifier::CursedGround)),
{
    let cursed = has_modifier(modifiers.as_slice(), MissionModifier::CursedGround);
    let room = hero.room;
    let (enemy_count, weakest) = scan_enemies(enemies, room);
    let (ally_count, hurt) = scan_allies(allies, hero.id, room);
    let badly_hurt = below(hero.hp, hero.max_hp, 3, 10);
    let ghost init: (Score, HeroAction) = ((10, 1), HeroAction::Hold);
    let mut best: (i128, i128) = (10, 1);
    let mut action = HeroAction::Hold;
    let ghost mut seen: Seq<(Score, HeroAction)> = Seq::empty();
    proof {
        reveal_with_fuel(eighteen_pow, 9);
    }
    // 1. Attack the weakest enemy in the room.
    match weakest {
        Some(w) => {
            let (prod, den) = trait_product_of(Wish::Attack, &hero.traits, ally_count, false);
            let e = enemies[w];
            let low: i128 = if below(e.2, e.3, 3, 10) { 20 } else { 0 };
            let base: i128 = 60 + low + 10 * (ally_count as i128);
            let c = class_tenths(0, hero.class);
            assert(0 <= base * c <= 10000080 * 15) by (nonlinear_arith)
                requires
                    0 <= base <= 10000080,
                    1 <= c <= 15,
            ;
            assert(0 <= base * c * prod <= 10000080 * 15 * 11019960576) by (nonlinear_arith)
                requires
                    0 <= base * c <= 10000080 * 15,
                    1 <= prod <= 11019960576,
            ;
            let num = base * c * (prod as i128);
            let d = 10 * (den as i128);
            let ghost cand = ((num as int, d as int), HeroAction::Attack(e.0));
            proof {
                lemma_pick_push(seen, cand, init);
                assert(Seq::<(Score, HeroAction)>::empty().push(cand) =~= attack_cands(*hero, enemies@, allies@));
            }
            if score_beats((num, d), best) {
                best = (num, d);
                action = HeroAction::Attack(e.0);
            }
            proof {
                seen = seen.push(cand);
            }
        },
        None => {
            assert(seen =~= attack_cands(*hero, enemies@, allies@));
        },
    }
    assert(seen == attack_cands(*hero, enemies@, allies@));
    assert((as_score(best), action) == pick_best(seen, init));
    // 2. Heal the most hurt ally in the room.
    let ghost before_heal = seen;
    if !cursed && (hero.class == HeroClass::Cleric || hero.wisdom > 14) {
        match hurt {
            Some(h) => {
                let a = allies[h];
                let m: i128 = if a.3 >= 1 { a.3 as i128 } else { 1 };
                let c = class_tenths(1, hero.class);
                let miss: i128 = m - (a.2 as i128);
                assert(0 <= miss * c <= 4294967295 * 15) by (nonlinear_arith)
                    requires
                        0 <= miss <= 4294967295,
                        1 <= c <= 15,
                ;
                let num = 70 * (miss * c);
                let d = 10 * m;
                assert(70 * (miss * c) == 70 * miss * c) by (nonlinear_arith);
                let ghost cand = ((num as int, d as int), HeroAction::Heal(a.0));
                proof {
                    lemma_pick_push(seen, cand, init);
                }
                if score_beats((num, d), best) {
                    best = (num, d);
                    action = HeroAction::Heal(a.0);
                }
                proof {
                    seen = seen.push(cand);
                    assert(seen =~= before_heal + heal_cands(*hero, hero.wisdom, allies@, cursed));
                }
            },
            None => {
                assert(seen =~= before_heal + heal_cands(*hero, hero.wisdom, allies@, cursed));
            },
        }
    } else {
        assert(seen =~= before_heal + heal_cands(*hero, hero.wisdom, allies@, cursed));
    }
    // 3. Explore rooms not yet visited.
    let boss_waits = any_unexplored_non_boss(map, status);
    let ghost before_explore = seen;
    let n = map.rooms.len();
    let mut r: usize = 0;
    while r < n
        invariant
            n == map.rooms@.len(),
            r <= n,
            hero.traits@.len() <= MAX_TRAITS,
            boss_waits == unexplored_non_boss(*map, *status),
            badly_hurt == below_share(hero.hp, hero.max_hp, 3, 10),
            seen == before_explore + explore_cands(*hero, *map, *status, r as int),
            (as_score(best), action) == pick_best(seen, init),
            score_ok(as_score(best)),
        decreases n - r,
    {
        let seen_r = if r < status.visited.len() { status.visited[r] } else { true };
        if !seen_r {
            let sc = explore_score_of(hero, map, status, r, boss_waits, badly_hurt);
            let ghost cand = (as_score(sc), HeroAction::MoveTo(r));
            proof {
                lemma_pick_push(seen, cand, init);
            }
            if score_beats(sc, best) {
                best = sc;
                action = HeroAction::MoveTo(r);
            }
            proof {
                seen = seen.push(cand);
            }
        }
        r += 1;
        proof {
            assert(seen =~= before_explore + explore_cands(*hero, *map, *status, r as int));
        }
    }
    // 4. Go back to rooms seen but not cleared.
    let ghost before_return = seen;
    let ret_c = class_tenths(0, hero.class);
    let ret_base: i128 = if badly_hurt { 25 } else { 45 };
    let ret = (ret_base * ret_c, 10i128);
    assert(as_score(ret) == return_score(*hero));
    let mut r: usize = 0;
    while r < n
        invariant
            n == map.rooms@.len(),
            r <= n,
            room == hero.room,
            as_score(ret) == return_score(*hero),
            score_ok(as_score(ret)),
            seen == before_return + return_cands(*hero, *status, r as int),
            (as_score(best), action) == pick_best(seen, init),
            score_ok(as_score(best)),
        decreases n - r,
    {
        let v = if r < status.visited.len() { status.visited[r] } else { false };
        let c = if r < status.cleared.len() { status.cleared[r] } else { false };
        let here = match room {
            Some(x) => x == r,
            None => false,
        };
        if v && !c && !here {
            let ghost cand = (as_score(ret), HeroAction::MoveTo(r));
            proof {
                lemma_pick_push(seen, cand, init);
            }
            if score_beats(ret, best) {
                best = ret;
                action = HeroAction::MoveTo(r);
            }
            proof {
                seen = seen.push(cand);
            }
        }
        r += 1;
        proof {
            assert(seen =~= before_return + return_cands(*hero, *status, r as int));
        }
    }
    // 5. Flee to the entrance when nearly dead.
    let entrance = map.entrance_index();
    let at_entrance = match (entrance, room) {
        (Some(e), Some(x)) => e == x,
        _ => false,
    };
    proof {
        crate::mission::entities::lemma_entrance_index(*map, entrance);
    }
    if below(hero.hp, hero.max_hp, 1, 4) && !at_entrance {
        let (prod, den) = trait_product_of(Wish::Flee, &hero.traits, 0, false);
        let base: i128 = if enemy_count >= 2 { 80 } else { 60 };
        let c = class_tenths(3, hero.class);
        assert(0 <= base * c <= 80 * 15) by (nonlinear_arith)
            requires
                0 <= base <= 80,
                1 <= c <= 15,
        ;
        assert(0 <= base * c * prod <= 80 * 15 * 11019960576) by (nonlinear_arith)
            requires
                0 <= base * c <= 80 * 15,
                1 <= prod <= 11019960576,
        ;
        let flee = (base * c * (prod as i128), 10 * (den as i128));
        if score_beats(flee, best) {
            match entrance {
                Some(e) => {
                    return HeroAction::MoveTo(e);
                },
                None => {},
            }
        }
    }
    action
}

} // verus!
