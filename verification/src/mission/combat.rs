//! Room bookkeeping, mid-mission events and mission completion: which rooms
//! are visited and cleared, when an event fires and what it does, and how a
//! finished mission pays out or goes missing.

use vstd::prelude::*;

use crate::hero::data::HeroTrait;
use crate::localization::{args_view, interpolate, tr_spec, StringTable};
use crate::economy::Gold;
use crate::equipment::{GearRarity, HeroEquipment};
use crate::hero::history::HeroHistory;
use crate::hero::status::{Missing, MISSING_DURATION_MS};
use crate::materials::{material_index, MaterialType, Materials};
use crate::reputation::Reputation;
use crate::rng::{random_i32_inclusive, random_index, random_ratio, random_u32_inclusive};
use crate::text::{contains_str, decimal, join, join_strings, occurs_in, same_text, starts_with_str, u64_to_string};
use rand::rngs::StdRng;

use super::data::{
    first_ability, has_modifier, AbilityDatabase, AbilityDef, EventCheckStat, EventDatabase, MissionEventDef, MissionModifier,
    MissionTemplate,
};
use super::entities::{ActiveAbilities, ActiveAbilityState, CombatStats, MissionEventsState, RoomStatus, VisualHit};
use super::dungeon::DungeonMap;
use super::dungeon::RoomType;
use crate::hero::tracking::LogPayload;
use super::{MissionProgress, RescueMission};

verus! {

/// Hero `k` is the first, in hero order, to stand in a room not yet visited.
pub open spec fn first_visit(hero_rooms: Seq<Option<usize>>, visited: Seq<bool>, k: int) -> bool {
    &&& 0 <= k < hero_rooms.len()
    &&& hero_rooms[k] matches Some(r) && r < visited.len() && !visited[r as int]
    &&& forall|j: int| 0 <= j < k ==> hero_rooms[j] != hero_rooms[k]
}

/// Mark every room a hero stands in as visited. Returns, in hero order, the
/// heroes who entered a room first, each with that room.
pub fn mark_visited_rooms(status: &mut RoomStatus, hero_rooms: &Vec<Option<usize>>) -> (newly: Vec<(usize, usize)>)
    ensures
        final(status).cleared@ == old(status).cleared@,
        final(status).visited@.len() == old(status).visited@.len(),
        forall|r: int|
            0 <= r < old(status).visited@.len() ==> (#[trigger] final(status).visited@[r] <==> (old(status).visited@[r]
                || hero_rooms@.contains(Some(r as usize)))),
        forall|a: int, b: int| 0 <= a < b < newly@.len() ==> newly@[a].0 < newly@[b].0,
        forall|a: int|
            0 <= a < newly@.len() ==> first_visit(hero_rooms@, old(status).visited@, (#[trigger] newly@[a]).0 as int)
                && hero_rooms@[newly@[a].0 as int] == Some(newly@[a].1),
        forall|k: int| #[trigger] first_visit(hero_rooms@, old(status).visited@, k) ==> exists|a: int|
            0 <= a < newly@.len() && (#[trigger] newly@[a]).0 == k,
{
    let ghost v0 = status.visited@;
    let mut newly: Vec<(usize, usize)> = Vec::new();
    let mut k: usize = 0;
    while k < hero_rooms.len()
        invariant
            k <= hero_rooms@.len(),
            status.cleared@ == old(status).cleared@,
            v0 == old(status).visited@,
            status.visited@.len() == v0.len(),
            forall|r: int|
                0 <= r < v0.len() ==> (#[trigger] status.visited@[r] <==> (v0[r] || exists|j: int|
                    0 <= j < k && hero_rooms@[j] == Some(r as usize))),
            forall|a: int| 0 <= a < newly@.len() ==> (#[trigger] newly@[a]).0 < k,
            forall|a: int, b: int| 0 <= a < b < newly@.len() ==> newly@[a].0 < newly@[b].0,
            forall|a: int|
                0 <= a < newly@.len() ==> first_visit(hero_rooms@, v0, (#[trigger] newly@[a]).0 as int)
                    && hero_rooms@[newly@[a].0 as int] == Some(newly@[a].1),
            forall|j: int| 0 <= j < k && #[trigger] first_visit(hero_rooms@, v0, j) ==> exists|a: int|
                0 <= a < newly@.len() && (#[trigger] newly@[a]).0 == j,
        decreases hero_rooms@.len() - k,
    {
        let ghost n0 = newly@;
        let ghost vb = status.visited@;
        match hero_rooms[k] {
            Some(r) => {
                if r < status.visited.len() && !status.visited[r] {
                    status.visited.set(r, true);
                    newly.push((k, r));
                    proof {
                        assert forall|j: int| 0 <= j < k implies hero_rooms@[j] != hero_rooms@[k as int] by {
                            if hero_rooms@[j] == Some(r) {
                                assert(vb[r as int]);
                            }
                        }
                        assert(first_visit(hero_rooms@, v0, k as int));
                        assert(newly@[n0.len() as int] == (k, r));
                        assert forall|j: int| 0 <= j < k + 1 && #[trigger] first_visit(hero_rooms@, v0, j) implies exists|a: int|
                            0 <= a < newly@.len() && (#[trigger] newly@[a]).0 == j by {
                            if j < k {
                                let a = choose|a: int| 0 <= a < n0.len() && (#[trigger] n0[a]).0 == j;
                                assert(newly@[a] == n0[a]);
                            } else {
                                assert(newly@[n0.len() as int].0 == j);
                            }
                        }
                    }
                } else {
                    proof {
                        assert forall|j: int| 0 <= j < k + 1 && #[trigger] first_visit(hero_rooms@, v0, j) implies exists|a: int|
                            0 <= a < newly@.len() && (#[trigger] newly@[a]).0 == j by {
                            if j == k && r < vb.len() {
                                assert(vb[r as int]);
                                if !v0[r as int] {
                                    let i = choose|i: int| 0 <= i < k && hero_rooms@[i] == Some(r);
                                    assert(hero_rooms@[i] == hero_rooms@[j]);
                                }
                            }
                        }
                    }
                }
            },
            None => {},
        }
        proof {
            assert forall|r: int|
                0 <= r < v0.len() implies (#[trigger] status.visited@[r] <==> (v0[r] || exists|j: int|
                    0 <= j < k + 1 && hero_rooms@[j] == Some(r as usize))) by {
                if hero_rooms@[k as int] == Some(r as usize) {
                    assert(status.visited@[r]);
                }
                if exists|j: int| 0 <= j < k + 1 && hero_rooms@[j] == Some(r as usize) {
                    if !(exists|j: int| 0 <= j < k && hero_rooms@[j] == Some(r as usize)) {
                        assert(hero_rooms@[k as int] == Some(r as usize));
                    }
                }
            }
        }
        k += 1;
    }
    proof {
        assert forall|r: int|
            0 <= r < v0.len() implies (#[trigger] status.visited@[r] <==> (v0[r] || hero_rooms@.contains(Some(r as usize)))) by {
            if hero_rooms@.contains(Some(r as usize)) {
                let j = choose|j: int| 0 <= j < hero_rooms@.len() && hero_rooms@[j] == Some(r as usize);
            }
        }
    }
    newly
}

/// Hit points after a hit of `damage`, floored at zero.
pub open spec fn hp_after_hit(hp: int, damage: int) -> int {
    if hp - damage < 0 {
        0
    } else {
        hp - damage
    }
}

/// Hit points after healing `amount`, capped at the maximum.
pub open spec fn hp_after_heal(hp: int, amount: int, max_hp: int) -> int {
    if hp + amount > max_hp {
        max_hp
    } else {
        hp + amount
    }
}

/// Bound on the size of any single hit, heal or bonus.
pub const EFFECT_BOUND: i32 = 1000000;

/// Take a hit, never dropping below zero.
pub fn take_hit(hp: i32, damage: i32) -> (r: i32)
    requires
        0 <= damage <= EFFECT_BOUND,
        hp >= i32::MIN + EFFECT_BOUND,
    ensures
        r == hp_after_hit(hp as int, damage as int),
{
    if hp - damage < 0 {
        0
    } else {
        hp - damage
    }
}

/// Heal, never past the maximum.
pub fn heal_capped(hp: i32, amount: i32, max_hp: i32) -> (r: i32)
    requires
        0 <= amount <= EFFECT_BOUND,
        hp <= i32::MAX - EFFECT_BOUND,
    ensures
        r == hp_after_heal(hp as int, amount as int, max_hp as int),
{
    if hp + amount > max_hp {
        max_hp
    } else {
        hp + amount
    }
}

/// The name a log line gives the kind of room a hero enters.
pub open spec fn room_entry_name(t: RoomType) -> Seq<char> {
    match t {
        RoomType::Entrance => "Entrance"@,
        RoomType::Boss => "Boss Chamber"@,
        RoomType::Treasure => "Treasure Vault"@,
        RoomType::Normal => "Chamber"@,
    }
}

/// The log line of a hero entering a room for the first time.
pub fn room_entry_log(hero_name: &str, room: RoomType) -> (p: LogPayload)
    ensures
        p matches LogPayload::RoomEntry { hero_name: h, room_name: r } && h@ == hero_name@ && r@ == room_entry_name(room),
{
    let name = match room {
        RoomType::Entrance => String::from_str("Entrance"),
        RoomType::Boss => String::from_str("Boss Chamber"),
        RoomType::Treasure => String::from_str("Treasure Vault"),
        RoomType::Normal => String::from_str("Chamber"),
    };
    proof {
        reveal_strlit("Entrance");
        reveal_strlit("Boss Chamber");
        reveal_strlit("Treasure Vault");
        reveal_strlit("Chamber");
    }
    LogPayload::RoomEntry { hero_name: String::from_str(hero_name), room_name: name }
}

/// A trap springs on a hero entering a room of a trapped mission, unless the
/// room is the entrance.
pub fn trap_springs(room: RoomType, modifiers: &Vec<MissionModifier>) -> (b: bool)
    ensures
        b == (room != RoomType::Entrance && modifiers@.contains(MissionModifier::Trapped)),
{
    let entrance = match room {
        RoomType::Entrance => true,
        _ => false,
    };
    !entrance && has_modifier(modifiers.as_slice(), MissionModifier::Trapped)
}

/// The least damage a trap deals.
pub const TRAP_DAMAGE_MIN: i32 = 5;

/// The most damage a trap deals.
pub const TRAP_DAMAGE_MAX: i32 = 15;

/// A trap hits a hero: damage drawn from `TRAP_DAMAGE_MIN..=TRAP_DAMAGE_MAX`
/// comes off their hit points, which stop at zero. Returns the hit to show
/// and the log line.
pub fn spring_trap(stats: &mut CombatStats, hero_name: &str, rng: &mut StdRng) -> (r: (VisualHit, LogPayload))
    requires
        old(stats).hp >= i32::MIN + TRAP_DAMAGE_MAX,
    ensures
        TRAP_DAMAGE_MIN <= r.0.amount <= TRAP_DAMAGE_MAX,
        final(stats).hp == (if old(stats).hp - r.0.amount >= 0 { old(stats).hp - r.0.amount } else { 0 }),
        final(stats).max_hp == old(stats).max_hp,
        final(stats).attack == old(stats).attack,
        final(stats).defense == old(stats).defense,
        final(stats).speed == old(stats).speed,
        r.0.is_hit,
        !r.0.is_crit,
        r.0.effect_type@ == "Damage"@,
        r.0.source is None,
        !r.0.is_signature,
        r.1 matches LogPayload::TrapTriggered { hero_name: h, damage: d } && h@ == hero_name@ && d == r.0.amount,
{
    let damage = random_i32_inclusive(rng, TRAP_DAMAGE_MIN, TRAP_DAMAGE_MAX);
    let left = stats.hp - damage;
    stats.hp = if left >= 0 { left } else { 0 };
    let hit = VisualHit {
        amount: damage,
        is_hit: true,
        is_crit: false,
        effect_type: String::from_str("Damage"),
        source: None,
        is_signature: false,
    };
    proof {
        reveal_strlit("Damage");
    }
    (hit, LogPayload::TrapTriggered { hero_name: String::from_str(hero_name), damage })
}

/// Whether an event fires as a hero enters a new room: only while events
/// are left, always when more are left than unvisited rooms, else on `coin`.
pub open spec fn event_fires(max_events: u32, events_fired: u32, unvisited: nat, coin: bool) -> bool {
    max_events > events_fired && ((max_events - events_fired) > unvisited || coin)
}

/// Unvisited rooms, counted.
pub open spec fn count_unvisited(v: Seq<bool>) -> nat
    decreases v.len(),
{
    if v.len() == 0 {
        0
    } else {
        count_unvisited(v.drop_last()) + (if v.last() { 0nat } else { 1nat })
    }
}

fn unvisited_count(v: &Vec<bool>) -> (n: usize)
    ensures
        n == count_unvisited(v@),
{
    let mut n: usize = 0;
    let mut i: usize = 0;
    while i < v.len()
        invariant
            i <= v@.len(),
            n == count_unvisited(v@.take(i as int)),
            n <= i,
        decreases v@.len() - i,
    {
        assert(v@.take(i + 1).drop_last() =~= v@.take(i as int));
        if !v[i] {
            n += 1;
        }
        i += 1;
    }
    assert(v@.take(v@.len() as int) =~= v@);
    n
}

/// Decide whether an event fires as a hero enters a new room, tossing a
/// coin only when the count of events left does not force one.
pub fn event_triggers(max_events: u32, events_fired: u32, visited: &Vec<bool>, rng: &mut StdRng) -> (b: bool)
    ensures
        max_events <= events_fired ==> !b,
        max_events > events_fired && (max_events - events_fired) > count_unvisited(visited@) ==> b,
{
    if max_events <= events_fired {
        return false;
    }
    let left = max_events - events_fired;
    let unvisited = unvisited_count(visited);
    if (left as usize) > unvisited {
        return true;
    }
    random_ratio(rng, 1, 2)
}

/// Whether no log line names the event.
pub open spec fn unmentioned(db: Seq<MissionEventDef>, history: Seq<String>, i: int) -> bool {
    forall|k: int| 0 <= k < history.len() ==> !occurs_in(#[trigger] history[k]@, db[i].name@)
}

/// Whether an event belongs to rescue missions (its id starts with `rescue_`).
pub open spec fn is_rescue_event(e: MissionEventDef) -> bool {
    "rescue_"@.len() <= e.id@.len() && e.id@.subrange(0, "rescue_"@.len() as int) == "rescue_"@
}

/// The events still in play: those no log line names (all, when every one
/// is named) and of the mission's kind, rescue or not; all of them when
/// none of those is left.
pub open spec fn in_event_pool(db: Seq<MissionEventDef>, history: Seq<String>, is_rescue: bool, i: int) -> bool {
    0 <= i < db.len() && (kind_event(db, history, is_rescue, i) || !exists|m: int|
        0 <= m < db.len() && #[trigger] kind_event(db, history, is_rescue, m))
}

/// An event no log line names, or any event when every one is named.
pub open spec fn fresh_event(db: Seq<MissionEventDef>, history: Seq<String>, j: int) -> bool {
    0 <= j < db.len() && (unmentioned(db, history, j) || !exists|m: int|
        0 <= m < db.len() && #[trigger] unmentioned(db, history, m))
}

/// A fresh event of the mission's kind.
pub open spec fn kind_event(db: Seq<MissionEventDef>, history: Seq<String>, is_rescue: bool, j: int) -> bool {
    fresh_event(db, history, j) && is_rescue_event(db[j]) == is_rescue
}

fn mentioned(name: &String, history: &Vec<String>) -> (b: bool)
    ensures
        b == exists|k: int| 0 <= k < history@.len() && occurs_in(#[trigger] history@[k]@, name@),
{
    let mut k: usize = 0;
    while k < history.len()
        invariant
            k <= history@.len(),
            forall|j: int| 0 <= j < k ==> !occurs_in(#[trigger] history@[j]@, name@),
        decreases history@.len() - k,
    {
        if contains_str(history[k].as_str(), name.as_str()) {
            return true;
        }
        k += 1;
    }
    false
}

/// The events that may fire, by index into the database, in database order.
pub fn available_events(db: &EventDatabase, history: &Vec<String>, is_rescue: bool) -> (v: Vec<usize>)
    ensures
        forall|a: int, b: int| 0 <= a < b < v@.len() ==> v@[a] < v@[b],
        forall|a: int| 0 <= a < v@.len() ==> in_event_pool(db.0@, history@, is_rescue, #[trigger] v@[a] as int),
        forall|i: int| #[trigger] in_event_pool(db.0@, history@, is_rescue, i) ==> v@.contains(i as usize),
{
    let n = db.0.len();
    let ghost d = db.0@;
    // Which events no log names.
    let mut fresh: Vec<bool> = Vec::new();
    let mut any_fresh = false;
    let mut i: usize = 0;
    while i < n
        invariant
            n == d.len(),
            d == db.0@,
            i <= n,
            fresh@.len() == i,
            forall|j: int| 0 <= j < i ==> fresh@[j] == unmentioned(d, history@, j),
            any_fresh <==> exists|m: int| 0 <= m < i && #[trigger] unmentioned(d, history@, m),
        decreases n - i,
    {
        let m = mentioned(&db.0[i].name, history);
        assert(!m == unmentioned(d, history@, i as int));
        fresh.push(!m);
        if !m {
            any_fresh = true;
        }
        i += 1;
    }
    // Which of those are of the mission's kind.
    let mut kind: Vec<bool> = Vec::new();
    let mut any_kind = false;
    let mut i: usize = 0;
    while i < n
        invariant
            n == d.len(),
            d == db.0@,
            i <= n,
            fresh@.len() == n,
            forall|j: int| 0 <= j < n ==> fresh@[j] == unmentioned(d, history@, j),
            any_fresh <==> exists|m: int| 0 <= m < n && #[trigger] unmentioned(d, history@, m),
            kind@.len() == i,
            forall|j: int| 0 <= j < i ==> kind@[j] == kind_event(d, history@, is_rescue, j),
            any_kind <==> exists|m: int| 0 <= m < i && #[trigger] kind_event(d, history@, is_rescue, m),
        decreases n - i,
    {
        let f = fresh[i] || !any_fresh;
        assert(f == fresh_event(d, history@, i as int));
        let r = starts_with_str(db.0[i].id.as_str(), "rescue_");
        let k = f && r == is_rescue;
        assert(k == kind_event(d, history@, is_rescue, i as int));
        kind.push(k);
        if k {
            any_kind = true;
        }
        i += 1;
    }
    let mut v: Vec<usize> = Vec::new();
    let mut i: usize = 0;
    while i < n
        invariant
            n == d.len(),
            d == db.0@,
            i <= n,
            kind@.len() == n,
            forall|j: int| 0 <= j < n ==> kind@[j] == kind_event(d, history@, is_rescue, j),
            any_kind <==> exists|m: int| 0 <= m < n && #[trigger] kind_event(d, history@, is_rescue, m),
            forall|a: int| 0 <= a < v@.len() ==> (#[trigger] v@[a]) < i,
            forall|a: int, b: int| 0 <= a < b < v@.len() ==> v@[a] < v@[b],
            forall|a: int| 0 <= a < v@.len() ==> in_event_pool(d, history@, is_rescue, #[trigger] v@[a] as int),
            forall|j: int| 0 <= j < i && #[trigger] in_event_pool(d, history@, is_rescue, j) ==> v@.contains(j as usize),
        decreases n - i,
    {
        assert((kind[i as int] || !any_kind) == in_event_pool(d, history@, is_rescue, i as int));
        if kind[i] || !any_kind {
            let ghost v0 = v@;
            v.push(i);
            proof {
                assert(v@[v0.len() as int] == i);
                assert forall|j: int| 0 <= j < i + 1 && #[trigger] in_event_pool(d, history@, is_rescue, j) implies v@.contains(j as usize) by {
                    if j < i {
                        let a = choose|a: int| 0 <= a < v0.len() && v0[a] == j as usize;
                        assert(v@[a] == v0[a]);
                    } else {
                        assert(v@[v0.len() as int] == j as usize);
                    }
                }
            }
        }
        i += 1;
    }
    v
}

/// The order in which a rescue mission prefers its events.
pub open spec fn rescue_order(k: int) -> Seq<char> {
    if k == 0 {
        "rescue_trail"@
    } else if k == 1 {
        "rescue_dropped_gear"@
    } else {
        "rescue_campsite"@
    }
}

/// The first of the available events whose id is the earliest in the
/// rescue order, if any has such an id.
pub fn pick_rescue_event(db: &EventDatabase, available: &Vec<usize>) -> (r: Option<usize>)
    requires
        forall|a: int| 0 <= a < available@.len() ==> (#[trigger] available@[a]) < db.0@.len(),
    ensures
        match r {
            Some(a) => a < available@.len() && exists|k: int|
                0 <= k < 3 && db.0@[available@[a as int] as int].id@ == rescue_order(k)
                    && (forall|b: int| 0 <= b < a ==> db.0@[#[trigger] available@[b] as int].id@ != rescue_order(k))
                    && (forall|k2: int, b: int| #![trigger available@[b], rescue_order(k2)]
                        0 <= k2 < k && 0 <= b < available@.len() ==> db.0@[available@[b] as int].id@ != rescue_order(k2)),
            None => forall|k: int, b: int| #![trigger available@[b], rescue_order(k)]
                0 <= k < 3 && 0 <= b < available@.len() ==> db.0@[available@[b] as int].id@ != rescue_order(k),
        },
{
    let mut k: usize = 0;
    while k < 3
        invariant
            k <= 3,
            forall|a: int| 0 <= a < available@.len() ==> (#[trigger] available@[a]) < db.0@.len(),
            forall|k2: int, b: int| #![trigger available@[b], rescue_order(k2)]
                0 <= k2 < k && 0 <= b < available@.len() ==> db.0@[available@[b] as int].id@ != rescue_order(k2),
        decreases 3 - k,
    {
        let id = if k == 0 {
            "rescue_trail"
        } else if k == 1 {
            "rescue_dropped_gear"
        } else {
            "rescue_campsite"
        };
        assert(id@ == rescue_order(k as int));
        let mut a: usize = 0;
        while a < available.len()
            invariant
                k < 3,
                id@ == rescue_order(k as int),
                a <= available@.len(),
                forall|x: int| 0 <= x < available@.len() ==> (#[trigger] available@[x]) < db.0@.len(),
                forall|k2: int, b: int| #![trigger available@[b], rescue_order(k2)]
                    0 <= k2 < k && 0 <= b < available@.len() ==> db.0@[available@[b] as int].id@ != rescue_order(k2),
                forall|b: int| 0 <= b < a ==> db.0@[#[trigger] available@[b] as int].id@ != rescue_order(k as int),
            decreases available@.len() - a,
        {
            if same_text(db.0[available[a]].id.as_str(), id) {
                return Some(a);
            }
            a += 1;
        }
        k += 1;
    }
    None
}

/// The hero an event picks among those in the room: one with the event's
/// trait when any has it, else anyone.
pub fn pick_event_hero(room_traits: &Vec<Vec<HeroTrait>>, priority: Option<HeroTrait>, rng: &mut StdRng) -> (k: usize)
    requires
        room_traits@.len() > 0,
    ensures
        k < room_traits@.len(),
        match priority {
            Some(t) => (exists|j: int| 0 <= j < room_traits@.len() && room_traits@[j]@.contains(t))
                ==> room_traits@[k as int]@.contains(t),
            None => true,
        },
{
    match priority {
        Some(t) => {
            let mut with: Vec<usize> = Vec::new();
            let mut j: usize = 0;
            while j < room_traits.len()
                invariant
                    j <= room_traits@.len(),
                    forall|a: int| 0 <= a < with@.len() ==> (#[trigger] with@[a]) < room_traits@.len()
                        && room_traits@[with@[a] as int]@.contains(t),
                    (exists|i: int| 0 <= i < j && room_traits@[i]@.contains(t)) ==> with@.len() > 0,
                decreases room_traits@.len() - j,
            {
                if crate::hero::data::has_trait(&room_traits[j], t) {
                    with.push(j);
                }
                j += 1;
            }
            if with.len() > 0 {
                let a = random_index(rng, with.len());
                return with[a];
            }
            random_index(rng, room_traits.len())
        },
        None => random_index(rng, room_traits.len()),
    }
}

/// The ability modifier of a stat: half of its excess over ten, rounded down.
pub open spec fn ability_modifier(stat: int) -> int {
    (stat - 10) / 2
}

/// Whether an event's check succeeds: a d20 roll plus the stat's modifier
/// meets the difficulty.
pub fn event_check_succeeds(stat: i32, d20: i32, difficulty: i32) -> (b: bool)
    requires
        1 <= d20 <= 20,
        -1000000 <= stat <= 1000000,
    ensures
        b == (d20 + ability_modifier(stat as int) >= difficulty),
{
    let x: i64 = stat as i64 - 10;
    let m: i64 = if x >= 0 {
        x / 2
    } else {
        -((-x + 1) / 2)
    };
    assert(m == ability_modifier(stat as int)) by (nonlinear_arith)
        requires
            x == stat - 10,
            m == if x >= 0 { x / 2 } else { -((-x + 1) / 2) },
    ;
    (d20 as i64) + m >= difficulty as i64
}

/// The stat of a hero an event checks.
pub fn checked_stat(stats: &crate::hero::progression::HeroStats, check: EventCheckStat) -> (v: i32)
    ensures
        v == match check {
            EventCheckStat::Strength => stats.strength,
            EventCheckStat::Dexterity => stats.dexterity,
            EventCheckStat::Constitution => stats.constitution,
            EventCheckStat::Intelligence => stats.intelligence,
            EventCheckStat::Wisdom => stats.wisdom,
            EventCheckStat::Charisma => stats.charisma,
        },
{
    match check {
        EventCheckStat::Strength => stats.strength,
        EventCheckStat::Dexterity => stats.dexterity,
        EventCheckStat::Constitution => stats.constitution,
        EventCheckStat::Intelligence => stats.intelligence,
        EventCheckStat::Wisdom => stats.wisdom,
        EventCheckStat::Charisma => stats.charisma,
    }
}

/// What an event does: to the chosen hero (heal capped at the maximum,
/// damage floored at zero, defense and speed gained, defense lost down to
/// zero), to the guild's gold, to every living hero of the party, and to a
/// rescue's dropped gear.
#[derive(Debug, Clone, Copy)]
pub struct EventOutcome {
    pub heal: i32,
    pub damage: i32,
    pub defense_gain: i32,
    pub defense_loss: i32,
    pub speed_gain: i32,
    pub gold_gain: u32,
    pub gold_loss: u32,
    pub party_heal: i32,
    pub gear_recovered: bool,
}

/// An outcome that does nothing.
pub open spec fn no_outcome() -> EventOutcome {
    EventOutcome {
        heal: 0,
        damage: 0,
        defense_gain: 0,
        defense_loss: 0,
        speed_gain: 0,
        gold_gain: 0,
        gold_loss: 0,
        party_heal: 0,
        gear_recovered: false,
    }
}

/// Heal `h` on success, take `d` on failure.
pub open spec fn heal_or_hurt(success: bool, h: i32, d: i32) -> EventOutcome {
    if success {
        EventOutcome { heal: h, ..no_outcome() }
    } else {
        EventOutcome { damage: d, ..no_outcome() }
    }
}

/// Gain gold `g` on success, take `d` on failure.
pub open spec fn gold_or_hurt(success: bool, g: u32, d: i32) -> EventOutcome {
    if success {
        EventOutcome { gold_gain: g, ..no_outcome() }
    } else {
        EventOutcome { damage: d, ..no_outcome() }
    }
}

/// Nothing on success, take `d` on failure.
pub open spec fn hurt_on_failure(success: bool, d: i32) -> EventOutcome {
    if success {
        no_outcome()
    } else {
        EventOutcome { damage: d, ..no_outcome() }
    }
}

/// The outcome of each event, by id.
pub open spec fn outcome_of(id: Seq<char>, success: bool) -> EventOutcome {
    if id == "rescue_trail"@ {
        if success { EventOutcome { heal: 10, speed_gain: 1, ..no_outcome() } } else { EventOutcome { damage: 8, ..no_outcome() } }
    } else if id == "rescue_campsite"@ {
        if success { EventOutcome { party_heal: 15, ..no_outcome() } } else { EventOutcome { damage: 10, ..no_outcome() } }
    } else if id == "rescue_dropped_gear"@ {
        EventOutcome { gear_recovered: true, ..gold_or_hurt(success, 150, 12) }
    } else if id == "mysterious_shrine"@ {
        if success { EventOutcome { heal: 15, defense_gain: 2, ..no_outcome() } } else { EventOutcome { damage: 10, ..no_outcome() } }
    } else if id == "swinging_blade_trap"@ {
        hurt_on_failure(success, 12)
    } else if id == "hidden_vault"@ {
        gold_or_hurt(success, 100, 8)
    } else if id == "wandering_merchant"@ {
        if success { EventOutcome { heal: 15, defense_gain: 1, ..no_outcome() } } else { EventOutcome { gold_loss: 30, ..no_outcome() } }
    } else if id == "collapsed_floor"@ {
        hurt_on_failure(success, 15)
    } else if id == "rival_guild_cameo"@ {
        gold_or_hurt(success, 50, 10)
    } else if id == "cursed_fountain"@ {
        if success { EventOutcome { heal: 20, ..no_outcome() } } else { EventOutcome { damage: 15, defense_loss: 2, ..no_outcome() } }
    } else if id == "ancient_tomb"@ {
        gold_or_hurt(success, 80, 14)
    } else if id == "glowing_mushrooms"@ {
        heal_or_hurt(success, 20, 10)
    } else if id == "rubble_pile"@ {
        gold_or_hurt(success, 60, 10)
    } else if id == "lucky_coin"@ {
        gold_or_hurt(success, 30, 6)
    } else if id == "ominous_altar"@ {
        if success { EventOutcome { defense_gain: 3, ..no_outcome() } } else { EventOutcome { damage: 10, ..no_outcome() } }
    } else if id == "old_library"@ {
        if success { EventOutcome { defense_gain: 2, ..no_outcome() } } else { EventOutcome { damage: 10, ..no_outcome() } }
    } else if id == "guild_recruiter"@ {
        if success { EventOutcome { heal: 10, defense_gain: 2, ..no_outcome() } } else { no_outcome() }
    } else if id == "bee_hive"@ {
        heal_or_hurt(success, 20, 8)
    } else if id == "tripwire_bell"@ {
        hurt_on_failure(success, 9)
    } else if id == "toxic_gas_vent"@ {
        hurt_on_failure(success, 12)
    } else if id == "abandoned_camp"@ {
        if success { EventOutcome { heal: 10, gold_gain: 40, ..no_outcome() } } else { EventOutcome { damage: 7, ..no_outcome() } }
    } else {
        no_outcome()
    }
}

/// An event's check decides which way it goes, for every event: a passed
/// check never hurts (no damage, no defense lost, no gold lost) and a
/// failed one never rewards (no healing of the hero or the party, no gold,
/// defense or speed gained). The Hidden Vault pays a hundred gold on a
/// pass and hurts for eight on a failure.
pub proof fn lemma_event_check_decides(id: Seq<char>)
    ensures
        outcome_of(id, true).damage == 0,
        outcome_of(id, true).defense_loss == 0,
        outcome_of(id, true).gold_loss == 0,
        outcome_of(id, false).heal == 0,
        outcome_of(id, false).party_heal == 0,
        outcome_of(id, false).gold_gain == 0,
        outcome_of(id, false).defense_gain == 0,
        outcome_of(id, false).speed_gain == 0,
        outcome_of("hidden_vault"@, true).gold_gain == 100,
        outcome_of("hidden_vault"@, true).damage == 0,
        outcome_of("hidden_vault"@, false).damage == 8,
        outcome_of("hidden_vault"@, false).gold_gain == 0,
{
    reveal_strlit("hidden_vault");
    reveal_strlit("rescue_trail");
    reveal_strlit("rescue_campsite");
    reveal_strlit("rescue_dropped_gear");
    reveal_strlit("mysterious_shrine");
    reveal_strlit("swinging_blade_trap");
    assert("hidden_vault"@[0] == 'h');
    assert("rescue_trail"@[0] == 'r');
    assert("rescue_campsite"@[0] == 'r');
    assert("rescue_dropped_gear"@[0] == 'r');
    assert("mysterious_shrine"@[0] == 'm');
    assert("swinging_blade_trap"@[0] == 's');
}

fn outcome(heal: i32, damage: i32, defense_gain: i32, speed_gain: i32, gold_gain: u32) -> (o: EventOutcome)
    ensures
        o == (EventOutcome { heal, damage, defense_gain, speed_gain, gold_gain, ..no_outcome() }),
{
    EventOutcome {
        heal,
        damage,
        defense_gain,
        defense_loss: 0,
        speed_gain,
        gold_gain,
        gold_loss: 0,
        party_heal: 0,
        gear_recovered: false,
    }
}

/// What an event does, by its id and whether its check succeeded.
pub fn event_outcome(id: &str, success: bool) -> (o: EventOutcome)
    ensures
        o == outcome_of(id@, success),
{
    if same_text(id, "rescue_trail") {
        if success { outcome(10, 0, 0, 1, 0) } else { outcome(0, 8, 0, 0, 0) }
    } else if same_text(id, "rescue_campsite") {
        if success {
            EventOutcome { party_heal: 15, ..outcome(0, 0, 0, 0, 0) }
        } else {
            outcome(0, 10, 0, 0, 0)
        }
    } else if same_text(id, "rescue_dropped_gear") {
        let o = if success { outcome(0, 0, 0, 0, 150) } else { outcome(0, 12, 0, 0, 0) };
        EventOutcome { gear_recovered: true, ..o }
    } else if same_text(id, "mysterious_shrine") {
        if success { outcome(15, 0, 2, 0, 0) } else { outcome(0, 10, 0, 0, 0) }
    } else if same_text(id, "swinging_blade_trap") {
        if success { outcome(0, 0, 0, 0, 0) } else { outcome(0, 12, 0, 0, 0) }
    } else if same_text(id, "hidden_vault") {
        if success { outcome(0, 0, 0, 0, 100) } else { outcome(0, 8, 0, 0, 0) }
    } else if same_text(id, "wandering_merchant") {
        if success {
            outcome(15, 0, 1, 0, 0)
        } else {
            EventOutcome { gold_loss: 30, ..outcome(0, 0, 0, 0, 0) }
        }
    } else if same_text(id, "collapsed_floor") {
        if success { outcome(0, 0, 0, 0, 0) } else { outcome(0, 15, 0, 0, 0) }
    } else if same_text(id, "rival_guild_cameo") {
        if success { outcome(0, 0, 0, 0, 50) } else { outcome(0, 10, 0, 0, 0) }
    } else if same_text(id, "cursed_fountain") {
        if success {
            outcome(20, 0, 0, 0, 0)
        } else {
            EventOutcome { defense_loss: 2, ..outcome(0, 15, 0, 0, 0) }
        }
    } else if same_text(id, "ancient_tomb") {
        if success { outcome(0, 0, 0, 0, 80) } else { outcome(0, 14, 0, 0, 0) }
    } else if same_text(id, "glowing_mushrooms") {
        if success { outcome(20, 0, 0, 0, 0) } else { outcome(0, 10, 0, 0, 0) }
    } else if same_text(id, "rubble_pile") {
        if success { outcome(0, 0, 0, 0, 60) } else { outcome(0, 10, 0, 0, 0) }
    } else if same_text(id, "lucky_coin") {
        if success { outcome(0, 0, 0, 0, 30) } else { outcome(0, 6, 0, 0, 0) }
    } else if same_text(id, "ominous_altar") {
        if success { outcome(0, 0, 3, 0, 0) } else { outcome(0, 10, 0, 0, 0) }
    } else if same_text(id, "old_library") {
        if success { outcome(0, 0, 2, 0, 0) } else { outcome(0, 10, 0, 0, 0) }
    } else if same_text(id, "guild_recruiter") {
        if success { outcome(10, 0, 2, 0, 0) } else { outcome(0, 0, 0, 0, 0) }
    } else if same_text(id, "bee_hive") {
        if success { outcome(20, 0, 0, 0, 0) } else { outcome(0, 8, 0, 0, 0) }
    } else if same_text(id, "tripwire_bell") {
        if success { outcome(0, 0, 0, 0, 0) } else { outcome(0, 9, 0, 0, 0) }
    } else if same_text(id, "toxic_gas_vent") {
        if success { outcome(0, 0, 0, 0, 0) } else { outcome(0, 12, 0, 0, 0) }
    } else if same_text(id, "abandoned_camp") {
        if success { outcome(10, 0, 0, 0, 40) } else { outcome(0, 7, 0, 0, 0) }
    } else {
        outcome(0, 0, 0, 0, 0)
    }
}

/// Combat stats that any effect can be applied to without overflow.
pub open spec fn stats_in_range(s: CombatStats) -> bool {
    &&& -EFFECT_BOUND * 100 <= s.hp <= EFFECT_BOUND * 100
    &&& -EFFECT_BOUND * 100 <= s.max_hp <= EFFECT_BOUND * 100
    &&& -EFFECT_BOUND * 100 <= s.defense <= EFFECT_BOUND * 100
    &&& -EFFECT_BOUND * 100 <= s.speed <= EFFECT_BOUND * 100
}

/// An event's effects on the hero who faced it.
pub fn apply_event_to_hero(stats: &mut CombatStats, o: &EventOutcome)
    requires
        stats_in_range(*old(stats)),
        outcome_of_bounded(*o),
    ensures
        final(stats).max_hp == old(stats).max_hp,
        final(stats).attack == old(stats).attack,
        ({
            let healed = if o.heal > 0 {
                hp_after_heal(old(stats).hp as int, o.heal as int, old(stats).max_hp as int)
            } else {
                old(stats).hp as int
            };
            final(stats).hp == if o.damage > 0 { hp_after_hit(healed, o.damage as int) } else { healed }
        }),
        final(stats).defense == (if o.defense_loss > 0 {
            if old(stats).defense - o.defense_loss < 0 { 0 } else { old(stats).defense - o.defense_loss }
        } else {
            old(stats).defense + o.defense_gain
        }),
        final(stats).speed == old(stats).speed + o.speed_gain,
{
    if o.heal > 0 {
        stats.hp = heal_capped(stats.hp, o.heal, stats.max_hp);
    }
    if o.damage > 0 {
        stats.hp = take_hit(stats.hp, o.damage);
    }
    if o.defense_loss > 0 {
        stats.defense = if stats.defense - o.defense_loss < 0 {
            0
        } else {
            stats.defense - o.defense_loss
        };
    } else {
        stats.defense = stats.defense + o.defense_gain;
    }
    stats.speed = stats.speed + o.speed_gain;
}

/// The sizes an outcome may have.
pub open spec fn outcome_of_bounded(o: EventOutcome) -> bool {
    &&& 0 <= o.heal <= EFFECT_BOUND
    &&& 0 <= o.damage <= EFFECT_BOUND
    &&& 0 <= o.defense_gain <= EFFECT_BOUND
    &&& 0 <= o.defense_loss <= EFFECT_BOUND
    &&& 0 <= o.speed_gain <= EFFECT_BOUND
    &&& 0 <= o.party_heal <= EFFECT_BOUND
}

/// An event's healing of the whole party: every hero still standing gains
/// the outcome's party heal, up to their maximum; the fallen stay down.
pub fn apply_party_heal(party: &mut Vec<CombatStats>, o: &EventOutcome)
    requires
        outcome_of_bounded(*o),
        forall|k: int| 0 <= k < old(party)@.len() ==> (#[trigger] old(party)@[k]).hp <= i32::MAX - EFFECT_BOUND,
    ensures
        final(party)@.len() == old(party)@.len(),
        forall|k: int| 0 <= k < old(party)@.len() ==> {
            let before = old(party)@[k];
            let after = #[trigger] final(party)@[k];
            &&& after.hp == (if o.party_heal > 0 && before.hp > 0 {
                hp_after_heal(before.hp as int, o.party_heal as int, before.max_hp as int)
            } else {
                before.hp as int
            })
            &&& after.max_hp == before.max_hp
            &&& after.attack == before.attack
            &&& after.defense == before.defense
            &&& after.speed == before.speed
        },
{
    if o.party_heal <= 0 {
        return;
    }
    let ghost before = party@;
    let mut k: usize = 0;
    while k < party.len()
        invariant
            before == old(party)@,
            party@.len() == before.len(),
            k <= before.len(),
            0 < o.party_heal <= EFFECT_BOUND,
            forall|j: int| 0 <= j < before.len() ==> (#[trigger] before[j]).hp <= i32::MAX - EFFECT_BOUND,
            forall|j: int| k <= j < before.len() ==> #[trigger] party@[j] == before[j],
            forall|j: int| 0 <= j < k ==> {
                let b = before[j];
                let a = #[trigger] party@[j];
                &&& a.hp == (if b.hp > 0 { hp_after_heal(b.hp as int, o.party_heal as int, b.max_hp as int) } else { b.hp as int })
                &&& a.max_hp == b.max_hp
                &&& a.attack == b.attack
                &&& a.defense == b.defense
                &&& a.speed == b.speed
            },
        decreases before.len() - k,
    {
        let mut s = party[k];
        if s.hp > 0 {
            s.hp = heal_capped(s.hp, o.party_heal, s.max_hp);
        }
        party.set(k, s);
        k += 1;
    }
}

/// The guild's gold after an event: the gain added, the loss taken down to zero.
pub fn apply_event_gold(gold: u32, o: &EventOutcome) -> (g: u32)
    requires
        gold + o.gold_gain <= u32::MAX,
    ensures
        g == (if gold + o.gold_gain >= o.gold_loss { gold + o.gold_gain - o.gold_loss } else { 0 }),
{
    let total = gold + o.gold_gain;
    if total >= o.gold_loss {
        total - o.gold_loss
    } else {
        0
    }
}

/// Mark cleared every visited room where no living enemy stands. Returns
/// whether any room was newly cleared.
pub fn clear_rooms(status: &mut RoomStatus, enemies: &Vec<(Option<usize>, i32)>) -> (changed: bool)
    requires
        old(status).visited@.len() == old(status).cleared@.len(),
    ensures
        final(status).visited@ == old(status).visited@,
        final(status).cleared@.len() == old(status).cleared@.len(),
        forall|r: int|
            0 <= r < old(status).cleared@.len() ==> (#[trigger] final(status).cleared@[r] == (old(status).cleared@[r] || (
            old(status).visited@[r] && !exists|k: int|
                0 <= k < enemies@.len() && enemies@[k].0 == Some(r as usize) && enemies@[k].1 > 0))),
        changed == exists|r: int| 0 <= r < old(status).cleared@.len() && final(status).cleared@[r] != old(status).cleared@[r],
{
    let n = status.cleared.len();
    let ghost c0 = status.cleared@;
    let mut changed = false;
    let mut r: usize = 0;
    while r < n
        invariant
            n == c0.len(),
            status.visited@ == old(status).visited@,
            c0 == old(status).cleared@,
            status.visited@.len() == n,
            status.cleared@.len() == n,
            r <= n,
            forall|x: int| r <= x < n ==> status.cleared@[x] == c0[x],
            forall|x: int|
                0 <= x < r ==> (#[trigger] status.cleared@[x] == (c0[x] || (status.visited@[x] && !exists|k: int|
                    0 <= k < enemies@.len() && enemies@[k].0 == Some(x as usize) && enemies@[k].1 > 0))),
            changed == exists|x: int| 0 <= x < r && status.cleared@[x] != c0[x],
        decreases n - r,
    {
        let mut alive = false;
        let mut k: usize = 0;
        while k < enemies.len()
            invariant
                k <= enemies@.len(),
                alive == exists|j: int| 0 <= j < k && enemies@[j].0 == Some(r) && enemies@[j].1 > 0,
            decreases enemies@.len() - k,
        {
            let (room, hp) = enemies[k];
            match room {
                Some(x) => {
                    if x == r && hp > 0 {
                        alive = true;
                    }
                },
                None => {},
            }
            k += 1;
        }
        if !alive && status.visited[r] && !status.cleared[r] {
            status.cleared.set(r, true);
            changed = true;
            assert(status.cleared@[r as int] != c0[r as int]);
        }
        r += 1;
    }
    changed
}

/// Whether the whole party is down: some heroes, none standing.
pub fn party_wiped(hero_hps: &Vec<i32>) -> (b: bool)
    ensures
        b == (hero_hps@.len() > 0 && forall|k: int| 0 <= k < hero_hps@.len() ==> hero_hps@[k] <= 0),
{
    if hero_hps.len() == 0 {
        return false;
    }
    let mut k: usize = 0;
    while k < hero_hps.len()
        invariant
            k <= hero_hps@.len(),
            forall|j: int| 0 <= j < k ==> hero_hps@[j] <= 0,
        decreases hero_hps@.len() - k,
    {
        if hero_hps[k] > 0 {
            return false;
        }
        k += 1;
    }
    true
}

/// Whether every room is cleared (and there is at least one).
pub fn all_rooms_cleared(cleared: &Vec<bool>) -> (b: bool)
    ensures
        b == (cleared@.len() > 0 && forall|k: int| 0 <= k < cleared@.len() ==> cleared@[k]),
{
    if cleared.len() == 0 {
        return false;
    }
    let mut k: usize = 0;
    while k < cleared.len()
        invariant
            k <= cleared@.len(),
            forall|j: int| 0 <= j < k ==> cleared@[j],
        decreases cleared@.len() - k,
    {
        if !cleared[k] {
            return false;
        }
        k += 1;
    }
    true
}

/// What the completion check makes of a mission: one in progress fails
/// once it has heroes and none of them is standing; otherwise it completes
/// once it has rooms and every one is cleared. A mission that is no longer
/// in progress is left as it is.
pub open spec fn progress_after(progress: MissionProgress, hero_hps: Seq<i32>, cleared: Seq<bool>) -> MissionProgress {
    if progress != MissionProgress::InProgress {
        progress
    } else if hero_hps.len() > 0 && forall|k: int| 0 <= k < hero_hps.len() ==> hero_hps[k] <= 0 {
        MissionProgress::Failed
    } else if cleared.len() > 0 && forall|k: int| 0 <= k < cleared.len() ==> cleared[k] {
        MissionProgress::Complete
    } else {
        MissionProgress::InProgress
    }
}

/// The progress of a mission after the completion check, from its heroes'
/// hit points and its rooms' cleared flags. The failure check comes first:
/// a party that is down fails even where every room is cleared.
pub fn check_mission_completion(progress: MissionProgress, hero_hps: &Vec<i32>, cleared: &Vec<bool>) -> (p: MissionProgress)
    ensures
        p == progress_after(progress, hero_hps@, cleared@),
{
    match progress {
        MissionProgress::InProgress => {},
        _ => {
            return progress;
        },
    }
    if party_wiped(hero_hps) {
        MissionProgress::Failed
    } else if all_rooms_cleared(cleared) {
        MissionProgress::Complete
    } else {
        MissionProgress::InProgress
    }
}

/// A mission in progress fails exactly when it has heroes and every one of
/// them is down: while some hero stands it does not fail, and it then
/// completes exactly when it has rooms and all are cleared. A mission that
/// is over stays as it is.
pub proof fn lemma_failure_needs_whole_party_down(progress: MissionProgress, hero_hps: Seq<i32>, cleared: Seq<bool>)
    ensures
        progress != MissionProgress::InProgress ==> progress_after(progress, hero_hps, cleared) == progress,
        progress == MissionProgress::InProgress ==> (progress_after(progress, hero_hps, cleared) == MissionProgress::Failed <==> (
        hero_hps.len() > 0 && forall|k: int| 0 <= k < hero_hps.len() ==> hero_hps[k] <= 0)),
        progress == MissionProgress::InProgress && (exists|k: int| 0 <= k < hero_hps.len() && hero_hps[k] > 0) ==> {
            &&& progress_after(progress, hero_hps, cleared) != MissionProgress::Failed
            &&& (progress_after(progress, hero_hps, cleared) == MissionProgress::Complete <==> (cleared.len() > 0 && forall|k: int|
                0 <= k < cleared.len() ==> cleared[k]))
        },
{
}

/// Gold paid by a bountiful mission: half again, rounded down.
pub fn bountiful_gold(g: u32) -> (r: u32)
    requires
        g <= 2000000000,
    ensures
        r == g + g / 2,
{
    g + g / 2
}

/// Names listed for a toast: two as "A & B", more as "A, B & C".
pub open spec fn names_text(names: Seq<Seq<char>>) -> Seq<char> {
    join(names.drop_last(), ", "@) + " & "@ + names.last()
}

/// List two or more names as "A, B & C".
pub fn list_names(names: &Vec<String>) -> (s: String)
    requires
        names@.len() >= 2,
    ensures
        s@ == names_text(names@.map_values(|t: String| t@)),
{
    let mut rest: Vec<String> = Vec::new();
    let n = names.len();
    let mut k: usize = 0;
    while k < n - 1
        invariant
            n == names@.len(),
            n >= 2,
            k <= n - 1,
            rest@.len() == k,
            forall|j: int| 0 <= j < k ==> (#[trigger] rest@[j])@ == names@[j]@,
        decreases n - 1 - k,
    {
        rest.push(names[k].clone());
        k += 1;
    }
    let mut s = join_strings(&rest, ", ");
    s.append(" & ");
    s.append(names[n - 1].as_str());
    proof {
        let v = names@.map_values(|t: String| t@);
        assert(rest@.map_values(|t: String| t@) =~= v.drop_last());
    }
    s
}

/// The title of the toast for a wiped party: the mission's name when no
/// favorite hero was in it, else the favorites' names.
pub open spec fn failure_title(entries: Seq<(Seq<char>, Seq<char>)>, mission: Seq<char>, favorites: Seq<Seq<char>>) -> Seq<char> {
    if favorites.len() == 0 {
        interpolate(tr_spec(entries, "combat.mission_failed_toast"@), seq![("mission"@, mission)])
    } else if favorites.len() == 1 {
        interpolate(tr_spec(entries, "combat.one_missing_toast"@), seq![("name"@, favorites[0])])
    } else {
        interpolate(tr_spec(entries, "combat.many_missing_toast"@), seq![("names"@, names_text(favorites))])
    }
}

/// The title of the toast for a wiped party.
pub fn failure_toast_title(table: &StringTable, mission: &str, favorites: &Vec<String>) -> (s: String)
    ensures
        s@ == failure_title(table.view_entries(), mission@, favorites@.map_values(|t: String| t@)),
{
    let ghost favs = favorites@.map_values(|t: String| t@);
    if favorites.len() == 0 {
        let args = [("mission", mission)];
        let r = table.trf("combat.mission_failed_toast", &args);
        proof {
            assert(args_view(args@) =~= seq![("mission"@, mission@)]);
        }
        r
    } else if favorites.len() == 1 {
        let args = [("name", favorites[0].as_str())];
        let r = table.trf("combat.one_missing_toast", &args);
        proof {
            assert(args_view(args@) =~= seq![("name"@, favs[0])]);
        }
        r
    } else {
        let names = list_names(favorites);
        let args = [("names", names.as_str())];
        let r = table.trf("combat.many_missing_toast", &args);
        proof {
            assert(args_view(args@) =~= seq![("names"@, names_text(favs))]);
        }
        r
    }
}

/// Heroes who go missing with a wiped party: the party, then the heroes an
/// earlier rescue was after who were not in it.
pub fn combine_rescue_heroes(party: &Vec<u64>, earlier: &Vec<u64>) -> (v: Vec<u64>)
    ensures
        v@.len() >= party@.len(),
        v@.subrange(0, party@.len() as int) == party@,
        forall|h: u64| v@.contains(h) <==> (party@.contains(h) || earlier@.contains(h)),
        party@.no_duplicates() ==> v@.no_duplicates(),
{
    let mut v = party.clone();
    let mut k: usize = 0;
    while k < earlier.len()
        invariant
            k <= earlier@.len(),
            v@.len() >= party@.len(),
            v@.subrange(0, party@.len() as int) == party@,
            forall|h: u64| v@.contains(h) <==> (party@.contains(h) || exists|j: int| 0 <= j < k && earlier@[j] == h),
            party@.no_duplicates() ==> v@.no_duplicates(),
        decreases earlier@.len() - k,
    {
        let h = earlier[k];
        let mut present = false;
        let mut i: usize = 0;
        while i < v.len()
            invariant
                i <= v@.len(),
                present == exists|j: int| 0 <= j < i && v@[j] == h,
            decreases v@.len() - i,
        {
            if v[i] == h {
                present = true;
            }
            i += 1;
        }
        let ghost v0 = v@;
        if !present {
            v.push(h);
            proof {
                assert(v@.subrange(0, party@.len() as int) =~= v0.subrange(0, party@.len() as int));
                if party@.no_duplicates() {
                    assert forall|a: int, b: int| 0 <= a < b < v@.len() implies v@[a] != v@[b] by {
                        if b == v0.len() {
                            assert(v@[a] == v0[a]);
                        } else {
                            assert(v@[a] == v0[a] && v@[b] == v0[b]);
                        }
                    }
                }
                assert forall|x: u64| v@.contains(x) <==> (party@.contains(x) || exists|j: int| 0 <= j < k + 1 && earlier@[j] == x) by {
                    if v@.contains(x) {
                        let j = choose|j: int| 0 <= j < v@.len() && v@[j] == x;
                        if j < v0.len() {
                            assert(v0[j] == x);
                        }
                    }
                    if party@.contains(x) || exists|j: int| 0 <= j < k && earlier@[j] == x {
                        assert(v0.contains(x));
                        let j = choose|j: int| 0 <= j < v0.len() && v0[j] == x;
                        assert(v@[j] == x);
                    }
                    if earlier@[k as int] == x {
                        assert(v@[v0.len() as int] == x);
                    }
                }
            }
        } else {
            proof {
                assert forall|x: u64| v@.contains(x) <==> (party@.contains(x) || exists|j: int| 0 <= j < k + 1 && earlier@[j] == x) by {
                    if earlier@[k as int] == x {
                        let j = choose|j: int| 0 <= j < v@.len() && v@[j] == h;
                    }
                }
            }
        }
        k += 1;
    }
    v
}

/// The body of the toast for a completed mission: the rewards, then the
/// casualties, the level-ups and the reputation gained, each when there is any.
pub open spec fn completion_body(
    entries: Seq<(Seq<char>, Seq<char>)>,
    gold: u32,
    xp: u32,
    casualties: u64,
    level_ups: u32,
    reputation: u32,
) -> Seq<char> {
    let rewards = interpolate(
        tr_spec(entries, "combat.rewards_body"@),
        seq![("gold"@, decimal(gold as nat)), ("xp"@, decimal(xp as nat))],
    );
    let cas = if casualties == 0 {
        Seq::empty()
    } else if casualties == 1 {
        tr_spec(entries, "combat.casualty_one"@)
    } else {
        interpolate(tr_spec(entries, "combat.casualty_many"@), seq![("count"@, decimal(casualties as nat))])
    };
    let lv = if level_ups == 0 {
        Seq::empty()
    } else if level_ups == 1 {
        tr_spec(entries, "combat.level_up_one"@)
    } else {
        interpolate(tr_spec(entries, "combat.level_up_many"@), seq![("count"@, decimal(level_ups as nat))])
    };
    let rep = if reputation == 0 {
        Seq::empty()
    } else {
        interpolate(tr_spec(entries, "combat.rep_reward"@), seq![("rep"@, decimal(reputation as nat))])
    };
    rewards + cas + lv + rep
}

/// The body of the toast for a completed mission.
pub fn completion_toast_body(
    table: &StringTable,
    gold: u32,
    xp: u32,
    casualties: u64,
    level_ups: u32,
    reputation: u32,
) -> (s: String)
    ensures
        s@ == completion_body(table.view_entries(), gold, xp, casualties, level_ups, reputation),
{
    let g = u64_to_string(gold as u64);
    let x = u64_to_string(xp as u64);
    let args = [("gold", g.as_str()), ("xp", x.as_str())];
    let mut body = table.trf("combat.rewards_body", &args);
    proof {
        assert(args_view(args@) =~= seq![("gold"@, decimal(gold as nat)), ("xp"@, decimal(xp as nat))]);
    }
    let ghost rewards = body@;
    if casualties == 1 {
        let t = table.tr("combat.casualty_one");
        body.append(t.as_str());
    } else if casualties > 1 {
        let c = u64_to_string(casualties);
        let args = [("count", c.as_str())];
        let t = table.trf("combat.casualty_many", &args);
        proof {
            assert(args_view(args@) =~= seq![("count"@, decimal(casualties as nat))]);
        }
        body.append(t.as_str());
    }
    let ghost with_cas = body@;
    if level_ups == 1 {
        let t = table.tr("combat.level_up_one");
        body.append(t.as_str());
    } else if level_ups > 1 {
        let c = u64_to_string(level_ups as u64);
        let args = [("count", c.as_str())];
        let t = table.trf("combat.level_up_many", &args);
        proof {
            assert(args_view(args@) =~= seq![("count"@, decimal(level_ups as nat))]);
        }
        body.append(t.as_str());
    }
    if reputation > 0 {
        let r = u64_to_string(reputation as u64);
        let args = [("rep", r.as_str())];
        let t = table.trf("combat.rep_reward", &args);
        proof {
            assert(args_view(args@) =~= seq![("rep"@, decimal(reputation as nat))]);
        }
        body.append(t.as_str());
    }
    proof {
        assert(body@ =~= completion_body(table.view_entries(), gold, xp, casualties, level_ups, reputation));
    }
    body
}

/// Heroes lost: the party less the survivors, never below zero.
pub fn casualty_count(party_size: usize, survivors: usize) -> (c: usize)
    ensures
        c == (if party_size >= survivors { party_size - survivors } else { 0 }),
{
    if party_size >= survivors {
        party_size - survivors
    } else {
        0
    }
}

/// Experience a completed mission pays: every enemy's reward plus the
/// template's bonus.
pub open spec fn sum_xp(rewards: Seq<u32>) -> nat
    decreases rewards.len(),
{
    if rewards.len() == 0 {
        0
    } else {
        sum_xp(rewards.drop_last()) + rewards.last() as nat
    }
}

/// The experience a completed mission pays.
pub fn mission_xp(enemy_rewards: &Vec<u32>, bonus: u32) -> (xp: u32)
    requires
        sum_xp(enemy_rewards@) + bonus <= u32::MAX,
    ensures
        xp == sum_xp(enemy_rewards@) + bonus,
{
    let mut total: u32 = 0;
    let mut k: usize = 0;
    while k < enemy_rewards.len()
        invariant
            k <= enemy_rewards@.len(),
            total == sum_xp(enemy_rewards@.take(k as int)),
            sum_xp(enemy_rewards@) + bonus <= u32::MAX,
        decreases enemy_rewards@.len() - k,
    {
        assert(enemy_rewards@.take(k + 1).drop_last() =~= enemy_rewards@.take(k as int));
        proof {
            lemma_sum_xp_prefix(enemy_rewards@, k as int + 1);
        }
        total = total + enemy_rewards[k];
        k += 1;
    }
    assert(enemy_rewards@.take(enemy_rewards@.len() as int) =~= enemy_rewards@);
    total + bonus
}

proof fn lemma_sum_xp_prefix(s: Seq<u32>, k: int)
    requires
        0 <= k <= s.len(),
    ensures
        sum_xp(s.take(k)) <= sum_xp(s),
    decreases s.len() - k,
{
    if k < s.len() {
        lemma_sum_xp_prefix(s, k + 1);
        assert(s.take(k + 1).drop_last() =~= s.take(k));
    } else {
        assert(s.take(k) =~= s);
    }
}

/// The timeline line of a rescued hero.
pub open spec fn rescued_line(mission: Seq<char>, gear_back: bool) -> Seq<char> {
    "Rescued from "@ + mission + if gear_back { " (gear recovered)"@ } else { " (gear lost)"@ }
}

/// The timeline line of a rescued hero, saying whether their gear came back.
pub fn rescued_timeline_entry(mission: &str, gear_back: bool) -> (s: String)
    ensures
        s@ == rescued_line(mission@, gear_back),
{
    let mut s = String::from_str("Rescued from ");
    s.append(mission);
    if gear_back {
        s.append(" (gear recovered)");
    } else {
        s.append(" (gear lost)");
    }
    s
}

/// The timeline line of a hero who rescued others.
pub fn rescuer_timeline_entry(mission: &str) -> (s: String)
    ensures
        s@ == "Rescued colleagues in "@ + mission@,
{
    let mut s = String::from_str("Rescued colleagues in ");
    s.append(mission);
    s
}

/// What a completed mission pays.
#[derive(Debug, Clone)]
pub struct MissionRewards {
    pub gold: u32,
    pub materials: Vec<(MaterialType, u32)>,
    pub reputation: u32,
}

/// A template whose reward ranges can be rolled: each range is ordered, and
/// the gold small enough for the bountiful bonus.
pub open spec fn rewards_rollable(t: MissionTemplate) -> bool {
    &&& t.gold_reward.min <= t.gold_reward.max <= 2000000000
    &&& forall|k: int| 0 <= k < t.material_drops@.len() ==> #[trigger] t.material_drops@[k].1 <= t.material_drops@[k].2
        && t.material_drops@[k].2 < u32::MAX
}

/// Whether `amount` is a roll of material drop `drop`: within its range,
/// one more on a bountiful mission.
pub open spec fn drop_rolled(amount: u32, drop: (MaterialType, u32, u32), bountiful: bool) -> bool {
    let base = if bountiful { amount - 1 } else { amount as int };
    drop.1 <= base <= drop.2
}

/// Gold `g` as paid: half again on a bountiful mission (rounded down).
pub open spec fn paid_gold(g: u32, bountiful: bool) -> int {
    if bountiful {
        g + g / 2
    } else {
        g as int
    }
}

/// Whether `gold` is a roll of the template's gold range, as paid.
pub open spec fn gold_rolled(gold: u32, t: MissionTemplate, bountiful: bool) -> bool {
    exists|g: u32| t.gold_reward.min <= g <= t.gold_reward.max && gold == #[trigger] paid_gold(g, bountiful)
}

/// Roll a completed mission's rewards from its template: gold within the
/// range, each material drop within its range (both raised on a bountiful
/// mission), and the template's reputation. No template pays nothing.
pub fn roll_mission_rewards(template: Option<&MissionTemplate>, bountiful: bool, rng: &mut StdRng) -> (r: MissionRewards)
    requires
        template matches Some(t) ==> rewards_rollable(*t),
    ensures
        match template {
            None => r.gold == 0 && r.materials@.len() == 0 && r.reputation == 0,
            Some(t) => {
                &&& gold_rolled(r.gold, *t, bountiful)
                &&& r.materials@.len() == t.material_drops@.len()
                &&& forall|k: int| 0 <= k < r.materials@.len() ==> (#[trigger] r.materials@[k]).0 == t.material_drops@[k].0
                    && drop_rolled(r.materials@[k].1, t.material_drops@[k], bountiful)
                &&& r.reputation == t.reputation_reward
            },
        },
{
    match template {
        None => MissionRewards { gold: 0, materials: Vec::new(), reputation: 0 },
        Some(t) => {
            let g = random_u32_inclusive(rng, t.gold_reward.min, t.gold_reward.max);
            let gold = if bountiful {
                bountiful_gold(g)
            } else {
                g
            };
            assert(gold == paid_gold(g, bountiful));
            let mut materials: Vec<(MaterialType, u32)> = Vec::new();
            let mut k: usize = 0;
            while k < t.material_drops.len()
                invariant
                    rewards_rollable(*t),
                    k <= t.material_drops@.len(),
                    materials@.len() == k,
                    forall|j: int| 0 <= j < k ==> (#[trigger] materials@[j]).0 == t.material_drops@[j].0
                        && drop_rolled(materials@[j].1, t.material_drops@[j], bountiful),
                decreases t.material_drops@.len() - k,
            {
                let (m, lo, hi) = t.material_drops[k];
                assert(lo <= hi < u32::MAX);
                let a = random_u32_inclusive(rng, lo, hi);
                let amount = if bountiful {
                    a + 1
                } else {
                    a
                };
                materials.push((m, amount));
                k += 1;
            }
            MissionRewards { gold, materials, reputation: t.reputation_reward }
        },
    }
}

/// The stock after adding each `(material, amount)` in turn.
pub open spec fn stock_after(v: Seq<u32>, adds: Seq<(MaterialType, u32)>) -> Seq<u32>
    decreases adds.len(),
{
    if adds.len() == 0 {
        v
    } else {
        let w = stock_after(v, adds.drop_last());
        let (m, a) = adds.last();
        w.update(material_index(m), (w[material_index(m)] + a) as u32)
    }
}

/// Whether adding each `(material, amount)` in turn keeps every stock in a `u32`.
pub open spec fn adds_fit(v: Seq<u32>, adds: Seq<(MaterialType, u32)>) -> bool
    decreases adds.len(),
{
    if adds.len() == 0 {
        true
    } else {
        let w = stock_after(v, adds.drop_last());
        adds_fit(v, adds.drop_last()) && w[material_index(adds.last().0)] + adds.last().1 <= u32::MAX
    }
}

proof fn lemma_adds_fit_prefix(v: Seq<u32>, adds: Seq<(MaterialType, u32)>, k: int)
    requires
        adds_fit(v, adds),
        0 <= k <= adds.len(),
    ensures
        adds_fit(v, adds.subrange(0, k)),
    decreases adds.len() - k,
{
    if k < adds.len() {
        lemma_adds_fit_prefix(v, adds, k + 1);
        assert(adds.subrange(0, k + 1).drop_last() =~= adds.subrange(0, k));
    } else {
        assert(adds.subrange(0, k) =~= adds);
    }
}

/// Pay a completed mission's rewards into the guild's gold, materials and
/// reputation.
pub fn grant_rewards(gold: &mut Gold, materials: &mut Materials, reputation: &mut Reputation, r: &MissionRewards)
    requires
        old(materials).wf(),
        old(gold).0 + r.gold <= u32::MAX,
        old(reputation).0 + r.reputation <= u32::MAX,
        adds_fit(old(materials).view(), r.materials@),
    ensures
        final(materials).wf(),
        final(gold).0 == old(gold).0 + r.gold,
        final(reputation).0 == old(reputation).0 + r.reputation,
        final(materials).view() == stock_after(old(materials).view(), r.materials@),
{
    gold.0 = gold.0 + r.gold;
    let ghost v0 = materials.view();
    let mut k: usize = 0;
    proof {
        assert(r.materials@.subrange(0, 0) =~= Seq::<(MaterialType, u32)>::empty());
    }
    while k < r.materials.len()
        invariant
            k <= r.materials@.len(),
            materials.wf(),
            adds_fit(v0, r.materials@),
            materials.view() == stock_after(v0, r.materials@.subrange(0, k as int)),
        decreases r.materials@.len() - k,
    {
        let (m, a) = r.materials[k];
        proof {
            lemma_adds_fit_prefix(v0, r.materials@, k + 1);
            assert(r.materials@.subrange(0, k + 1).drop_last() =~= r.materials@.subrange(0, k as int));
            assert(r.materials@.subrange(0, k + 1).last() == (m, a));
        }
        materials.add(m, a);
        k += 1;
    }
    proof {
        assert(r.materials@.subrange(0, r.materials@.len() as int) =~= r.materials@);
    }
    reputation.0 = reputation.0 + r.reputation;
}

/// Whether the ability with this id is a signature move.
pub open spec fn is_signature_id(defs: Seq<AbilityDef>, id: Seq<char>) -> bool {
    match first_ability(defs, id) {
        Some(k) => defs[k].is_signature,
        None => false,
    }
}

/// When a room is cleared, signature moves are ready again: their cooldowns
/// drop to zero; other abilities keep theirs.
pub fn reset_signature_cooldowns(abilities: &mut ActiveAbilities, db: &AbilityDatabase)
    ensures
        final(abilities).abilities@.len() == old(abilities).abilities@.len(),
        forall|i: int| 0 <= i < old(abilities).abilities@.len() ==> {
            let a = old(abilities).abilities@[i];
            let b = #[trigger] final(abilities).abilities@[i];
            &&& b.ability_id@ == a.ability_id@
            &&& b.remaining_cooldown == (if is_signature_id(db.0@, a.ability_id@) { 0 } else { a.remaining_cooldown })
        },
{
    let ghost old_list = abilities.abilities@;
    let mut out: Vec<ActiveAbilityState> = Vec::new();
    let n = abilities.abilities.len();
    let mut i: usize = 0;
    while i < n
        invariant
            n == old_list.len(),
            abilities.abilities@ == old_list,
            i <= n,
            out@.len() == i,
            forall|j: int| 0 <= j < i ==> {
                let a = old_list[j];
                let b = #[trigger] out@[j];
                &&& b.ability_id@ == a.ability_id@
                &&& b.remaining_cooldown == (if is_signature_id(db.0@, a.ability_id@) { 0 } else { a.remaining_cooldown })
            },
        decreases n - i,
    {
        let a = &abilities.abilities[i];
        let signature = match db.get(&a.ability_id) {
            Some(def) => def.is_signature,
            None => false,
        };
        let cooldown = if signature {
            0
        } else {
            a.remaining_cooldown
        };
        out.push(ActiveAbilityState { ability_id: a.ability_id.clone(), remaining_cooldown: cooldown });
        i += 1;
    }
    abilities.abilities = out;
}

/// The ids of the enemies at no hit points, in order: they leave the map.
pub open spec fn fallen(enemies: Seq<(u64, i32)>) -> Seq<u64>
    decreases enemies.len(),
{
    if enemies.len() == 0 {
        Seq::empty()
    } else {
        let rest = fallen(enemies.drop_last());
        if enemies.last().1 <= 0 {
            rest.push(enemies.last().0)
        } else {
            rest
        }
    }
}

/// The enemies (id, hit points) to take off the map: those at no hit points.
pub fn fallen_enemies(enemies: &Vec<(u64, i32)>) -> (ids: Vec<u64>)
    ensures
        ids@ == fallen(enemies@),
{
    let mut ids: Vec<u64> = Vec::new();
    let mut i: usize = 0;
    while i < enemies.len()
        invariant
            i <= enemies@.len(),
            ids@ == fallen(enemies@.subrange(0, i as int)),
        decreases enemies@.len() - i,
    {
        assert(enemies@.subrange(0, i + 1).drop_last() =~= enemies@.subrange(0, i as int));
        let (id, hp) = enemies[i];
        if hp <= 0 {
            ids.push(id);
        }
        i += 1;
    }
    assert(enemies@.subrange(0, enemies@.len() as int) =~= enemies@);
    ids
}

/// Gear with nothing equipped.
pub open spec fn no_gear(e: HeroEquipment) -> bool {
    &&& e.weapon_tier == 0 && e.armor_tier == 0 && e.accessory_tier == 0
    &&& e.weapon_rarity == GearRarity::Common && e.armor_rarity == GearRarity::Common
        && e.accessory_rarity == GearRarity::Common
    &&& e.weapon_affix is None && e.armor_affix is None && e.accessory_affix is None
}

/// A hero of a wiped party goes missing without their gear: it is left
/// behind (and returned here) for a rescue to recover.
pub fn drop_gear(equipment: &mut HeroEquipment) -> (dropped: HeroEquipment)
    ensures
        dropped == *old(equipment),
        no_gear(*final(equipment)),
{
    let dropped = *equipment;
    *equipment = HeroEquipment::empty();
    dropped
}

/// The latest of `now_ms` plus the missing time and the expiries already running.
pub open spec fn aligned_expiry(now_ms: int, earlier: Seq<i64>) -> int
    decreases earlier.len(),
{
    if earlier.len() == 0 {
        now_ms + MISSING_DURATION_MS
    } else {
        let rest = aligned_expiry(now_ms, earlier.drop_last());
        if earlier.last() > rest {
            earlier.last() as int
        } else {
            rest
        }
    }
}

/// When a party is wiped, everyone to be rescued (the new casualties and
/// those already missing) comes back at the same time: the latest of the
/// new countdown and the ones already running.
pub fn missing_expiry(now_ms: i64, earlier: &Vec<i64>) -> (e: i64)
    requires
        now_ms <= i64::MAX - MISSING_DURATION_MS,
    ensures
        e == aligned_expiry(now_ms as int, earlier@),
{
    let mut e = now_ms + MISSING_DURATION_MS;
    let mut i: usize = 0;
    while i < earlier.len()
        invariant
            i <= earlier@.len(),
            e == aligned_expiry(now_ms as int, earlier@.subrange(0, i as int)),
        decreases earlier@.len() - i,
    {
        assert(earlier@.subrange(0, i + 1).drop_last() =~= earlier@.subrange(0, i as int));
        if earlier[i] > e {
            e = earlier[i];
        }
        i += 1;
    }
    assert(earlier@.subrange(0, earlier@.len() as int) =~= earlier@);
    e
}

/// A rescued hero: one more rescue received, their gear back when the
/// rescue recovered it and it was kept, and a timeline line saying which.
pub fn rescue_hero(
    history: &mut HeroHistory,
    equipment: &mut HeroEquipment,
    dropped: Option<HeroEquipment>,
    gear_recovered: bool,
    mission: &str,
) -> (restored: bool)
    requires
        old(history).rescues_received < u32::MAX,
    ensures
        restored == (gear_recovered && dropped is Some),
        restored ==> *final(equipment) == dropped->0,
        !restored ==> *final(equipment) == *old(equipment),
        final(history).rescues_received == old(history).rescues_received + 1,
        final(history).rescues_given == old(history).rescues_given,
        final(history).missions_run == old(history).missions_run,
        final(history).kills == old(history).kills,
        final(history).near_deaths == old(history).near_deaths,
        final(history).lifetime_gold == old(history).lifetime_gold,
        final(history).timeline@.drop_last() == old(history).timeline@,
        final(history).timeline@.len() == old(history).timeline@.len() + 1,
        final(history).timeline@.last()@ == rescued_line(mission@, restored),
{
    let mut restored = false;
    if gear_recovered {
        match dropped {
            Some(g) => {
                *equipment = g;
                restored = true;
            },
            None => {},
        }
    }
    history.rescues_received = history.rescues_received + 1;
    let line = rescued_timeline_entry(mission, restored);
    let ghost t0 = history.timeline@;
    history.add_timeline_entry(line);
    assert(history.timeline@.drop_last() =~= t0);
    restored
}

/// A hero who rescued others: one more rescue given, and a timeline line.
pub fn credit_rescuer(history: &mut HeroHistory, mission: &str)
    requires
        old(history).rescues_given < u32::MAX,
    ensures
        final(history).rescues_given == old(history).rescues_given + 1,
        final(history).rescues_received == old(history).rescues_received,
        final(history).missions_run == old(history).missions_run,
        final(history).kills == old(history).kills,
        final(history).near_deaths == old(history).near_deaths,
        final(history).lifetime_gold == old(history).lifetime_gold,
        final(history).timeline@.drop_last() == old(history).timeline@,
        final(history).timeline@.len() == old(history).timeline@.len() + 1,
        final(history).timeline@.last()@ == "Rescued colleagues in "@ + mission@,
{
    history.rescues_given = history.rescues_given + 1;
    let line = rescuer_timeline_entry(mission);
    let ghost t0 = history.timeline@;
    history.add_timeline_entry(line);
    assert(history.timeline@.drop_last() =~= t0);
}


/// Every outcome an event can have is small.
pub proof fn lemma_outcome_bounded(id: Seq<char>, success: bool)
    ensures
        outcome_of_bounded(outcome_of(id, success)),
        outcome_of(id, success).gold_gain <= 1000,
{
}

/// A mission as the room update sees it, in plain values: the map and its
/// room flags; per hero token its room, combat stats, shown name, traits and
/// hero stats; per enemy token its room and hit points; the abilities of
/// every token; the modifiers; the guild's gold; and, on a rescue mission,
/// whether the dropped gear was recovered.
pub struct MissionSim {
    pub map: DungeonMap,
    pub status: RoomStatus,
    pub hero_rooms: Vec<Option<usize>>,
    pub hero_combat: Vec<CombatStats>,
    pub hero_names: Vec<String>,
    pub hero_traits: Vec<Vec<HeroTrait>>,
    pub hero_stats: Vec<crate::hero::progression::HeroStats>,
    pub enemies: Vec<(Option<usize>, i32)>,
    pub abilities: Vec<ActiveAbilities>,
    pub modifiers: Vec<MissionModifier>,
    pub gold: u32,
    pub rescue_gear_recovered: Option<bool>,
}

/// The vectors of a mission state line up: a flag per room, and an entry
/// per hero token in each hero vector.
pub open spec fn sim_shape(sim: MissionSim) -> bool {
    let n = sim.hero_rooms@.len();
    &&& sim.status.visited@.len() == sim.map.rooms@.len()
    &&& sim.status.cleared@.len() == sim.map.rooms@.len()
    &&& sim.hero_combat@.len() == n
    &&& sim.hero_names@.len() == n
    &&& sim.hero_traits@.len() == n
    &&& sim.hero_stats@.len() == n
}

/// A mission state the room update can work on: lined up, with stats and
/// gold small enough for every effect.
pub open spec fn sim_ok(sim: MissionSim) -> bool {
    let n = sim.hero_rooms@.len();
    &&& sim_shape(sim)
    &&& forall|k: int| 0 <= k < n ==> stats_in_range(#[trigger] sim.hero_combat@[k])
    &&& forall|k: int| 0 <= k < n ==> {
        let h = #[trigger] sim.hero_stats@[k];
        &&& -1000000 <= h.strength <= 1000000
        &&& -1000000 <= h.dexterity <= 1000000
        &&& -1000000 <= h.constitution <= 1000000
        &&& -1000000 <= h.intelligence <= 1000000
        &&& -1000000 <= h.wisdom <= 1000000
        &&& -1000000 <= h.charisma <= 1000000
    }
    &&& sim.gold <= u32::MAX - 1000
}

/// Some living hero stands in room `r`.
pub open spec fn hero_in_room(rooms: Seq<Option<usize>>, combat: Seq<CombatStats>, r: usize) -> bool {
    exists|k: int| 0 <= k < rooms.len() && rooms[k] == Some(r) && #[trigger] combat[k].hp > 0
}

fn living_heroes_in(sim: &MissionSim, room: usize) -> (ks: Vec<usize>)
    requires
        sim_ok(*sim),
    ensures
        forall|a: int| 0 <= a < ks@.len() ==> (#[trigger] ks@[a]) < sim.hero_rooms@.len() && sim.hero_rooms@[ks@[a] as int] == Some(room)
            && sim.hero_combat@[ks@[a] as int].hp > 0,
        ks@.len() > 0 <==> hero_in_room(sim.hero_rooms@, sim.hero_combat@, room),
{
    let mut ks: Vec<usize> = Vec::new();
    let mut k: usize = 0;
    while k < sim.hero_rooms.len()
        invariant
            sim_ok(*sim),
            k <= sim.hero_rooms@.len(),
            forall|a: int| 0 <= a < ks@.len() ==> (#[trigger] ks@[a]) < sim.hero_rooms@.len() && sim.hero_rooms@[ks@[a] as int] == Some(room)
                && sim.hero_combat@[ks@[a] as int].hp > 0,
            ks@.len() > 0 <==> exists|j: int| 0 <= j < k && sim.hero_rooms@[j] == Some(room) && #[trigger] sim.hero_combat@[j].hp > 0,
        decreases sim.hero_rooms@.len() - k,
    {
        let here = match sim.hero_rooms[k] {
            Some(r) => r == room,
            None => false,
        };
        if here && sim.hero_combat[k].hp > 0 {
            ks.push(k);
            assert(ks@[ks@.len() - 1] == k);
        }
        k += 1;
    }
    ks
}

fn traits_of(sim: &MissionSim, ks: &Vec<usize>) -> (v: Vec<Vec<HeroTrait>>)
    requires
        sim_ok(*sim),
        forall|a: int| 0 <= a < ks@.len() ==> (#[trigger] ks@[a]) < sim.hero_rooms@.len(),
    ensures
        v@.len() == ks@.len(),
{
    let mut v: Vec<Vec<HeroTrait>> = Vec::new();
    let mut a: usize = 0;
    while a < ks.len()
        invariant
            sim_ok(*sim),
            forall|b: int| 0 <= b < ks@.len() ==> (#[trigger] ks@[b]) < sim.hero_rooms@.len(),
            a <= ks@.len(),
            v@.len() == a,
        decreases ks@.len() - a,
    {
        let k = ks[a];
        let mut t: Vec<HeroTrait> = Vec::new();
        let mut j: usize = 0;
        while j < sim.hero_traits[k].len()
            invariant
                j <= sim.hero_traits@[k as int]@.len(),
                k < sim.hero_traits@.len(),
            decreases sim.hero_traits@[k as int]@.len() - j,
        {
            t.push(sim.hero_traits[k][j]);
            j += 1;
        }
        v.push(t);
        a += 1;
    }
    v
}

/// Whether the pool of events holds at least one event when the database does.
proof fn lemma_pool_nonempty(db: Seq<MissionEventDef>, history: Seq<String>, is_rescue: bool)
    requires
        db.len() > 0,
    ensures
        exists|i: int| #[trigger] in_event_pool(db, history, is_rescue, i),
{
    if exists|m: int| 0 <= m < db.len() && #[trigger] kind_event(db, history, is_rescue, m) {
        let m = choose|m: int| 0 <= m < db.len() && #[trigger] kind_event(db, history, is_rescue, m);
        assert(in_event_pool(db, history, is_rescue, m));
    } else {
        assert(in_event_pool(db, history, is_rescue, 0));
    }
}

/// Event `e` is, of a rescue mission's pool, the first in database order
/// with the id earliest in the rescue order that the pool holds.
pub open spec fn rescue_first(db: Seq<MissionEventDef>, history: Seq<String>, e: int) -> bool {
    exists|k: int|
        0 <= k < 3 && db[e].id@ == rescue_order(k) && (forall|k2: int, i: int|
            #![trigger rescue_order(k2), in_event_pool(db, history, true, i)]
            0 <= k2 < k && in_event_pool(db, history, true, i) ==> db[i].id@ != rescue_order(k2)) && (forall|i: int|
            0 <= i < e && #[trigger] in_event_pool(db, history, true, i) ==> db[i].id@ != rescue_order(k))
}

/// No event of a rescue mission's pool has an id of the rescue order.
pub open spec fn no_rescue_order(db: Seq<MissionEventDef>, history: Seq<String>) -> bool {
    forall|k: int, i: int|
        #![trigger rescue_order(k), in_event_pool(db, history, true, i)]
        0 <= k < 3 && in_event_pool(db, history, true, i) ==> db[i].id@ != rescue_order(k)
}

/// The events a room may fire: any of the pool, but on a rescue mission the
/// first in the rescue order when the pool holds one.
pub open spec fn event_chosen(db: Seq<MissionEventDef>, history: Seq<String>, is_rescue: bool, e: int) -> bool {
    &&& in_event_pool(db, history, is_rescue, e)
    &&& (is_rescue && !no_rescue_order(db, history) ==> rescue_first(db, history, e))
}

/// Fire an event for a hero who entered room `room` first: an event from
/// the pool, a hero picked among those standing in the room, the check
/// rolled, and the outcome applied to that hero, the party, the gold and a
/// rescue mission's gear.
fn fire_room_event(
    sim: &mut MissionSim,
    room: usize,
    events: &EventDatabase,
    history: &Vec<String>,
    rng: &mut StdRng,
) -> (line: Option<LogPayload>)
    requires
        sim_ok(*old(sim)),
        events.0@.len() > 0,
    ensures
        sim_shape(*final(sim)),
        final(sim).gold <= old(sim).gold + 1000,
        final(sim).map == old(sim).map,
        final(sim).status == old(sim).status,
        final(sim).hero_rooms@ == old(sim).hero_rooms@,
        final(sim).hero_names@ == old(sim).hero_names@,
        final(sim).hero_traits@ == old(sim).hero_traits@,
        final(sim).hero_stats@ == old(sim).hero_stats@,
        final(sim).enemies@ == old(sim).enemies@,
        final(sim).abilities@ == old(sim).abilities@,
        final(sim).modifiers@ == old(sim).modifiers@,
        line is Some <==> hero_in_room(old(sim).hero_rooms@, old(sim).hero_combat@, room),
        line is None ==> *final(sim) == *old(sim),
        line matches Some(l) ==> l matches LogPayload::EventTriggered { event_name, .. } && exists|e: int|
            event_chosen(events.0@, history@, old(sim).rescue_gear_recovered is Some, e) && event_name@ == events.0@[e].name@ && (
            events.0@[e].id@ == "rescue_dropped_gear"@ && old(sim).rescue_gear_recovered is Some ==> final(sim).rescue_gear_recovered
                == Some(true)),
        final(sim).rescue_gear_recovered == old(sim).rescue_gear_recovered || (old(sim).rescue_gear_recovered is Some
            && final(sim).rescue_gear_recovered == Some(true)),
        forall|k: int| 0 <= k < old(sim).hero_combat@.len() ==> (#[trigger] final(sim).hero_combat@[k]).max_hp == old(sim).hero_combat@[k].max_hp
            && final(sim).hero_combat@[k].attack == old(sim).hero_combat@[k].attack,
{
    let ks = living_heroes_in(sim, room);
    if ks.len() == 0 {
        return None;
    }
    let is_rescue = sim.rescue_gear_recovered.is_some();
    proof {
        lemma_pool_nonempty(events.0@, history@, is_rescue);
    }
    let avail = available_events(events, history, is_rescue);
    proof {
        let i = choose|i: int| #[trigger] in_event_pool(events.0@, history@, is_rescue, i);
        assert(avail@.contains(i as usize));
    }
    let ghost d = events.0@;
    let event_count = events.0.len();
    assert(d.len() == event_count);
    let e: usize = if is_rescue {
        match pick_rescue_event(events, &avail) {
            Some(a) => {
                proof {
                    let k = choose|k: int|
                        0 <= k < 3 && d[avail@[a as int] as int].id@ == rescue_order(k) && (forall|b: int|
                            0 <= b < a ==> d[#[trigger] avail@[b] as int].id@ != rescue_order(k)) && (forall|k2: int, b: int|
                            #![trigger avail@[b], rescue_order(k2)]
                            0 <= k2 < k && 0 <= b < avail@.len() ==> d[avail@[b] as int].id@ != rescue_order(k2));
                    let e0 = avail@[a as int] as int;
                    assert forall|k2: int, i: int|
                        #![trigger rescue_order(k2), in_event_pool(d, history@, true, i)]
                        0 <= k2 < k && in_event_pool(d, history@, true, i) implies d[i].id@ != rescue_order(k2) by {
                        assert(is_rescue && in_event_pool(events.0@, history@, is_rescue, i));
                        assert(avail@.contains(i as usize));
                        let b = choose|b: int| 0 <= b < avail@.len() && avail@[b] == i as usize;
                        assert(avail@[b] as int == i);
                        assert(d[avail@[b] as int].id@ != rescue_order(k2));
                    }
                    assert forall|i: int| 0 <= i < e0 && #[trigger] in_event_pool(d, history@, true, i) implies d[i].id@
                        != rescue_order(k) by {
                        assert(is_rescue && in_event_pool(events.0@, history@, is_rescue, i));
                        assert(avail@.contains(i as usize));
                        let b = choose|b: int| 0 <= b < avail@.len() && avail@[b] == i as usize;
                        if b >= a {
                            if b > a {
                                assert(avail@[a as int] < avail@[b]);
                            }
                        }
                        assert(b < a);
                    }
                    assert(rescue_first(d, history@, e0));
                }
                avail[a]
            },
            None => {
                proof {
                    assert forall|k: int, i: int|
                        #![trigger rescue_order(k), in_event_pool(d, history@, true, i)]
                        0 <= k < 3 && in_event_pool(d, history@, true, i) implies d[i].id@ != rescue_order(k) by {
                        assert(is_rescue && in_event_pool(events.0@, history@, is_rescue, i));
                        assert(avail@.contains(i as usize));
                        let b = choose|b: int| 0 <= b < avail@.len() && avail@[b] == i as usize;
                        assert(avail@[b] as int == i);
                        assert(d[avail@[b] as int].id@ != rescue_order(k));
                    }
                }
                avail[random_index(rng, avail.len())]
            },
        }
    } else {
        avail[random_index(rng, avail.len())]
    };
    assert(event_chosen(d, history@, is_rescue, e as int));
    let traits = traits_of(sim, &ks);
    let pick = pick_event_hero(&traits, events.0[e].priority_trait, rng);
    let k = ks[pick];
    let stat = checked_stat(&sim.hero_stats[k], events.0[e].check_stat);
    let d20 = random_i32_inclusive(rng, 1, 20);
    let success = event_check_succeeds(stat, d20, events.0[e].check_difficulty);
    let o = event_outcome(events.0[e].id.as_str(), success);
    proof {
        lemma_outcome_bounded(events.0@[e as int].id@, success);
    }
    let ghost c0 = sim.hero_combat@;
    let mut s = sim.hero_combat[k];
    apply_event_to_hero(&mut s, &o);
    sim.hero_combat.set(k, s);
    assert forall|j: int| 0 <= j < sim.hero_combat@.len() implies (#[trigger] sim.hero_combat@[j]).hp <= i32::MAX - EFFECT_BOUND by {
        assert(stats_in_range(c0[j]));
    }
    let ghost c1 = sim.hero_combat@;
    apply_party_heal(&mut sim.hero_combat, &o);
    sim.gold = apply_event_gold(sim.gold, &o);
    if o.gear_recovered {
        match sim.rescue_gear_recovered {
            Some(_) => {
                sim.rescue_gear_recovered = Some(true);
            },
            None => {},
        }
    }
    let outcome_text = if success {
        events.0[e].success_text.clone()
    } else {
        events.0[e].failure_text.clone()
    };
    let event_name = events.0[e].name.clone();
    proof {
        if d[e as int].id@ == "rescue_dropped_gear"@ && is_rescue {
            reveal_strlit("rescue_trail");
            reveal_strlit("rescue_campsite");
            reveal_strlit("rescue_dropped_gear");
            assert("rescue_dropped_gear"@.len() != "rescue_trail"@.len());
            assert("rescue_dropped_gear"@.len() != "rescue_campsite"@.len());
            assert(o.gear_recovered);
        }
    }
    Some(LogPayload::EventTriggered {
        event_name,
        hero_name: sim.hero_names[k].clone(),
        outcome_text,
    })
}



/// A token's abilities after a room is cleared: signature moves ready,
/// every other cooldown as it was.
pub open spec fn ability_list_reset(a: Seq<ActiveAbilityState>, b: Seq<ActiveAbilityState>, defs: Seq<AbilityDef>) -> bool {
    &&& b.len() == a.len()
    &&& forall|i: int| 0 <= i < a.len() ==> {
        &&& (#[trigger] b[i]).ability_id@ == a[i].ability_id@
        &&& b[i].remaining_cooldown == (if is_signature_id(defs, a[i].ability_id@) { 0 } else { a[i].remaining_cooldown })
    }
}

/// Every token's abilities after a room is cleared.
pub open spec fn abilities_reset(before: Seq<ActiveAbilities>, after: Seq<ActiveAbilities>, defs: Seq<AbilityDef>) -> bool {
    &&& after.len() == before.len()
    &&& forall|t: int| 0 <= t < before.len() ==> ability_list_reset(before[t].abilities@, (#[trigger] after[t]).abilities@, defs)
}

fn reset_all_signatures(list: &mut Vec<ActiveAbilities>, db: &AbilityDatabase)
    ensures
        abilities_reset(old(list)@, final(list)@, db.0@),
{
    let ghost orig = list@;
    let n = list.len();
    let mut src: Vec<ActiveAbilities> = Vec::new();
    std::mem::swap(&mut src, list);
    let mut out: Vec<ActiveAbilities> = Vec::new();
    while src.len() > 0
        invariant
            orig.len() == n,
            out@.len() + src@.len() == n,
            src@ == orig.subrange(out@.len() as int, n as int),
            forall|t: int| 0 <= t < out@.len() ==> ability_list_reset(orig[t].abilities@, (#[trigger] out@[t]).abilities@, db.0@),
        decreases src@.len(),
    {
        let ghost s0 = src@;
        let mut a = src.remove(0);
        assert(a == orig[out@.len() as int]);
        reset_signature_cooldowns(&mut a, db);
        out.push(a);
        assert(src@ =~= orig.subrange(out@.len() as int, n as int));
    }
    *list = out;
}

/// Some hero stands, first in hero order, in a room not visited before.
pub open spec fn any_first_visit(hero_rooms: Seq<Option<usize>>, visited: Seq<bool>) -> bool {
    exists|k: int| #[trigger] first_visit(hero_rooms, visited, k)
}

/// Hero `k` is the first to enter a room other than the entrance on a
/// trapped mission.
pub open spec fn trapped_hero(sim: MissionSim, k: int) -> bool {
    &&& first_visit(sim.hero_rooms@, sim.status.visited@, k)
    &&& match sim.hero_rooms@[k] {
        Some(r) => sim.map.rooms@[r as int].room_type != RoomType::Entrance,
        None => false,
    }
    &&& sim.modifiers@.contains(MissionModifier::Trapped)
}

/// A trap took between `TRAP_DAMAGE_MIN` and `TRAP_DAMAGE_MAX` hit points,
/// stopping at zero.
pub open spec fn trap_took(before: i32, after: i32) -> bool {
    ||| after == 0 && before <= TRAP_DAMAGE_MAX
    ||| after > 0 && before - TRAP_DAMAGE_MAX <= after <= before - TRAP_DAMAGE_MIN
}

/// The heroes' numbers after the traps: each trapped hero lost what its
/// trap took, every other hero is as before.
pub open spec fn after_traps(before: MissionSim, combat: Seq<CombatStats>) -> bool {
    &&& combat.len() == before.hero_combat@.len()
    &&& forall|k: int|
        0 <= k < combat.len() ==> (#[trigger] combat[k]) == (CombatStats { hp: combat[k].hp, ..before.hero_combat@[k] }) && if trapped_hero(
            before,
            k,
        ) {
            trap_took(before.hero_combat@[k].hp, combat[k].hp)
        } else {
            combat[k].hp == before.hero_combat@[k].hp
        }
}

/// Hero `k` is the last, in hero order, to enter a room first.
pub open spec fn last_first_visit(hero_rooms: Seq<Option<usize>>, visited: Seq<bool>, k: int) -> bool {
    &&& first_visit(hero_rooms, visited, k)
    &&& forall|j: int| k < j < hero_rooms.len() ==> !first_visit(hero_rooms, visited, j)
}

/// An event must fire in the room hero `k` entered last and first: it is
/// not the entrance, the database has events, events are left and more of
/// them than unvisited rooms, and a living hero stands there whom no trap
/// can kill.
pub open spec fn event_forced(sim: MissionSim, fired: MissionEventsState, n_events: nat, unvisited: nat, k: int) -> bool {
    &&& last_first_visit(sim.hero_rooms@, sim.status.visited@, k)
    &&& match sim.hero_rooms@[k] {
        Some(r) => sim.map.rooms@[r as int].room_type != RoomType::Entrance,
        None => false,
    }
    &&& n_events > 0
    &&& fired.events_fired < fired.max_events
    &&& fired.max_events - fired.events_fired > unvisited
    &&& exists|j: int|
        0 <= j < sim.hero_rooms@.len() && sim.hero_rooms@[j] == sim.hero_rooms@[k] && (#[trigger] sim.hero_combat@[j]).hp > 0 && (
        trapped_hero(sim, j) ==> sim.hero_combat@[j].hp > TRAP_DAMAGE_MAX)
}

/// Hero `j` comes among the first `a` entries of `newly`.
spec fn listed_before(newly: Seq<(usize, usize)>, a: int, j: int) -> bool {
    exists|b: int| 0 <= b < a && (#[trigger] newly[b]).0 == j
}

/// Bring a mission's rooms up to date after its tokens moved: each room a
/// hero stands in is visited (a log line per hero entering one first, and
/// in a trapped mission a trap for each who enters one other than the
/// entrance); when the last room entered first is not the entrance and
/// events are left, an event may fire there for a hero standing in it (it
/// must when more events are left than unvisited rooms; a rescue mission
/// picks its events in the rescue order); then
/// every visited room without a living enemy is cleared, and if any room
/// was newly cleared every token's signature moves are ready again.
pub fn update_room_status(
    sim: &mut MissionSim,
    events: &EventDatabase,
    fired: &mut MissionEventsState,
    history: &Vec<String>,
    abilities: &AbilityDatabase,
    rng: &mut StdRng,
) -> (log: Vec<LogPayload>)
    requires
        sim_ok(*old(sim)),
    ensures
        sim_shape(*final(sim)),
        final(sim).map == old(sim).map,
        final(sim).hero_rooms@ == old(sim).hero_rooms@,
        final(sim).hero_names@ == old(sim).hero_names@,
        final(sim).hero_stats@ == old(sim).hero_stats@,
        final(sim).enemies@ == old(sim).enemies@,
        final(sim).modifiers@ == old(sim).modifiers@,
        forall|r: int|
            0 <= r < old(sim).status.visited@.len() ==> (#[trigger] final(sim).status.visited@[r] <==> (old(sim).status.visited@[r]
                || old(sim).hero_rooms@.contains(Some(r as usize)))),
        forall|r: int|
            0 <= r < old(sim).status.cleared@.len() ==> (#[trigger] final(sim).status.cleared@[r] == (old(sim).status.cleared@[r]
                || (final(sim).status.visited@[r] && !exists|k: int|
                0 <= k < old(sim).enemies@.len() && old(sim).enemies@[k].0 == Some(r as usize) && old(sim).enemies@[k].1 > 0))),
        (exists|r: int| 0 <= r < old(sim).status.cleared@.len() && final(sim).status.cleared@[r] != old(sim).status.cleared@[r])
            ==> abilities_reset(old(sim).abilities@, final(sim).abilities@, abilities.0@),
        !(exists|r: int| 0 <= r < old(sim).status.cleared@.len() && final(sim).status.cleared@[r] != old(sim).status.cleared@[r])
            ==> final(sim).abilities@ == old(sim).abilities@,
        final(fired).max_events == old(fired).max_events,
        final(fired).events_fired == old(fired).events_fired || final(fired).events_fired == old(fired).events_fired + 1,
        !any_first_visit(old(sim).hero_rooms@, old(sim).status.visited@) ==> final(fired).events_fired == old(fired).events_fired,
        final(fired).events_fired > old(fired).events_fired ==> old(fired).events_fired < old(fired).max_events,
        forall|k: int| 0 <= k < old(sim).hero_combat@.len() ==> (#[trigger] final(sim).hero_combat@[k]).max_hp == old(sim).hero_combat@[k].max_hp
            && final(sim).hero_combat@[k].attack == old(sim).hero_combat@[k].attack,
        final(fired).events_fired == old(fired).events_fired ==> after_traps(*old(sim), final(sim).hero_combat@) && final(sim).gold
            == old(sim).gold && final(sim).rescue_gear_recovered == old(sim).rescue_gear_recovered,
        forall|k: int|
            #[trigger] event_forced(*old(sim), *old(fired), events.0@.len(), count_unvisited(final(sim).status.visited@), k)
                ==> final(fired).events_fired == old(fired).events_fired + 1,
        final(fired).events_fired > old(fired).events_fired ==> log@.len() > 0 && (log@.last() matches LogPayload::EventTriggered {
            event_name,
            ..
        } && exists|e: int|
            event_chosen(events.0@, history@, old(sim).rescue_gear_recovered is Some, e) && event_name@ == events.0@[e].name@ && (
            events.0@[e].id@ == "rescue_dropped_gear"@ && old(sim).rescue_gear_recovered is Some ==> final(sim).rescue_gear_recovered
                == Some(true))),
        final(sim).rescue_gear_recovered == old(sim).rescue_gear_recovered || (old(sim).rescue_gear_recovered is Some
            && final(sim).rescue_gear_recovered == Some(true)),
{
    let ghost s0 = *sim;
    let mut log: Vec<LogPayload> = Vec::new();
    let newly = mark_visited_rooms(&mut sim.status, &sim.hero_rooms);
    let ghost s1 = *sim;
    // Entry lines and traps.
    let mut a: usize = 0;
    while a < newly.len()
        invariant
            sim_ok(*sim),
            a <= newly@.len(),
            sim.map == s0.map,
            sim.status == s1.status,
            sim.hero_rooms@ == s0.hero_rooms@,
            sim.hero_names@ == s0.hero_names@,
            sim.hero_traits@ == s0.hero_traits@,
            sim.hero_stats@ == s0.hero_stats@,
            sim.enemies@ == s0.enemies@,
            sim.abilities@ == s0.abilities@,
            sim.modifiers@ == s0.modifiers@,
            sim.gold == s0.gold,
            sim.rescue_gear_recovered == s0.rescue_gear_recovered,
            sim.status.visited@.len() == s0.status.visited@.len(),
            s0.status.visited@.len() == s0.map.rooms@.len(),
            sim_shape(s0),
            forall|b: int| 0 <= b < newly@.len() ==> first_visit(s0.hero_rooms@, s0.status.visited@, (#[trigger] newly@[b]).0 as int)
                && s0.hero_rooms@[newly@[b].0 as int] == Some(newly@[b].1),
            forall|k: int| 0 <= k < s0.hero_combat@.len() ==> (#[trigger] sim.hero_combat@[k]).max_hp == s0.hero_combat@[k].max_hp
                && sim.hero_combat@[k].attack == s0.hero_combat@[k].attack,
            forall|b1: int, b2: int| 0 <= b1 < b2 < newly@.len() ==> newly@[b1].0 < newly@[b2].0,
            sim.hero_combat@.len() == s0.hero_combat@.len(),
            forall|j: int|
                0 <= j < s0.hero_combat@.len() ==> (#[trigger] sim.hero_combat@[j]) == (CombatStats { hp: sim.hero_combat@[j].hp, ..s0.hero_combat@[j] })
                    && if trapped_hero(s0, j) && listed_before(newly@, a as int, j) {
                    trap_took(s0.hero_combat@[j].hp, sim.hero_combat@[j].hp)
                } else {
                    sim.hero_combat@[j].hp == s0.hero_combat@[j].hp
                },
        decreases newly@.len() - a,
    {
        let (k, room) = newly[a];
        assert(first_visit(s0.hero_rooms@, s0.status.visited@, k as int));
        let room_type = sim.map.rooms[room].room_type;
        log.push(room_entry_log(sim.hero_names[k].as_str(), room_type));
        let ghost c_before = sim.hero_combat@;
        proof {
            assert(!listed_before(newly@, a as int, k as int)) by {
                if listed_before(newly@, a as int, k as int) {
                    let b = choose|b: int| 0 <= b < a && (#[trigger] newly@[b]).0 == k as int;
                    assert(newly@[b].0 < newly@[a as int].0);
                }
            }
            assert((room_type != RoomType::Entrance && sim.modifiers@.contains(MissionModifier::Trapped)) == trapped_hero(s0, k as int));
        }
        if trap_springs(room_type, &sim.modifiers) {
            let mut s = sim.hero_combat[k];
            assert(stats_in_range(sim.hero_combat@[k as int]));
            let (hit, line) = spring_trap(&mut s, sim.hero_names[k].as_str(), rng);
            sim.hero_combat.set(k, s);
            log.push(line);
            proof {
                assert(sim.hero_combat@ == c_before.update(k as int, s));
                assert(trap_took(s0.hero_combat@[k as int].hp, s.hp)) by {
                    assert(TRAP_DAMAGE_MIN <= hit.amount as int <= TRAP_DAMAGE_MAX);
                }
                assert forall|j: int| 0 <= j < s0.hero_combat@.len() implies (#[trigger] sim.hero_combat@[j]).max_hp
                    == s0.hero_combat@[j].max_hp && sim.hero_combat@[j].attack == s0.hero_combat@[j].attack by {
                    if j != k as int {
                        assert(sim.hero_combat@[j] == c_before[j]);
                    }
                }
            }
        }
        proof {
            assert forall|j: int| 0 <= j < s0.hero_combat@.len() implies (#[trigger] sim.hero_combat@[j]) == (CombatStats {
                hp: sim.hero_combat@[j].hp,
                ..s0.hero_combat@[j]
            }) && if trapped_hero(s0, j) && listed_before(newly@, a + 1, j) {
                trap_took(s0.hero_combat@[j].hp, sim.hero_combat@[j].hp)
            } else {
                sim.hero_combat@[j].hp == s0.hero_combat@[j].hp
            } by {
                if j != k as int {
                    assert(sim.hero_combat@[j] == c_before[j]);
                    if listed_before(newly@, a + 1, j) {
                        let b = choose|b: int| 0 <= b < a + 1 && (#[trigger] newly@[b]).0 == j;
                        assert(b != a as int);
                        assert(listed_before(newly@, a as int, j));
                    }
                } else {
                    assert(newly@[a as int].0 == j);
                    assert(listed_before(newly@, a + 1, j));
                }
            }
        }
        a += 1;
    }
    let ghost s_traps = *sim;
    let ghost f0 = *fired;
    let ghost log0 = log@;
    proof {
        assert forall|j: int| 0 <= j < s_traps.hero_combat@.len() implies (#[trigger] s_traps.hero_combat@[j]) == (CombatStats {
            hp: s_traps.hero_combat@[j].hp,
            ..s0.hero_combat@[j]
        }) && if trapped_hero(s0, j) {
            trap_took(s0.hero_combat@[j].hp, s_traps.hero_combat@[j].hp)
        } else {
            s_traps.hero_combat@[j].hp == s0.hero_combat@[j].hp
        } by {
            if trapped_hero(s0, j) {
                assert(first_visit(s0.hero_rooms@, s0.status.visited@, j));
                let b = choose|b: int| 0 <= b < newly@.len() && (#[trigger] newly@[b]).0 == j;
                assert(listed_before(newly@, newly@.len() as int, j));
            }
        }
        assert(after_traps(s0, s_traps.hero_combat@));
    }
    let ghost forced = exists|k: int| #[trigger] event_forced(s0, f0, events.0@.len(), count_unvisited(sim.status.visited@), k);
    // A mid-mission event in the last room entered first.
    if newly.len() > 0 {
        let (_, room) = newly[newly.len() - 1];
        assert(first_visit(s0.hero_rooms@, s0.status.visited@, newly@[newly@.len() - 1].0 as int));
        let entrance = match sim.map.rooms[room].room_type {
            RoomType::Entrance => true,
            _ => false,
        };
        proof {
            if forced {
                let k = choose|k: int| #[trigger] event_forced(s0, f0, events.0@.len(), count_unvisited(sim.status.visited@), k);
                let last = newly@.len() - 1;
                let b = choose|b: int| 0 <= b < newly@.len() && (#[trigger] newly@[b]).0 == k;
                if b < last {
                    assert(newly@[b].0 < newly@[last].0);
                    assert(first_visit(s0.hero_rooms@, s0.status.visited@, newly@[last].0 as int));
                }
                assert(newly@[last].0 == k);
                assert(!entrance);
                let j = choose|j: int|
                    0 <= j < s0.hero_rooms@.len() && s0.hero_rooms@[j] == s0.hero_rooms@[k] && (#[trigger] s0.hero_combat@[j]).hp > 0
                        && (trapped_hero(s0, j) ==> s0.hero_combat@[j].hp > TRAP_DAMAGE_MAX);
                assert(s_traps.hero_combat@[j].hp > 0);
                assert(hero_in_room(s_traps.hero_rooms@, s_traps.hero_combat@, room));
            }
        }
        if !entrance && events.0.len() > 0 && fired.events_fired < fired.max_events {
            if event_triggers(fired.max_events, fired.events_fired, &sim.status.visited, rng) {
                match fire_room_event(sim, room, events, history, rng) {
                    Some(line) => {
                        log.push(line);
                        fired.events_fired = fired.events_fired + 1;
                    },
                    None => {},
                }
            }
        }
    } else {
        proof {
            if any_first_visit(s0.hero_rooms@, s0.status.visited@) {
                let k = choose|k: int| #[trigger] first_visit(s0.hero_rooms@, s0.status.visited@, k);
            }
            if forced {
                let k = choose|k: int| #[trigger] event_forced(s0, f0, events.0@.len(), count_unvisited(sim.status.visited@), k);
                assert(first_visit(s0.hero_rooms@, s0.status.visited@, k));
            }
        }
    }
    assert(forced ==> fired.events_fired == f0.events_fired + 1);
    assert(fired.events_fired == f0.events_fired ==> *sim == s_traps);
    // Clear the rooms without living enemies, and ready signature moves.
    let ghost s2 = *sim;
    let changed = clear_rooms(&mut sim.status, &sim.enemies);
    if changed {
        reset_all_signatures(&mut sim.abilities, abilities);
    }
    log
}


/// A hero on the guild's roster as the end of a mission sees them: their
/// gear and record, whether they are missing, and the gear they left behind.
pub struct RosterHero {
    pub id: u64,
    pub equipment: HeroEquipment,
    pub history: HeroHistory,
    pub missing: Option<Missing>,
    pub dropped: Option<HeroEquipment>,
}

/// A rescue mission the board offers after a party is lost: whom it would
/// bring back, and until when.
pub struct RescueOffer {
    pub rescue_heroes: Vec<u64>,
    pub expires_at_ms: i64,
}

/// The record after one timeline line: the counters as they were.
pub open spec fn history_appended(a: HeroHistory, b: HeroHistory, line: Seq<char>) -> bool {
    &&& b.missions_run == a.missions_run
    &&& b.kills == a.kills
    &&& b.near_deaths == a.near_deaths
    &&& b.rescues_given == a.rescues_given
    &&& b.rescues_received == a.rescues_received
    &&& b.lifetime_gold == a.lifetime_gold
    &&& b.timeline@.len() == a.timeline@.len() + 1
    &&& b.timeline@.drop_last() == a.timeline@
    &&& b.timeline@.last()@ == line
}

/// A hero lost with the party: their gear dropped and left behind, missing
/// until `expires`, and the line in their timeline.
pub open spec fn hero_lost(before: RosterHero, after: RosterHero, expires: i64, line: Seq<char>) -> bool {
    &&& after.id == before.id
    &&& no_gear(after.equipment)
    &&& after.dropped == Some(before.equipment)
    &&& after.missing matches Some(m) && m.expires_at_ms == expires
    &&& history_appended(before.history, after.history, line)
}

/// The countdowns of the heroes listed in `ids` who are already missing, in
/// roster order.
pub open spec fn expiries_of(roster: Seq<RosterHero>, ids: Seq<u64>) -> Seq<i64>
    decreases roster.len(),
{
    if roster.len() == 0 {
        Seq::empty()
    } else {
        let rest = expiries_of(roster.drop_last(), ids);
        let h = roster.last();
        match h.missing {
            Some(m) => if ids.contains(h.id) { rest.push(m.expires_at_ms) } else { rest },
            None => rest,
        }
    }
}

fn in_list(ids: &Vec<u64>, id: u64) -> (b: bool)
    ensures
        b == ids@.contains(id),
{
    let mut k: usize = 0;
    while k < ids.len()
        invariant
            k <= ids@.len(),
            forall|j: int| 0 <= j < k ==> ids@[j] != id,
        decreases ids@.len() - k,
    {
        if ids[k] == id {
            assert(ids@[k as int] == id);
            return true;
        }
        k += 1;
    }
    false
}

fn expiries_in(roster: &Vec<RosterHero>, ids: &Vec<u64>) -> (v: Vec<i64>)
    ensures
        v@ == expiries_of(roster@, ids@),
{
    let mut v: Vec<i64> = Vec::new();
    let mut k: usize = 0;
    while k < roster.len()
        invariant
            k <= roster@.len(),
            v@ == expiries_of(roster@.take(k as int), ids@),
        decreases roster@.len() - k,
    {
        assert(roster@.take(k + 1).drop_last() =~= roster@.take(k as int));
        match roster[k].missing {
            Some(m) => {
                if in_list(ids, roster[k].id) {
                    v.push(m.expires_at_ms);
                }
            },
            None => {},
        }
        k += 1;
    }
    assert(roster@.take(roster@.len() as int) =~= roster@);
    v
}

/// The line a hero lost on a mission gets in their timeline.
pub open spec fn went_missing_line(table: StringTable, mission: Seq<char>) -> Seq<char> {
    interpolate(tr_spec(table.view_entries(), "timeline.went_missing_short"@), seq![("mission"@, mission)])
}

/// A party is lost: the offer lists the party first and whoever the earlier
/// rescue was for (each once, when the party lists each once); its countdown is the latest of a fresh one and those of
/// the listed heroes already missing; every listed hero is lost, every other
/// one left as they were.
pub open spec fn party_lost(
    before: Seq<RosterHero>,
    after: Seq<RosterHero>,
    offer: RescueOffer,
    party: Seq<u64>,
    earlier: Seq<u64>,
    now_ms: i64,
    table: StringTable,
    mission: Seq<char>,
) -> bool {
    &&& offer.rescue_heroes@.len() >= party.len()
    &&& offer.rescue_heroes@.subrange(0, party.len() as int) == party
    &&& forall|h: u64| offer.rescue_heroes@.contains(h) <==> (party.contains(h) || earlier.contains(h))
    &&& party.no_duplicates() ==> offer.rescue_heroes@.no_duplicates()
    &&& offer.expires_at_ms == aligned_expiry(now_ms as int, expiries_of(before, offer.rescue_heroes@))
    &&& after.len() == before.len()
    &&& forall|k: int| 0 <= k < before.len() ==> {
        let b = before[k];
        let a = #[trigger] after[k];
        if offer.rescue_heroes@.contains(b.id) {
            hero_lost(b, a, offer.expires_at_ms, went_missing_line(table, mission))
        } else {
            a == b
        }
    }
}

/// A party is lost: the rescue offer lists the party and whoever an earlier
/// rescue was for; each of them drops their gear, goes missing until the
/// latest of their countdowns (a fresh one at least), and gets a timeline
/// line. Every other hero is left as they were.
pub fn lose_party(
    roster: &mut Vec<RosterHero>,
    party: &Vec<u64>,
    earlier: &Vec<u64>,
    mission: &str,
    now_ms: i64,
    table: &StringTable,
) -> (offer: RescueOffer)
    requires
        now_ms <= i64::MAX - MISSING_DURATION_MS,
    ensures
        party_lost(old(roster)@, final(roster)@, offer, party@, earlier@, now_ms, *table, mission@),
{
    let heroes = combine_rescue_heroes(party, earlier);
    let expiries = expiries_in(roster, &heroes);
    let expires = missing_expiry(now_ms, &expiries);
    let ghost orig = roster@;
    let n = roster.len();
    let mut src: Vec<RosterHero> = Vec::new();
    std::mem::swap(&mut src, roster);
    let mut out: Vec<RosterHero> = Vec::new();
    while src.len() > 0
        invariant
            orig.len() == n,
            out@.len() + src@.len() == n,
            src@ == orig.subrange(out@.len() as int, n as int),
            forall|k: int| 0 <= k < out@.len() ==> {
                let before = orig[k];
                let after = #[trigger] out@[k];
                if heroes@.contains(before.id) {
                    hero_lost(before, after, expires, went_missing_line(*table, mission@))
                } else {
                    after == before
                }
            },
        decreases src@.len(),
    {
        let mut h = src.remove(0);
        assert(h == orig[out@.len() as int]);
        let ghost before = h;
        if in_list(&heroes, h.id) {
            let dropped = drop_gear(&mut h.equipment);
            h.dropped = Some(dropped);
            h.missing = Some(Missing { expires_at_ms: expires });
            let args = [("mission", mission)];
            let line = table.trf("timeline.went_missing_short", &args);
            proof {
                assert(args_view(args@) =~= seq![("mission"@, mission@)]);
            }
            let ghost t0 = h.history.timeline@;
            h.history.add_timeline_entry(line);
            assert(h.history.timeline@.drop_last() =~= t0);
            assert(hero_lost(before, h, expires, went_missing_line(*table, mission@)));
        }
        out.push(h);
        assert(src@ =~= orig.subrange(out@.len() as int, n as int));
    }
    *roster = out;
    RescueOffer { rescue_heroes: heroes, expires_at_ms: expires }
}


/// A missing hero brought back: no longer missing, their dropped gear given
/// back when it was recovered (and they had any), one more rescue received,
/// and the line in their timeline.
pub open spec fn hero_rescued(before: RosterHero, after: RosterHero, gear_recovered: bool, mission: Seq<char>) -> bool {
    let restored = gear_recovered && before.dropped is Some;
    &&& after.id == before.id
    &&& after.missing is None
    &&& after.dropped is None
    &&& after.equipment == (if restored { before.dropped->0 } else { before.equipment })
    &&& after.history.rescues_received == before.history.rescues_received + 1
    &&& after.history.rescues_given == before.history.rescues_given
    &&& after.history.missions_run == before.history.missions_run
    &&& after.history.kills == before.history.kills
    &&& after.history.near_deaths == before.history.near_deaths
    &&& after.history.lifetime_gold == before.history.lifetime_gold
    &&& after.history.timeline@.len() == before.history.timeline@.len() + 1
    &&& after.history.timeline@.drop_last() == before.history.timeline@
    &&& after.history.timeline@.last()@ == rescued_line(mission, restored)
}

/// A hero who rescued others: one more rescue given and the line in their
/// timeline; nothing else changes.
pub open spec fn hero_credited(before: RosterHero, after: RosterHero, mission: Seq<char>) -> bool {
    &&& after.id == before.id
    &&& after.equipment == before.equipment
    &&& after.missing == before.missing
    &&& after.dropped == before.dropped
    &&& after.history.rescues_given == before.history.rescues_given + 1
    &&& after.history.rescues_received == before.history.rescues_received
    &&& after.history.missions_run == before.history.missions_run
    &&& after.history.kills == before.history.kills
    &&& after.history.near_deaths == before.history.near_deaths
    &&& after.history.lifetime_gold == before.history.lifetime_gold
    &&& after.history.timeline@.len() == before.history.timeline@.len() + 1
    &&& after.history.timeline@.drop_last() == before.history.timeline@
    &&& after.history.timeline@.last()@ == "Rescued colleagues in "@ + mission
}

/// What a successful rescue does to one roster hero: brought back if they
/// were rescued, then credited if they were among the rescuers.
pub open spec fn rescue_result(before: RosterHero, after: RosterHero, rescued: Seq<u64>, rescuers: Seq<u64>, gear_recovered: bool, mission: Seq<char>) -> bool {
    if rescued.contains(before.id) && rescuers.contains(before.id) {
        exists|mid: RosterHero| hero_rescued(before, mid, gear_recovered, mission) && hero_credited(mid, after, mission)
    } else if rescued.contains(before.id) {
        hero_rescued(before, after, gear_recovered, mission)
    } else if rescuers.contains(before.id) {
        hero_credited(before, after, mission)
    } else {
        after == before
    }
}

/// A rescue succeeded, for every roster hero.
pub open spec fn party_rescued(before: Seq<RosterHero>, after: Seq<RosterHero>, rescued: Seq<u64>, rescuers: Seq<u64>, gear_recovered: bool, mission: Seq<char>) -> bool {
    &&& after.len() == before.len()
    &&& forall|k: int| 0 <= k < before.len() ==> rescue_result(before[k], #[trigger] after[k], rescued, rescuers, gear_recovered, mission)
}

/// Every roster hero can take one more rescue of each kind.
pub open spec fn rescues_countable(roster: Seq<RosterHero>) -> bool {
    forall|k: int| 0 <= k < roster.len() ==> (#[trigger] roster[k]).history.rescues_received < u32::MAX
        && roster[k].history.rescues_given < u32::MAX
}

/// A rescue succeeded: each rescued hero is brought back (their gear given
/// back if it was recovered), and each surviving rescuer is credited.
pub fn rescue_party(roster: &mut Vec<RosterHero>, rescued: &Vec<u64>, rescuers: &Vec<u64>, gear_recovered: bool, mission: &str)
    requires
        rescues_countable(old(roster)@),
    ensures
        party_rescued(old(roster)@, final(roster)@, rescued@, rescuers@, gear_recovered, mission@),
{
    let ghost orig = roster@;
    let n = roster.len();
    let mut src: Vec<RosterHero> = Vec::new();
    std::mem::swap(&mut src, roster);
    let mut out: Vec<RosterHero> = Vec::new();
    while src.len() > 0
        invariant
            orig.len() == n,
            rescues_countable(orig),
            out@.len() + src@.len() == n,
            src@ == orig.subrange(out@.len() as int, n as int),
            forall|k: int| 0 <= k < out@.len() ==> rescue_result(orig[k], #[trigger] out@[k], rescued@, rescuers@, gear_recovered, mission@),
        decreases src@.len(),
    {
        let mut h = src.remove(0);
        let ghost idx = out@.len() as int;
        assert(h == orig[idx]);
        let ghost before = h;
        let is_rescued = in_list(rescued, h.id);
        if is_rescued {
            let dropped = h.dropped;
            rescue_hero(&mut h.history, &mut h.equipment, dropped, gear_recovered, mission);
            h.missing = None;
            h.dropped = None;
            assert(hero_rescued(before, h, gear_recovered, mission@));
        }
        let ghost mid = h;
        if in_list(rescuers, h.id) {
            credit_rescuer(&mut h.history, mission);
            assert(hero_credited(mid, h, mission@));
        }
        assert(rescue_result(before, h, rescued@, rescuers@, gear_recovered, mission@));
        out.push(h);
        assert(src@ =~= orig.subrange(out@.len() as int, n as int));
    }
    *roster = out;
}

/// The end of a mission, from its progress, its heroes' hit points and its
/// rooms' cleared flags: the completion check decides; a mission that fails
/// loses its party (and, on a rescue mission, the heroes it was for) and
/// returns the rescue offer; a rescue mission that completes brings its
/// heroes back and credits the party's survivors; otherwise the roster is
/// left as it was.
pub fn conclude_mission(
    progress: MissionProgress,
    hero_hps: &Vec<i32>,
    cleared: &Vec<bool>,
    roster: &mut Vec<RosterHero>,
    party: &Vec<u64>,
    survivors: &Vec<u64>,
    rescue: Option<&RescueMission>,
    mission: &str,
    now_ms: i64,
    table: &StringTable,
) -> (r: (MissionProgress, Option<RescueOffer>))
    requires
        now_ms <= i64::MAX - MISSING_DURATION_MS,
        rescues_countable(old(roster)@),
    ensures
        r.0 == progress_after(progress, hero_hps@, cleared@),
        progress == MissionProgress::InProgress && r.0 == MissionProgress::Failed ==> (r.1 matches Some(offer) && party_lost(
            old(roster)@,
            final(roster)@,
            offer,
            party@,
            match rescue {
                Some(rm) => rm.rescue_heroes@,
                None => Seq::empty(),
            },
            now_ms,
            *table,
            mission@,
        )),
        progress == MissionProgress::InProgress && r.0 == MissionProgress::Complete ==> r.1 is None && match rescue {
            Some(rm) => party_rescued(old(roster)@, final(roster)@, rm.rescue_heroes@, survivors@, rm.gear_recovered, mission@),
            None => final(roster)@ == old(roster)@,
        },
        !(progress == MissionProgress::InProgress && r.0 != MissionProgress::InProgress) ==> r.1 is None && final(roster)@
            == old(roster)@,
{
    let p = check_mission_completion(progress, hero_hps, cleared);
    let was_running = match progress {
        MissionProgress::InProgress => true,
        _ => false,
    };
    if !was_running {
        return (p, None);
    }
    match p {
        MissionProgress::Failed => {
            let empty: Vec<u64> = Vec::new();
            let offer = match rescue {
                Some(rm) => lose_party(roster, party, &rm.rescue_heroes, mission, now_ms, table),
                None => lose_party(roster, party, &empty, mission, now_ms, table),
            };
            (p, Some(offer))
        },
        MissionProgress::Complete => {
            match rescue {
                Some(rm) => {
                    rescue_party(roster, &rm.rescue_heroes, survivors, rm.gear_recovered, mission);
                },
                None => {},
            }
            (p, None)
        },
        MissionProgress::InProgress => (p, None),
    }
}

} // verus!
