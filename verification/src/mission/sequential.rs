//! Turn-based mission play: the initiative order of a round, and the rules a
//! token's turn follows (targets, movement, rolls, damage and healing).

use vstd::prelude::*;

use crate::equipment::{BehavioralAffix, GearRarity, GearSlot, HeroEquipment};
use crate::rng::{random_i32_inclusive, rng_from_seed, shuffle_pairs};
use rand::rngs::StdRng;

use super::data::{first_ability, AbilityDatabase, AbilityDef, AbilityEffect, AiPriorityRule};
use super::dungeon::{adjacent, DungeonMap, Pos};
use super::pathfinding::{connects, find_path, reachable, search_fits};
use crate::text::same_text;
use super::entities::{ActiveAbilityState, MissionTurnQueue};

verus! {

/// The bytes `0..8` of a `u64`, least significant first.
pub open spec fn le_byte(v: u64, k: int) -> u8 {
    ((v >> (8 * k) as u64) & 0xff) as u8
}

fn byte_of(v: u64, k: u64) -> (b: u8)
    requires
        k < 8,
    ensures
        b == le_byte(v, k as int),
{
    ((v >> (8 * k)) & 0xff) as u8
}

/// The seed of a round's generator: the mission id's bytes, then the round
/// count's, then zeros.
pub fn round_seed(mission_id: u64, round: u64) -> (seed: [u8; 32])
    ensures
        forall|k: int| 0 <= k < 8 ==> seed@[k] == le_byte(mission_id, k),
        forall|k: int| 8 <= k < 16 ==> seed@[k] == le_byte(round, k - 8),
        forall|k: int| 16 <= k < 32 ==> seed@[k] == 0,
{
    let seed = [
        byte_of(mission_id, 0),
        byte_of(mission_id, 1),
        byte_of(mission_id, 2),
        byte_of(mission_id, 3),
        byte_of(mission_id, 4),
        byte_of(mission_id, 5),
        byte_of(mission_id, 6),
        byte_of(mission_id, 7),
        byte_of(round, 0),
        byte_of(round, 1),
        byte_of(round, 2),
        byte_of(round, 3),
        byte_of(round, 4),
        byte_of(round, 5),
        byte_of(round, 6),
        byte_of(round, 7),
        0,
        0,
        0,
        0,
        0,
        0,
        0,
        0,
        0,
        0,
        0,
        0,
        0,
        0,
        0,
        0,
    ];
    assert(seed@.len() == 32);
    seed
}

/// A round must be ordered anew when the queue is empty or every token has acted.
pub fn needs_rebuild(queue: &MissionTurnQueue) -> (b: bool)
    ensures
        b == (queue.queue@.len() == 0 || queue.active_index >= queue.queue@.len()),
{
    queue.queue.len() == 0 || queue.active_index >= queue.queue.len()
}

/// Sorted by initiative, highest first.
pub open spec fn initiative_sorted(v: Seq<(u64, i32)>) -> bool {
    forall|a: int, b: int| 0 <= a < b < v.len() ==> v[a].1 >= v[b].1
}

/// Whether an entry has initiative `val`.
pub open spec fn tie(val: i32) -> spec_fn((u64, i32)) -> bool {
    |q: (u64, i32)| q.1 == val
}

/// The entries with initiative `val`, in their order.
pub open spec fn with_initiative(v: Seq<(u64, i32)>, val: i32) -> Seq<(u64, i32)> {
    v.filter(tie(val))
}

proof fn lemma_insert_keeps_ties(r0: Seq<(u64, i32)>, j: int, x: (u64, i32), val: i32)
    requires
        0 <= j <= r0.len(),
        forall|a: int| j <= a < r0.len() ==> r0[a].1 < x.1,
    ensures
        with_initiative(r0.insert(j, x), val) == if x.1 == val {
            with_initiative(r0, val).push(x)
        } else {
            with_initiative(r0, val)
        },
{
    let p = tie(val);
    let front = r0.take(j);
    let back = r0.skip(j);
    assert(r0.insert(j, x) =~= front + seq![x] + back);
    assert(r0 =~= front + back);
    Seq::filter_distributes_over_add(front + seq![x], back, p);
    Seq::filter_distributes_over_add(front, seq![x], p);
    Seq::filter_distributes_over_add(front, back, p);
    assert(seq![x] =~= Seq::<(u64, i32)>::empty().push(x));
    Seq::<(u64, i32)>::empty().lemma_filter_push(x, p);
    Seq::<(u64, i32)>::empty().lemma_all_neg_filter_empty(p);
    assert(Seq::<(u64, i32)>::empty().filter(p) =~= Seq::<(u64, i32)>::empty());
    if x.1 == val {
        back.lemma_all_neg_filter_empty(p);
        assert(back.filter(p) =~= Seq::<(u64, i32)>::empty());
        assert(front.filter(p) + seq![x] =~= front.filter(p).push(x));
        assert(front.filter(p) + Seq::<(u64, i32)>::empty() =~= front.filter(p));
        assert(front.filter(p).push(x) + Seq::<(u64, i32)>::empty() =~= front.filter(p).push(x));
    } else {
        assert(front.filter(p) + Seq::<(u64, i32)>::empty() =~= front.filter(p));
    }
}

proof fn lemma_first_at_least(a: Seq<(u64, i32)>, e: (u64, i32))
    requires
        initiative_sorted(a),
        a.len() > 0,
        a.filter(tie(e.1)).contains(e),
    ensures
        a[0].1 >= e.1,
{
    a.lemma_filter_contains_rev(tie(e.1), e);
    let k = choose|k: int| 0 <= k < a.len() && a[k] == e;
    if k > 0 {
        assert(a[0].1 >= a[k].1);
    }
}

/// The order by initiative is determined by the entries of each
/// initiative: two sequences sorted highest first that hold the same
/// entries in the same order for every initiative are equal. So
/// `sort_by_initiative` gives one result for one input.
pub proof fn lemma_sorted_ties_determine(a: Seq<(u64, i32)>, b: Seq<(u64, i32)>)
    requires
        initiative_sorted(a),
        initiative_sorted(b),
        forall|val: i32| #[trigger] with_initiative(a, val) == with_initiative(b, val),
    ensures
        a == b,
    decreases a.len(),
{
    if a.len() == 0 || b.len() == 0 {
        if b.len() > 0 {
            b.lemma_filter_contains(tie(b[0].1), 0);
            assert(with_initiative(a, b[0].1) == with_initiative(b, b[0].1));
            a.lemma_filter_contains_rev(tie(b[0].1), b[0]);
        }
        if a.len() > 0 {
            a.lemma_filter_contains(tie(a[0].1), 0);
            assert(with_initiative(a, a[0].1) == with_initiative(b, a[0].1));
            b.lemma_filter_contains_rev(tie(a[0].1), a[0]);
        }
        assert(a =~= b);
    } else {
        let ra = a.drop_first();
        let rb = b.drop_first();
        assert(a =~= seq![a[0]] + ra);
        assert(b =~= seq![b[0]] + rb);
        b.lemma_filter_contains(tie(b[0].1), 0);
        assert(with_initiative(a, b[0].1) == with_initiative(b, b[0].1));
        lemma_first_at_least(a, b[0]);
        a.lemma_filter_contains(tie(a[0].1), 0);
        assert(with_initiative(a, a[0].1) == with_initiative(b, a[0].1));
        lemma_first_at_least(b, a[0]);
        let m = a[0].1;
        ra.lemma_filter_prepend(a[0], tie(m));
        rb.lemma_filter_prepend(b[0], tie(m));
        assert(with_initiative(a, m) == with_initiative(b, m));
        assert(with_initiative(a, m)[0] == a[0]);
        assert(with_initiative(b, m)[0] == b[0]);
        assert forall|val: i32| #[trigger] with_initiative(ra, val) == with_initiative(rb, val) by {
            ra.lemma_filter_prepend(a[0], tie(val));
            rb.lemma_filter_prepend(b[0], tie(val));
            assert(with_initiative(a, val) == with_initiative(b, val));
            if a[0].1 == val {
                assert(ra.filter(tie(val)) =~= a.filter(tie(val)).drop_first());
                assert(rb.filter(tie(val)) =~= b.filter(tie(val)).drop_first());
            } else {
                assert(ra.filter(tie(val)) =~= a.filter(tie(val)));
                assert(rb.filter(tie(val)) =~= b.filter(tie(val)));
            }
        }
        lemma_sorted_ties_determine(ra, rb);
    }
}

/// Sort candidates by initiative, highest first, keeping the order of equal
/// initiatives.
pub fn sort_by_initiative(v: Vec<(u64, i32)>) -> (r: Vec<(u64, i32)>)
    ensures
        r@.to_multiset() == v@.to_multiset(),
        r@.len() == v@.len(),
        initiative_sorted(r@),
        forall|val: i32| #[trigger] with_initiative(r@, val) == with_initiative(v@, val),
{
    let mut r: Vec<(u64, i32)> = Vec::new();
    let mut i: usize = 0;
    proof {
        assert(v@.take(0) =~= r@);
    }
    while i < v.len()
        invariant
            i <= v@.len(),
            r@.len() == i,
            r@.to_multiset() == v@.take(i as int).to_multiset(),
            initiative_sorted(r@),
            forall|val: i32| #[trigger] with_initiative(r@, val) == with_initiative(v@.take(i as int), val),
        decreases v@.len() - i,
    {
        let x = v[i];
        // Insert after every entry with an initiative at least as high.
        let mut j: usize = 0;
        while j < r.len() && r[j].1 >= x.1
            invariant
                j <= r@.len(),
                forall|a: int| 0 <= a < j ==> r@[a].1 >= x.1,
            decreases r@.len() - j,
        {
            j += 1;
        }
        let ghost r0 = r@;
        proof {
            assert forall|a: int| j <= a < r0.len() implies r0[a].1 < x.1 by {
                assert(r0[j as int].1 < x.1);
                assert(r0[j as int].1 >= r0[a].1);
            }
        }
        r.insert(j, x);
        proof {
            assert(v@.take(i + 1) =~= v@.take(i as int).push(x));
            assert forall|val: i32| #[trigger] with_initiative(r@, val) == with_initiative(v@.take(i + 1), val) by {
                lemma_insert_keeps_ties(r0, j as int, x, val);
                v@.take(i as int).lemma_filter_push(x, tie(val));
            }
            vstd::seq_lib::to_multiset_insert(r0, j as int, x);
            vstd::seq_lib::to_multiset_build(v@.take(i as int), x);
            assert forall|a: int, b: int| 0 <= a < b < r@.len() implies r@[a].1 >= r@[b].1 by {
                if a < j && b == j {
                } else if a < j && b > j {
                    assert(r@[b] == r0[b - 1]);
                } else if a == j {
                    assert(r@[b] == r0[b - 1]);
                } else if a > j {
                    assert(r@[a] == r0[a - 1]);
                    assert(r@[b] == r0[b - 1]);
                }
            }
        }
        i += 1;
    }
    assert(v@.take(v@.len() as int) =~= v@);
    r
}

/// The initiative of a token: a d20 roll plus its speed, ten more with the
/// Initiative affix.
pub open spec fn initiative_of(d20: i32, speed: i32, affix: bool) -> int {
    d20 + speed + if affix { 10int } else { 0int }
}

/// `x` is candidate `c` with an initiative a d20 roll could give it.
pub open spec fn roll_within(c: (u64, i32, bool), x: (u64, i32)) -> bool {
    &&& c.0 == x.0
    &&& initiative_of(1, c.1, c.2) <= x.1
    &&& x.1 <= initiative_of(20, c.1, c.2)
}

/// Some candidate could have rolled `x`.
pub open spec fn has_roll(candidates: Seq<(u64, i32, bool)>, x: (u64, i32)) -> bool {
    exists|j: int| 0 <= j < candidates.len() && roll_within(candidates[j], x)
}

/// Bound on token speeds.
pub const SPEED_BOUND: i32 = 1000000;

/// The ids of a sequence of candidates.
pub open spec fn ids_of(v: Seq<(u64, i32)>) -> Seq<u64> {
    v.map_values(|c: (u64, i32)| c.0)
}

proof fn lemma_ids_multiset(a: Seq<(u64, i32)>, b: Seq<(u64, i32)>)
    requires
        a.to_multiset() == b.to_multiset(),
    ensures
        ids_of(a).to_multiset() == ids_of(b).to_multiset(),
    decreases a.len(),
{
    broadcast use vstd::multiset::group_multiset_axioms;

    vstd::seq_lib::to_multiset_len(a);
    vstd::seq_lib::to_multiset_len(b);
    if a.len() == 0 {
        assert(b.len() == 0);
        assert(ids_of(a) =~= ids_of(b));
    } else {
        let x = a[0];
        vstd::seq_lib::to_multiset_contains(a, x);
        vstd::seq_lib::to_multiset_contains(b, x);
        let i = choose|i: int| 0 <= i < b.len() && b[i] == x;
        let rest = a.drop_first();
        assert(a =~= seq![x] + rest);
        vstd::seq_lib::lemma_multiset_commutative(seq![x], rest);
        assert(seq![x].to_multiset() =~= vstd::multiset::Multiset::empty().insert(x)) by {
            vstd::seq_lib::to_multiset_build(Seq::<(u64, i32)>::empty(), x);
            assert(Seq::<(u64, i32)>::empty().push(x) =~= seq![x]);
            vstd::seq_lib::to_multiset_len(Seq::<(u64, i32)>::empty());
            vstd::multiset::lemma_multiset_empty_len(Seq::<(u64, i32)>::empty().to_multiset());
        }
        vstd::seq_lib::to_multiset_remove(b, i);
        assert(rest.to_multiset() =~= b.remove(i).to_multiset());
        lemma_ids_multiset(rest, b.remove(i));
        let ib = ids_of(b);
        assert(ids_of(b.remove(i)) =~= ib.remove(i));
        vstd::seq_lib::to_multiset_remove(ib, i);
        assert(ib[i] == x.0);
        vstd::seq_lib::to_multiset_contains(ib, x.0);
        assert(ids_of(a) =~= seq![x.0] + ids_of(rest));
        vstd::seq_lib::lemma_multiset_commutative(seq![x.0], ids_of(rest));
        assert(seq![x.0].to_multiset() =~= vstd::multiset::Multiset::empty().insert(x.0)) by {
            vstd::seq_lib::to_multiset_build(Seq::<u64>::empty(), x.0);
            assert(Seq::<u64>::empty().push(x.0) =~= seq![x.0]);
            vstd::seq_lib::to_multiset_len(Seq::<u64>::empty());
            vstd::multiset::lemma_multiset_empty_len(Seq::<u64>::empty().to_multiset());
        }
        assert(ids_of(a).to_multiset() =~= ids_of(b).to_multiset());
    }
}

proof fn lemma_rolls_kept(order: Seq<(u64, i32)>, rolled: Seq<(u64, i32)>, candidates: Seq<(u64, i32, bool)>)
    requires
        order.to_multiset() == rolled.to_multiset(),
        rolled.len() == candidates.len(),
        forall|j: int| 0 <= j < rolled.len() ==> roll_within(candidates[j], #[trigger] rolled[j]),
    ensures
        forall|k: int| 0 <= k < order.len() ==> has_roll(candidates, #[trigger] order[k]),
{
    assert forall|k: int| 0 <= k < order.len() implies has_roll(candidates, #[trigger] order[k]) by {
        let x = order[k];
        vstd::seq_lib::to_multiset_contains(order, x);
        assert(order.contains(x));
        vstd::seq_lib::to_multiset_contains(rolled, x);
        let j = choose|j: int| 0 <= j < rolled.len() && rolled[j] == x;
        assert(roll_within(candidates[j], x));
    }
}

/// The order of a round: each living token rolls initiative from the
/// round's seeded generator, ties are broken at random, and the highest
/// initiative acts first. Candidates are (token id, speed, Initiative affix).
pub fn roll_turn_order(mission_id: u64, round: u64, candidates: &Vec<(u64, i32, bool)>) -> (order: Vec<(u64, i32)>)
    requires
        forall|k: int| 0 <= k < candidates@.len() ==> -SPEED_BOUND <= (#[trigger] candidates@[k]).1 <= SPEED_BOUND,
    ensures
        order@.len() == candidates@.len(),
        ids_of(order@).to_multiset() == candidates@.map_values(|c: (u64, i32, bool)| c.0).to_multiset(),
        initiative_sorted(order@),
        forall|k: int| 0 <= k < order@.len() ==> has_roll(candidates@, #[trigger] order@[k]),
{
    let seed = round_seed(mission_id, round);
    let mut rng = rng_from_seed(seed);
    let mut rolled: Vec<(u64, i32)> = Vec::new();
    let mut k: usize = 0;
    while k < candidates.len()
        invariant
            k <= candidates@.len(),
            forall|j: int| 0 <= j < candidates@.len() ==> -SPEED_BOUND <= (#[trigger] candidates@[j]).1 <= SPEED_BOUND,
            rolled@.len() == k,
            forall|j: int| 0 <= j < k ==> roll_within(candidates@[j], #[trigger] rolled@[j]),
        decreases candidates@.len() - k,
    {
        let (id, speed, affix) = candidates[k];
        let d20 = random_i32_inclusive(&mut rng, 1, 20);
        let mut init = d20 + speed;
        if affix {
            init = init + 10;
        }
        rolled.push((id, init));
        k += 1;
    }
    let ghost rolled0 = rolled@;
    shuffle_pairs(&mut rolled, &mut rng);
    let order = sort_by_initiative(rolled);
    proof {
        assert(ids_of(rolled0) =~= candidates@.map_values(|c: (u64, i32, bool)| c.0));
        lemma_ids_multiset(order@, rolled0);
        lemma_rolls_kept(order@, rolled0, candidates@);
    }
    order
}

/// The queue after a new round is ordered: empty, with the combat round
/// count reset, when no token lives; else the new order from the start, the
/// round counted, and the combat round counted while enemies remain.
pub fn start_round(queue: &mut MissionTurnQueue, order: Vec<(u64, i32)>, has_enemies: bool)
    requires
        old(queue).round_count < u64::MAX,
        old(queue).combat_round_count < u32::MAX,
    ensures
        order@.len() == 0 ==> {
            &&& final(queue).queue@.len() == 0
            &&& final(queue).active_index == 0
            &&& final(queue).combat_round_count == 0
            &&& final(queue).round_count == old(queue).round_count
        },
        order@.len() > 0 ==> {
            &&& final(queue).queue@ == ids_of(order@)
            &&& final(queue).active_index == 0
            &&& final(queue).round_count == old(queue).round_count + 1
            &&& final(queue).combat_round_count == if has_enemies { old(queue).combat_round_count + 1 } else { 0 }
        },
{
    if order.len() == 0 {
        queue.queue = Vec::new();
        queue.active_index = 0;
        queue.combat_round_count = 0;
        return;
    }
    if has_enemies {
        queue.combat_round_count = queue.combat_round_count + 1;
    } else {
        queue.combat_round_count = 0;
    }
    let mut ids: Vec<u64> = Vec::new();
    let mut k: usize = 0;
    while k < order.len()
        invariant
            k <= order@.len(),
            ids@ == ids_of(order@.take(k as int)),
        decreases order@.len() - k,
    {
        ids.push(order[k].0);
        k += 1;
        assert(ids@ =~= ids_of(order@.take(k as int)));
    }
    assert(order@.take(order@.len() as int) =~= order@);
    queue.queue = ids;
    queue.active_index = 0;
    queue.round_count = queue.round_count + 1;
}

/// Every ability that is cooling down gets one turn closer to ready.
pub fn tick_cooldowns(abilities: &mut Vec<ActiveAbilityState>)
    ensures
        final(abilities)@.len() == old(abilities)@.len(),
        forall|k: int|
            0 <= k < old(abilities)@.len() ==> (#[trigger] final(abilities)@[k]).ability_id@ == old(abilities)@[k].ability_id@
                && final(abilities)@[k].remaining_cooldown == if old(abilities)@[k].remaining_cooldown > 0 {
                    (old(abilities)@[k].remaining_cooldown - 1) as u32
                } else {
                    0u32
                },
{
    let ghost a0 = abilities@;
    let mut k: usize = 0;
    while k < abilities.len()
        invariant
            k <= abilities@.len(),
            abilities@.len() == a0.len(),
            forall|j: int| k <= j < a0.len() ==> abilities@[j] == a0[j],
            forall|j: int|
                0 <= j < k ==> (#[trigger] abilities@[j]).ability_id@ == a0[j].ability_id@
                    && abilities@[j].remaining_cooldown == if a0[j].remaining_cooldown > 0 {
                        (a0[j].remaining_cooldown - 1) as u32
                    } else {
                        0u32
                    },
        decreases abilities@.len() - k,
    {
        let id = abilities[k].ability_id.clone();
        let cd = abilities[k].remaining_cooldown;
        let next = if cd > 0 {
            cd - 1
        } else {
            0
        };
        abilities.set(k, ActiveAbilityState { ability_id: id, remaining_cooldown: next });
        k += 1;
    }
}


/// Manhattan distance between two tiles.
pub open spec fn dist(a: Pos, b: Pos) -> int {
    (if a.0 >= b.0 { a.0 - b.0 } else { b.0 - a.0 }) + (if a.1 >= b.1 { a.1 - b.1 } else { b.1 - a.1 })
}

/// Manhattan distance between two tiles.
pub fn manhattan(a: Pos, b: Pos) -> (d: u64)
    ensures
        d == dist(a, b),
{
    let dx: u64 = if a.0 >= b.0 { (a.0 - b.0) as u64 } else { (b.0 - a.0) as u64 };
    let dy: u64 = if a.1 >= b.1 { (a.1 - b.1) as u64 } else { (b.1 - a.1) as u64 };
    dx + dy
}

/// A hero as an enemy sees it: hit points, room and tile.
#[derive(Debug, Clone, Copy)]
pub struct HeroView {
    pub hp: i32,
    pub room: Option<usize>,
    pub pos: Pos,
}

/// A hero the enemy in `room` may target: alive and in the same room.
pub open spec fn targetable(h: HeroView, room: Option<usize>) -> bool {
    h.hp > 0 && room is Some && h.room == room
}

/// The key an enemy picks its target by: distance for swarmers, hit points
/// for the rest.
pub open spec fn target_key(swarmer: bool, from: Pos, h: HeroView) -> int {
    if swarmer {
        dist(from, h.pos)
    } else {
        h.hp as int
    }
}

/// The hero an enemy targets: among the heroes alive in its room, the
/// closest for a swarmer and the weakest otherwise, the first listed on a tie.
pub fn enemy_target(swarmer: bool, from: Pos, room: Option<usize>, heroes: &Vec<HeroView>) -> (t: Option<usize>)
    ensures
        match t {
            Some(i) => {
                &&& i < heroes@.len()
                &&& targetable(heroes@[i as int], room)
                &&& forall|j: int| 0 <= j < heroes@.len() && targetable(#[trigger] heroes@[j], room) ==> target_key(swarmer, from, heroes@[i as int]) <= target_key(swarmer, from, heroes@[j])
                &&& forall|j: int| 0 <= j < i && targetable(#[trigger] heroes@[j], room) ==> target_key(swarmer, from, heroes@[i as int]) < target_key(swarmer, from, heroes@[j])
            },
            None => forall|j: int| 0 <= j < heroes@.len() ==> !targetable(#[trigger] heroes@[j], room),
        },
{
    let mut best: Option<usize> = None;
    let mut best_key: i64 = 0;
    let mut k: usize = 0;
    while k < heroes.len()
        invariant
            k <= heroes@.len(),
            match best {
                Some(i) => {
                    &&& i < k
                    &&& targetable(heroes@[i as int], room)
                    &&& best_key == target_key(swarmer, from, heroes@[i as int])
                    &&& forall|j: int| 0 <= j < k && targetable(#[trigger] heroes@[j], room) ==> target_key(swarmer, from, heroes@[i as int]) <= target_key(swarmer, from, heroes@[j])
                    &&& forall|j: int| 0 <= j < i && targetable(#[trigger] heroes@[j], room) ==> target_key(swarmer, from, heroes@[i as int]) < target_key(swarmer, from, heroes@[j])
                },
                None => forall|j: int| 0 <= j < k ==> !targetable(#[trigger] heroes@[j], room),
            },
        decreases heroes@.len() - k,
    {
        let h = heroes[k];
        let ok = h.hp > 0 && room.is_some() && match (h.room, room) {
            (Some(a), Some(b)) => a == b,
            _ => false,
        };
        if ok {
            let key: i64 = if swarmer { manhattan(from, h.pos) as i64 } else { h.hp as i64 };
            let better = match best {
                None => true,
                Some(_) => key < best_key,
            };
            if better {
                best = Some(k);
                best_key = key;
            }
        }
        k += 1;
    }
    best
}

/// The tiles next to `p`, in the order a token considers them: right,
/// left, down, up (those on the grid's side of zero).
pub open spec fn neighbour(p: Pos, k: int) -> Option<Pos> {
    if k == 0 {
        Some(((p.0 + 1) as u32, p.1))
    } else if k == 1 {
        if p.0 >= 1 { Some(((p.0 - 1) as u32, p.1)) } else { None }
    } else if k == 2 {
        Some((p.0, (p.1 + 1) as u32))
    } else {
        if p.1 >= 1 { Some((p.0, (p.1 - 1) as u32)) } else { None }
    }
}

/// `q` is the walkable `k`-th neighbour of `from`.
pub open spec fn open_step(map: DungeonMap, from: Pos, k: int, q: Pos) -> bool {
    0 <= k < 4 && neighbour(from, k) == Some(q) && map.walkable(q)
}

fn neighbour_of(p: Pos, k: usize) -> (n: Option<Pos>)
    requires
        k < 4,
        p.0 < i32::MAX,
        p.1 < i32::MAX,
    ensures
        n == neighbour(p, k as int),
{
    if k == 0 {
        Some((p.0 + 1, p.1))
    } else if k == 1 {
        if p.0 >= 1 { Some((p.0 - 1, p.1)) } else { None }
    } else if k == 2 {
        Some((p.0, p.1 + 1))
    } else {
        if p.1 >= 1 { Some((p.0, p.1 - 1)) } else { None }
    }
}

/// The scan of the first `k` neighbours for a tile farther from the threat:
/// the tile kept so far and its distance.
pub open spec fn kite_scan(map: DungeonMap, from: Pos, threat: Pos, k: nat) -> (Option<Pos>, int)
    decreases k,
{
    if k == 0 {
        (None, dist(from, threat))
    } else {
        let prev = kite_scan(map, from, threat, (k - 1) as nat);
        match neighbour(from, k - 1) {
            Some(q) => if map.walkable(q) && dist(q, threat) > prev.1 { (Some(q), dist(q, threat)) } else { prev },
            None => prev,
        }
    }
}

/// Where a skirmisher steps back to from `threat`: none beyond two tiles,
/// else the scan of its four neighbours.
pub open spec fn kite_of(map: DungeonMap, from: Pos, threat: Pos) -> Option<Pos> {
    if dist(from, threat) > 2 { None } else { kite_scan(map, from, threat, 4).0 }
}

/// Where a skirmisher steps back to when a hero is within two tiles: the
/// first walkable neighbour that lies farther from the hero than any
/// before it, if one lies farther than the skirmisher stands now.
pub fn kite_tile(map: &DungeonMap, from: Pos, threat: Pos) -> (r: Option<Pos>)
    requires
        map.wf(),
        from.0 < i32::MAX,
        from.1 < i32::MAX,
    ensures
        r == kite_of(*map, from, threat),
        dist(from, threat) > 2 ==> r is None,
        r matches Some(t) ==> {
            &&& exists|k: int| 0 <= k < 4 && neighbour(from, k) == Some(t)
            &&& map.walkable(t)
            &&& dist(t, threat) > dist(from, threat)
            &&& forall|k: int, q: Pos| #[trigger] open_step(*map, from, k, q) ==> dist(q, threat) <= dist(t, threat)
        },
        dist(from, threat) <= 2 && r is None ==> forall|k: int, q: Pos| #[trigger] open_step(*map, from, k, q) ==> dist(q, threat) <= dist(from, threat),
{
    let d0 = manhattan(from, threat);
    if d0 > 2 {
        return None;
    }
    let mut best: Option<Pos> = None;
    let mut max_d = d0;
    let mut k: usize = 0;
    while k < 4
        invariant
            map.wf(),
            from.0 < i32::MAX,
            from.1 < i32::MAX,
            k <= 4,
            d0 == dist(from, threat),
            max_d >= d0,
            match best {
                Some(t) => (exists|j: int| 0 <= j < k && neighbour(from, j) == Some(t)) && map.walkable(t) && max_d == dist(t, threat) && max_d > d0,
                None => max_d == d0,
            },
            forall|j: int, q: Pos| j < k && #[trigger] open_step(*map, from, j, q) ==> dist(q, threat) <= max_d,
            (best, max_d as int) == kite_scan(*map, from, threat, k as nat),
        decreases 4 - k,
    {
        match neighbour_of(from, k) {
            Some(q) => {
                if map.is_walkable(q.0, q.1) {
                    let d = manhattan(q, threat);
                    if d > max_d {
                        max_d = d;
                        best = Some(q);
                    }
                }
            },
            None => {},
        }
        k += 1;
    }
    best
}

/// An enemy as its allies see it: id, tile and hit points.
#[derive(Debug, Clone, Copy)]
pub struct EnemyView {
    pub id: u64,
    pub pos: Pos,
    pub hp: i32,
}

/// How many other living enemies stand next to (or on) the target.
pub open spec fn swarm_count(enemies: Seq<EnemyView>, me: u64, target: Pos) -> nat
    decreases enemies.len(),
{
    if enemies.len() == 0 {
        0
    } else {
        let e = enemies.last();
        swarm_count(enemies.drop_last(), me, target) + (if e.id != me && e.hp > 0 && dist(e.pos, target) <= 1 {
            1nat
        } else {
            0nat
        })
    }
}

/// A swarmer's bonus: one for each other living enemy next to the target.
pub fn swarmer_bonus(enemies: &Vec<EnemyView>, me: u64, target: Pos) -> (b: i32)
    requires
        enemies@.len() <= i32::MAX,
    ensures
        b == swarm_count(enemies@, me, target),
{
    let mut b: i32 = 0;
    let mut k: usize = 0;
    while k < enemies.len()
        invariant
            k <= enemies@.len(),
            enemies@.len() <= i32::MAX,
            b == swarm_count(enemies@.take(k as int), me, target),
            b <= k,
        decreases enemies@.len() - k,
    {
        assert(enemies@.take(k + 1).drop_last() =~= enemies@.take(k as int));
        let e = enemies[k];
        if e.id != me && e.hp > 0 && manhattan(e.pos, target) <= 1 {
            b = b + 1;
        }
        k += 1;
    }
    assert(enemies@.take(enemies@.len() as int) =~= enemies@);
    b
}

/// Bound on attack, defense and bonuses in a roll.
pub const ROLL_BOUND: i32 = 1000000;

/// A roll hits when the d20 plus attack and bonuses reaches ten plus the
/// defense; a natural 20 is a critical hit.
pub open spec fn roll_hits(d20: i32, attack: i32, bonus: i32, defense: i32) -> bool {
    d20 + attack + bonus >= defense + 10
}

/// Whether an attack roll hits.
pub fn attack_hits(d20: i32, attack: i32, bonus: i32, defense: i32) -> (hit: bool)
    requires
        1 <= d20 <= 20,
        -ROLL_BOUND <= attack <= ROLL_BOUND,
        -ROLL_BOUND <= bonus <= ROLL_BOUND,
        -ROLL_BOUND <= defense <= ROLL_BOUND,
    ensures
        hit == roll_hits(d20, attack, bonus, defense),
{
    d20 + attack + bonus >= defense + 10
}

/// Half of an attack, rounded toward zero.
pub open spec fn half_attack(attack: i32) -> int {
    if attack >= 0 {
        attack / 2
    } else {
        -((-attack) / 2)
    }
}

fn half_of(attack: i32) -> (h: i32)
    requires
        -ROLL_BOUND <= attack <= ROLL_BOUND,
    ensures
        h == half_attack(attack),
{
    if attack >= 0 {
        attack / 2
    } else {
        -((-attack) / 2)
    }
}

/// Damage an enemy deals on a hit: half its attack plus the damage roll, at
/// least `floor`; doubled when enraged; plus the swarm bonus; doubled on a
/// critical hit.
pub open spec fn enemy_damage_of(attack: i32, roll: i32, floor: i32, enraged: bool, bonus: i32, crit: bool) -> int {
    let base = if half_attack(attack) + roll >= floor { half_attack(attack) + roll } else { floor as int };
    let base = if enraged { base * 2 } else { base };
    let base = base + bonus;
    if crit { base * 2 } else { base }
}

/// Damage an enemy deals on a hit.
pub fn enemy_damage(attack: i32, roll: i32, floor: i32, enraged: bool, bonus: i32, crit: bool) -> (d: i32)
    requires
        -ROLL_BOUND <= attack <= ROLL_BOUND,
        0 <= roll <= 20,
        1 <= floor <= 2,
        0 <= bonus <= ROLL_BOUND,
    ensures
        d == enemy_damage_of(attack, roll, floor, enraged, bonus, crit),
{
    let h = half_of(attack) + roll;
    let mut base = if h >= floor { h } else { floor };
    if enraged {
        base = base * 2;
    }
    base = base + bonus;
    if crit {
        base * 2
    } else {
        base
    }
}

/// Slam damage of a telegraphed boss attack.
pub const SLAM_DAMAGE: i32 = 20;

/// A telegraph winds down one turn; it lands when none is left.
pub fn telegraph_tick(turns_remaining: u32) -> (r: (u32, bool))
    requires
        turns_remaining >= 1,
    ensures
        r.0 == turns_remaining - 1,
        r.1 == (turns_remaining == 1),
{
    let left = turns_remaining - 1;
    (left, left == 0)
}

/// What a hero's strike is: a basic attack, a signature ability or another
/// damaging ability.
#[derive(Debug, Clone, Copy, PartialEq, Eq, Structural)]
pub enum Strike {
    Basic,
    Assassinate,
    Meteor,
    Volley,
    Ability,
}

/// The base damage of a hero's strike before a critical hit: a share of the
/// attack plus the damage roll, at least one.
pub open spec fn strike_base(strike: Strike, attack: i32, roll: i32) -> int {
    let raw = match strike {
        Strike::Basic => half_attack(attack) + roll,
        Strike::Assassinate => attack * 3 + roll,
        Strike::Meteor => attack * 2 + roll,
        Strike::Volley => attack + roll,
        Strike::Ability => attack + roll,
    };
    if raw >= 1 { raw } else { 1 }
}

/// Nine tenths, rounded down, of a non-negative amount.
pub open spec fn nine_tenths(x: int) -> int {
    (x * 9) / 10
}

/// The damage of a hero's strike on a hit: the base, doubled on a critical
/// hit, cut to nine tenths for a loner fighting near an ally.
pub open spec fn strike_damage_of(strike: Strike, attack: i32, roll: i32, crit: bool, loner_near_ally: bool) -> int {
    let base = strike_base(strike, attack, roll);
    let d = if crit { base * 2 } else { base };
    if loner_near_ally { nine_tenths(d) } else { d }
}

/// The damage of a hero's strike on a hit.
pub fn strike_damage(strike: Strike, attack: i32, roll: i32, crit: bool, loner_near_ally: bool) -> (d: i32)
    requires
        -ROLL_BOUND <= attack <= ROLL_BOUND,
        0 <= roll <= 20,
    ensures
        d == strike_damage_of(strike, attack, roll, crit, loner_near_ally),
        d >= 0,
{
    let raw = match strike {
        Strike::Basic => half_of(attack) + roll,
        Strike::Assassinate => attack * 3 + roll,
        Strike::Meteor => attack * 2 + roll,
        Strike::Volley => attack + roll,
        Strike::Ability => attack + roll,
    };
    let base = if raw >= 1 { raw } else { 1 };
    let d = if crit { base * 2 } else { base };
    if loner_near_ally {
        (d * 9) / 10
    } else {
        d
    }
}

/// The bonus a hero adds to a roll: three when lucky, two with a leader in
/// the room.
pub open spec fn hero_roll_bonus(lucky: bool, leader: bool) -> int {
    (if lucky { 3int } else { 0int }) + (if leader { 2int } else { 0int })
}

/// The bonus a hero adds to attack and heal rolls.
pub fn roll_bonus(lucky: bool, leader: bool) -> (b: i32)
    ensures
        b == hero_roll_bonus(lucky, leader),
{
    (if lucky { 3 } else { 0 }) + (if leader { 2 } else { 0 })
}

/// Hit points a lifesteal affix returns: three tenths of the damage, rounded.
pub open spec fn lifesteal_of(damage: int) -> int {
    (damage * 3 + 5) / 10
}

/// The hit points a lifesteal affix returns for a hit.
pub fn lifesteal_amount(damage: i32) -> (h: i32)
    requires
        0 <= damage <= 100 * ROLL_BOUND,
    ensures
        h == lifesteal_of(damage as int),
{
    ((damage as i64 * 3 + 5) / 10) as i32
}

/// Damage a cleave affix spreads to each enemy next to the target: half of
/// the hit, rounded.
pub open spec fn cleave_of(damage: int) -> int {
    (damage + 1) / 2
}

/// The damage a cleave affix deals to each neighbour of the target.
pub fn cleave_amount(damage: i32) -> (c: i32)
    requires
        0 <= damage <= 100 * ROLL_BOUND,
    ensures
        c == cleave_of(damage as int),
{
    (damage + 1) / 2
}

/// The enemies a cleave splashes: each one, other than the one struck,
/// standing exactly one tile from it, in the order given.
pub open spec fn cleave_ids(enemies: Seq<(u64, Pos)>, target: u64, at: Pos) -> Seq<u64>
    decreases enemies.len(),
{
    if enemies.len() == 0 {
        Seq::empty()
    } else {
        let rest = cleave_ids(enemies.drop_last(), target, at);
        let e = enemies.last();
        if e.0 != target && dist(e.1, at) == 1 { rest.push(e.0) } else { rest }
    }
}

/// The enemies (id and tile) a cleave splashes when the enemy `target`,
/// standing at `at`, is struck.
pub fn cleave_targets(target: u64, at: Pos, enemies: &Vec<(u64, Pos)>) -> (v: Vec<u64>)
    ensures
        v@ == cleave_ids(enemies@, target, at),
{
    let mut v: Vec<u64> = Vec::new();
    let mut k: usize = 0;
    while k < enemies.len()
        invariant
            k <= enemies@.len(),
            v@ == cleave_ids(enemies@.take(k as int), target, at),
        decreases enemies@.len() - k,
    {
        assert(enemies@.take(k + 1).drop_last() =~= enemies@.take(k as int));
        let (id, pos) = enemies[k];
        if id != target && manhattan(pos, at) == 1 {
            v.push(id);
        }
        k += 1;
    }
    assert(enemies@.take(enemies@.len() as int) =~= enemies@);
    v
}

/// A hero's heal: the roll plus the bonuses, cut to nine tenths for a loner
/// near an ally, nothing on cursed ground.
pub open spec fn hero_heal_of(roll: i32, bonus: i32, loner_near_ally: bool, cursed: bool) -> int {
    if cursed {
        0
    } else if loner_near_ally {
        nine_tenths(roll + bonus)
    } else {
        roll + bonus
    }
}

/// The amount of a hero's heal.
pub fn hero_heal(roll: i32, bonus: i32, loner_near_ally: bool, cursed: bool) -> (h: i32)
    requires
        0 <= roll <= ROLL_BOUND,
        0 <= bonus <= ROLL_BOUND,
    ensures
        h == hero_heal_of(roll, bonus, loner_near_ally, cursed),
{
    if cursed {
        0
    } else if loner_near_ally {
        ((roll + bonus) * 9) / 10
    } else {
        roll + bonus
    }
}

/// Where a loner steps instead of the path's next tile: the walkable
/// neighbour, closer to the goal than where it stands, that keeps the
/// farthest from its nearest ally (the first such, and only if farther than
/// zero). Allies are the other heroes' tiles; with none, each step counts
/// as far.
pub open spec fn nearest_ally(allies: Seq<Pos>, q: Pos) -> int
    decreases allies.len(),
{
    if allies.len() == 0 {
        999
    } else {
        let rest = nearest_ally(allies.drop_last(), q);
        let d = dist(q, allies.last());
        if d < rest { d } else { rest }
    }
}

fn nearest_ally_dist(allies: &Vec<Pos>, q: Pos) -> (d: u64)
    ensures
        d == nearest_ally(allies@, q),
{
    let mut best: u64 = 999;
    let mut k: usize = 0;
    while k < allies.len()
        invariant
            k <= allies@.len(),
            best == nearest_ally(allies@.take(k as int), q),
            best <= 999,
        decreases allies@.len() - k,
    {
        assert(allies@.take(k + 1).drop_last() =~= allies@.take(k as int));
        let d = manhattan(q, allies[k]);
        if d < best {
            best = d;
        }
        k += 1;
    }
    assert(allies@.take(allies@.len() as int) =~= allies@);
    best
}

/// The tile a loner steers to: a neighbour closer to the goal and away from
/// every ally, at least as far from its nearest ally as any other such
/// neighbour, and the first of those in the order east, west, south, north.
pub open spec fn loner_pick(map: DungeonMap, from: Pos, goal: Pos, allies: Seq<Pos>, t: Pos) -> bool {
    &&& dist(t, goal) < dist(from, goal)
    &&& nearest_ally(allies, t) > 0
    &&& forall|k: int, q: Pos| #[trigger] open_step(map, from, k, q) && dist(q, goal) < dist(from, goal) ==> nearest_ally(allies, q) <= nearest_ally(allies, t)
    &&& exists|k: int| 0 <= k < 4 && #[trigger] neighbour(from, k) == Some(t) && forall|j: int, q: Pos|
        0 <= j < k && #[trigger] open_step(map, from, j, q) && dist(q, goal) < dist(from, goal) ==> nearest_ally(allies, q) < nearest_ally(allies, t)
}

/// The tile a loner steps to, if steering applies.
pub fn loner_step(map: &DungeonMap, from: Pos, goal: Pos, allies: &Vec<Pos>) -> (r: Option<Pos>)
    requires
        map.wf(),
        from.0 < i32::MAX,
        from.1 < i32::MAX,
    ensures
        r matches Some(t) ==> map.walkable(t) && loner_pick(*map, from, goal, allies@, t),
        r is None ==> forall|k: int, q: Pos| #[trigger] open_step(*map, from, k, q) && dist(q, goal) < dist(from, goal) ==> nearest_ally(allies@, q) <= 0,
{
    let here = manhattan(from, goal);
    let mut best: Option<Pos> = None;
    let mut max_d: u64 = 0;
    let mut k: usize = 0;
    while k < 4
        invariant
            map.wf(),
            from.0 < i32::MAX,
            from.1 < i32::MAX,
            k <= 4,
            here == dist(from, goal),
            match best {
                Some(t) => (exists|kb: int| 0 <= kb < k && #[trigger] neighbour(from, kb) == Some(t) && forall|j: int, q: Pos|
                    0 <= j < kb && #[trigger] open_step(*map, from, j, q) && dist(q, goal) < here ==> nearest_ally(allies@, q) < max_d)
                    && map.walkable(t) && dist(t, goal) < here && max_d == nearest_ally(allies@, t) && max_d > 0,
                None => max_d == 0,
            },
            forall|j: int, q: Pos| j < k && #[trigger] open_step(*map, from, j, q) && dist(q, goal) < here ==> nearest_ally(allies@, q) <= max_d,
        decreases 4 - k,
    {
        match neighbour_of(from, k) {
            Some(q) => {
                if map.is_walkable(q.0, q.1) && manhattan(q, goal) < here {
                    let d = nearest_ally_dist(allies, q);
                    if d > max_d {
                        max_d = d;
                        best = Some(q);
                    }
                }
            },
            None => {},
        }
        k += 1;
    }
    best
}

/// Some walkable neighbour of `from` brings a loner closer to `goal` while
/// keeping a distance from its nearest ally, so its steering applies.
pub open spec fn steering_applies(map: DungeonMap, from: Pos, goal: Pos, allies: Seq<Pos>) -> bool {
    exists|k: int, q: Pos| #[trigger] open_step(map, from, k, q) && dist(q, goal) < dist(from, goal) && nearest_ally(allies, q) > 0
}

/// Tile `t` starts a walk to `goal` one step shorter than any walk to it
/// from `from`: it lies one step along a shortest walk.
pub open spec fn step_nearer(map: DungeonMap, from: Pos, t: Pos, goal: Pos) -> bool {
    forall|q: Seq<Pos>| #[trigger] connects(map, q, from, goal) ==> exists|q2: Seq<Pos>|
        #[trigger] connects(map, q2, t, goal) && q2.len() + 1 <= q.len()
}

pub proof fn lemma_neighbour_adjacent(p: Pos, k: int, q: Pos)
    requires
        0 <= k < 4,
        neighbour(p, k) == Some(q),
        p.0 < i32::MAX,
        p.1 < i32::MAX,
    ensures
        adjacent(p, q),
{
}

/// The tile a hero steps to this turn on its way to `goal`: the second tile
/// of the shortest path found there (so one step nearer the goal along the
/// shortest walks), unless it is a loner whose steering applies;
/// none when it already stands on the goal or no path leads there.
/// `allies` are the other heroes' tiles.
pub fn hero_step(map: &DungeonMap, from: Pos, goal: Pos, loner: bool, allies: &Vec<Pos>) -> (r: Option<Pos>)
    requires
        map.wf(),
        search_fits(*map),
        from.0 < i32::MAX,
        from.1 < i32::MAX,
    ensures
        r is None <==> (from == goal || !reachable(*map, from, goal)),
        r matches Some(t) ==> map.walkable(t) && adjacent(from, t),
        r matches Some(t) ==> (!(loner && steering_applies(*map, from, goal, allies@)) ==> reachable(*map, t, goal)),
        r matches Some(t) ==> (!(loner && steering_applies(*map, from, goal, allies@)) ==> step_nearer(*map, from, t, goal)),
        r matches Some(t) ==> (loner && steering_applies(*map, from, goal, allies@) ==> loner_pick(*map, from, goal, allies@, t)),
{
    let path = match find_path(map, from, goal) {
        Some(p) => p,
        None => {
            return None;
        },
    };
    if path.len() <= 1 {
        proof {
            if from != goal {
                assert(path@[0] == from && path@[path@.len() - 1] == goal);
            }
        }
        return None;
    }
    let next = path[1];
    proof {
        assert(from != goal);
        assert(connects(*map, path@, from, goal));
        let rest = path@.subrange(1, path@.len() as int);
        assert(adjacent(path@[0], path@[1]));
        assert(map.walkable(path@[1]));
        assert forall|k: int| 0 <= k < rest.len() implies map.walkable(#[trigger] rest[k]) by {
            assert(rest[k] == path@[k + 1]);
        }
        assert forall|k: int| 0 <= k < rest.len() - 1 implies adjacent(#[trigger] rest[k], rest[k + 1]) by {
            assert(rest[k] == path@[k + 1]);
            assert(rest[k + 1] == path@[k + 2]);
        }
        assert(connects(*map, rest, next, goal));
        assert forall|q: Seq<Pos>| #[trigger] connects(*map, q, from, goal) implies exists|q2: Seq<Pos>|
            #[trigger] connects(*map, q2, next, goal) && q2.len() + 1 <= q.len() by {
            assert(connects(*map, rest, next, goal));
        }
        assert(step_nearer(*map, from, next, goal));
    }
    if loner {
        match loner_step(map, from, goal, allies) {
            Some(t) => {
                proof {
                    let k = choose|k: int| 0 <= k < 4 && neighbour(from, k) == Some(t);
                    lemma_neighbour_adjacent(from, k, t);
                    assert(open_step(*map, from, k, t));
                }
                return Some(t);
            },
            None => {},
        }
    }
    Some(next)
}

/// Rarity of a dropped piece of gear from a roll in `0..100`: half common,
/// a quarter uncommon, then rare, epic, and two in a hundred legendary.
pub open spec fn drop_rarity(roll: u32) -> GearRarity {
    if roll < 50 {
        GearRarity::Common
    } else if roll < 75 {
        GearRarity::Uncommon
    } else if roll < 90 {
        GearRarity::Rare
    } else if roll < 98 {
        GearRarity::Epic
    } else {
        GearRarity::Legendary
    }
}

/// The rarity of a dropped piece of gear.
pub fn rarity_for_roll(roll: u32) -> (r: GearRarity)
    ensures
        r == drop_rarity(roll),
{
    if roll < 50 {
        GearRarity::Common
    } else if roll < 75 {
        GearRarity::Uncommon
    } else if roll < 90 {
        GearRarity::Rare
    } else if roll < 98 {
        GearRarity::Epic
    } else {
        GearRarity::Legendary
    }
}

/// The slot of a dropped piece of gear from a roll in `0..3`.
pub fn slot_for_roll(roll: u32) -> (s: GearSlot)
    ensures
        s == (if roll == 0 { GearSlot::Weapon } else if roll == 1 { GearSlot::Armor } else { GearSlot::Accessory }),
{
    if roll == 0 {
        GearSlot::Weapon
    } else if roll == 1 {
        GearSlot::Armor
    } else {
        GearSlot::Accessory
    }
}

/// The affix of a dropped piece of gear: rare or better gets one by a roll
/// in `0..3`.
pub fn affix_for_roll(rarity: GearRarity, roll: u32) -> (a: Option<BehavioralAffix>)
    ensures
        a == (if crate::equipment::rarity_rank(rarity) >= 2 {
            Some(if roll == 0 { BehavioralAffix::Lifesteal } else if roll == 1 { BehavioralAffix::Initiative } else { BehavioralAffix::CleaveOnHit })
        } else {
            None
        }),
{
    if rarity.rank() >= 2 {
        Some(if roll == 0 {
            BehavioralAffix::Lifesteal
        } else if roll == 1 {
            BehavioralAffix::Initiative
        } else {
            BehavioralAffix::CleaveOnHit
        })
    } else {
        None
    }
}

/// Equip dropped gear when it is at least as rare as what the slot holds:
/// the slot takes its rarity and affix, and a tier of one if it had none.
/// Returns whether the gear was taken.
pub fn equip_drop(eq: &mut HeroEquipment, slot: GearSlot, rarity: GearRarity, affix: Option<BehavioralAffix>) -> (taken: bool)
    ensures
        taken == (crate::equipment::rarity_rank(rarity) >= crate::equipment::rarity_rank(old(eq).rarity_of(slot))),
        !taken ==> *final(eq) == *old(eq),
        taken ==> {
            &&& final(eq).rarity_of(slot) == rarity
            &&& final(eq).tier_of(slot) == if old(eq).tier_of(slot) == 0 { 1 } else { old(eq).tier_of(slot) }
            &&& forall|s: GearSlot| s != slot ==> final(eq).tier_of(s) == old(eq).tier_of(s) && final(eq).rarity_of(s) == old(eq).rarity_of(s)
        },
        taken && slot == GearSlot::Weapon ==> final(eq).weapon_affix == affix && final(eq).armor_affix == old(eq).armor_affix && final(eq).accessory_affix == old(eq).accessory_affix,
        taken && slot == GearSlot::Armor ==> final(eq).armor_affix == affix && final(eq).weapon_affix == old(eq).weapon_affix && final(eq).accessory_affix == old(eq).accessory_affix,
        taken && slot == GearSlot::Accessory ==> final(eq).accessory_affix == affix && final(eq).weapon_affix == old(eq).weapon_affix && final(eq).armor_affix == old(eq).armor_affix,
{
    if rarity.rank() < eq.rarity(slot).rank() {
        return false;
    }
    match slot {
        GearSlot::Weapon => {
            eq.weapon_rarity = rarity;
            eq.weapon_affix = affix;
            if eq.weapon_tier == 0 {
                eq.weapon_tier = 1;
            }
        },
        GearSlot::Armor => {
            eq.armor_rarity = rarity;
            eq.armor_affix = affix;
            if eq.armor_tier == 0 {
                eq.armor_tier = 1;
            }
        },
        GearSlot::Accessory => {
            eq.accessory_rarity = rarity;
            eq.accessory_affix = affix;
            if eq.accessory_tier == 0 {
                eq.accessory_tier = 1;
            }
        },
    }
    true
}

/// A token's stats after its gear changed mid-mission: the new maximum,
/// hit points moved by the same amount but kept at one or more, and the
/// new attack and defense.
pub fn refresh_stats(stats: &mut super::entities::CombatStats, new_hp: i32, new_attack: i32, new_defense: i32)
    requires
        -100 * ROLL_BOUND <= old(stats).hp <= 100 * ROLL_BOUND,
        -100 * ROLL_BOUND <= old(stats).max_hp <= 100 * ROLL_BOUND,
        -100 * ROLL_BOUND <= new_hp <= 100 * ROLL_BOUND,
    ensures
        final(stats).max_hp == new_hp,
        final(stats).hp == (if old(stats).hp + (new_hp - old(stats).max_hp) >= 1 { old(stats).hp + (new_hp - old(stats).max_hp) } else { 1 }),
        final(stats).attack == new_attack,
        final(stats).defense == new_defense,
        final(stats).speed == old(stats).speed,
{
    let diff = new_hp - stats.max_hp;
    stats.max_hp = new_hp;
    let h = stats.hp + diff;
    stats.hp = if h >= 1 { h } else { 1 };
    stats.attack = new_attack;
    stats.defense = new_defense;
}


/// Whom an enemy casts an ability on.
#[derive(Debug, Clone, Copy, PartialEq, Eq, Structural)]
pub enum CastTarget {
    Caster,
    Hero(u64),
    Ally(u64),
}

/// What an enemy knows when it picks an ability.
#[derive(Debug, Clone, Copy)]
pub struct EnemyTurnView {
    pub pos: Pos,
    pub room: Option<usize>,
    pub hp: i32,
    pub max_hp: i32,
    pub heroes_in_room: bool,
    pub combat_round_count: u32,
    pub enraged: bool,
    pub target: Option<(u64, Pos)>,
}

/// Another enemy, as a healer sees it.
#[derive(Debug, Clone, Copy)]
pub struct AllyView {
    pub id: u64,
    pub pos: Pos,
    pub room: Option<usize>,
    pub hp: i32,
    pub max_hp: i32,
}

/// Hit points below `num / den` of the maximum (a maximum below one counts as one).
pub open spec fn hp_share_below(hp: i32, max_hp: i32, num: int, den: int) -> bool {
    hp * den < num * (if max_hp >= 1 { max_hp as int } else { 1int })
}

fn share_below(hp: i32, max_hp: i32, num: i64, den: i64) -> (b: bool)
    requires
        0 <= num <= 100000,
        0 < den <= 100,
    ensures
        b == hp_share_below(hp, max_hp, num as int, den as int),
{
    let m: i64 = if max_hp >= 1 { max_hp as i64 } else { 1 };
    assert(-100 * 0x8000_0000 <= hp * den <= 100 * 0x8000_0000) by (nonlinear_arith)
        requires
            0 < den <= 100,
            i32::MIN <= hp <= i32::MAX,
    ;
    assert(0 <= num * m <= 100000 * 0x8000_0000) by (nonlinear_arith)
        requires
            0 <= num <= 100000,
            1 <= m <= i32::MAX,
    ;
    (hp as i64) * den < num * m
}

/// An ally a healer may mend: alive, hurt, in the healer's room, within range.
pub open spec fn mendable(a: AllyView, v: EnemyTurnView, range: u32) -> bool {
    a.hp > 0 && a.hp < a.max_hp && v.room is Some && a.room == v.room && dist(v.pos, a.pos) <= range
}

/// The weakest ally a healer may mend, the first listed on a tie.
pub open spec fn weakest_mendable(allies: Seq<AllyView>, v: EnemyTurnView, range: u32) -> Option<int>
    decreases allies.len(),
{
    if allies.len() == 0 {
        None
    } else {
        let prev = weakest_mendable(allies.drop_last(), v, range);
        let last = allies.len() - 1;
        if mendable(allies[last], v, range) && (prev matches Some(p) ==> allies[last].hp < allies[p].hp) {
            Some(last)
        } else {
            prev
        }
    }
}

proof fn lemma_weakest_in_range(allies: Seq<AllyView>, v: EnemyTurnView, range: u32)
    ensures
        weakest_mendable(allies, v, range) matches Some(a) ==> 0 <= a < allies.len(),
    decreases allies.len(),
{
    if allies.len() > 0 {
        lemma_weakest_in_range(allies.drop_last(), v, range);
    }
}

fn weakest_ally(allies: &Vec<AllyView>, v: &EnemyTurnView, range: u32) -> (r: Option<usize>)
    ensures
        r matches Some(a) ==> a < allies@.len(),
        match r {
            Some(a) => weakest_mendable(allies@, *v, range) == Some(a as int),
            None => weakest_mendable(allies@, *v, range) is None,
        },
{
    let mut best: Option<usize> = None;
    let mut k: usize = 0;
    while k < allies.len()
        invariant
            k <= allies@.len(),
            best matches Some(a) ==> a < k,
            match best {
                Some(a) => weakest_mendable(allies@.take(k as int), *v, range) == Some(a as int),
                None => weakest_mendable(allies@.take(k as int), *v, range) is None,
            },
        decreases allies@.len() - k,
    {
        let ghost t = allies@.take(k + 1);
        assert(t.drop_last() =~= allies@.take(k as int));
        assert(t[k as int] == allies@[k as int]);
        let a = allies[k];
        let ok = a.hp > 0 && a.hp < a.max_hp && v.room.is_some() && match (a.room, v.room) {
            (Some(x), Some(y)) => x == y,
            _ => false,
        } && manhattan(v.pos, a.pos) <= range as u64;
        if ok {
            let better = match best {
                None => true,
                Some(b) => a.hp < allies[b].hp,
            };
            if better {
                best = Some(k);
            }
        }
        k += 1;
    }
    assert(allies@.take(allies@.len() as int) =~= allies@);
    best
}

/// What casting an ability would do now, if the enemy would cast it: the
/// boss's slam and summon need heroes in the room (the summon also hit
/// points below three fifths), its enrage eight combat rounds and no
/// enrage yet, a slash a target next to it; any other ability goes by its
/// definition: damage at a target in range, a heal on the weakest ally it
/// may mend, a shield or buff when its hit-point rule allows.
pub open spec fn cast_of(ab: ActiveAbilityState, defs: Option<Seq<AbilityDef>>, v: EnemyTurnView, allies: Seq<AllyView>) -> Option<CastTarget> {
    if ab.remaining_cooldown != 0 {
        None
    } else if ab.ability_id@ == "Boss Slam"@ {
        if v.heroes_in_room { Some(CastTarget::Caster) } else { None }
    } else if ab.ability_id@ == "Boss Summon"@ {
        if hp_share_below(v.hp, v.max_hp, 3, 5) && v.heroes_in_room { Some(CastTarget::Caster) } else { None }
    } else if ab.ability_id@ == "Boss Enrage"@ {
        if v.combat_round_count >= 8 && !v.enraged { Some(CastTarget::Caster) } else { None }
    } else if ab.ability_id@ == "Slash"@ {
        match v.target {
            Some(t) => if dist(v.pos, t.1) <= 1 { Some(CastTarget::Hero(t.0)) } else { None },
            None => None,
        }
    } else {
        match defs {
            None => None,
            Some(d) => match first_ability(d, ab.ability_id@) {
                None => None,
                Some(i) => {
                    let def = d[i];
                    match def.effect {
                        AbilityEffect::Damage | AbilityEffect::Debuff => match v.target {
                            Some(t) => if dist(v.pos, t.1) <= def.range { Some(CastTarget::Hero(t.0)) } else { None },
                            None => None,
                        },
                        AbilityEffect::Heal => match weakest_mendable(allies, v, def.range) {
                            Some(a) => Some(CastTarget::Ally(allies[a].id)),
                            None => None,
                        },
                        AbilityEffect::Shield | AbilityEffect::Buff => if (match def.ai_priority {
                            AiPriorityRule::HpBelowPercent(p) => hp_share_below(v.hp, v.max_hp, p as int, 100),
                            AiPriorityRule::Always => true,
                        }) {
                            Some(CastTarget::Caster)
                        } else {
                            None
                        },
                    }
                },
            },
        }
    }
}


fn cast_for(ab: &ActiveAbilityState, db: Option<&AbilityDatabase>, v: &EnemyTurnView, allies: &Vec<AllyView>) -> (c: Option<CastTarget>)
    requires
        db matches Some(d) ==> forall|i: int| 0 <= i < d.0@.len() ==> match (#[trigger] d.0@[i]).ai_priority {
            AiPriorityRule::HpBelowPercent(p) => p <= 100000,
            AiPriorityRule::Always => true,
        },
    ensures
        c == cast_of(*ab, match db {
            Some(d) => Some(d.0@),
            None => None,
        }, *v, allies@),
{
    let id = ab.ability_id.as_str();
    if ab.remaining_cooldown != 0 {
        None
    } else if same_text(id, "Boss Slam") {
        if v.heroes_in_room { Some(CastTarget::Caster) } else { None }
    } else if same_text(id, "Boss Summon") {
        if share_below(v.hp, v.max_hp, 3, 5) && v.heroes_in_room { Some(CastTarget::Caster) } else { None }
    } else if same_text(id, "Boss Enrage") {
        if v.combat_round_count >= 8 && !v.enraged { Some(CastTarget::Caster) } else { None }
    } else if same_text(id, "Slash") {
        match v.target {
            Some((t, tp)) => if manhattan(v.pos, tp) <= 1 { Some(CastTarget::Hero(t)) } else { None },
            None => None,
        }
    } else {
        match db {
            None => None,
            Some(d) => match d.get(&ab.ability_id) {
                None => None,
                Some(def) => {
                    proof {
                        let i = first_ability(d.0@, ab.ability_id@).unwrap();
                        assert(d.0@[i] == *def);
                    }
                    match def.effect {
                        AbilityEffect::Damage | AbilityEffect::Debuff => match v.target {
                            Some((t, tp)) => if manhattan(v.pos, tp) <= def.range as u64 { Some(CastTarget::Hero(t)) } else { None },
                            None => None,
                        },
                        AbilityEffect::Heal => match weakest_ally(allies, v, def.range) {
                            Some(a) => Some(CastTarget::Ally(allies[a].id)),
                            None => None,
                        },
                        AbilityEffect::Shield | AbilityEffect::Buff => {
                            let go = match def.ai_priority {
                                AiPriorityRule::HpBelowPercent(p) => share_below(v.hp, v.max_hp, p as i64, 100),
                                AiPriorityRule::Always => true,
                            };
                            if go { Some(CastTarget::Caster) } else { None }
                        },
                    }
                },
            },
        }
}
}

/// The ability an enemy casts: the first ready one that would do something now.
pub fn choose_enemy_cast(
    abilities: &Vec<ActiveAbilityState>,
    db: Option<&AbilityDatabase>,
    v: &EnemyTurnView,
    allies: &Vec<AllyView>,
) -> (r: Option<(usize, CastTarget)>)
    requires
        db matches Some(d) ==> forall|i: int| 0 <= i < d.0@.len() ==> match (#[trigger] d.0@[i]).ai_priority {
            AiPriorityRule::HpBelowPercent(p) => p <= 100000,
            AiPriorityRule::Always => true,
        },
    ensures
        ({
            let defs = match db {
                Some(d) => Some(d.0@),
                None => None,
            };
            match r {
                Some((k, t)) => k < abilities@.len() && cast_of(abilities@[k as int], defs, *v, allies@) == Some(t)
                    && forall|j: int| 0 <= j < k ==> cast_of(#[trigger] abilities@[j], defs, *v, allies@) is None,
                None => forall|j: int| 0 <= j < abilities@.len() ==> cast_of(#[trigger] abilities@[j], defs, *v, allies@) is None,
            }
        }),
{
    let ghost defs = match db {
        Some(d) => Some(d.0@),
        None => None,
    };
    let mut k: usize = 0;
    while k < abilities.len()
        invariant
            k <= abilities@.len(),
            defs == match db {
                Some(d) => Some(d.0@),
                None => None::<Seq<AbilityDef>>,
            },
            db matches Some(d) ==> forall|i: int| 0 <= i < d.0@.len() ==> match (#[trigger] d.0@[i]).ai_priority {
                AiPriorityRule::HpBelowPercent(p) => p <= 100000,
                AiPriorityRule::Always => true,
            },
            forall|j: int| 0 <= j < k ==> cast_of(#[trigger] abilities@[j], defs, *v, allies@) is None,
        decreases abilities@.len() - k,
    {
        let c = cast_for(&abilities[k], db, v, allies);
        assert(c == cast_of(abilities@[k as int], defs, *v, allies@));
        match c {
            Some(t) => {
                return Some((k, t));
            },
            None => {},
        }
        k += 1;
    }
    None
}


/// Whether another hero stands within three tiles in the same room.
pub fn near_ally(me: u64, room: Option<usize>, pos: Pos, allies: &Vec<(u64, Option<usize>, Pos)>) -> (b: bool)
    ensures
        b == exists|k: int| 0 <= k < allies@.len() && (#[trigger] allies@[k]).0 != me && room is Some && allies@[k].1 == room
            && dist(pos, allies@[k].2) <= 3,
{
    let mut k: usize = 0;
    while k < allies.len()
        invariant
            k <= allies@.len(),
            forall|j: int| 0 <= j < k ==> !((#[trigger] allies@[j]).0 != me && room is Some && allies@[j].1 == room
                && dist(pos, allies@[j].2) <= 3),
        decreases allies@.len() - k,
    {
        let (id, r, p) = allies[k];
        let same = match (r, room) {
            (Some(a), Some(b)) => a == b,
            _ => false,
        };
        if id != me && same && manhattan(pos, p) <= 3 {
            assert(allies@[k as int] == (id, r, p));
            return true;
        }
        k += 1;
    }
    false
}

/// Whether a living hero with the Leader trait stands in the room.
pub fn leader_in_room(room: Option<usize>, heroes: &Vec<(i32, Option<usize>, bool)>) -> (b: bool)
    ensures
        b == exists|k: int| 0 <= k < heroes@.len() && (#[trigger] heroes@[k]).0 > 0 && room is Some && heroes@[k].1 == room
            && heroes@[k].2,
{
    let mut k: usize = 0;
    while k < heroes.len()
        invariant
            k <= heroes@.len(),
            forall|j: int| 0 <= j < k ==> !((#[trigger] heroes@[j]).0 > 0 && room is Some && heroes@[j].1 == room && heroes@[j].2),
        decreases heroes@.len() - k,
    {
        let (hp, r, leader) = heroes[k];
        let same = match (r, room) {
            (Some(a), Some(b)) => a == b,
            _ => false,
        };
        if hp > 0 && same && leader {
            assert(heroes@[k as int] == (hp, r, leader));
            return true;
        }
        k += 1;
    }
    false
}

/// The ids of the tokens other than `exclude` within `radius` of `center`,
/// in order.
pub open spec fn ids_within(tokens: Seq<(u64, Pos)>, exclude: u64, center: Pos, radius: int) -> Seq<u64>
    decreases tokens.len(),
{
    if tokens.len() == 0 {
        Seq::empty()
    } else {
        let t = tokens.last();
        let rest = ids_within(tokens.drop_last(), exclude, center, radius);
        if t.0 != exclude && dist(center, t.1) <= radius {
            rest.push(t.0)
        } else {
            rest
        }
    }
}

/// Who an area effect reaches: `first` (the caster or the aimed-at
/// target), then every other token within `radius` of `center`, in order.
pub fn area_targets(first: u64, center: Pos, radius: u64, tokens: &Vec<(u64, Pos)>) -> (v: Vec<u64>)
    ensures
        v@ == seq![first] + ids_within(tokens@, first, center, radius as int),
{
    let mut v: Vec<u64> = Vec::new();
    v.push(first);
    let mut k: usize = 0;
    while k < tokens.len()
        invariant
            k <= tokens@.len(),
            v@ == seq![first] + ids_within(tokens@.take(k as int), first, center, radius as int),
        decreases tokens@.len() - k,
    {
        assert(tokens@.take(k + 1).drop_last() =~= tokens@.take(k as int));
        let (id, p) = tokens[k];
        assert(tokens@.take(k + 1).last() == (id, p));
        if id != first && manhattan(center, p) <= radius {
            v.push(id);
        }
        k += 1;
        assert(v@ =~= seq![first] + ids_within(tokens@.take(k as int), first, center, radius as int));
    }
    assert(tokens@.take(tokens@.len() as int) =~= tokens@);
    v
}

/// The amount of a support effect: base plus roll plus bonus, cut to nine
/// tenths (rounded down) for a loner near an ally, nothing on cursed ground.
pub open spec fn support_of(base: i32, roll: i32, bonus: i32, loner_near_ally: bool, cursed: bool) -> int {
    let total = base + roll + bonus;
    if cursed {
        0
    } else if loner_near_ally {
        nine_tenths(total)
    } else {
        total
    }
}

/// The amount of a support effect (a rallying cry, a shield, a mass heal).
pub fn support_amount(base: i32, roll: i32, bonus: i32, loner_near_ally: bool, cursed: bool) -> (a: i32)
    requires
        -4 * ROLL_BOUND <= base <= 4 * ROLL_BOUND,
        0 <= roll <= ROLL_BOUND,
        0 <= bonus <= ROLL_BOUND,
    ensures
        a == support_of(base, roll, bonus, loner_near_ally, cursed),
{
    let total = base + roll + bonus;
    if cursed {
        0
    } else if loner_near_ally {
        let p: i64 = total as i64 * 9;
        if p >= 0 {
            (p / 10) as i32
        } else {
            let q: i64 = (-p + 9) / 10;
            assert(-q == p / 10) by (nonlinear_arith)
                requires
                    p < 0,
                    q == (-p + 9) / 10,
            ;
            (-q) as i32
        }
    } else {
        total
    }
}

/// An enemy healer's heal: its roll plus half its attack.
pub fn enemy_heal_amount(roll: i32, attack: i32) -> (h: i32)
    requires
        0 <= roll <= 20,
        -ROLL_BOUND <= attack <= ROLL_BOUND,
    ensures
        h == roll + half_attack(attack),
{
    roll + half_of(attack)
}

} // verus!
