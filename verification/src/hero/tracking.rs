//! Keeping heroes' service records from the mission log: kills, near
//! deaths, gold found, missions run, timeline lines, and the titles these
//! earn.

use vstd::prelude::*;

use super::epithet::{check_epithet, epithet_view, format_hero_name, hero_display_name, title_key, Epithet};
use super::history::HeroHistory;
use crate::equipment::GearRarity;
use crate::localization::{tr_spec, StringTable};
use crate::mission::data::{first_ability, AbilityDatabase, AbilityDef};
use crate::mission::entities::trunc_div;
use crate::text::{contains_str, decimal, occurs_in, same_text, u64_to_string};

verus! {

/// A hero on the roster, with the record kept for them.
#[derive(Debug)]
pub struct RosterEntry {
    pub id: u64,
    pub name: String,
    pub history: HeroHistory,
    pub epithet: Epithet,
}

/// The name of a hero's token on the map: "Hero Token: " and the hero's
/// name with their title.
pub open spec fn token_name_of(name: Seq<char>, epithet: Option<Option<Seq<char>>>, hundred: Seq<char>) -> Seq<char> {
    "Hero Token: "@ + hero_display_name(name, epithet, hundred)
}

/// The name a hero's token takes, at spawn and again when the hero earns a
/// title mid-mission (for each hero `track_hero_history` reports).
pub fn token_name(name: &str, epithet: Option<&Epithet>, table: &StringTable) -> (s: String)
    ensures
        s@ == token_name_of(name@, epithet_view(epithet), tr_spec(table.view_entries(), "epithet.hundred_mission"@)),
{
    let shown = format_hero_name(name, epithet, table);
    let mut s = String::from_str("Hero Token: ");
    s.append(shown.as_str());
    proof {
        reveal_strlit("Hero Token: ");
    }
    s
}

/// A hero's token on a mission's map: whose it is and its hit points.
#[derive(Debug, Clone, Copy, PartialEq, Eq, Structural)]
pub struct TokenState {
    pub hero: u64,
    pub hp: i32,
    pub max_hp: i32,
}

/// A mission under way: its name, the heroes sent, and their tokens.
#[derive(Debug, Clone)]
pub struct MissionState {
    pub id: u64,
    pub name: String,
    pub party: Vec<u64>,
    pub tokens: Vec<TokenState>,
}

/// What a line of the mission log reports.
#[derive(Debug, Clone)]
pub enum LogPayload {
    Attack { attacker: String, defender: String, is_hit: bool },
    Ability { attacker: String, defender: String, ability_name: String, is_hit: bool, effect_type: String },
    ChestOpened { hero_name: String, gold: u32 },
    EventTriggered { event_name: String, hero_name: String, outcome_text: String },
    GearDrop { hero_name: String, item_name: String, rarity: GearRarity },
    Death { name: String, is_enemy: bool },
    Loot { gold: u32 },
    Failure,
    RoomEntry { hero_name: String, room_name: String },
    TrapTriggered { hero_name: String, damage: i32 },
    Other,
}

/// A line of a mission's log.
#[derive(Debug, Clone)]
pub struct LogEvent {
    pub mission: u64,
    pub payload: LogPayload,
}

/// A service record as plain values.
pub struct RecordView {
    pub id: u64,
    pub name: Seq<char>,
    pub missions_run: int,
    pub kills: int,
    pub near_deaths: int,
    pub rescues_given: int,
    pub rescues_received: int,
    pub lifetime_gold: int,
    pub timeline: Seq<Seq<char>>,
    pub epithet: Option<Seq<char>>,
}

/// A roster entry as plain values.
pub open spec fn record_view(e: RosterEntry) -> RecordView {
    RecordView {
        id: e.id,
        name: e.name@,
        missions_run: e.history.missions_run as int,
        kills: e.history.kills as int,
        near_deaths: e.history.near_deaths as int,
        rescues_given: e.history.rescues_given as int,
        rescues_received: e.history.rescues_received as int,
        lifetime_gold: e.history.lifetime_gold as int,
        timeline: e.history.timeline@.map_values(|t: String| t@),
        epithet: match e.epithet.0 {
            Some(t) => Some(t@),
            None => None,
        },
    }
}

/// The roster as plain values.
pub open spec fn roster_view(r: Seq<RosterEntry>) -> Seq<RecordView> {
    r.map_values(|e: RosterEntry| record_view(e))
}

/// A counter raised by `n`, stopping at the largest `u32`.
pub open spec fn bump(c: int, n: int) -> int {
    if c + n > u32::MAX {
        u32::MAX as int
    } else {
        c + n
    }
}

/// Whether the log names this hero: the name itself, or a text holding it.
pub open spec fn names_hero(r: RecordView, name: Seq<char>) -> bool {
    r.name == name || occurs_in(name, r.name)
}

/// The first hero from `i` on that the log name `name` refers to.
pub open spec fn find_hero_from(r: Seq<RecordView>, name: Seq<char>, i: int) -> Option<int>
    decreases r.len() - i,
{
    if i < 0 || i >= r.len() {
        None
    } else if names_hero(r[i], name) {
        Some(i)
    } else {
        find_hero_from(r, name, i + 1)
    }
}

/// The first hero on the roster that the log name `name` refers to.
pub open spec fn find_hero(r: Seq<RecordView>, name: Seq<char>) -> Option<int> {
    find_hero_from(r, name, 0)
}

/// The first hero from `i` on with this id.
pub open spec fn find_id_from(r: Seq<RecordView>, id: u64, i: int) -> Option<int>
    decreases r.len() - i,
{
    if i < 0 || i >= r.len() {
        None
    } else if r[i].id == id {
        Some(i)
    } else {
        find_id_from(r, id, i + 1)
    }
}

/// The first hero on the roster with this id.
pub open spec fn find_id(r: Seq<RecordView>, id: u64) -> Option<int> {
    find_id_from(r, id, 0)
}

/// The hero on the roster that the log name `name` refers to: the first
/// whose name it is or holds.
pub fn find_hero_by_name(heroes: &Vec<RosterEntry>, name: &str) -> (r: Option<usize>)
    ensures
        match r {
            Some(k) => find_hero(roster_view(heroes@), name@) == Some(k as int),
            None => find_hero(roster_view(heroes@), name@) is None,
        },
        r matches Some(k) ==> k < heroes@.len(),
{
    let ghost rv = roster_view(heroes@);
    let mut i: usize = 0;
    while i < heroes.len()
        invariant
            rv == roster_view(heroes@),
            i <= heroes@.len(),
            find_hero(rv, name@) == find_hero_from(rv, name@, i as int),
        decreases heroes@.len() - i,
    {
        assert(rv[i as int] == record_view(heroes@[i as int]));
        if same_text(heroes[i].name.as_str(), name) || contains_str(name, heroes[i].name.as_str()) {
            return Some(i);
        }
        i += 1;
    }
    None
}

/// The place on the roster of the hero with this id, if any.
pub fn find_hero_by_id(heroes: &Vec<RosterEntry>, id: u64) -> (r: Option<usize>)
    ensures
        match r {
            Some(k) => find_id(roster_view(heroes@), id) == Some(k as int),
            None => find_id(roster_view(heroes@), id) is None,
        },
        r matches Some(k) ==> k < heroes@.len(),
{
    let ghost rv = roster_view(heroes@);
    let mut i: usize = 0;
    while i < heroes.len()
        invariant
            rv == roster_view(heroes@),
            i <= heroes@.len(),
            find_id(rv, id) == find_id_from(rv, id, i as int),
        decreases heroes@.len() - i,
    {
        assert(rv[i as int] == record_view(heroes@[i as int]));
        if heroes[i].id == id {
            return Some(i);
        }
        i += 1;
    }
    None
}

/// A record with one more timeline line.
pub open spec fn with_line(r: RecordView, line: Seq<char>) -> RecordView {
    RecordView { timeline: r.timeline.push(line), ..r }
}

/// A record with `gold` more found.
pub open spec fn with_gold(r: RecordView, gold: int) -> RecordView {
    RecordView { lifetime_gold: bump(r.lifetime_gold, gold), ..r }
}

/// A record with one more kill.
pub open spec fn with_kill(r: RecordView) -> RecordView {
    RecordView { kills: bump(r.kills, 1), ..r }
}

/// A record with one more mission run.
pub open spec fn with_mission(r: RecordView) -> RecordView {
    RecordView { missions_run: bump(r.missions_run, 1), ..r }
}

/// A record with one more near death.
pub open spec fn with_near_death(r: RecordView) -> RecordView {
    RecordView { near_deaths: bump(r.near_deaths, 1), ..r }
}

/// A record with a new title.
pub open spec fn with_title(r: RecordView, title: Seq<char>) -> RecordView {
    RecordView { epithet: Some(title), ..r }
}

proof fn lemma_replace(v: Seq<RosterEntry>, i: int, e: RosterEntry)
    requires
        0 <= i < v.len(),
    ensures
        roster_view(v.remove(i).insert(i, e)) == roster_view(v).update(i, record_view(e)),
{
    assert(roster_view(v.remove(i).insert(i, e)) =~= roster_view(v).update(i, record_view(e)));
}

/// Add a line to the timeline of the hero at `i`.
fn push_line(heroes: &mut Vec<RosterEntry>, i: usize, line: String)
    requires
        i < old(heroes)@.len(),
    ensures
        roster_view(final(heroes)@) == roster_view(old(heroes)@).update(i as int, with_line(roster_view(old(heroes)@)[i as int], line@)),
        final(heroes)@.len() == old(heroes)@.len(),
{
    let ghost v = heroes@;
    let mut e = heroes.remove(i);
    let ghost e0 = e;
    e.history.add_timeline_entry(line);
    proof {
        assert(record_view(e).timeline =~= record_view(e0).timeline.push(line@));
        assert(record_view(e) == with_line(record_view(e0), line@));
        lemma_replace(v, i as int, e);
    }
    heroes.insert(i, e);
}

/// Count `gold` more found by the hero at `i`.
fn add_gold(heroes: &mut Vec<RosterEntry>, i: usize, gold: u32)
    requires
        i < old(heroes)@.len(),
    ensures
        roster_view(final(heroes)@) == roster_view(old(heroes)@).update(i as int, with_gold(roster_view(old(heroes)@)[i as int], gold as int)),
        final(heroes)@.len() == old(heroes)@.len(),
{
    let ghost v = heroes@;
    let mut e = heroes.remove(i);
    e.history.lifetime_gold = e.history.lifetime_gold.saturating_add(gold);
    proof {
        lemma_replace(v, i as int, e);
    }
    heroes.insert(i, e);
}

/// Count one more kill for the hero at `i`.
fn add_kill(heroes: &mut Vec<RosterEntry>, i: usize)
    requires
        i < old(heroes)@.len(),
    ensures
        roster_view(final(heroes)@) == roster_view(old(heroes)@).update(i as int, with_kill(roster_view(old(heroes)@)[i as int])),
        final(heroes)@.len() == old(heroes)@.len(),
{
    let ghost v = heroes@;
    let mut e = heroes.remove(i);
    e.history.kills = e.history.kills.saturating_add(1);
    proof {
        lemma_replace(v, i as int, e);
    }
    heroes.insert(i, e);
}

/// Count one more mission run for the hero at `i`.
fn add_mission(heroes: &mut Vec<RosterEntry>, i: usize)
    requires
        i < old(heroes)@.len(),
    ensures
        roster_view(final(heroes)@) == roster_view(old(heroes)@).update(i as int, with_mission(roster_view(old(heroes)@)[i as int])),
        final(heroes)@.len() == old(heroes)@.len(),
{
    let ghost v = heroes@;
    let mut e = heroes.remove(i);
    e.history.missions_run = e.history.missions_run.saturating_add(1);
    proof {
        lemma_replace(v, i as int, e);
    }
    heroes.insert(i, e);
}

/// Count one more near death for the hero at `i`.
fn add_near_death(heroes: &mut Vec<RosterEntry>, i: usize)
    requires
        i < old(heroes)@.len(),
    ensures
        roster_view(final(heroes)@) == roster_view(old(heroes)@).update(i as int, with_near_death(roster_view(old(heroes)@)[i as int])),
        final(heroes)@.len() == old(heroes)@.len(),
{
    let ghost v = heroes@;
    let mut e = heroes.remove(i);
    e.history.near_deaths = e.history.near_deaths.saturating_add(1);
    proof {
        lemma_replace(v, i as int, e);
    }
    heroes.insert(i, e);
}

/// Give the hero at `i` a title.
fn set_title(heroes: &mut Vec<RosterEntry>, i: usize, title: String)
    requires
        i < old(heroes)@.len(),
    ensures
        roster_view(final(heroes)@) == roster_view(old(heroes)@).update(i as int, with_title(roster_view(old(heroes)@)[i as int], title@)),
        final(heroes)@.len() == old(heroes)@.len(),
{
    let ghost v = heroes@;
    let mut e = heroes.remove(i);
    e.epithet = Epithet(Some(title));
    proof {
        lemma_replace(v, i as int, e);
    }
    heroes.insert(i, e);
}

/// The first mission from `i` on with this id.
pub open spec fn find_mission_from(ms: Seq<MissionState>, id: u64, i: int) -> Option<int>
    decreases ms.len() - i,
{
    if i < 0 || i >= ms.len() {
        None
    } else if ms[i].id == id {
        Some(i)
    } else {
        find_mission_from(ms, id, i + 1)
    }
}

/// The first mission with this id.
pub open spec fn find_mission(ms: Seq<MissionState>, id: u64) -> Option<int> {
    find_mission_from(ms, id, 0)
}

/// The first token from `i` on that belongs to `hero`.
pub open spec fn find_token_from(ts: Seq<TokenState>, hero: u64, i: int) -> Option<int>
    decreases ts.len() - i,
{
    if i < 0 || i >= ts.len() {
        None
    } else if ts[i].hero == hero {
        Some(i)
    } else {
        find_token_from(ts, hero, i + 1)
    }
}

/// The token of `hero` on mission `mission`, if both are there.
pub open spec fn token_of(ms: Seq<MissionState>, mission: u64, hero: u64) -> Option<TokenState> {
    match find_mission(ms, mission) {
        Some(m) => match find_token_from(ms[m].tokens@, hero, 0) {
            Some(t) => Some(ms[m].tokens@[t]),
            None => None,
        },
        None => None,
    }
}

/// The place of the mission with this id, if any.
pub fn find_mission_index(missions: &Vec<MissionState>, id: u64) -> (r: Option<usize>)
    ensures
        match r {
            Some(k) => find_mission(missions@, id) == Some(k as int),
            None => find_mission(missions@, id) is None,
        },
        r matches Some(k) ==> k < missions@.len() && missions@[k as int].id == id,
{
    let mut i: usize = 0;
    while i < missions.len()
        invariant
            i <= missions@.len(),
            find_mission(missions@, id) == find_mission_from(missions@, id, i as int),
        decreases missions@.len() - i,
    {
        if missions[i].id == id {
            return Some(i);
        }
        i += 1;
    }
    None
}

/// The token of `hero` on mission `mission`, if both are there.
pub fn token_for(missions: &Vec<MissionState>, mission: u64, hero: u64) -> (r: Option<TokenState>)
    ensures
        r == token_of(missions@, mission, hero),
{
    match find_mission_index(missions, mission) {
        Some(m) => {
            let tokens = &missions[m].tokens;
            let mut i: usize = 0;
            while i < tokens.len()
                invariant
                    i <= tokens@.len(),
                    m < missions@.len(),
                    find_mission(missions@, mission) == Some(m as int),
                    tokens@ == missions@[m as int].tokens@,
                    find_token_from(tokens@, hero, 0) == find_token_from(tokens@, hero, i as int),
                decreases tokens@.len() - i,
            {
                if tokens[i].hero == hero {
                    return Some(tokens[i]);
                }
                i += 1;
            }
            None
        },
        None => None,
    }
}

/// Who last hit `name`, by the latest `(defender, attacker)` pair.
pub open spec fn last_attacker(att: Seq<(Seq<char>, Seq<char>)>, name: Seq<char>) -> Option<Seq<char>>
    decreases att.len(),
{
    if att.len() == 0 {
        None
    } else if att.last().0 == name {
        Some(att.last().1)
    } else {
        last_attacker(att.drop_last(), name)
    }
}

/// The `(defender, attacker)` pairs as plain values.
pub open spec fn pairs_of(v: Seq<(String, String)>) -> Seq<(Seq<char>, Seq<char>)> {
    v.map_values(|p: (String, String)| (p.0@, p.1@))
}

/// The name of whoever last hit `name`.
fn last_attacker_of(att: &Vec<(String, String)>, name: &str) -> (r: Option<String>)
    ensures
        match r {
            Some(k) => last_attacker(pairs_of(att@), name@) == Some(k@),
            None => last_attacker(pairs_of(att@), name@) is None,
        },
{
    let mut j: usize = att.len();
    assert(att@.subrange(0, j as int) =~= att@);
    while j > 0
        invariant
            j <= att@.len(),
            last_attacker(pairs_of(att@), name@) == last_attacker(pairs_of(att@.subrange(0, j as int)), name@),
        decreases j,
    {
        let ghost pre = att@.subrange(0, j as int);
        assert(pairs_of(pre).last() == (att@[j - 1].0@, att@[j - 1].1@));
        assert(pairs_of(pre).drop_last() =~= pairs_of(att@.subrange(0, j - 1)));
        if same_text(att[j - 1].0.as_str(), name) {
            return Some(att[j - 1].1.clone());
        }
        j -= 1;
    }
    None
}

/// The heroes whose tokens still stand, each once, in order of first token.
pub open spec fn survivors(ts: Seq<TokenState>) -> Seq<u64>
    decreases ts.len(),
{
    if ts.len() == 0 {
        Seq::empty()
    } else {
        let s = survivors(ts.drop_last());
        let t = ts.last();
        if t.hp > 0 && !s.contains(t.hero) {
            s.push(t.hero)
        } else {
            s
        }
    }
}

/// The heroes whose tokens still stand.
fn survivors_of(tokens: &Vec<TokenState>) -> (r: Vec<u64>)
    ensures
        r@ == survivors(tokens@),
{
    let mut r: Vec<u64> = Vec::new();
    let mut i: usize = 0;
    while i < tokens.len()
        invariant
            i <= tokens@.len(),
            r@ == survivors(tokens@.subrange(0, i as int)),
        decreases tokens@.len() - i,
    {
        assert(tokens@.subrange(0, i + 1).drop_last() =~= tokens@.subrange(0, i as int));
        let t = tokens[i];
        if t.hp > 0 && !contains_id(&r, t.hero) {
            r.push(t.hero);
        }
        i += 1;
    }
    assert(tokens@.subrange(0, tokens@.len() as int) =~= tokens@);
    r
}

/// Whether `id` is among `ids`.
fn contains_id(ids: &Vec<u64>, id: u64) -> (b: bool)
    ensures
        b == ids@.contains(id),
{
    let mut i: usize = 0;
    while i < ids.len()
        invariant
            i <= ids@.len(),
            forall|j: int| 0 <= j < i ==> ids@[j] != id,
        decreases ids@.len() - i,
    {
        if ids[i] == id {
            return true;
        }
        i += 1;
    }
    false
}

/// The near deaths noted with `(mission, hero)` added, once.
pub open spec fn mark_low(low: Seq<(u64, u64)>, mission: u64, hero: u64) -> Seq<(u64, u64)> {
    if low.contains((mission, hero)) {
        low
    } else {
        low.push((mission, hero))
    }
}

/// The near deaths noted, without those of `mission`.
pub open spec fn drop_mission(low: Seq<(u64, u64)>, mission: u64) -> Seq<(u64, u64)>
    decreases low.len(),
{
    if low.len() == 0 {
        low
    } else {
        let rest = drop_mission(low.drop_last(), mission);
        if low.last().0 == mission {
            rest
        } else {
            rest.push(low.last())
        }
    }
}

/// Whether `(mission, hero)` is noted.
fn noted(low: &Vec<(u64, u64)>, mission: u64, hero: u64) -> (b: bool)
    ensures
        b == low@.contains((mission, hero)),
{
    let mut i: usize = 0;
    while i < low.len()
        invariant
            i <= low@.len(),
            forall|j: int| 0 <= j < i ==> low@[j] != (mission, hero),
        decreases low@.len() - i,
    {
        let (a, b) = low[i];
        if a == mission && b == hero {
            return true;
        }
        i += 1;
    }
    false
}

/// Note a near death of `hero` on `mission`.
fn note_low(low: &mut Vec<(u64, u64)>, mission: u64, hero: u64)
    ensures
        final(low)@ == mark_low(old(low)@, mission, hero),
{
    if !noted(low, mission, hero) {
        low.push((mission, hero));
    }
}

/// Forget the near deaths noted on `mission`.
fn forget_mission(low: &mut Vec<(u64, u64)>, mission: u64)
    ensures
        final(low)@ == drop_mission(old(low)@, mission),
{
    let mut kept: Vec<(u64, u64)> = Vec::new();
    let mut i: usize = 0;
    while i < low.len()
        invariant
            i <= low@.len(),
            kept@ == drop_mission(low@.subrange(0, i as int), mission),
        decreases low@.len() - i,
    {
        assert(low@.subrange(0, i + 1).drop_last() =~= low@.subrange(0, i as int));
        let p = low[i];
        if p.0 != mission {
            kept.push(p);
        }
        i += 1;
    }
    assert(low@.subrange(0, low@.len() as int) =~= low@);
    *low = kept;
}

/// The log's name of a rarity.
pub open spec fn rarity_label(r: GearRarity) -> Seq<char> {
    match r {
        GearRarity::Common => "Common"@,
        GearRarity::Uncommon => "Uncommon"@,
        GearRarity::Rare => "Rare"@,
        GearRarity::Epic => "Epic"@,
        GearRarity::Legendary => "Legendary"@,
    }
}

/// The log's name of a rarity.
pub fn rarity_label_str(r: GearRarity) -> (s: &'static str)
    ensures
        s@ == rarity_label(r),
{
    match r {
        GearRarity::Common => "Common",
        GearRarity::Uncommon => "Uncommon",
        GearRarity::Rare => "Rare",
        GearRarity::Epic => "Epic",
        GearRarity::Legendary => "Legendary",
    }
}

/// Timeline line: a signature ability landed.
pub open spec fn signature_line(ability: Seq<char>) -> Seq<char> {
    "Landed signature move: "@ + ability
}

/// Timeline line: gold found in a chest.
pub open spec fn chest_line(gold: u32) -> Seq<char> {
    "Found "@ + decimal(gold as nat) + " gold in a loot chest"@
}

/// Timeline line: a mission event and how it went.
pub open spec fn event_line(event: Seq<char>, outcome: Seq<char>) -> Seq<char> {
    "Event: "@ + event + " — "@ + outcome
}

/// Timeline line: gear found.
pub open spec fn gear_line(rarity: GearRarity, item: Seq<char>) -> Seq<char> {
    "Found a "@ + rarity_label(rarity) + " "@ + item
}

/// Timeline line: an enemy defeated; the Boss Rat gets the mission's name
/// when it is known.
pub open spec fn kill_line(name: Seq<char>, mission: Option<Seq<char>>) -> Seq<char> {
    if name == "Boss Rat"@ {
        match mission {
            Some(m) => "Defeated the boss Boss Rat in "@ + m,
            None => "Defeated the boss Boss Rat"@,
        }
    } else {
        "Defeated "@ + name
    }
}

/// Timeline line: the only one of a party to come back.
pub open spec fn sole_line(mission: Seq<char>) -> Seq<char> {
    "Survived the "@ + mission + " wipe — sole survivor"@
}

/// Timeline line: a mission completed.
pub open spec fn completed_line(mission: Seq<char>) -> Seq<char> {
    "Completed mission: "@ + mission
}

/// Timeline line: a near death survived.
pub open spec fn near_death_line(mission: Seq<char>) -> Seq<char> {
    "Survived a near-death experience in "@ + mission
}

/// Timeline line: lost on a mission.
pub open spec fn missing_line(mission: Seq<char>) -> Seq<char> {
    "Went missing in mission: "@ + mission
}

/// Timeline line: a title earned.
pub open spec fn title_line(title: Seq<char>) -> Seq<char> {
    "Earned the title: "@ + title
}

/// `a` followed by `b`.
fn text2(a: &str, b: &str) -> (s: String)
    ensures
        s@ == a@ + b@,
{
    let mut s = String::from_str(a);
    s.append(b);
    s
}

/// `a`, `b`, `c` and `d` one after another.
fn text4(a: &str, b: &str, c: &str, d: &str) -> (s: String)
    ensures
        s@ == a@ + b@ + c@ + d@,
{
    let mut s = String::from_str(a);
    s.append(b);
    s.append(c);
    s.append(d);
    s
}

/// The state kept while reading the log: the roster's records, who last
/// hit whom, and the near deaths noted per mission.
pub struct TrackState {
    pub roster: Seq<RecordView>,
    pub attackers: Seq<(Seq<char>, Seq<char>)>,
    pub low: Seq<(u64, u64)>,
}

/// The state after `attacker` hits `defender` on `mission`: the hit is
/// remembered, and a hero left at a fifth of their hit points or less has a
/// near death noted.
pub open spec fn after_hit(st: TrackState, mission: u64, defender: Seq<char>, attacker: Seq<char>, ms: Seq<MissionState>) -> TrackState {
    let low = match find_hero(st.roster, defender) {
        Some(i) => match token_of(ms, mission, st.roster[i].id) {
            Some(t) => if t.hp <= trunc_div(t.max_hp as int, 5) {
                mark_low(st.low, mission, st.roster[i].id)
            } else {
                st.low
            },
            None => st.low,
        },
        None => st.low,
    };
    TrackState { roster: st.roster, attackers: st.attackers.push((defender, attacker)), low }
}

/// The roster with `line` added to the timeline of the hero `name` refers to.
pub open spec fn hero_line(roster: Seq<RecordView>, name: Seq<char>, line: Seq<char>) -> Seq<RecordView> {
    match find_hero(roster, name) {
        Some(i) => roster.update(i, with_line(roster[i], line)),
        None => roster,
    }
}

/// The name of the mission with this id, if it is there.
pub open spec fn mission_name_of(ms: Seq<MissionState>, id: u64) -> Option<Seq<char>> {
    match find_mission(ms, id) {
        Some(m) => Some(ms[m].name@),
        None => None,
    }
}

/// A party member's record once a mission succeeds: one more mission; a
/// survivor gets the gold, a line (a sole survivor of a larger party gets
/// the wipe line) and, after a near death, one more near death and its
/// line; the others are missing.
pub open spec fn settled(r: RecordView, survived: bool, sole: bool, near: bool, mission: Seq<char>, gold: int) -> RecordView {
    let r1 = with_mission(r);
    if survived {
        let r2 = with_line(with_gold(r1, gold), if sole { sole_line(mission) } else { completed_line(mission) });
        if near {
            with_line(with_near_death(r2), near_death_line(mission))
        } else {
            r2
        }
    } else {
        with_line(r1, missing_line(mission))
    }
}

/// The roster once a successful mission's party members, in order, are settled.
pub open spec fn settle_party(
    roster: Seq<RecordView>,
    party: Seq<u64>,
    surv: Seq<u64>,
    party_len: int,
    mname: Seq<char>,
    gold: int,
    low: Seq<(u64, u64)>,
    mission: u64,
) -> Seq<RecordView>
    decreases party.len(),
{
    if party.len() == 0 {
        roster
    } else {
        let r = settle_party(roster, party.drop_last(), surv, party_len, mname, gold, low, mission);
        let p = party.last();
        match find_id(r, p) {
            Some(i) => r.update(i, settled(r[i], surv.contains(p), surv.len() == 1 && party_len > 1, low.contains((mission, p)), mname, gold)),
            None => r,
        }
    }
}

/// The roster once a failed mission's party members, in order, have one more
/// mission and are missing.
pub open spec fn fail_party(roster: Seq<RecordView>, party: Seq<u64>, mname: Seq<char>) -> Seq<RecordView>
    decreases party.len(),
{
    if party.len() == 0 {
        roster
    } else {
        let r = fail_party(roster, party.drop_last(), mname);
        match find_id(r, party.last()) {
            Some(i) => r.update(i, with_line(with_mission(r[i]), missing_line(mname))),
            None => r,
        }
    }
}

/// The state after one line of the log.
pub open spec fn step(st: TrackState, ev: LogEvent, ms: Seq<MissionState>, abilities: Seq<AbilityDef>) -> TrackState {
    match ev.payload {
        LogPayload::Attack { attacker, defender, is_hit } => if is_hit {
            after_hit(st, ev.mission, defender@, attacker@, ms)
        } else {
            st
        },
        LogPayload::Ability { attacker, defender, ability_name, is_hit, effect_type } => {
            let st1 = if is_hit && (effect_type@ == "Damage"@ || effect_type@ == "Debuff"@) {
                after_hit(st, ev.mission, defender@, attacker@, ms)
            } else {
                st
            };
            let roster = match first_ability(abilities, ability_name@) {
                Some(a) => if abilities[a].is_signature {
                    hero_line(st1.roster, attacker@, signature_line(abilities[a].name@))
                } else {
                    st1.roster
                },
                None => st1.roster,
            };
            TrackState { roster, attackers: st1.attackers, low: st1.low }
        },
        LogPayload::ChestOpened { hero_name, gold } => match find_hero(st.roster, hero_name@) {
            Some(i) => TrackState {
                roster: st.roster.update(i, with_line(with_gold(st.roster[i], gold as int), chest_line(gold))),
                attackers: st.attackers,
                low: st.low,
            },
            None => st,
        },
        LogPayload::EventTriggered { event_name, hero_name, outcome_text } => TrackState {
            roster: hero_line(st.roster, hero_name@, event_line(event_name@, outcome_text@)),
            attackers: st.attackers,
            low: st.low,
        },
        LogPayload::GearDrop { hero_name, item_name, rarity } => TrackState {
            roster: hero_line(st.roster, hero_name@, gear_line(rarity, item_name@)),
            attackers: st.attackers,
            low: st.low,
        },
        LogPayload::Death { name, is_enemy } => {
            let roster = if is_enemy {
                match last_attacker(st.attackers, name@) {
                    Some(k) => match find_hero(st.roster, k) {
                        Some(i) => st.roster.update(i, with_line(with_kill(st.roster[i]), kill_line(name@, mission_name_of(ms, ev.mission)))),
                        None => st.roster,
                    },
                    None => st.roster,
                }
            } else {
                st.roster
            };
            TrackState { roster, attackers: st.attackers, low: st.low }
        },
        LogPayload::Loot { gold } => {
            let roster = match find_mission(ms, ev.mission) {
                Some(m) => settle_party(st.roster, ms[m].party@, survivors(ms[m].tokens@), ms[m].party@.len() as int, ms[m].name@, gold as int, st.low, ev.mission),
                None => st.roster,
            };
            TrackState { roster, attackers: st.attackers, low: drop_mission(st.low, ev.mission) }
        },
        LogPayload::Failure => {
            let roster = match find_mission(ms, ev.mission) {
                Some(m) => fail_party(st.roster, ms[m].party@, ms[m].name@),
                None => st.roster,
            };
            TrackState { roster, attackers: st.attackers, low: drop_mission(st.low, ev.mission) }
        },
        LogPayload::RoomEntry { .. } | LogPayload::TrapTriggered { .. } | LogPayload::Other => st,
    }
}

/// `a`, `b` and `c` one after another.
fn text3(a: &str, b: &str, c: &str) -> (s: String)
    ensures
        s@ == a@ + b@ + c@,
{
    let mut s = String::from_str(a);
    s.append(b);
    s.append(c);
    s
}

/// A fifth of `v`, rounded toward zero.
fn fifth(v: i32) -> (r: i64)
    ensures
        r == trunc_div(v as int, 5),
{
    let w = v as i64;
    if w >= 0 {
        w / 5
    } else {
        -((-w) / 5)
    }
}

/// Remember that `attacker` hit `defender` on `mission`, and note a near
/// death if `defender` is a hero left at a fifth of their hit points or less.
fn note_hit(
    heroes: &Vec<RosterEntry>,
    attackers: &mut Vec<(String, String)>,
    low: &mut Vec<(u64, u64)>,
    mission: u64,
    defender: &String,
    attacker: &String,
    missions: &Vec<MissionState>,
)
    ensures
        ({
            let st = after_hit(
                TrackState { roster: roster_view(heroes@), attackers: pairs_of(old(attackers)@), low: old(low)@ },
                mission,
                defender@,
                attacker@,
                missions@,
            );
            pairs_of(final(attackers)@) == st.attackers && final(low)@ == st.low
        }),
{
    let ghost before = pairs_of(attackers@);
    attackers.push((defender.clone(), attacker.clone()));
    assert(pairs_of(attackers@) =~= before.push((defender@, attacker@)));
    match find_hero_by_name(heroes, defender.as_str()) {
        Some(i) => {
            assert(roster_view(heroes@)[i as int].id == heroes@[i as int].id);
            match token_for(missions, mission, heroes[i].id) {
                Some(t) => {
                    if (t.hp as i64) <= fifth(t.max_hp) {
                        note_low(low, mission, heroes[i].id);
                    }
                },
                None => {},
            }
        },
        None => {},
    }
}

/// Settle a successful mission's party, member by member.
fn settle_party_of(heroes: &mut Vec<RosterEntry>, m: &MissionState, gold: u32, low: &Vec<(u64, u64)>, mission: u64)
    ensures
        roster_view(final(heroes)@) == settle_party(
            roster_view(old(heroes)@),
            m.party@,
            survivors(m.tokens@),
            m.party@.len() as int,
            m.name@,
            gold as int,
            low@,
            mission,
        ),
{
    let ghost r0 = roster_view(heroes@);
    let surv = survivors_of(&m.tokens);
    let sole = surv.len() == 1 && m.party.len() > 1;
    let name = m.name.as_str();
    let mut k: usize = 0;
    while k < m.party.len()
        invariant
            k <= m.party@.len(),
            surv@ == survivors(m.tokens@),
            sole == (surv@.len() == 1 && m.party@.len() > 1),
            name@ == m.name@,
            roster_view(heroes@) == settle_party(r0, m.party@.subrange(0, k as int), surv@, m.party@.len() as int, m.name@, gold as int, low@, mission),
        decreases m.party@.len() - k,
    {
        let ghost r = roster_view(heroes@);
        let p = m.party[k];
        assert(m.party@.subrange(0, k + 1).drop_last() =~= m.party@.subrange(0, k as int));
        assert(m.party@.subrange(0, k + 1).last() == p);
        match find_hero_by_id(heroes, p) {
            Some(i) => {
                let ghost ri = r[i as int];
                let survived = contains_id(&surv, p);
                let near = noted(low, mission, p);
                add_mission(heroes, i);
                if survived {
                    add_gold(heroes, i, gold);
                    let line = if sole {
                        text3("Survived the ", name, " wipe — sole survivor")
                    } else {
                        text2("Completed mission: ", name)
                    };
                    push_line(heroes, i, line);
                    if near {
                        add_near_death(heroes, i);
                        push_line(heroes, i, text2("Survived a near-death experience in ", name));
                    }
                } else {
                    push_line(heroes, i, text2("Went missing in mission: ", name));
                }
                assert(roster_view(heroes@) =~= r.update(i as int, settled(ri, survived, sole, near, m.name@, gold as int)));
            },
            None => {},
        }
        k += 1;
    }
    assert(m.party@.subrange(0, m.party@.len() as int) =~= m.party@);
}

/// A failed mission's party members each have one more mission and are missing.
fn fail_party_of(heroes: &mut Vec<RosterEntry>, m: &MissionState)
    ensures
        roster_view(final(heroes)@) == fail_party(roster_view(old(heroes)@), m.party@, m.name@),
{
    let ghost r0 = roster_view(heroes@);
    let name = m.name.as_str();
    let mut k: usize = 0;
    while k < m.party.len()
        invariant
            k <= m.party@.len(),
            name@ == m.name@,
            roster_view(heroes@) == fail_party(r0, m.party@.subrange(0, k as int), m.name@),
        decreases m.party@.len() - k,
    {
        let ghost r = roster_view(heroes@);
        let p = m.party[k];
        assert(m.party@.subrange(0, k + 1).drop_last() =~= m.party@.subrange(0, k as int));
        assert(m.party@.subrange(0, k + 1).last() == p);
        match find_hero_by_id(heroes, p) {
            Some(i) => {
                let ghost ri = r[i as int];
                add_mission(heroes, i);
                push_line(heroes, i, text2("Went missing in mission: ", name));
                assert(roster_view(heroes@) =~= r.update(i as int, with_line(with_mission(ri), missing_line(m.name@))));
            },
            None => {},
        }
        k += 1;
    }
    assert(m.party@.subrange(0, m.party@.len() as int) =~= m.party@);
}

/// Apply one line of the log.
fn apply_event(
    heroes: &mut Vec<RosterEntry>,
    attackers: &mut Vec<(String, String)>,
    low: &mut Vec<(u64, u64)>,
    ev: &LogEvent,
    missions: &Vec<MissionState>,
    abilities: &AbilityDatabase,
)
    ensures
        ({
            let st = step(
                TrackState { roster: roster_view(old(heroes)@), attackers: pairs_of(old(attackers)@), low: old(low)@ },
                *ev,
                missions@,
                abilities.0@,
            );
            &&& roster_view(final(heroes)@) == st.roster
            &&& pairs_of(final(attackers)@) == st.attackers
            &&& final(low)@ == st.low
        }),
{
    match &ev.payload {
        LogPayload::Attack { attacker, defender, is_hit } => {
            if *is_hit {
                note_hit(heroes, attackers, low, ev.mission, defender, attacker, missions);
            }
        },
        LogPayload::Ability { attacker, defender, ability_name, is_hit, effect_type } => {
            if *is_hit && (same_text(effect_type.as_str(), "Damage") || same_text(effect_type.as_str(), "Debuff")) {
                note_hit(heroes, attackers, low, ev.mission, defender, attacker, missions);
            }
            match abilities.get(ability_name) {
                Some(def) => {
                    if def.is_signature {
                        match find_hero_by_name(heroes, attacker.as_str()) {
                            Some(i) => {
                                push_line(heroes, i, text2("Landed signature move: ", def.name.as_str()));
                            },
                            None => {},
                        }
                    }
                },
                None => {},
            }
        },
        LogPayload::ChestOpened { hero_name, gold } => {
            match find_hero_by_name(heroes, hero_name.as_str()) {
                Some(i) => {
                    let ghost r = roster_view(heroes@);
                    add_gold(heroes, i, *gold);
                    let amount = u64_to_string(*gold as u64);
                    push_line(heroes, i, text3("Found ", amount.as_str(), " gold in a loot chest"));
                    assert(roster_view(heroes@) =~= r.update(i as int, with_line(with_gold(r[i as int], *gold as int), chest_line(*gold))));
                },
                None => {},
            }
        },
        LogPayload::EventTriggered { event_name, hero_name, outcome_text } => {
            match find_hero_by_name(heroes, hero_name.as_str()) {
                Some(i) => {
                    push_line(heroes, i, text4("Event: ", event_name.as_str(), " — ", outcome_text.as_str()));
                },
                None => {},
            }
        },
        LogPayload::GearDrop { hero_name, item_name, rarity } => {
            match find_hero_by_name(heroes, hero_name.as_str()) {
                Some(i) => {
                    push_line(heroes, i, text4("Found a ", rarity_label_str(*rarity), " ", item_name.as_str()));
                },
                None => {},
            }
        },
        LogPayload::Death { name, is_enemy } => {
            if *is_enemy {
                match last_attacker_of(attackers, name.as_str()) {
                    Some(killer) => {
                        match find_hero_by_name(heroes, killer.as_str()) {
                            Some(i) => {
                                let ghost r = roster_view(heroes@);
                                add_kill(heroes, i);
                                let line = if same_text(name.as_str(), "Boss Rat") {
                                    match find_mission_index(missions, ev.mission) {
                                        Some(m) => text2("Defeated the boss Boss Rat in ", missions[m].name.as_str()),
                                        None => String::from_str("Defeated the boss Boss Rat"),
                                    }
                                } else {
                                    text2("Defeated ", name.as_str())
                                };
                                push_line(heroes, i, line);
                                assert(roster_view(heroes@) =~= r.update(
                                    i as int,
                                    with_line(with_kill(r[i as int]), kill_line(name@, mission_name_of(missions@, ev.mission))),
                                ));
                            },
                            None => {},
                        }
                    },
                    None => {},
                }
            }
        },
        LogPayload::Loot { gold } => {
            match find_mission_index(missions, ev.mission) {
                Some(m) => {
                    settle_party_of(heroes, &missions[m], *gold, low, ev.mission);
                },
                None => {},
            }
            forget_mission(low, ev.mission);
        },
        LogPayload::Failure => {
            match find_mission_index(missions, ev.mission) {
                Some(m) => {
                    fail_party_of(heroes, &missions[m]);
                },
                None => {},
            }
            forget_mission(low, ev.mission);
        },
        LogPayload::RoomEntry { .. } | LogPayload::TrapTriggered { .. } | LogPayload::Other => {},
    }
}

/// The state after the lines of the log, in order.
pub open spec fn track(st: TrackState, events: Seq<LogEvent>, ms: Seq<MissionState>, abilities: Seq<AbilityDef>) -> TrackState
    decreases events.len(),
{
    if events.len() == 0 {
        st
    } else {
        step(track(st, events.drop_last(), ms, abilities), events.last(), ms, abilities)
    }
}

/// The title a record's counts earn, from the string table, if any.
pub open spec fn earned_title(r: RecordView, entries: Seq<(Seq<char>, Seq<char>)>) -> Option<Seq<char>> {
    match title_key(r.near_deaths, r.rescues_received, r.missions_run, r.kills, r.rescues_given, r.lifetime_gold) {
        Some(k) => Some(tr_spec(entries, k)),
        None => None,
    }
}

/// Whether a record earns a title it does not hold yet.
pub open spec fn earns_new_title(r: RecordView, entries: Seq<(Seq<char>, Seq<char>)>) -> bool {
    earned_title(r, entries) is Some && r.epithet != earned_title(r, entries)
}

/// A record after titles are given: a new title is taken, with its line.
pub open spec fn titled(r: RecordView, entries: Seq<(Seq<char>, Seq<char>)>) -> RecordView {
    if earns_new_title(r, entries) {
        let t = earned_title(r, entries)->0;
        with_line(with_title(r, t), title_line(t))
    } else {
        r
    }
}

/// The ids of the heroes who earn a new title, in roster order.
pub open spec fn retitled_ids(roster: Seq<RecordView>, entries: Seq<(Seq<char>, Seq<char>)>) -> Seq<u64>
    decreases roster.len(),
{
    if roster.len() == 0 {
        Seq::empty()
    } else {
        let rest = retitled_ids(roster.drop_last(), entries);
        if earns_new_title(roster.last(), entries) {
            rest.push(roster.last().id)
        } else {
            rest
        }
    }
}

/// Give every hero the title their record earns, if it is new to them, and
/// say who got one.
fn award_titles(heroes: &mut Vec<RosterEntry>, table: &StringTable) -> (ids: Vec<u64>)
    ensures
        roster_view(final(heroes)@) == roster_view(old(heroes)@).map_values(|r: RecordView| titled(r, table.view_entries())),
        ids@ == retitled_ids(roster_view(old(heroes)@), table.view_entries()),
{
    let ghost r0 = roster_view(heroes@);
    let ghost entries = table.view_entries();
    let mut ids: Vec<u64> = Vec::new();
    let n = heroes.len();
    let mut k: usize = 0;
    while k < n
        invariant
            n == r0.len(),
            heroes@.len() == n,
            k <= n,
            entries == table.view_entries(),
            forall|j: int| 0 <= j < k ==> #[trigger] roster_view(heroes@)[j] == titled(r0[j], entries),
            forall|j: int| k <= j < n ==> #[trigger] roster_view(heroes@)[j] == r0[j],
            ids@ == retitled_ids(r0.subrange(0, k as int), entries),
        decreases n - k,
    {
        let ghost r = roster_view(heroes@);
        assert(r[k as int] == r0[k as int]);
        assert(r0.subrange(0, k + 1).drop_last() =~= r0.subrange(0, k as int));
        assert(r0.subrange(0, k + 1).last() == r0[k as int]);
        match check_epithet(&heroes[k].history, table) {
            Some(t) => {
                let same = match &heroes[k].epithet.0 {
                    Some(e) => same_text(e.as_str(), t.as_str()),
                    None => false,
                };
                if !same {
                    let id = heroes[k].id;
                    let line = text2("Earned the title: ", t.as_str());
                    set_title(heroes, k, t);
                    push_line(heroes, k, line);
                    ids.push(id);
                }
            },
            None => {},
        }
        assert(roster_view(heroes@)[k as int] == titled(r0[k as int], entries));
        k += 1;
    }
    assert(r0.subrange(0, n as int) =~= r0);
    assert(roster_view(heroes@) =~= r0.map_values(|r: RecordView| titled(r, entries)));
    ids
}

/// Keep the heroes' records from a batch of mission log lines: read the
/// lines in order (who hit whom within the batch, near deaths noted across
/// batches in `low_hp`, gold, kills, missions, timeline lines), then give
/// each hero the title their record now earns if it is new to them. Returns
/// the ids of the heroes who got a new title.
pub fn track_hero_history(
    heroes: &mut Vec<RosterEntry>,
    low_hp: &mut Vec<(u64, u64)>,
    events: &Vec<LogEvent>,
    missions: &Vec<MissionState>,
    abilities: &AbilityDatabase,
    table: &StringTable,
) -> (retitled: Vec<u64>)
    ensures
        ({
            let st = track(
                TrackState { roster: roster_view(old(heroes)@), attackers: Seq::empty(), low: old(low_hp)@ },
                events@,
                missions@,
                abilities.0@,
            );
            &&& roster_view(final(heroes)@) == st.roster.map_values(|r: RecordView| titled(r, table.view_entries()))
            &&& final(low_hp)@ == st.low
            &&& retitled@ == retitled_ids(st.roster, table.view_entries())
        }),
        roster_grows(roster_view(old(heroes)@), roster_view(final(heroes)@)),
{
    let ghost st0 = TrackState { roster: roster_view(heroes@), attackers: Seq::empty(), low: low_hp@ };
    let mut attackers: Vec<(String, String)> = Vec::new();
    let mut i: usize = 0;
    assert(pairs_of(attackers@) =~= Seq::<(Seq<char>, Seq<char>)>::empty());
    while i < events.len()
        invariant
            i <= events@.len(),
            ({
                let st = track(st0, events@.subrange(0, i as int), missions@, abilities.0@);
                &&& roster_view(heroes@) == st.roster
                &&& pairs_of(attackers@) == st.attackers
                &&& low_hp@ == st.low
            }),
        decreases events@.len() - i,
    {
        assert(events@.subrange(0, i + 1).drop_last() =~= events@.subrange(0, i as int));
        assert(events@.subrange(0, i + 1).last() == events@[i as int]);
        apply_event(heroes, &mut attackers, low_hp, &events[i], missions, abilities);
        i += 1;
    }
    assert(events@.subrange(0, events@.len() as int) =~= events@);
    let ghost logged = roster_view(heroes@);
    let retitled = award_titles(heroes, table);
    proof {
        lemma_roster_view_ok(old(heroes)@);
        lemma_track_grows(st0, events@, missions@, abilities.0@);
        lemma_roster_grows_ok(st0.roster, logged);
        lemma_titles_grow(logged, table.view_entries());
        lemma_roster_grows_trans(st0.roster, logged, roster_view(heroes@));
    }
    retitled
}

/// A record whose counters fit in a `u32`.
pub open spec fn record_ok(r: RecordView) -> bool {
    &&& 0 <= r.missions_run <= u32::MAX
    &&& 0 <= r.kills <= u32::MAX
    &&& 0 <= r.near_deaths <= u32::MAX
    &&& 0 <= r.lifetime_gold <= u32::MAX
}

/// `b` is `a` with more history behind it: the same hero, timeline lines
/// only added after the old ones, and no counter lower.
pub open spec fn record_grows(a: RecordView, b: RecordView) -> bool {
    &&& b.id == a.id
    &&& b.name == a.name
    &&& a.timeline.len() <= b.timeline.len()
    &&& b.timeline.subrange(0, a.timeline.len() as int) == a.timeline
    &&& a.missions_run <= b.missions_run
    &&& a.kills <= b.kills
    &&& a.near_deaths <= b.near_deaths
    &&& a.lifetime_gold <= b.lifetime_gold
    &&& b.rescues_given == a.rescues_given
    &&& b.rescues_received == a.rescues_received
    &&& record_ok(b)
}

/// Every record of `b` grows from the one at the same place in `a`.
pub open spec fn roster_grows(a: Seq<RecordView>, b: Seq<RecordView>) -> bool {
    &&& a.len() == b.len()
    &&& forall|i: int| 0 <= i < a.len() ==> #[trigger] record_grows(a[i], b[i])
}

/// Every record's counters fit in a `u32`.
pub open spec fn roster_ok(r: Seq<RecordView>) -> bool {
    forall|i: int| 0 <= i < r.len() ==> #[trigger] record_ok(r[i])
}

proof fn lemma_record_grows_trans(a: RecordView, b: RecordView, c: RecordView)
    requires
        record_grows(a, b),
        record_grows(b, c),
    ensures
        record_grows(a, c),
{
    assert(c.timeline.subrange(0, a.timeline.len() as int) =~= c.timeline.subrange(0, b.timeline.len() as int).subrange(0, a.timeline.len() as int));
}

proof fn lemma_record_grows_refl(a: RecordView)
    requires
        record_ok(a),
    ensures
        record_grows(a, a),
{
    assert(a.timeline.subrange(0, a.timeline.len() as int) =~= a.timeline);
}

proof fn lemma_roster_grows_refl(r: Seq<RecordView>)
    requires
        roster_ok(r),
    ensures
        roster_grows(r, r),
{
    assert forall|i: int| 0 <= i < r.len() implies #[trigger] record_grows(r[i], r[i]) by {
        assert(record_ok(r[i]));
        lemma_record_grows_refl(r[i]);
    }
}

proof fn lemma_roster_grows_trans(a: Seq<RecordView>, b: Seq<RecordView>, c: Seq<RecordView>)
    requires
        roster_grows(a, b),
        roster_grows(b, c),
    ensures
        roster_grows(a, c),
{
    assert forall|i: int| 0 <= i < a.len() implies #[trigger] record_grows(a[i], c[i]) by {
        assert(record_grows(a[i], b[i]));
        assert(record_grows(b[i], c[i]));
        lemma_record_grows_trans(a[i], b[i], c[i]);
    }
}

proof fn lemma_roster_grows_ok(a: Seq<RecordView>, b: Seq<RecordView>)
    requires
        roster_grows(a, b),
    ensures
        roster_ok(b),
{
    assert forall|i: int| 0 <= i < b.len() implies #[trigger] record_ok(b[i]) by {
        assert(record_grows(a[i], b[i]));
    }
}

/// Changing one record so it grows makes the roster grow.
proof fn lemma_update_grows(r: Seq<RecordView>, i: int, v: RecordView)
    requires
        roster_ok(r),
        0 <= i < r.len(),
        record_grows(r[i], v),
    ensures
        roster_grows(r, r.update(i, v)),
{
    assert forall|j: int| 0 <= j < r.len() implies #[trigger] record_grows(r[j], r.update(i, v)[j]) by {
        if j != i {
            assert(record_ok(r[j]));
            lemma_record_grows_refl(r[j]);
        }
    }
}

proof fn lemma_line_grows(r: RecordView, line: Seq<char>)
    requires
        record_ok(r),
    ensures
        record_grows(r, with_line(r, line)),
{
    assert(with_line(r, line).timeline.subrange(0, r.timeline.len() as int) =~= r.timeline);
}

proof fn lemma_counts_grow(r: RecordView, gold: int)
    requires
        record_ok(r),
        gold >= 0,
    ensures
        record_grows(r, with_gold(r, gold)),
        record_grows(r, with_kill(r)),
        record_grows(r, with_mission(r)),
        record_grows(r, with_near_death(r)),
        record_grows(r, with_title(r, seq![])),
{
    assert(r.timeline.subrange(0, r.timeline.len() as int) =~= r.timeline);
}

proof fn lemma_settled_grows(r: RecordView, survived: bool, sole: bool, near: bool, mission: Seq<char>, gold: int)
    requires
        record_ok(r),
        gold >= 0,
    ensures
        record_grows(r, settled(r, survived, sole, near, mission, gold)),
{
    let r1 = with_mission(r);
    lemma_counts_grow(r, gold);
    if survived {
        lemma_counts_grow(r1, gold);
        let g = with_gold(r1, gold);
        lemma_record_grows_trans(r, r1, g);
        let line = if sole { sole_line(mission) } else { completed_line(mission) };
        let r2 = with_line(g, line);
        lemma_line_grows(g, line);
        lemma_record_grows_trans(r, g, r2);
        if near {
            let n = with_near_death(r2);
            lemma_counts_grow(r2, gold);
            lemma_record_grows_trans(r, r2, n);
            lemma_line_grows(n, near_death_line(mission));
            lemma_record_grows_trans(r, n, with_line(n, near_death_line(mission)));
        }
    } else {
        lemma_line_grows(r1, missing_line(mission));
        lemma_record_grows_trans(r, r1, with_line(r1, missing_line(mission)));
    }
}

proof fn lemma_settle_party_grows(
    roster: Seq<RecordView>,
    party: Seq<u64>,
    surv: Seq<u64>,
    party_len: int,
    mname: Seq<char>,
    gold: int,
    low: Seq<(u64, u64)>,
    mission: u64,
)
    requires
        roster_ok(roster),
        gold >= 0,
    ensures
        roster_grows(roster, settle_party(roster, party, surv, party_len, mname, gold, low, mission)),
    decreases party.len(),
{
    if party.len() == 0 {
        lemma_roster_grows_refl(roster);
    } else {
        let r = settle_party(roster, party.drop_last(), surv, party_len, mname, gold, low, mission);
        lemma_settle_party_grows(roster, party.drop_last(), surv, party_len, mname, gold, low, mission);
        lemma_roster_grows_ok(roster, r);
        let p = party.last();
        match find_id(r, p) {
            Some(i) => {
                lemma_find_id(r, p, 0);
                assert(record_ok(r[i]));
                lemma_settled_grows(r[i], surv.contains(p), surv.len() == 1 && party_len > 1, low.contains((mission, p)), mname, gold);
                lemma_update_grows(r, i, settled(r[i], surv.contains(p), surv.len() == 1 && party_len > 1, low.contains((mission, p)), mname, gold));
                lemma_roster_grows_trans(roster, r, settle_party(roster, party, surv, party_len, mname, gold, low, mission));
            },
            None => {},
        }
    }
}

proof fn lemma_fail_party_grows(roster: Seq<RecordView>, party: Seq<u64>, mname: Seq<char>)
    requires
        roster_ok(roster),
    ensures
        roster_grows(roster, fail_party(roster, party, mname)),
    decreases party.len(),
{
    if party.len() == 0 {
        lemma_roster_grows_refl(roster);
    } else {
        let r = fail_party(roster, party.drop_last(), mname);
        lemma_fail_party_grows(roster, party.drop_last(), mname);
        lemma_roster_grows_ok(roster, r);
        match find_id(r, party.last()) {
            Some(i) => {
                lemma_find_id(r, party.last(), 0);
                assert(record_ok(r[i]));
                lemma_counts_grow(r[i], 0);
                let m = with_mission(r[i]);
                lemma_line_grows(m, missing_line(mname));
                lemma_record_grows_trans(r[i], m, with_line(m, missing_line(mname)));
                lemma_update_grows(r, i, with_line(m, missing_line(mname)));
                lemma_roster_grows_trans(roster, r, fail_party(roster, party, mname));
            },
            None => {},
        }
    }
}

proof fn lemma_find_id(r: Seq<RecordView>, id: u64, i: int)
    requires
        0 <= i,
    ensures
        match find_id_from(r, id, i) {
            Some(k) => i <= k < r.len(),
            None => true,
        },
    decreases r.len() - i,
{
    if i < r.len() && r[i].id != id {
        lemma_find_id(r, id, i + 1);
    }
}

proof fn lemma_find_hero(r: Seq<RecordView>, name: Seq<char>, i: int)
    requires
        0 <= i,
    ensures
        match find_hero_from(r, name, i) {
            Some(k) => i <= k < r.len(),
            None => true,
        },
    decreases r.len() - i,
{
    if i < r.len() && !names_hero(r[i], name) {
        lemma_find_hero(r, name, i + 1);
    }
}

proof fn lemma_hero_line_grows(roster: Seq<RecordView>, name: Seq<char>, line: Seq<char>)
    requires
        roster_ok(roster),
    ensures
        roster_grows(roster, hero_line(roster, name, line)),
{
    match find_hero(roster, name) {
        Some(i) => {
            lemma_find_hero(roster, name, 0);
            assert(record_ok(roster[i]));
            lemma_line_grows(roster[i], line);
            lemma_update_grows(roster, i, with_line(roster[i], line));
        },
        None => {
            lemma_roster_grows_refl(roster);
        },
    }
}

/// One line of the log only adds to the records.
proof fn lemma_step_grows(st: TrackState, ev: LogEvent, ms: Seq<MissionState>, abilities: Seq<AbilityDef>)
    requires
        roster_ok(st.roster),
    ensures
        roster_grows(st.roster, step(st, ev, ms, abilities).roster),
{
    let r = st.roster;
    match ev.payload {
        LogPayload::Attack { .. } => {
            lemma_roster_grows_refl(r);
        },
        LogPayload::Ability { attacker, ability_name, .. } => {
            match first_ability(abilities, ability_name@) {
                Some(a) => if abilities[a].is_signature {
                    lemma_hero_line_grows(r, attacker@, signature_line(abilities[a].name@));
                } else {
                    lemma_roster_grows_refl(r);
                },
                None => {
                    lemma_roster_grows_refl(r);
                },
            }
        },
        LogPayload::ChestOpened { hero_name, gold } => {
            match find_hero(r, hero_name@) {
                Some(i) => {
                    lemma_find_hero(r, hero_name@, 0);
                    assert(record_ok(r[i]));
                    lemma_counts_grow(r[i], gold as int);
                    let g = with_gold(r[i], gold as int);
                    lemma_line_grows(g, chest_line(gold));
                    lemma_record_grows_trans(r[i], g, with_line(g, chest_line(gold)));
                    lemma_update_grows(r, i, with_line(g, chest_line(gold)));
                },
                None => {
                    lemma_roster_grows_refl(r);
                },
            }
        },
        LogPayload::EventTriggered { event_name, hero_name, outcome_text } => {
            lemma_hero_line_grows(r, hero_name@, event_line(event_name@, outcome_text@));
        },
        LogPayload::GearDrop { hero_name, item_name, rarity } => {
            lemma_hero_line_grows(r, hero_name@, gear_line(rarity, item_name@));
        },
        LogPayload::Death { name, is_enemy } => {
            lemma_roster_grows_refl(r);
            if is_enemy {
                match last_attacker(st.attackers, name@) {
                    Some(k) => match find_hero(r, k) {
                        Some(i) => {
                            lemma_find_hero(r, k, 0);
                            assert(record_ok(r[i]));
                            lemma_counts_grow(r[i], 0);
                            let kk = with_kill(r[i]);
                            let line = kill_line(name@, mission_name_of(ms, ev.mission));
                            lemma_line_grows(kk, line);
                            lemma_record_grows_trans(r[i], kk, with_line(kk, line));
                            lemma_update_grows(r, i, with_line(kk, line));
                        },
                        None => {},
                    },
                    None => {},
                }
            }
        },
        LogPayload::Loot { gold } => {
            match find_mission(ms, ev.mission) {
                Some(m) => {
                    lemma_settle_party_grows(r, ms[m].party@, survivors(ms[m].tokens@), ms[m].party@.len() as int, ms[m].name@, gold as int, st.low, ev.mission);
                },
                None => {
                    lemma_roster_grows_refl(r);
                },
            }
        },
        LogPayload::Failure => {
            match find_mission(ms, ev.mission) {
                Some(m) => {
                    lemma_fail_party_grows(r, ms[m].party@, ms[m].name@);
                },
                None => {
                    lemma_roster_grows_refl(r);
                },
            }
        },
        LogPayload::RoomEntry { .. } | LogPayload::TrapTriggered { .. } | LogPayload::Other => {
            lemma_roster_grows_refl(r);
        },
    }
}

/// The log, line after line, only adds to the records.
proof fn lemma_track_grows(st: TrackState, events: Seq<LogEvent>, ms: Seq<MissionState>, abilities: Seq<AbilityDef>)
    requires
        roster_ok(st.roster),
    ensures
        roster_grows(st.roster, track(st, events, ms, abilities).roster),
    decreases events.len(),
{
    if events.len() == 0 {
        lemma_roster_grows_refl(st.roster);
    } else {
        let prev = track(st, events.drop_last(), ms, abilities);
        lemma_track_grows(st, events.drop_last(), ms, abilities);
        lemma_roster_grows_ok(st.roster, prev.roster);
        lemma_step_grows(prev, events.last(), ms, abilities);
        lemma_roster_grows_trans(st.roster, prev.roster, track(st, events, ms, abilities).roster);
    }
}

/// Giving titles only adds to the records.
proof fn lemma_titles_grow(r: Seq<RecordView>, entries: Seq<(Seq<char>, Seq<char>)>)
    requires
        roster_ok(r),
    ensures
        roster_grows(r, r.map_values(|x: RecordView| titled(x, entries))),
{
    let t = r.map_values(|x: RecordView| titled(x, entries));
    assert forall|i: int| 0 <= i < r.len() implies #[trigger] record_grows(r[i], t[i]) by {
        assert(record_ok(r[i]));
        if earns_new_title(r[i], entries) {
            let title = earned_title(r[i], entries)->0;
            let a = with_title(r[i], title);
            assert(a.timeline == r[i].timeline);
            lemma_record_grows_refl(r[i]);
            assert(record_grows(r[i], a));
            lemma_line_grows(a, title_line(title));
            lemma_record_grows_trans(r[i], a, with_line(a, title_line(title)));
        } else {
            lemma_record_grows_refl(r[i]);
        }
    }
}

proof fn lemma_roster_view_ok(v: Seq<RosterEntry>)
    ensures
        roster_ok(roster_view(v)),
{
}

} // verus!
