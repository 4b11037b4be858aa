//! Epithets: titles that heroes earn from their history.

use vstd::prelude::*;

use super::history::HeroHistory;
use crate::localization::{tr_spec, StringTable};

verus! {

/// A hero's title, if any.
#[derive(Debug, Clone, Default)]
pub struct Epithet(pub Option<String>);

/// The string-table key of the title earned by these counts, by priority.
pub open spec fn title_key(near_deaths: int, rescues_received: int, missions_run: int, kills: int, rescues_given: int, lifetime_gold: int) -> Option<Seq<char>> {
    if near_deaths >= 3 {
        Some("epithet.undying"@)
    } else if near_deaths >= 2 || rescues_received >= 2 {
        Some("epithet.twice_lost"@)
    } else if missions_run >= 100 {
        Some("epithet.hundred_mission"@)
    } else if kills >= 10 {
        Some("epithet.slimebane"@)
    } else if rescues_given >= 1 {
        Some("epithet.savior"@)
    } else if missions_run >= 5 {
        Some("epithet.veteran"@)
    } else if lifetime_gold >= 1000 {
        Some("epithet.goldfinder"@)
    } else {
        None
    }
}

/// The string-table key of the title a history earns.
pub open spec fn epithet_key(h: HeroHistory) -> Option<Seq<char>> {
    title_key(h.near_deaths as int, h.rescues_received as int, h.missions_run as int, h.kills as int, h.rescues_given as int, h.lifetime_gold as int)
}

/// The titles a history earns, by its counters: three near deaths make
/// the Undying; otherwise two near deaths or being rescued twice make the
/// Twice-Lost, whatever the other counters say; any title earned is backed
/// by its own milestone; and a history earns no title exactly when it has
/// reached none of them (fewer than two near deaths and two rescues
/// received, five missions, ten kills, one rescue given, a thousand gold).
pub proof fn lemma_epithet_milestones(h: HeroHistory)
    ensures
        h.near_deaths >= 3 ==> epithet_key(h) == Some("epithet.undying"@),
        h.near_deaths < 3 && h.rescues_received >= 2 ==> epithet_key(h) == Some("epithet.twice_lost"@),
        h.near_deaths < 3 && h.near_deaths >= 2 ==> epithet_key(h) == Some("epithet.twice_lost"@),
        epithet_key(h) == Some("epithet.twice_lost"@) ==> h.near_deaths >= 2 || h.rescues_received >= 2,
        epithet_key(h) == Some("epithet.hundred_mission"@) ==> h.missions_run >= 100,
        epithet_key(h) == Some("epithet.slimebane"@) ==> h.kills >= 10,
        epithet_key(h) == Some("epithet.savior"@) ==> h.rescues_given >= 1,
        epithet_key(h) == Some("epithet.veteran"@) ==> h.missions_run >= 5,
        epithet_key(h) == Some("epithet.goldfinder"@) ==> h.lifetime_gold >= 1000,
        epithet_key(h) is None <==> (h.near_deaths < 2 && h.rescues_received < 2 && h.missions_run < 5 && h.kills < 10
            && h.rescues_given < 1 && h.lifetime_gold < 1000),
{
    reveal_strlit("epithet.undying");
    reveal_strlit("epithet.twice_lost");
    reveal_strlit("epithet.hundred_mission");
    reveal_strlit("epithet.slimebane");
    reveal_strlit("epithet.savior");
    reveal_strlit("epithet.veteran");
    reveal_strlit("epithet.goldfinder");
    assert("epithet.undying"@[8] == 'u');
    assert("epithet.twice_lost"@[8] == 't');
    assert("epithet.hundred_mission"@[8] == 'h');
    assert("epithet.slimebane"@[8] == 's');
    assert("epithet.savior"@[8] == 's' && "epithet.savior"@[9] == 'a');
    assert("epithet.slimebane"@[9] == 'l');
    assert("epithet.veteran"@[8] == 'v');
    assert("epithet.goldfinder"@[8] == 'g');
}

/// The key of the title a history earns, by priority.
pub fn epithet_key_for(history: &HeroHistory) -> (k: Option<&'static str>)
    ensures
        match k {
            Some(s) => epithet_key(*history) == Some(s@),
            None => epithet_key(*history) is None,
        },
{
    if history.near_deaths >= 3 {
        Some("epithet.undying")
    } else if history.near_deaths >= 2 || history.rescues_received >= 2 {
        Some("epithet.twice_lost")
    } else if history.missions_run >= 100 {
        Some("epithet.hundred_mission")
    } else if history.kills >= 10 {
        Some("epithet.slimebane")
    } else if history.rescues_given >= 1 {
        Some("epithet.savior")
    } else if history.missions_run >= 5 {
        Some("epithet.veteran")
    } else if history.lifetime_gold >= 1000 {
        Some("epithet.goldfinder")
    } else {
        None
    }
}

/// The title a history earns, from the string table.
pub fn check_epithet(history: &HeroHistory, table: &StringTable) -> (r: Option<String>)
    ensures
        match epithet_key(*history) {
            Some(k) => r matches Some(s) && s@ == tr_spec(table.view_entries(), k),
            None => r is None,
        },
{
    match epithet_key_for(history) {
        Some(k) => Some(table.tr(k)),
        None => None,
    }
}

/// A hero's displayed name: the Hundred-Mission title goes before the name,
/// every other title after it.
pub open spec fn hero_display_name(
    name: Seq<char>,
    epithet: Option<Option<Seq<char>>>,
    hundred: Seq<char>,
) -> Seq<char> {
    match epithet {
        Some(Some(ep)) => if ep == hundred {
            ep + seq![' '] + name
        } else {
            name + seq![' '] + ep
        },
        _ => name,
    }
}

/// The character view of an optional epithet.
pub open spec fn epithet_view(e: Option<&Epithet>) -> Option<Option<Seq<char>>> {
    match e {
        Some(ep) => match ep.0 {
            Some(s) => Some(Some(s@)),
            None => Some(None),
        },
        None => None,
    }
}

/// Format a hero's name with their epithet, if any.
pub fn format_hero_name(name: &str, epithet: Option<&Epithet>, table: &StringTable) -> (s: String)
    ensures
        s@ == hero_display_name(
            name@,
            epithet_view(epithet),
            tr_spec(table.view_entries(), "epithet.hundred_mission"@),
        ),
{
    proof {
        reveal_strlit(" ");
    }
    match epithet {
        Some(e) => match &e.0 {
            Some(ep) => {
                let hundred = table.tr("epithet.hundred_mission");
                if *ep == hundred {
                    let mut s = ep.clone();
                    s.append(" ");
                    s.append(name);
                    s
                } else {
                    let mut s = String::from_str(name);
                    s.append(" ");
                    s.append(ep.as_str());
                    s
                }
            },
            None => String::from_str(name),
        },
        None => String::from_str(name),
    }
}

} // verus!
