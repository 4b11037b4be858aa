//! A hero's service record: counters and a timeline of notable moments.

use vstd::prelude::*;

verus! {

/// Counters of notable events over a hero's career, plus a timeline.
#[derive(Debug, Clone)]
pub struct HeroHistory {
    pub missions_run: u32,
    pub kills: u32,
    pub near_deaths: u32,
    pub rescues_given: u32,
    pub rescues_received: u32,
    pub lifetime_gold: u32,
    pub timeline: Vec<String>,
}

impl HeroHistory {
    /// A fresh record: all counters at zero, and the timeline opening with
    /// "Joined the guild".
    pub fn new() -> (h: HeroHistory)
        ensures
            h.missions_run == 0 && h.kills == 0 && h.near_deaths == 0 && h.rescues_given == 0
                && h.rescues_received == 0 && h.lifetime_gold == 0,
            h.timeline@.len() == 1,
            h.timeline@[0]@ == "Joined the guild"@,
    {
        HeroHistory {
            missions_run: 0,
            kills: 0,
            near_deaths: 0,
            rescues_given: 0,
            rescues_received: 0,
            lifetime_gold: 0,
            timeline: vec![String::from_str("Joined the guild")],
        }
    }

    /// Append an entry to the timeline.
    pub fn add_timeline_entry(&mut self, entry: String)
        ensures
            final(self).timeline@ == old(self).timeline@.push(entry),
            final(self).missions_run == old(self).missions_run,
            final(self).kills == old(self).kills,
            final(self).near_deaths == old(self).near_deaths,
            final(self).rescues_given == old(self).rescues_given,
            final(self).rescues_received == old(self).rescues_received,
            final(self).lifetime_gold == old(self).lifetime_gold,
    {
        self.timeline.push(entry);
    }
}

} // verus!
