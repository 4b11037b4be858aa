//! Hero status helpers: Missing / Injured lifecycle constants and the
//! countdown formatter used by the roster UI.

use vstd::prelude::*;

use crate::text::{decimal, digit_char, two_digits, u64_to_string};

verus! {

/// How long (in game-milliseconds) a hero stays Missing before returning Injured.
pub const MISSING_DURATION_MS: i64 = 120000;

/// How long (in game-milliseconds) the Injured stat penalty persists after return.
pub const INJURED_DURATION_MS: i64 = 300000;

/// Marks a hero as absent after a mission wipe. `expires_at_ms` is in the
/// virtual-time elapsed-milliseconds frame.
#[derive(Debug, Clone, Copy)]
pub struct Missing {
    pub expires_at_ms: i64,
}

/// Temporary stat-penalty state applied when a Missing hero returns.
#[derive(Debug, Clone, Copy)]
pub struct Injured {
    pub expires_at_ms: i64,
}

/// Whole seconds left, rounding a partial second up; negative is zero.
pub open spec fn countdown_secs(remaining_ms: i64) -> int {
    if remaining_ms <= 0 {
        0
    } else {
        (remaining_ms + 999) / 1000
    }
}

/// `m:ss` for a number of seconds.
pub open spec fn countdown_text(total: int) -> Seq<char> {
    decimal((total / 60) as nat) + seq![':', digit_char(((total % 60) / 10) as nat), digit_char(((total % 60) % 10) as nat)]
}

/// Format a remaining time (in milliseconds) as `m:ss`, rounding a partial
/// second up. Negative or zero is `"0:00"`.
pub fn format_countdown(remaining_ms: i64) -> (s: String)
    ensures
        s@ == countdown_text(countdown_secs(remaining_ms)),
{
    let total: u64 = if remaining_ms <= 0 {
        0
    } else {
        ((remaining_ms as u64) + 999) / 1000
    };
    let minutes = total / 60;
    let seconds = total % 60;
    let mut s = u64_to_string(minutes);
    s.append(":");
    let ss = two_digits(seconds);
    s.append(ss.as_str());
    proof {
        reveal_strlit(":");
        assert(s@ =~= countdown_text(countdown_secs(remaining_ms)));
    }
    s
}

/// A Missing hero returns once their time is up, unless a rescue mission is
/// under way for them.
pub fn missing_hero_returns(now_ms: i64, missing: &Missing, being_rescued: bool) -> (b: bool)
    ensures
        b == (!being_rescued && now_ms >= missing.expires_at_ms),
{
    !being_rescued && now_ms >= missing.expires_at_ms
}

/// The Injured status a returning hero gets: it expires `INJURED_DURATION_MS` from now.
pub fn injured_on_return(now_ms: i64) -> (i: Injured)
    requires
        now_ms + INJURED_DURATION_MS <= i64::MAX,
    ensures
        i.expires_at_ms == now_ms + INJURED_DURATION_MS,
{
    Injured { expires_at_ms: now_ms + INJURED_DURATION_MS }
}

/// Whether an Injured status has run out.
pub fn injury_expired(now_ms: i64, injured: &Injured) -> (b: bool)
    ensures
        b == (now_ms >= injured.expires_at_ms),
{
    now_ms >= injured.expires_at_ms
}

} // verus!
