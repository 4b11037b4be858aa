//! Crash reporting: a bounded ring of recent log lines and the text of the
//! crash report built from it.

use std::collections::VecDeque;

use vstd::prelude::*;

use crate::text::{decimal, join, pad_right, pad_right_str, u64_to_string};

verus! {

/// How many recent log lines the ring keeps.
pub const LOG_RING_CAPACITY: usize = 200;

/// Keeps the most recent log lines (oldest first), at most
/// `LOG_RING_CAPACITY` of them.
pub struct LogRingLayer {
    ring: VecDeque<String>,
}

/// The ring after recording `line`: the oldest line is dropped once the
/// ring is full.
pub open spec fn ring_push(lines: Seq<Seq<char>>, line: Seq<char>) -> Seq<Seq<char>> {
    if lines.len() >= LOG_RING_CAPACITY {
        lines.drop_first().push(line)
    } else {
        lines.push(line)
    }
}

/// A log line: `[LEVEL] [target]: message`, the level padded to five characters.
pub open spec fn log_line(level: Seq<char>, target: Seq<char>, message: Seq<char>) -> Seq<char> {
    seq!['['] + pad_right(level, 5) + seq![']', ' ', '['] + target + seq![']', ':', ' '] + message
}

impl LogRingLayer {
    /// The recorded lines, oldest first.
    pub closed spec fn lines(&self) -> Seq<Seq<char>> {
        self.ring@.map_values(|s: String| s@)
    }

    /// The ring never holds more than its capacity.
    pub closed spec fn wf(&self) -> bool {
        self.ring@.len() <= LOG_RING_CAPACITY
    }

    /// A well-formed ring records at most `LOG_RING_CAPACITY` lines.
    pub proof fn lemma_capacity(&self)
        requires
            self.wf(),
        ensures
            self.lines().len() <= LOG_RING_CAPACITY,
    {
    }

    /// An empty ring.
    pub fn new() -> (r: Self)
        ensures
            r.wf(),
            r.lines() == Seq::<Seq<char>>::empty(),
    {
        let r = LogRingLayer { ring: VecDeque::new() };
        assert(r.lines() =~= Seq::<Seq<char>>::empty());
        r
    }

    /// Record a line, dropping the oldest one when the ring is full.
    pub fn push_line(&mut self, line: String)
        requires
            old(self).wf(),
        ensures
            final(self).wf(),
            final(self).lines() == ring_push(old(self).lines(), line@),
    {
        let ghost l0 = self.lines();
        if self.ring.len() >= LOG_RING_CAPACITY {
            let _ = self.ring.pop_front();
        }
        self.ring.push_back(line);
        assert(self.lines() =~= ring_push(l0, line@));
    }

    /// Record a tracing event: its level, its target and its message.
    pub fn on_event(&mut self, level: &str, target: &str, message: &str)
        requires
            old(self).wf(),
        ensures
            final(self).wf(),
            final(self).lines() == ring_push(old(self).lines(), log_line(level@, target@, message@)),
    {
        let line = format_log_line(level, target, message);
        self.push_line(line);
    }

    /// Forget every recorded line.
    pub fn clear(&mut self)
        ensures
            final(self).wf(),
            final(self).lines() == Seq::<Seq<char>>::empty(),
    {
        self.ring.clear();
        assert(self.lines() =~= Seq::<Seq<char>>::empty());
    }

    /// Number of recorded lines.
    pub fn len(&self) -> (n: usize)
        ensures
            n == self.lines().len(),
    {
        self.ring.len()
    }

    /// The `i`-th recorded line, oldest first.
    pub fn get(&self, i: usize) -> (s: String)
        requires
            i < self.lines().len(),
        ensures
            s@ == self.lines()[i as int],
    {
        self.ring[i].clone()
    }

    /// All recorded lines joined with newlines.
    pub fn joined(&self) -> (s: String)
        ensures
            s@ == join(self.lines(), seq!['\n']),
    {
        let mut s = String::new();
        let n = self.ring.len();
        let mut i: usize = 0;
        proof {
            reveal_strlit("\n");
        }
        while i < n
            invariant
                n == self.lines().len(),
                i <= n,
                s@ == join(self.lines().subrange(0, i as int), seq!['\n']),
            decreases n - i,
        {
            let ghost sub = self.lines().subrange(0, i + 1);
            assert(sub.drop_last() =~= self.lines().subrange(0, i as int));
            if i > 0 {
                proof {
                    reveal_strlit("\n");
                }
                s.append("\n");
            } else {
                assert(s@ =~= Seq::<char>::empty());
            }
            s.append(self.ring[i].as_str());
            i += 1;
            assert(s@ =~= join(self.lines().subrange(0, i as int), seq!['\n']));
        }
        assert(self.lines().subrange(0, n as int) =~= self.lines());
        s
    }
}

/// Format a log line as `[LEVEL] [target]: message`, the level left-aligned
/// in five characters.
pub fn format_log_line(level: &str, target: &str, message: &str) -> (s: String)
    ensures
        s@ == log_line(level@, target@, message@),
{
    let mut s = String::from_str("[");
    let lv = pad_right_str(level, 5);
    s.append(lv.as_str());
    s.append("] [");
    s.append(target);
    s.append("]: ");
    s.append(message);
    proof {
        reveal_strlit("[");
        reveal_strlit("] [");
        reveal_strlit("]: ");
        assert(s@ =~= log_line(level@, target@, message@));
    }
    s
}

/// A panic location `file:line:column`.
pub open spec fn location_text(file: Seq<char>, line: u32, column: u32) -> Seq<char> {
    file + seq![':'] + decimal(line as nat) + seq![':'] + decimal(column as nat)
}

/// Format a panic location as `file:line:column`.
pub fn format_location(file: &str, line: u32, column: u32) -> (s: String)
    ensures
        s@ == location_text(file@, line, column),
{
    let mut s = String::from_str(file);
    s.append(":");
    let l = u64_to_string(line as u64);
    s.append(l.as_str());
    s.append(":");
    let c = u64_to_string(column as u64);
    s.append(c.as_str());
    proof {
        reveal_strlit(":");
        assert(s@ =~= location_text(file@, line, column));
    }
    s
}

/// The text of a crash report.
pub open spec fn crash_report_text(
    version: Seq<char>,
    now: u64,
    location: Seq<char>,
    message: Seq<char>,
    logs: Seq<char>,
    backtrace: Seq<char>,
) -> Seq<char> {
    "Guild Forge Crash Report\n=======================\nVersion: "@ + version + "\nTime (UNIX Epoch): "@
        + decimal(now as nat) + "s\nLocation: "@ + location + "\nPanic Message: "@ + message
        + "\n\nRecent Logs:\n-----------------------\n"@ + logs
        + "\n\nBacktrace:\n-----------------------\n"@ + backtrace
}

/// Build the crash report written to disk when the game panics.
pub fn format_crash_report(
    version: &str,
    now: u64,
    location: &str,
    message: &str,
    logs: &str,
    backtrace: &str,
) -> (s: String)
    ensures
        s@ == crash_report_text(version@, now, location@, message@, logs@, backtrace@),
{
    let mut s = String::from_str("Guild Forge Crash Report\n=======================\nVersion: ");
    s.append(version);
    s.append("\nTime (UNIX Epoch): ");
    let t = u64_to_string(now);
    s.append(t.as_str());
    s.append("s\nLocation: ");
    s.append(location);
    s.append("\nPanic Message: ");
    s.append(message);
    s.append("\n\nRecent Logs:\n-----------------------\n");
    s.append(logs);
    s.append("\n\nBacktrace:\n-----------------------\n");
    s.append(backtrace);
    s
}

/// The text of the crash dialog.
pub open spec fn crash_dialog_text(message: Seq<char>, location: Seq<char>, path: Seq<char>) -> Seq<char> {
    "The game crashed unexpectedly!\n\nMessage: "@ + message + "\nLocation: "@ + location
        + "\n\nA crash report has been saved to:\n"@ + path
        + "\n\nPlease report this issue and share the crash log on Discord or GitHub."@
}

/// Build the description of the crash dialog. `path` is the report's path as
/// the dialog shows it.
pub fn format_crash_dialog(message: &str, location: &str, path: &str) -> (s: String)
    ensures
        s@ == crash_dialog_text(message@, location@, path@),
{
    let mut s = String::from_str("The game crashed unexpectedly!\n\nMessage: ");
    s.append(message);
    s.append("\nLocation: ");
    s.append(location);
    s.append("\n\nA crash report has been saved to:\n");
    s.append(path);
    s.append("\n\nPlease report this issue and share the crash log on Discord or GitHub.");
    s
}

} // verus!
