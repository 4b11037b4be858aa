//! String table: every player-visible string is looked up by a dotted key,
//! with `{placeholder}` interpolation.

use std::collections::BTreeMap;

use vstd::prelude::*;
use vstd::string::StrSliceExecFns;

verus! {

#[verifier::external_type_specification]
#[verifier::external_body]
pub struct ExRonError(ron::error::SpannedError);

/// What the RON text of a string table denotes: its `(key, value)` pairs in
/// key order, or `None` when the text is not a RON map of strings.
pub uninterp spec fn ron_string_map(text: Seq<char>) -> Option<Seq<(Seq<char>, Seq<char>)>>;

/// The character sequences of a vector of string pairs.
pub open spec fn pairs_view(v: Seq<(String, String)>) -> Seq<(Seq<char>, Seq<char>)> {
    v.map_values(|e: (String, String)| (e.0@, e.1@))
}

/// No key occurs twice.
pub open spec fn keys_unique(entries: Seq<(Seq<char>, Seq<char>)>) -> bool {
    forall|a: int, b: int| 0 <= a < b < entries.len() ==> entries[a].0 != entries[b].0
}

/// Parses `text` with `ron::from_str` as a map from strings to strings and
/// lists its entries in key order. The contract names the parse result
/// (`ron_string_map`) and adds only that a map holds each key once.
#[verifier::external_body]
fn ron_parse_string_map(text: &str) -> (r: Result<Vec<(String, String)>, ron::error::SpannedError>)
    ensures
        match r {
            Ok(v) => ron_string_map(text@) == Some(pairs_view(v@)) && keys_unique(pairs_view(v@)),
            Err(_) => ron_string_map(text@) is None,
        },
{
    ron::from_str::<BTreeMap<String, String>>(text).map(|m| m.into_iter().collect())
}

/// Why a string table could not be loaded.
#[derive(Debug, Clone, Copy, PartialEq, Eq, Structural)]
pub enum LocaleError {
    /// The text is not a RON map from strings to strings.
    Parse,
}

/// A table of UI strings, keyed by dotted key.
pub struct StringTable {
    pub entries: Vec<(String, String)>,
}

/// The value of the first entry with key `key`, if any.
pub open spec fn lookup(entries: Seq<(Seq<char>, Seq<char>)>, key: Seq<char>) -> Option<Seq<char>>
    decreases entries.len(),
{
    if entries.len() == 0 {
        None
    } else if entries[0].0 == key {
        Some(entries[0].1)
    } else {
        lookup(entries.drop_first(), key)
    }
}

/// A lookup: the table's value, or the key itself when it is missing.
pub open spec fn tr_spec(entries: Seq<(Seq<char>, Seq<char>)>, key: Seq<char>) -> Seq<char> {
    match lookup(entries, key) {
        Some(v) => v,
        None => key,
    }
}

/// Every non-overlapping occurrence of `pat` in `s`, scanned left to right,
/// replaced by `rep`.
pub open spec fn replace_all(s: Seq<char>, pat: Seq<char>, rep: Seq<char>) -> Seq<char>
    decreases s.len(),
{
    if pat.len() == 0 || s.len() < pat.len() {
        s
    } else if s.subrange(0, pat.len() as int) == pat {
        rep + replace_all(s.subrange(pat.len() as int, s.len() as int), pat, rep)
    } else {
        seq![s[0]] + replace_all(s.drop_first(), pat, rep)
    }
}

/// The placeholder `{name}`.
pub open spec fn placeholder(name: Seq<char>) -> Seq<char> {
    seq!['{'] + name + seq!['}']
}

/// The template with each `{name}` replaced by its value, one argument after the other.
pub open spec fn interpolate(s: Seq<char>, args: Seq<(Seq<char>, Seq<char>)>) -> Seq<char>
    decreases args.len(),
{
    if args.len() == 0 {
        s
    } else {
        interpolate(replace_all(s, placeholder(args[0].0), args[0].1), args.drop_first())
    }
}

/// The character sequences of a slice of string-slice pairs.
pub open spec fn args_view(args: Seq<(&str, &str)>) -> Seq<(Seq<char>, Seq<char>)> {
    args.map_values(|a: (&str, &str)| (a.0@, a.1@))
}

/// Whether `pat` occurs in `s` at position `i`.
pub(crate) fn matches_at(s: &str, n: usize, i: usize, pat: &str, m: usize) -> (b: bool)
    requires
        n == s@.len(),
        m == pat@.len(),
        i + m <= n,
    ensures
        b == (s@.subrange(i as int, i + m) == pat@),
{
    let mut k: usize = 0;
    while k < m
        invariant
            m == pat@.len(),
            n == s@.len(),
            i + m <= n,
            k <= m,
            forall|j: int| 0 <= j < k ==> s@[i + j] == pat@[j],
        decreases m - k,
    {
        if s.get_char(i + k) != pat.get_char(k) {
            assert(s@.subrange(i as int, i + m)[k as int] != pat@[k as int]);
            return false;
        }
        k += 1;
    }
    assert(s@.subrange(i as int, i + m) =~= pat@);
    true
}

proof fn lemma_replace_step(s: Seq<char>, i: int, pat: Seq<char>, rep: Seq<char>)
    requires
        0 <= i < s.len(),
        pat.len() > 0,
    ensures
        (i + pat.len() <= s.len() && s.subrange(i, i + pat.len()) == pat) ==> replace_all(
            s.subrange(i, s.len() as int),
            pat,
            rep,
        ) == rep + replace_all(s.subrange(i + pat.len(), s.len() as int), pat, rep),
        !(i + pat.len() <= s.len() && s.subrange(i, i + pat.len()) == pat) ==> replace_all(
            s.subrange(i, s.len() as int),
            pat,
            rep,
        ) == seq![s[i]] + replace_all(s.subrange(i + 1, s.len() as int), pat, rep),
{
    let t = s.subrange(i, s.len() as int);
    assert(t.subrange(0, pat.len() as int) =~= s.subrange(i, i + pat.len()) || t.len() < pat.len());
    if i + pat.len() <= s.len() {
        assert(t.subrange(0, pat.len() as int) =~= s.subrange(i, i + pat.len()));
        assert(t.subrange(pat.len() as int, t.len() as int) =~= s.subrange(i + pat.len(), s.len() as int));
    }
    assert(t.drop_first() =~= s.subrange(i + 1, s.len() as int));
    assert(t[0] == s[i]);
}

/// Replace every occurrence of `pat` in `s` by `rep`.
fn replace_str(s: &str, pat: &str, rep: &str) -> (r: String)
    requires
        pat@.len() > 0,
    ensures
        r@ == replace_all(s@, pat@, rep@),
{
    let n = s.unicode_len();
    let m = pat.unicode_len();
    let mut out = String::new();
    let mut i: usize = 0;
    proof {
        assert(s@.subrange(0, n as int) =~= s@);
        assert(out@ + replace_all(s@, pat@, rep@) =~= replace_all(s@, pat@, rep@));
    }
    while i < n
        invariant
            n == s@.len(),
            m == pat@.len(),
            m > 0,
            i <= n,
            out@ + replace_all(s@.subrange(i as int, n as int), pat@, rep@) == replace_all(s@, pat@, rep@),
        decreases n - i,
    {
        proof {
            lemma_replace_step(s@, i as int, pat@, rep@);
        }
        if m <= n - i && matches_at(s, n, i, pat, m) {
            out.append(rep);
            i += m;
        } else {
            let one = s.substring_char(i, i + 1);
            assert(one@ =~= seq![s@[i as int]]);
            out.append(one);
            i += 1;
        }
        proof {
            assert(out@ + replace_all(s@.subrange(i as int, n as int), pat@, rep@) == replace_all(
                s@,
                pat@,
                rep@,
            ));
        }
    }
    proof {
        assert(s@.subrange(n as int, n as int).len() == 0);
        assert(out@ + s@.subrange(n as int, n as int) =~= out@);
        assert(s@.subrange(0, n as int) =~= s@);
    }
    out
}

impl StringTable {
    /// The table's `(key, value)` pairs as character sequences.
    pub open spec fn view_entries(&self) -> Seq<(Seq<char>, Seq<char>)> {
        pairs_view(self.entries@)
    }

    /// Load a table from RON text: a map from keys to strings.
    pub fn from_ron(text: &str) -> (r: Result<StringTable, LocaleError>)
        ensures
            match r {
                Ok(t) => ron_string_map(text@) == Some(t.view_entries()) && keys_unique(t.view_entries()),
                Err(e) => ron_string_map(text@) is None && e == LocaleError::Parse,
            },
    {
        match ron_parse_string_map(text) {
            Ok(entries) => Ok(StringTable { entries }),
            Err(_) => Err(LocaleError::Parse),
        }
    }

    /// Look up a UI string. A missing key returns the key itself so the gap
    /// is visible in-game instead of panicking.
    pub fn tr(&self, key: &str) -> (r: String)
        ensures
            r@ == tr_spec(self.view_entries(), key@),
    {
        let k = String::from_str(key);
        let mut i: usize = 0;
        assert(self.view_entries().subrange(0, self.entries@.len() as int) =~= self.view_entries());
        while i < self.entries.len()
            invariant
                i <= self.entries@.len(),
                k@ == key@,
                lookup(self.view_entries(), key@) == lookup(
                    self.view_entries().subrange(i as int, self.entries@.len() as int),
                    key@,
                ),
            decreases self.entries@.len() - i,
        {
            let ghost rest = self.view_entries().subrange(i as int, self.entries@.len() as int);
            assert(rest[0] == self.view_entries()[i as int]);
            assert(rest.drop_first() =~= self.view_entries().subrange(
                i + 1,
                self.entries@.len() as int,
            ));
            if self.entries[i].0 == k {
                return self.entries[i].1.clone();
            }
            i += 1;
        }
        k
    }

    /// `tr` plus `{placeholder}` interpolation: each argument `(name, value)`
    /// in turn replaces every `{name}` by `value`.
    pub fn trf(&self, key: &str, args: &[(&str, &str)]) -> (r: String)
        ensures
            r@ == interpolate(tr_spec(self.view_entries(), key@), args_view(args@)),
    {
        let mut s = self.tr(key);
        let mut i: usize = 0;
        assert(args_view(args@).subrange(0, args@.len() as int) =~= args_view(args@));
        while i < args.len()
            invariant
                i <= args@.len(),
                interpolate(s@, args_view(args@).subrange(i as int, args@.len() as int)) == interpolate(
                    tr_spec(self.view_entries(), key@),
                    args_view(args@),
                ),
            decreases args@.len() - i,
        {
            let (name, value) = args[i];
            let mut pat = String::from_str("{");
            pat.append(name);
            pat.append("}");
            proof {
                reveal_strlit("{");
                reveal_strlit("}");
                assert(pat@ =~= placeholder(name@));
                let rest = args_view(args@).subrange(i as int, args@.len() as int);
                assert(rest[0] == (name@, value@));
                assert(rest.drop_first() =~= args_view(args@).subrange(i + 1, args@.len() as int));
            }
            s = replace_str(s.as_str(), pat.as_str(), value);
            i += 1;
        }
        proof {
            assert(args_view(args@).subrange(args@.len() as int, args@.len() as int).len() == 0);
        }
        s
    }
}

} // verus!
