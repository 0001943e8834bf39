//! Version comparison for the background update check. The network fetch and
//! the clock live in the surrounding program; this module owns parsing a
//! release tag into its numeric parts, deciding whether one version is newer
//! than another, and the check-interval rule.

use vstd::prelude::*;
use crate::text::{spec_find_char, spec_parse_u32, find_char_from, parse_u32_range, str_chars};

verus! {

/// Hours between two background update checks.
pub const CHECK_INTERVAL_HOURS: i64 = 12;

/// What the updater remembers between runs: when it last checked, and the
/// version a pending update will install.
#[derive(Debug)]
pub struct UpdaterState {
    pub last_check: Option<String>,
    pub pending_version: Option<String>,
}

impl Default for UpdaterState {
    /// A fresh state: never checked, nothing pending.
    fn default() -> (s: UpdaterState)
        ensures
            s.last_check is None,
            s.pending_version is None,
    {
        UpdaterState { last_check: None, pending_version: None }
    }
}

/// Whether a check is due, given how many whole hours passed since the last
/// recorded check. `None` — no usable record — always allows a check.
pub fn should_check(hours_since_last_check: Option<i64>) -> (r: bool)
    ensures
        r == (match hours_since_last_check {
            Option::Some(h) => h >= CHECK_INTERVAL_HOURS,
            Option::None => true,
        }),
{
    match hours_since_last_check {
        Option::Some(h) => h >= CHECK_INTERVAL_HOURS,
        Option::None => true,
    }
}

/// A version string with its leading `v` markers removed.
pub open spec fn spec_trim_v(s: Seq<char>) -> Seq<char>
    decreases s.len(),
{
    if s.len() > 0 && s[0] == 'v' {
        spec_trim_v(s.drop_first())
    } else {
        s
    }
}

/// The three numeric parts of a version string: the digits before the first
/// dot, between the first and second, and from the second to the third dot
/// or the end. Nothing when there are fewer than two dots or a part is not
/// a plain decimal number in range.
pub open spec fn spec_parse_version(s: Seq<char>) -> Option<(u32, u32, u32)> {
    let t = spec_trim_v(s);
    match spec_find_char(t, '.') {
        Option::None => None,
        Option::Some(d1) => match spec_find_char(t.skip(d1 + 1), '.') {
            Option::None => None,
            Option::Some(r2) => {
                let d2 = d1 + 1 + r2;
                let end3 = match spec_find_char(t.skip(d2 + 1), '.') {
                    Option::Some(r3) => d2 + 1 + r3,
                    Option::None => t.len() as int,
                };
                match (
                    spec_parse_u32(t.subrange(0, d1)),
                    spec_parse_u32(t.subrange(d1 + 1, d2)),
                    spec_parse_u32(t.subrange(d2 + 1, end3)),
                ) {
                    (Option::Some(a), Option::Some(b), Option::Some(c)) => Some((a, b, c)),
                    _ => None,
                }
            },
        },
    }
}

/// Parse a version string such as `v1.2.3` into its first three numeric
/// parts; extra parts beyond the third are ignored.
#[verifier::rlimit(60)]
pub fn parse_version(v: &str) -> (r: Option<(u32, u32, u32)>)
    ensures
        r == spec_parse_version(v@),
{
    let chars = str_chars(v);
    let n = chars.len();
    let mut start: usize = 0;
    proof {
        assert(chars@.skip(0) =~= chars@);
    }
    while start < n && chars[start] == 'v'
        invariant
            start <= n,
            n == chars@.len(),
            spec_trim_v(chars@) == spec_trim_v(chars@.skip(start as int)),
        decreases n - start,
    {
        proof {
            let suffix = chars@.skip(start as int);
            assert(suffix[0] == chars@[start as int]);
            assert(suffix.drop_first() =~= chars@.skip(start + 1));
        }
        start = start + 1;
    }
    let ghost t = chars@.skip(start as int);
    proof {
        if start < n {
            assert(t[0] == chars@[start as int]);
        }
        assert(spec_trim_v(t) == t);
        assert(spec_trim_v(chars@) == t);
    }
    let d1 = match find_char_from(&chars, start, '.') {
        Option::Some(i) => i,
        Option::None => {
            return None;
        },
    };
    proof {
        assert(chars@.skip(d1 + 1) =~= t.skip(d1 + 1 - start));
    }
    let d2 = match find_char_from(&chars, d1 + 1, '.') {
        Option::Some(i) => i,
        Option::None => {
            return None;
        },
    };
    proof {
        assert(chars@.skip(d2 + 1) =~= t.skip(d2 + 1 - start));
    }
    let end3 = match find_char_from(&chars, d2 + 1, '.') {
        Option::Some(i) => i,
        Option::None => n,
    };
    proof {
        assert(t.subrange(0, d1 - start) =~= chars@.subrange(start as int, d1 as int));
        assert(t.subrange(d1 + 1 - start, d2 - start) =~= chars@.subrange(d1 + 1, d2 as int));
        assert(t.subrange(d2 + 1 - start, end3 - start) =~= chars@.subrange(d2 + 1, end3 as int));
    }
    let major = match parse_u32_range(&chars, start, d1) {
        Option::Some(x) => x,
        Option::None => {
            return None;
        },
    };
    let minor = match parse_u32_range(&chars, d1 + 1, d2) {
        Option::Some(x) => x,
        Option::None => {
            return None;
        },
    };
    let patch = match parse_u32_range(&chars, d2 + 1, end3) {
        Option::Some(x) => x,
        Option::None => {
            return None;
        },
    };
    Some((major, minor, patch))
}

/// Whether `latest` names a strictly newer version than `current`: both must
/// parse, and the parts compare lexicographically.
pub open spec fn spec_is_newer(current: Seq<char>, latest: Seq<char>) -> bool {
    match (spec_parse_version(current), spec_parse_version(latest)) {
        (Option::Some(c), Option::Some(l)) => l.0 > c.0 || (l.0 == c.0 && (l.1 > c.1 || (l.1 == c.1
            && l.2 > c.2))),
        _ => false,
    }
}

/// Whether `latest` is a strictly newer version than `current`. A tag that
/// does not parse is never newer and never superseded.
pub fn is_newer(current: &str, latest: &str) -> (r: bool)
    ensures
        r == spec_is_newer(current@, latest@),
{
    let c = match parse_version(current) {
        Option::Some(c) => c,
        Option::None => {
            return false;
        },
    };
    let l = match parse_version(latest) {
        Option::Some(l) => l,
        Option::None => {
            return false;
        },
    };
    l.0 > c.0 || (l.0 == c.0 && (l.1 > c.1 || (l.1 == c.1 && l.2 > c.2)))
}

} // verus!
