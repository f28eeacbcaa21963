//! Topic-pattern matching.
//!
//! A pattern matches a topic by the first applicable rule of a fixed
//! ladder: exact equality; if the pattern holds `*`, a full-string
//! wildcard match where each `*` stands for any run of characters; if the
//! pattern holds `/`, substring or prefix match; otherwise prefix match.
//! The ladder is deliberately permissive and is preserved exactly so that
//! existing publishers and subscribers keep matching.
//!
//! In a wildcard pattern only `*` is special: every other character,
//! including regex metacharacters such as `.`, `(` or `[`, stands for
//! itself. A pattern built from topic segments, slashes and `*` behaves
//! exactly like the regex obtained by `*` → `.*` anchored at both ends.

use vstd::prelude::*;
use crate::text::{contains_seq, is_prefix_of, str_chars, str_contains, str_eq, str_starts_with,
    has_char};

verus! {

/// Full-string wildcard match: `*` in the pattern stands for any run of
/// characters, every other character stands for itself.
pub open spec fn wild_matches(p: Seq<char>, t: Seq<char>) -> bool
    decreases p.len(), t.len(),
{
    if p.len() == 0 {
        t.len() == 0
    } else if p[0] == '*' {
        wild_matches(p.subrange(1, p.len() as int), t)
            || (t.len() > 0 && wild_matches(p, t.subrange(1, t.len() as int)))
    } else {
        t.len() > 0 && p[0] == t[0]
            && wild_matches(p.subrange(1, p.len() as int), t.subrange(1, t.len() as int))
    }
}

/// The matching ladder, first applicable rule wins.
pub open spec fn matches_spec(p: Seq<char>, t: Seq<char>) -> bool {
    if p == t {
        true
    } else if p.contains('*') {
        wild_matches(p, t)
    } else if p.contains('/') {
        contains_seq(t, p) || is_prefix_of(p, t)
    } else {
        is_prefix_of(p, t)
    }
}

/// Wildcard matching on character vectors, from positions `i` of the
/// pattern and `j` of the topic.
fn wild_match_at(p: &Vec<char>, t: &Vec<char>, i: usize, j: usize) -> (r: bool)
    requires
        i <= p@.len(),
        j <= t@.len(),
    ensures
        r == wild_matches(
            p@.subrange(i as int, p@.len() as int),
            t@.subrange(j as int, t@.len() as int),
        ),
    decreases p@.len() - i, t@.len() - j,
{
    let ghost ps = p@.subrange(i as int, p@.len() as int);
    let ghost ts = t@.subrange(j as int, t@.len() as int);
    if i == p.len() {
        return j == t.len();
    }
    if p[i] == '*' {
        proof {
            assert(ps[0] == '*');
            assert(p@.subrange(i + 1, p@.len() as int) =~= ps.subrange(1, ps.len() as int));
        }
        if wild_match_at(p, t, i + 1, j) {
            return true;
        }
        if j < t.len() {
            proof {
                assert(t@.subrange(j + 1, t@.len() as int) =~= ts.subrange(1, ts.len() as int));
            }
            return wild_match_at(p, t, i, j + 1);
        }
        false
    } else {
        proof {
            assert(ps[0] == p@[i as int]);
        }
        if j == t.len() {
            return false;
        }
        proof {
            assert(ts[0] == t@[j as int]);
            assert(p@.subrange(i + 1, p@.len() as int) =~= ps.subrange(1, ps.len() as int));
            assert(t@.subrange(j + 1, t@.len() as int) =~= ts.subrange(1, ts.len() as int));
        }
        if p[i] == t[j] {
            wild_match_at(p, t, i + 1, j + 1)
        } else {
            false
        }
    }
}

/// Whether `pattern` matches `topic` by the ladder of `matches_spec`.
pub fn topic_matches(pattern: &str, topic: &str) -> (r: bool)
    ensures
        r == matches_spec(pattern@, topic@),
{
    if str_eq(pattern, topic) {
        return true;
    }
    if has_char(pattern, '*') {
        let pc = str_chars(pattern);
        let tc = str_chars(topic);
        proof {
            assert(pc@.subrange(0, pc@.len() as int) =~= pattern@);
            assert(tc@.subrange(0, tc@.len() as int) =~= topic@);
        }
        return wild_match_at(&pc, &tc, 0, 0);
    }
    if has_char(pattern, '/') {
        return str_contains(topic, pattern) || str_starts_with(topic, pattern);
    }
    str_starts_with(topic, pattern)
}

} // verus!
