//! Matching the lines of a text report.

use vstd::prelude::*;

use crate::chars::{all_hex, digits_value, parse_dec, parse_hex32};
use crate::scan::{
    digit_run, digit_run_exec, find_char, find_char_exec, lit_at, lit_at_exec, slice,
};

verus! {

/// The version on a trimmed version line.
pub open spec fn version_capture(l: Seq<char>) -> Option<Seq<char>> {
    let k = "# Report by fclones "@.len() as int;
    let a = digit_run(l, k);
    let b = digit_run(l, a + 1);
    let c = digit_run(l, b + 1);
    if lit_at(l, 0, "# Report by fclones "@) && a > k && a < l.len() && l[a] == '.' && b > a + 1
        && b < l.len() && l[b] == '.' && c > b + 1 {
        Some(l.subrange(k, c))
    } else {
        None
    }
}

/// The text after `lit` on a trimmed line that starts with it.
pub open spec fn rest_capture(l: Seq<char>, lit: Seq<char>) -> Option<Seq<char>> {
    if lit_at(l, 0, lit) {
        Some(l.subrange(lit.len() as int, l.len() as int))
    } else {
        None
    }
}

/// The digits of the group count on a trimmed group count line.
pub open spec fn group_count_capture(l: Seq<char>) -> Option<Seq<char>> {
    let k = "# Found "@.len() as int;
    let a = digit_run(l, k);
    if lit_at(l, 0, "# Found "@) && a > k && lit_at(l, a, " file groups"@) {
        Some(l.subrange(k, a))
    } else {
        None
    }
}

/// The digits of the redundant size and of the redundant file count on a
/// trimmed statistics line.
pub open spec fn stats_capture(l: Seq<char>) -> Option<(Seq<char>, Seq<char>)> {
    let a = digit_run(l, 2);
    let b = find_char(l, a + 4, ')');
    let c = digit_run(l, b + 5);
    if lit_at(l, 0, "# "@) && a > 2 && lit_at(l, a, " B ("@) && b > a + 4 && lit_at(
        l,
        b,
        ") in "@,
    ) && c > b + 5 && lit_at(l, c, " redundant files can be removed"@) {
        Some((l.subrange(2, a), l.subrange(b + 5, c)))
    } else {
        None
    }
}

/// Length, hash and file count read from a trimmed group header line, where
/// it is one and the numbers fit.
pub open spec fn group_header_values(l: Seq<char>) -> Option<(nat, nat, nat)> {
    let a = digit_run(l, 34);
    let star = find_char(l, a + 3, '*');
    let c = digit_run(l, star + 2);
    if l.len() >= 32 && all_hex(l.subrange(0, 32)) && lit_at(l, 32, ", "@) && a > 34 && lit_at(
        l,
        a,
        " B "@,
    ) && star < l.len() && star >= a + 4 && l[star - 1] == ' ' && lit_at(l, star, "* "@) && c
        > star + 2 && c < l.len() && l[c] == ':' && digits_value(l.subrange(34, a), 10)
        <= u64::MAX && digits_value(l.subrange(star + 2, c), 10) <= usize::MAX {
        Some(
            (
                digits_value(l.subrange(34, a), 10),
                digits_value(l.subrange(0, 32), 16),
                digits_value(l.subrange(star + 2, c), 10),
            ),
        )
    } else {
        None
    }
}

pub fn match_version(l: &str) -> (r: Option<String>)
    ensures
        match version_capture(l@) {
            Some(v) => r matches Some(s) && s@ == v,
            None => r is None,
        },
{
    let n = l.unicode_len();
    let p = "# Report by fclones ";
    let k = p.unicode_len();
    if !lit_at_exec(l, 0, p) {
        return None;
    }
    let a = digit_run_exec(l, k);
    if !(a > k && a < n && l.get_char(a) == '.') {
        return None;
    }
    let b = digit_run_exec(l, a + 1);
    if !(b > a + 1 && b < n && l.get_char(b) == '.') {
        return None;
    }
    let c = digit_run_exec(l, b + 1);
    if !(c > b + 1) {
        return None;
    }
    Some(slice(l, k, c))
}

pub fn match_rest(l: &str, lit: &str) -> (r: Option<String>)
    ensures
        match rest_capture(l@, lit@) {
            Some(v) => r matches Some(s) && s@ == v,
            None => r is None,
        },
{
    let n = l.unicode_len();
    if !lit_at_exec(l, 0, lit) {
        return None;
    }
    Some(slice(l, lit.unicode_len(), n))
}

pub fn match_group_count(l: &str) -> (r: Option<String>)
    ensures
        match group_count_capture(l@) {
            Some(v) => r matches Some(s) && s@ == v,
            None => r is None,
        },
{
    let p = "# Found ";
    let k = p.unicode_len();
    if !lit_at_exec(l, 0, p) {
        return None;
    }
    let a = digit_run_exec(l, k);
    if !(a > k && lit_at_exec(l, a, " file groups")) {
        return None;
    }
    Some(slice(l, k, a))
}

pub fn match_stats(l: &str) -> (r: Option<(String, String)>)
    ensures
        match stats_capture(l@) {
            Some(v) => r matches Some(s) && s.0@ == v.0 && s.1@ == v.1,
            None => r is None,
        },
{
    let n = l.unicode_len();
    if !lit_at_exec(l, 0, "# ") {
        return None;
    }
    proof {
        reveal_strlit("# ");
    }
    let a = digit_run_exec(l, 2);
    if !(a > 2 && lit_at_exec(l, a, " B (")) {
        return None;
    }
    proof {
        reveal_strlit(" B (");
    }
    let b = find_char_exec(l, a + 4, ')');
    if !(b > a + 4 && lit_at_exec(l, b, ") in ")) {
        return None;
    }
    proof {
        reveal_strlit(") in ");
    }
    let c = digit_run_exec(l, b + 5);
    if !(c > b + 5 && lit_at_exec(l, c, " redundant files can be removed")) {
        return None;
    }
    Some((slice(l, 2, a), slice(l, b + 5, c)))
}

/// Reads a group header line, trimmed: its length, hash and file count.
pub fn parse_group_header(l: &str) -> (r: Option<(u64, u128, usize)>)
    ensures
        match group_header_values(l@) {
            Some(v) => r matches Some(h) && h.0 as nat == v.0 && h.1 as nat == v.1 && h.2 as nat
                == v.2,
            None => r is None,
        },
{
    let n = l.unicode_len();
    if n < 32 {
        return None;
    }
    let hash = match parse_hex32(l, 0) {
        Some(h) => h,
        None => return None,
    };
    if !lit_at_exec(l, 32, ", ") {
        return None;
    }
    proof {
        reveal_strlit(", ");
    }
    let a = digit_run_exec(l, 34);
    if !(a > 34 && lit_at_exec(l, a, " B ")) {
        return None;
    }
    proof {
        reveal_strlit(" B ");
    }
    let star = find_char_exec(l, a + 3, '*');
    if !(star < n && star >= a + 4 && l.get_char(star - 1) == ' ' && lit_at_exec(l, star, "* ")) {
        return None;
    }
    proof {
        reveal_strlit("* ");
    }
    let c = digit_run_exec(l, star + 2);
    if !(c > star + 2 && c < n && l.get_char(c) == ':') {
        return None;
    }
    proof {
        lemma_digit_run_all_dec(l@, 34);
        lemma_digit_run_all_dec(l@, star + 2);
    }
    let len = match parse_dec(l, 34, a) {
        Some(v) => v,
        None => return None,
    };
    let count = match parse_dec(l, star + 2, c) {
        Some(v) => v,
        None => return None,
    };
    if count > usize::MAX as u64 {
        return None;
    }
    Some((len, hash, count as usize))
}

pub proof fn lemma_digit_run_all_dec(s: Seq<char>, i: int)
    requires
        0 <= i <= s.len(),
    ensures
        i <= digit_run(s, i) <= s.len(),
        crate::chars::all_dec(s.subrange(i, digit_run(s, i))),
        digit_run(s, i) < s.len() ==> !crate::chars::is_dec_digit(s[digit_run(s, i)]),
    decreases s.len() - i,
{
    if i < s.len() && crate::chars::is_dec_digit(s[i]) {
        lemma_digit_run_all_dec(s, i + 1);
        let e = digit_run(s, i);
        assert forall|j: int| 0 <= j < e - i implies crate::chars::is_dec_digit(
            #[trigger] s.subrange(i, e)[j],
        ) by {
            if j > 0 {
                assert(s.subrange(i, e)[j] == s.subrange(i + 1, e)[j - 1]);
            }
        }
    }
}

} // verus!
