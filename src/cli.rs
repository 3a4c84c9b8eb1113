//! Turning a command line parser's error message into a one-line cause.

use vstd::prelude::*;

use crate::chars::{push_char, push_str, trim, trim_range};
use crate::outside::{regex_removed_all, regex_removed_first, remove_all_matches, remove_first_match};
use crate::scan::{find_char, find_char_exec, lit_at, lit_at_exec, slice};

verus! {

/// ANSI colour and style escape sequences.
pub const ANSI_PATTERN: &'static str = "\\x1b\\[[0-9;]*m";

/// The `error:` prefix of a message, with what sticks to it.
pub const ERROR_PREFIX_PATTERN: &'static str = "error:[^ ]* ";

/// The lines of `s` from `pos` on, up to the first that starts with
/// `USAGE:`, trimmed, the empty ones left out, joined by single spaces after
/// the text `acc`.
pub open spec fn joined_lines(s: Seq<char>, pos: int, acc: Seq<char>) -> Seq<char>
    decreases s.len() - pos,
{
    let e = find_char(s, pos, '\n');
    let line = s.subrange(pos, e);
    let t = trim(line);
    let acc2 = if t.len() == 0 {
        acc
    } else if acc.len() == 0 {
        t
    } else {
        acc + seq![' '] + t
    };
    if pos < 0 || pos > s.len() || e < pos || e > s.len() || lit_at(line, 0, "USAGE:"@) {
        acc
    } else if e >= s.len() {
        acc2
    } else {
        joined_lines(s, e + 1, acc2)
    }
}

/// The cause that a message states, on one line: escape sequences and the
/// `error:` prefix removed, usage help dropped, lines joined.
pub open spec fn error_cause(message: Seq<char>) -> Seq<char> {
    let a = match regex_removed_all(ANSI_PATTERN@, message) {
        Some(x) => x,
        None => message,
    };
    let b = match regex_removed_first(ERROR_PREFIX_PATTERN@, a) {
        Some(x) => x,
        None => a,
    };
    joined_lines(b, 0, Seq::empty())
}

/// Joins the lines of `s` before the usage help into one line.
pub fn join_cause_lines(s: &str) -> (r: String)
    ensures
        r@ == joined_lines(s@, 0, Seq::empty()),
{
    let n = s.unicode_len();
    let mut acc = String::new();
    let mut pos: usize = 0;
    loop
        invariant
            pos <= n,
            n == s@.len(),
            joined_lines(s@, 0, Seq::empty()) == joined_lines(s@, pos as int, acc@),
        decreases n - pos,
    {
        let e = find_char_exec(s, pos, '\n');
        let line = slice(s, pos, e);
        if lit_at_exec(line.as_str(), 0, "USAGE:") {
            return acc;
        }
        let t = trim_range(s, pos, e);
        let ghost old_acc = acc@;
        if t.unicode_len() > 0 {
            if acc.unicode_len() > 0 {
                push_char(&mut acc, ' ');
            }
            push_str(&mut acc, t.as_str());
        }
        proof {
            let acc2 = if t@.len() == 0 {
                old_acc
            } else if old_acc.len() == 0 {
                t@
            } else {
                old_acc + seq![' '] + t@
            };
            assert(acc@ =~= acc2);
        }
        if e >= n {
            return acc;
        }
        pos = e + 1;
    }
}

/// The cause that an error message of the command line parser states, on
/// one line.
pub fn extract_error_cause(message: &str) -> (r: String)
    ensures
        r@ == error_cause(message@),
{
    let a = match remove_all_matches(ANSI_PATTERN, message) {
        Some(x) => x,
        None => message.to_string(),
    };
    let b = match remove_first_match(ERROR_PREFIX_PATTERN, a.as_str()) {
        Some(x) => x,
        None => a,
    };
    join_cause_lines(b.as_str())
}

} // verus!
