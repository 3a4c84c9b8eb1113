//! Scanning text: lines, literals and runs of digits.

use vstd::prelude::*;

use crate::chars::is_dec_digit;

verus! {

/// Where the line that starts at `pos` ends, its line end included.
pub open spec fn line_end(t: Seq<char>, pos: int) -> int
    decreases t.len() - pos,
{
    if pos < 0 || pos >= t.len() {
        t.len() as int
    } else if t[pos] == '\n' {
        pos + 1
    } else {
        line_end(t, pos + 1)
    }
}

/// `lit` stands in `s` at `i`.
pub open spec fn lit_at(s: Seq<char>, i: int, lit: Seq<char>) -> bool {
    0 <= i && i + lit.len() <= s.len() && s.subrange(i, i + lit.len()) == lit
}

/// The first index from `i` on that holds no decimal digit.
pub open spec fn digit_run(s: Seq<char>, i: int) -> int
    decreases s.len() - i,
{
    if 0 <= i < s.len() && is_dec_digit(s[i]) {
        digit_run(s, i + 1)
    } else {
        i
    }
}

/// The first index from `i` on that holds `c`, or the length of `s`.
pub open spec fn find_char(s: Seq<char>, i: int, c: char) -> int
    decreases s.len() - i,
{
    if 0 <= i < s.len() && s[i] != c {
        find_char(s, i + 1, c)
    } else if i < 0 {
        s.len() as int
    } else {
        i
    }
}

pub proof fn lemma_line_end(t: Seq<char>, pos: int)
    requires
        0 <= pos <= t.len(),
    ensures
        pos <= line_end(t, pos) <= t.len(),
        pos < t.len() ==> pos < line_end(t, pos),
        forall|k: int| pos <= k < line_end(t, pos) - 1 ==> t[k] != '\n',
        line_end(t, pos) > pos ==> (t[line_end(t, pos) - 1] == '\n' || line_end(t, pos)
            == t.len()),
    decreases t.len() - pos,
{
    if pos < t.len() && t[pos] != '\n' {
        lemma_line_end(t, pos + 1);
    }
}

pub fn line_end_exec(t: &str, pos: usize) -> (e: usize)
    requires
        pos <= t@.len(),
    ensures
        e == line_end(t@, pos as int),
{
    let n = t.unicode_len();
    let mut i = pos;
    while i < n && t.get_char(i) != '\n'
        invariant
            pos <= i <= n,
            n == t@.len(),
            line_end(t@, pos as int) == line_end(t@, i as int),
        decreases n - i,
    {
        i = i + 1;
    }
    if i < n {
        i + 1
    } else {
        i
    }
}

pub fn lit_at_exec(s: &str, i: usize, lit: &str) -> (r: bool)
    ensures
        r == lit_at(s@, i as int, lit@),
{
    let n = s.unicode_len();
    let m = lit.unicode_len();
    if i > n || m > n - i {
        return false;
    }
    let mut k: usize = 0;
    while k < m
        invariant
            0 <= k <= m,
            n == s@.len(),
            m == lit@.len(),
            i + m <= n,
            forall|j: int| 0 <= j < k ==> s@[i + j] == lit@[j],
        decreases m - k,
    {
        if s.get_char(i + k) != lit.get_char(k) {
            assert(s@.subrange(i as int, i + m)[k as int] != lit@[k as int]);
            return false;
        }
        k = k + 1;
    }
    assert(s@.subrange(i as int, i + m) =~= lit@);
    true
}

pub fn digit_run_exec(s: &str, i: usize) -> (r: usize)
    requires
        i <= s@.len(),
    ensures
        r == digit_run(s@, i as int),
        i <= r <= s@.len(),
{
    let n = s.unicode_len();
    let mut k = i;
    while k < n && '0' <= s.get_char(k) && s.get_char(k) <= '9'
        invariant
            i <= k <= n,
            n == s@.len(),
            digit_run(s@, i as int) == digit_run(s@, k as int),
        decreases n - k,
    {
        k = k + 1;
    }
    k
}

pub fn find_char_exec(s: &str, i: usize, c: char) -> (r: usize)
    requires
        i <= s@.len(),
    ensures
        r == find_char(s@, i as int, c),
        i <= r <= s@.len(),
{
    let n = s.unicode_len();
    let mut k = i;
    while k < n && s.get_char(k) != c
        invariant
            i <= k <= n,
            n == s@.len(),
            find_char(s@, i as int, c) == find_char(s@, k as int, c),
        decreases n - k,
    {
        k = k + 1;
    }
    k
}

/// The text of `t` from `from` to `to`.
pub fn slice(t: &str, from: usize, to: usize) -> (r: String)
    requires
        from <= to <= t@.len(),
    ensures
        r@ == t@.subrange(from as int, to as int),
{
    t.substring_char(from, to).to_string()
}

} // verus!
