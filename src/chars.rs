//! Character-level helpers: whitespace trimming and number formatting.

use vstd::prelude::*;

verus! {

/// The characters that `char::is_whitespace` accepts (Unicode White_Space).
pub open spec fn is_ws(c: char) -> bool {
    c == '\t' || c == '\n' || c == '\u{0B}' || c == '\u{0C}' || c == '\r' || c == ' '
        || c == '\u{85}' || c == '\u{A0}' || c == '\u{1680}' || ('\u{2000}' <= c && c
        <= '\u{200A}') || c == '\u{2028}' || c == '\u{2029}' || c == '\u{202F}' || c
        == '\u{205F}' || c == '\u{3000}'
}

pub open spec fn trim_start(s: Seq<char>) -> Seq<char>
    decreases s.len(),
{
    if s.len() > 0 && is_ws(s[0]) {
        trim_start(s.drop_first())
    } else {
        s
    }
}

pub open spec fn trim_end(s: Seq<char>) -> Seq<char>
    decreases s.len(),
{
    if s.len() > 0 && is_ws(s.last()) {
        trim_end(s.drop_last())
    } else {
        s
    }
}

/// `s` without leading and trailing whitespace, as `str::trim` returns it.
pub open spec fn trim(s: Seq<char>) -> Seq<char> {
    trim_end(trim_start(s))
}

/// A text with nothing for `trim` to remove.
pub open spec fn is_trimmed(s: Seq<char>) -> bool {
    s.len() > 0 ==> !is_ws(s[0]) && !is_ws(s.last())
}

pub fn is_ws_char(c: char) -> (r: bool)
    ensures
        r == is_ws(c),
{
    c == '\t' || c == '\n' || c == '\u{0B}' || c == '\u{0C}' || c == '\r' || c == ' ' || c
        == '\u{85}' || c == '\u{A0}' || c == '\u{1680}' || ('\u{2000}' <= c && c <= '\u{200A}')
        || c == '\u{2028}' || c == '\u{2029}' || c == '\u{202F}' || c == '\u{205F}' || c
        == '\u{3000}'
}

proof fn lemma_trim_start_skip(s: Seq<char>, i: int)
    requires
        0 <= i < s.len(),
        is_ws(s[i]),
    ensures
        trim_start(s.subrange(i, s.len() as int)) == trim_start(s.subrange(i + 1, s.len() as int)),
{
    assert(s.subrange(i, s.len() as int).drop_first() =~= s.subrange(i + 1, s.len() as int));
}

proof fn lemma_trim_end_skip(s: Seq<char>, i: int, j: int)
    requires
        0 <= i < j <= s.len(),
        is_ws(s[j - 1]),
    ensures
        trim_end(s.subrange(i, j)) == trim_end(s.subrange(i, j - 1)),
{
    assert(s.subrange(i, j).drop_last() =~= s.subrange(i, j - 1));
}

proof fn lemma_trim_start_prefix_free(s: Seq<char>)
    ensures
        trim_start(s).len() > 0 ==> !is_ws(trim_start(s)[0]),
    decreases s.len(),
{
    if s.len() > 0 && is_ws(s[0]) {
        lemma_trim_start_prefix_free(s.drop_first());
    }
}

/// Trimming `s` where `s` holds at most whitespace around a trimmed core `t`.
pub proof fn lemma_trim_padded(pre: Seq<char>, t: Seq<char>, post: Seq<char>)
    requires
        forall|i: int| 0 <= i < pre.len() ==> is_ws(#[trigger] pre[i]),
        forall|i: int| 0 <= i < post.len() ==> is_ws(#[trigger] post[i]),
        is_trimmed(t),
        t.len() > 0,
    ensures
        trim(pre + t + post) == t,
    decreases pre.len() + post.len(),
{
    if pre.len() > 0 {
        assert((pre + t + post).drop_first() =~= pre.drop_first() + t + post);
        lemma_trim_padded(pre.drop_first(), t, post);
    } else if post.len() > 0 {
        assert(pre + t + post =~= t + post);
        assert((t + post).drop_last() =~= t + post.drop_last());
        lemma_trim_padded(pre, t, post.drop_last());
        assert(pre + t + post.drop_last() =~= t + post.drop_last());
        lemma_trim_end_of_clean_start(t + post);
    } else {
        assert(pre + t + post =~= t);
    }
}

proof fn lemma_trim_end_of_clean_start(s: Seq<char>)
    requires
        s.len() > 0,
        !is_ws(s[0]),
    ensures
        trim_start(s) == s,
{
}

/// The text of `s` from `from` to `to`, trimmed.
pub fn trim_range(s: &str, from: usize, to: usize) -> (r: String)
    requires
        from <= to <= s@.len(),
    ensures
        r@ == trim(s@.subrange(from as int, to as int)),
{
    let ghost whole = s@.subrange(from as int, to as int);
    let mut i: usize = from;
    while i < to && is_ws_char(s.get_char(i))
        invariant
            from <= i <= to <= s@.len(),
            whole == s@.subrange(from as int, to as int),
            trim_start(whole) == trim_start(s@.subrange(i as int, to as int)),
        decreases to - i,
    {
        proof {
            let t = s@.subrange(0, to as int);
            assert(s@.subrange(i as int, to as int) =~= t.subrange(i as int, to as int));
            assert(s@.subrange(i as int + 1, to as int) =~= t.subrange(i as int + 1, to as int));
            lemma_trim_start_skip(t, i as int);
        }
        i = i + 1;
    }
    proof {
        if i < to {
            assert(s@.subrange(i as int, to as int)[0] == s@[i as int]);
        } else {
            assert(s@.subrange(i as int, to as int).len() == 0);
        }
        assert(trim_start(whole) == s@.subrange(i as int, to as int));
    }
    let mut j: usize = to;
    while j > i && is_ws_char(s.get_char(j - 1))
        invariant
            from <= i <= j <= to <= s@.len(),
            trim_start(whole) == s@.subrange(i as int, to as int),
            trim(whole) == trim_end(s@.subrange(i as int, j as int)),
        decreases j,
    {
        proof {
            lemma_trim_end_skip(s@, i as int, j as int);
        }
        j = j - 1;
    }
    let r = s.substring_char(i, j).to_string();
    proof {
        let m = s@.subrange(i as int, j as int);
        if j > i {
            assert(m.last() == s@[j - 1]);
        }
        assert(r@ == m);
    }
    r
}


/// Relies on `String::push`: appends one character.
#[verifier::external_body]
pub(crate) fn push_char(s: &mut String, c: char)
    ensures
        final(s)@ == old(s)@.push(c),
{
    s.push(c)
}

pub fn push_str(s: &mut String, t: &str)
    ensures
        final(s)@ == old(s)@ + t@,
{
    s.append(t);
}

pub open spec fn digit_char(d: nat) -> char {
    if d == 0 {
        '0'
    } else if d == 1 {
        '1'
    } else if d == 2 {
        '2'
    } else if d == 3 {
        '3'
    } else if d == 4 {
        '4'
    } else if d == 5 {
        '5'
    } else if d == 6 {
        '6'
    } else if d == 7 {
        '7'
    } else if d == 8 {
        '8'
    } else if d == 9 {
        '9'
    } else if d == 10 {
        'a'
    } else if d == 11 {
        'b'
    } else if d == 12 {
        'c'
    } else if d == 13 {
        'd'
    } else if d == 14 {
        'e'
    } else {
        'f'
    }
}

pub open spec fn is_dec_digit(c: char) -> bool {
    '0' <= c && c <= '9'
}

/// A lower-case hexadecimal digit.
pub open spec fn is_hex_digit(c: char) -> bool {
    ('0' <= c && c <= '9') || ('a' <= c && c <= 'f')
}

pub open spec fn digit_value(c: char) -> nat {
    if '0' <= c && c <= '9' {
        (c as u32 - '0' as u32) as nat
    } else {
        (c as u32 - 'a' as u32 + 10) as nat
    }
}

/// `n` in decimal, without leading zeros.
pub open spec fn dec_text(n: nat) -> Seq<char>
    decreases n,
{
    if n < 10 {
        seq![digit_char(n)]
    } else {
        dec_text(n / 10).push(digit_char(n % 10))
    }
}

/// The value of the digits `s` in the given base.
pub open spec fn digits_value(s: Seq<char>, base: nat) -> nat
    decreases s.len(),
{
    if s.len() == 0 {
        0
    } else {
        digits_value(s.drop_last(), base) * base + digit_value(s.last())
    }
}

/// The `k` last hexadecimal digits of `n`, zeros in front.
pub open spec fn hex_text(n: nat, k: nat) -> Seq<char>
    decreases k,
{
    if k == 0 {
        seq![]
    } else {
        hex_text(n / 16, (k - 1) as nat).push(digit_char(n % 16))
    }
}

pub open spec fn all_dec(s: Seq<char>) -> bool {
    forall|i: int| 0 <= i < s.len() ==> is_dec_digit(#[trigger] s[i])
}

pub open spec fn all_hex(s: Seq<char>) -> bool {
    forall|i: int| 0 <= i < s.len() ==> is_hex_digit(#[trigger] s[i])
}

pub open spec fn pow16(k: nat) -> nat
    decreases k,
{
    if k == 0 {
        1
    } else {
        16 * pow16((k - 1) as nat)
    }
}

proof fn lemma_digit_round_trip(d: nat)
    requires
        d < 16,
    ensures
        digit_value(digit_char(d)) == d,
        is_hex_digit(digit_char(d)),
        d < 10 ==> is_dec_digit(digit_char(d)),
{
}

pub proof fn lemma_dec_text(n: nat)
    ensures
        all_dec(dec_text(n)),
        dec_text(n).len() > 0,
        digits_value(dec_text(n), 10) == n,
    decreases n,
{
    lemma_digit_round_trip(n % 10);
    if n >= 10 {
        lemma_dec_text(n / 10);
        let s = dec_text(n);
        assert(s.drop_last() =~= dec_text(n / 10));
        assert((n / 10) * 10 + n % 10 == n) by (nonlinear_arith);
        assert(s.last() == digit_char(n % 10));
        assert(digits_value(s, 10) == digits_value(s.drop_last(), 10) * 10 + digit_value(s.last()));
    }
    else {
        assert(seq![digit_char(n)].drop_last() =~= Seq::<char>::empty());
        assert(digits_value(Seq::<char>::empty(), 10) == 0);
    }
}

pub proof fn lemma_hex_text(n: nat, k: nat)
    requires
        n < pow16(k),
    ensures
        all_hex(hex_text(n, k)),
        hex_text(n, k).len() == k,
        digits_value(hex_text(n, k), 16) == n,
    decreases k,
{
    if k > 0 {
        lemma_digit_round_trip(n % 16);
        let p = pow16((k - 1) as nat);
        assert(n / 16 < p) by (nonlinear_arith)
            requires
                n < 16 * p,
        ;
        lemma_hex_text(n / 16, (k - 1) as nat);
        assert(hex_text(n, k).drop_last() =~= hex_text(n / 16, (k - 1) as nat));
    }
}

pub proof fn lemma_pow16_32()
    ensures
        pow16(32) == 0x1_0000_0000_0000_0000_0000_0000_0000_0000,
{
    reveal_with_fuel(pow16, 33);
}

/// Appends `n` in decimal.
pub fn push_dec(out: &mut String, n: u128)
    ensures
        final(out)@ == old(out)@ + dec_text(n as nat),
    decreases n,
{
    if n >= 10 {
        push_dec(out, n / 10);
    }
    push_char(out, digit_char_exec((n % 10) as u8));
    proof {
        if n < 10 {
            assert(dec_text(n as nat) =~= seq![digit_char(n as nat)]);
        }
    }
}

/// Appends the `k` last hexadecimal digits of `n`.
pub fn push_hex(out: &mut String, n: u128, k: usize)
    ensures
        final(out)@ == old(out)@ + hex_text(n as nat, k as nat),
    decreases k,
{
    if k > 0 {
        push_hex(out, n / 16, k - 1);
        push_char(out, digit_char_exec((n % 16) as u8));
        proof {
            assert(hex_text(n as nat, k as nat) == hex_text((n / 16) as nat, (k - 1) as nat).push(
                digit_char((n % 16) as nat),
            ));
        }
    } else {
        proof {
            assert(old(out)@ + hex_text(n as nat, 0) =~= old(out)@);
        }
    }
}

pub fn digit_char_exec(d: u8) -> (c: char)
    requires
        d < 16,
    ensures
        c == digit_char(d as nat),
{
    if d == 0 {
        '0'
    } else if d == 1 {
        '1'
    } else if d == 2 {
        '2'
    } else if d == 3 {
        '3'
    } else if d == 4 {
        '4'
    } else if d == 5 {
        '5'
    } else if d == 6 {
        '6'
    } else if d == 7 {
        '7'
    } else if d == 8 {
        '8'
    } else if d == 9 {
        '9'
    } else if d == 10 {
        'a'
    } else if d == 11 {
        'b'
    } else if d == 12 {
        'c'
    } else if d == 13 {
        'd'
    } else if d == 14 {
        'e'
    } else {
        'f'
    }
}

proof fn lemma_digits_value_prefix(s: Seq<char>, base: nat, k: int)
    requires
        0 <= k <= s.len(),
        base >= 1,
    ensures
        digits_value(s.subrange(0, k), base) <= digits_value(s, base),
    decreases s.len() - k,
{
    if k < s.len() {
        lemma_digits_value_prefix(s, base, k + 1);
        let t = s.subrange(0, k + 1);
        assert(t.drop_last() =~= s.subrange(0, k));
        let a = digits_value(s.subrange(0, k), base);
        assert(a <= a * base) by (nonlinear_arith)
            requires
                base >= 1,
        ;
    } else {
        assert(s.subrange(0, k) =~= s);
    }
}

/// Parses the decimal digits of `s` between `from` and `to`.
pub fn parse_dec(s: &str, from: usize, to: usize) -> (r: Option<u64>)
    requires
        from <= to <= s@.len(),
    ensures
        ({
            let t = s@.subrange(from as int, to as int);
            r == if t.len() > 0 && all_dec(t) && digits_value(t, 10) <= u64::MAX {
                Some(digits_value(t, 10) as u64)
            } else {
                None::<u64>
            }
        }),
{
    let ghost t = s@.subrange(from as int, to as int);
    if from == to {
        return None;
    }
    let mut v: u64 = 0;
    let mut i: usize = from;
    while i < to
        invariant
            from <= i <= to <= s@.len(),
            t == s@.subrange(from as int, to as int),
            all_dec(s@.subrange(from as int, i as int)),
            v as nat == digits_value(s@.subrange(from as int, i as int), 10),
        decreases to - i,
    {
        let c = s.get_char(i);
        let ghost pre = s@.subrange(from as int, i as int);
        let ghost next = s@.subrange(from as int, i as int + 1);
        assert(next.drop_last() =~= pre);
        assert(next =~= t.subrange(0, i - from + 1));
        if !('0' <= c && c <= '9') {
            assert(!is_dec_digit(t[i - from]));
            return None;
        }
        let d = (c as u32 - '0' as u32) as u64;
        let m = v.checked_mul(10);
        match m {
            None => {
                proof {
                    lemma_digits_value_prefix(t, 10, i - from + 1);
                }
                return None;
            },
            Some(m) => {
                let a = m.checked_add(d);
                match a {
                    None => {
                        proof {
                            lemma_digits_value_prefix(t, 10, i - from + 1);
                        }
                        return None;
                    },
                    Some(a) => {
                        v = a;
                    },
                }
            },
        }
        i = i + 1;
        proof {
            assert forall|j: int| 0 <= j < next.len() implies is_dec_digit(#[trigger] next[j]) by {
                if j < pre.len() {
                    assert(next[j] == pre[j]);
                }
            }
        }
    }
    assert(s@.subrange(from as int, i as int) =~= t);
    Some(v)
}

/// Parses the 32 hexadecimal digits of `s` that start at `from`.
pub fn parse_hex32(s: &str, from: usize) -> (r: Option<u128>)
    requires
        from + 32 <= s@.len(),
    ensures
        ({
            let t = s@.subrange(from as int, from + 32);
            r == if all_hex(t) {
                Some(digits_value(t, 16) as u128)
            } else {
                None::<u128>
            }
        }),
        r matches Some(v) ==> v as nat == digits_value(s@.subrange(from as int, from + 32), 16),
{
    let ghost t = s@.subrange(from as int, from + 32);
    let _len = s.unicode_len();
    let end: usize = from + 32;
    let mut v: u128 = 0;
    let mut i: usize = from;
    while i < end
        invariant
            end == from + 32,
            from <= i <= from + 32 <= s@.len(),
            t == s@.subrange(from as int, from + 32),
            all_hex(s@.subrange(from as int, i as int)),
            v as nat == digits_value(s@.subrange(from as int, i as int), 16),
            v < pow16((i - from) as nat),
        decreases from + 32 - i,
    {
        let c = s.get_char(i);
        let ghost pre = s@.subrange(from as int, i as int);
        let ghost next = s@.subrange(from as int, i as int + 1);
        assert(next.drop_last() =~= pre);
        let d: u128;
        if '0' <= c && c <= '9' {
            d = (c as u32 - '0' as u32) as u128;
        } else if 'a' <= c && c <= 'f' {
            d = (c as u32 - 'a' as u32 + 10) as u128;
        } else {
            assert(!is_hex_digit(t[i - from]));
            return None;
        }
        proof {
            let k = (i - from) as nat;
            assert(pow16(k + 1) == 16 * pow16(k));
            lemma_pow16_mono(k + 1, 32);
            lemma_pow16_32();
            assert(v * 16 + d < 16 * pow16(k)) by (nonlinear_arith)
                requires
                    v < pow16(k),
                    d < 16,
            ;
        }
        v = v * 16 + d;
        i = i + 1;
        proof {
            assert forall|j: int| 0 <= j < next.len() implies is_hex_digit(#[trigger] next[j]) by {
                if j < pre.len() {
                    assert(next[j] == pre[j]);
                }
            }
        }
    }
    assert(s@.subrange(from as int, i as int) =~= t);
    Some(v)
}

proof fn lemma_pow16_mono(a: nat, b: nat)
    requires
        a <= b,
    ensures
        pow16(a) <= pow16(b),
    decreases b,
{
    if a < b {
        lemma_pow16_mono(a, (b - 1) as nat);
    }
}

} // verus!
