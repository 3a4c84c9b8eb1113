//! Human-readable file sizes, in decimal units.

use vstd::prelude::*;

use crate::chars::{digit_char, digit_char_exec, dec_text, push_char, push_dec};

verus! {

pub open spec fn pow1000(e: nat) -> nat
    decreases e,
{
    if e == 0 {
        1
    } else {
        1000 * pow1000((e - 1) as nat)
    }
}

/// The largest `k` from `e` up to 6 with `pow1000(k) <= n`, given
/// `pow1000(e) <= n`.
pub open spec fn unit_exp(n: nat, e: nat) -> nat
    decreases 6 - e,
{
    if e < 6 && n >= pow1000(e + 1) {
        unit_exp(n, e + 1)
    } else {
        e
    }
}

pub open spec fn unit_letter(e: nat) -> char {
    if e == 1 {
        'K'
    } else if e == 2 {
        'M'
    } else if e == 3 {
        'G'
    } else if e == 4 {
        'T'
    } else if e == 5 {
        'P'
    } else {
        'E'
    }
}

/// `n` bytes for a human reader: exact below 1000, otherwise rounded to one
/// decimal in the largest unit not above `n` (`6.6 MB`).
pub open spec fn human_size(n: nat) -> Seq<char> {
    if n < 1000 {
        dec_text(n) + seq![' ', 'B']
    } else {
        let e = unit_exp(n, 1);
        let p = pow1000(e);
        let t = (n * 10 + p / 2) / p;
        dec_text(t / 10) + seq!['.', digit_char(t % 10), ' ', unit_letter(e), 'B']
    }
}

fn unit_letter_exec(e: u64) -> (c: char)
    requires
        1 <= e <= 6,
    ensures
        c == unit_letter(e as nat),
{
    if e == 1 {
        'K'
    } else if e == 2 {
        'M'
    } else if e == 3 {
        'G'
    } else if e == 4 {
        'T'
    } else if e == 5 {
        'P'
    } else {
        'E'
    }
}

/// Appends `human_size(n)`.
pub fn push_human_size(out: &mut String, n: u64)
    ensures
        final(out)@ == old(out)@ + human_size(n as nat),
{
    if n < 1000 {
        push_dec(out, n as u128);
        push_char(out, ' ');
        push_char(out, 'B');
        proof {
            assert(final(out)@ =~= old(out)@ + human_size(n as nat));
        }
        return;
    }
    let mut e: u64 = 1;
    let mut p: u128 = 1000;
    proof {
        reveal_with_fuel(pow1000, 2);
    }
    while e < 6 && (n as u128) >= p * 1000
        invariant
            1 <= e <= 6,
            p as nat == pow1000(e as nat),
            p <= 1_000_000_000_000_000_000,
            n >= 1000,
            unit_exp(n as nat, 1) == unit_exp(n as nat, e as nat),
        decreases 6 - e,
    {
        p = p * 1000;
        e = e + 1;
        proof {
            lemma_pow1000_bound(e as nat);
        }
    }
    proof {
        lemma_pow1000_bound(e as nat);
        lemma_pow1000_pos(e as nat);
    }
    let t: u128 = ((n as u128) * 10 + p / 2) / p;
    let ghost before = out@;
    push_dec(out, t / 10);
    push_char(out, '.');
    push_char(out, digit_char_exec((t % 10) as u8));
    push_char(out, ' ');
    push_char(out, unit_letter_exec(e));
    push_char(out, 'B');
    proof {
        assert(unit_exp(n as nat, e as nat) == e as nat);
        assert(final(out)@ =~= old(out)@ + human_size(n as nat));
    }
}

proof fn lemma_pow1000_bound(e: nat)
    requires
        e <= 6,
    ensures
        pow1000(e) <= 1_000_000_000_000_000_000,
{
    reveal_with_fuel(pow1000, 7);
}

proof fn lemma_pow1000_pos(e: nat)
    ensures
        pow1000(e) >= 1,
    decreases e,
{
    if e > 0 {
        lemma_pow1000_pos((e - 1) as nat);
    }
}

} // verus!
