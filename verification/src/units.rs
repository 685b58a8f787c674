//! Human-readable byte sizes.

use vstd::prelude::*;
use crate::text::{dec, digit_char, push_decimal, push_str, push_char};

verus! {

/// The size of unit `k`: 1024 to the power `k`.
pub open spec fn unit_size(k: nat) -> nat {
    if k == 0 {
        1
    } else if k == 1 {
        1024
    } else if k == 2 {
        1048576
    } else if k == 3 {
        1073741824
    } else {
        1099511627776
    }
}

pub open spec fn unit_name(k: nat) -> Seq<char> {
    if k == 0 {
        "B"@
    } else if k == 1 {
        "KiB"@
    } else if k == 2 {
        "MiB"@
    } else if k == 3 {
        "GiB"@
    } else {
        "TiB"@
    }
}

/// The largest unit (up to TiB) that `b` bytes reach.
pub open spec fn unit_index(b: nat) -> nat {
    if b >= unit_size(4) {
        4
    } else if b >= unit_size(3) {
        3
    } else if b >= unit_size(2) {
        2
    } else if b >= unit_size(1) {
        1
    } else {
        0
    }
}

/// `n / d` rounded to the nearest integer, ties to the even one.
pub open spec fn round_half_even(n: nat, d: nat) -> nat
    recommends
        d > 0,
{
    let q = n / d;
    let r = n % d;
    if 2 * r > d || (2 * r == d && q % 2 == 1) {
        q + 1
    } else {
        q
    }
}

/// Tenths of the chosen unit that `b` bytes make, rounded as `{:.1}` rounds.
pub open spec fn size_tenths(b: nat) -> nat {
    round_half_even(b * 10, unit_size(unit_index(b)))
}

/// `b` bytes written with one decimal and a binary unit, such as `1.5 KiB`.
pub open spec fn human_bytes_text(b: nat) -> Seq<char> {
    let t = size_tenths(b);
    dec(t / 10) + seq!['.', digit_char(t % 10), ' '] + unit_name(unit_index(b))
}

proof fn lemma_tenths_bound(n: nat, d: nat)
    requires
        d >= 1,
    ensures
        round_half_even(n, d) <= n + 1,
{
    assert(n / d <= n) by (nonlinear_arith)
        requires
            d >= 1,
    ;
}

/// Formats a byte count for people: `1024` gives `1.0 KiB`.
pub fn human_bytes(bytes: u64) -> (s: String)
    ensures
        s@ == human_bytes_text(bytes as nat),
        s@.contains(' '),
{
    let d: u64 = if bytes >= 1099511627776 {
        1099511627776
    } else if bytes >= 1073741824 {
        1073741824
    } else if bytes >= 1048576 {
        1048576
    } else if bytes >= 1024 {
        1024
    } else {
        1
    };
    let unit: &str = if bytes >= 1099511627776 {
        "TiB"
    } else if bytes >= 1073741824 {
        "GiB"
    } else if bytes >= 1048576 {
        "MiB"
    } else if bytes >= 1024 {
        "KiB"
    } else {
        "B"
    };
    assert(d as nat == unit_size(unit_index(bytes as nat)));
    assert(unit@ == unit_name(unit_index(bytes as nat)));
    let n: u128 = (bytes as u128) * 10;
    let q: u128 = n / (d as u128);
    let r: u128 = n % (d as u128);
    let t: u128 = if 2 * r > (d as u128) || (2 * r == (d as u128) && q % 2 == 1) {
        q + 1
    } else {
        q
    };
    proof {
        lemma_tenths_bound(n as nat, d as nat);
    }
    assert(t == size_tenths(bytes as nat));
    let whole: u64 = (t / 10) as u64;
    let frac: u64 = (t % 10) as u64;
    let mut s = String::new();
    push_decimal(&mut s, whole);
    push_char(&mut s, '.');
    let fc = digit_char_exec(frac);
    push_char(&mut s, fc);
    push_char(&mut s, ' ');
    push_str(&mut s, unit);
    assert(s@ =~= human_bytes_text(bytes as nat));
    let ghost w = dec((t / 10) as nat).len();
    assert(s@[w + 2int] == ' ');
    s
}

fn digit_char_exec(d: u64) -> (c: char)
    requires
        d < 10,
    ensures
        c == digit_char(d as nat),
{
    if d == 0 {
        '0'
    } else if d == 1 {
        '1'
    } else if d == 2 {
        '2'
    } else if d == 3 {
        '3'
    } else if d == 4 {
        '4'
    } else if d == 5 {
        '5'
    } else if d == 6 {
        '6'
    } else if d == 7 {
        '7'
    } else if d == 8 {
        '8'
    } else {
        '9'
    }
}

} // verus!
