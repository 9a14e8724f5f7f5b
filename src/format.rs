//! Human-readable durations, byte sizes and counts.
use vstd::prelude::*;
use crate::text::{dec, padded, repeat_char, push_dec, push_padded, push_repeat, string_of};

verus! {

/// `10^k`.
pub open spec fn pow10(k: nat) -> nat
    decreases k,
{
    if k == 0 {
        1
    } else {
        10 * pow10((k - 1) as nat)
    }
}

/// `x / u` rounded to the nearest integer; an exact half rounds up.
pub open spec fn round_nearest(x: nat, u: nat) -> nat {
    (2 * x + u) / (2 * u)
}

/// `x / u` rounded to the nearest integer; an exact half rounds to the even neighbour.
pub open spec fn round_half_even(x: nat, u: nat) -> nat {
    let q = x / u;
    let r = x % u;
    if 2 * r > u || (2 * r == u && q % 2 == 1) {
        q + 1
    } else {
        q
    }
}

/// The fixed-point number `n / 10^d` written with exactly `d` decimals.
pub open spec fn fixed_text(n: nat, d: nat) -> Seq<char> {
    if d == 0 {
        dec(n)
    } else {
        dec(n / pow10(d)) + seq!['.'] + padded(n % pow10(d), d)
    }
}

/// `"42s"`, `"1m30s"` or `"1h30m45s"` for a number of whole seconds.
pub open spec fn duration_text(secs: nat) -> Seq<char> {
    if secs < 60 {
        dec(secs) + seq!['s']
    } else if secs < 3600 {
        dec(secs / 60) + seq!['m'] + dec(secs % 60) + seq!['s']
    } else {
        dec(secs / 3600) + seq!['h'] + dec((secs % 3600) / 60) + seq!['m'] + dec(secs % 60) + seq![
            's',
        ]
    }
}

pub open spec fn kib() -> nat {
    1024
}

pub open spec fn mib() -> nat {
    1024 * 1024
}

pub open spec fn gib() -> nat {
    1024 * 1024 * 1024
}

/// A byte count with binary prefixes and one decimal: `"512 B"`, `"1.5 KB"`, `"2.0 GB"`.
pub open spec fn bytes_text(b: nat) -> Seq<char> {
    if b >= gib() {
        fixed_text(round_nearest(10 * b, gib()), 1) + seq![' ', 'G', 'B']
    } else if b >= mib() {
        fixed_text(round_nearest(10 * b, mib()), 1) + seq![' ', 'M', 'B']
    } else if b >= kib() {
        fixed_text(round_nearest(10 * b, kib()), 1) + seq![' ', 'K', 'B']
    } else {
        dec(b) + seq![' ', 'B']
    }
}

/// `c / 10^e` written with `d` decimals, rounded half to even where digits are dropped.
pub open spec fn scaled_text(c: nat, d: nat, e: nat) -> Seq<char> {
    if d >= e {
        dec(c / pow10(e)) + seq!['.'] + padded(c % pow10(e), e) + repeat_char('0', (d - e) as nat)
    } else {
        fixed_text(round_half_even(c, pow10((e - d) as nat)), d)
    }
}

/// A count with decimal prefixes: `"999"`, `"1.5K"`, `"1.23M"`, `"2.5B"`.
pub open spec fn count_text(c: nat, d: nat) -> Seq<char> {
    if c >= 1_000_000_000 {
        scaled_text(c, d, 9) + seq!['B']
    } else if c >= 1_000_000 {
        scaled_text(c, d, 6) + seq!['M']
    } else if c >= 1_000 {
        scaled_text(c, d, 3) + seq!['K']
    } else {
        dec(c)
    }
}

fn pow10_u64(k: u64) -> (r: u64)
    requires
        k <= 19,
    ensures
        r == pow10(k as nat),
        r >= 1,
{
    let mut r: u64 = 1;
    let mut i: u64 = 0;
    while i < k
        invariant
            i <= k <= 19,
            r == pow10(i as nat),
            r >= 1,
        decreases k - i,
    {
        proof {
            lemma_pow10_bound(i as nat);
        }
        r = r * 10;
        i = i + 1;
    }
    r
}

proof fn lemma_pow10_bound(i: nat)
    requires
        i < 19,
    ensures
        10 * pow10(i) <= u64::MAX,
    decreases i,
{
    reveal_with_fuel(pow10, 20);
    if i > 0 {
        lemma_pow10_bound((i - 1) as nat);
    }
}

/// Appends `n / 10^d` with exactly `d` decimals.
pub fn push_fixed(out: &mut Vec<char>, n: u64, d: u64)
    requires
        d <= 19,
    ensures
        final(out)@ == old(out)@ + fixed_text(n as nat, d as nat),
{
    if d == 0 {
        push_dec(out, n);
    } else {
        let p = pow10_u64(d);
        push_dec(out, n / p);
        out.push('.');
        push_padded(out, n % p, d as usize);
    }
}

/// Formats a number of whole seconds as `"42s"`, `"1m30s"` or `"1h30m45s"`.
pub fn format_duration(secs: u64) -> (r: String)
    ensures
        r@ == duration_text(secs as nat),
{
    let mut out: Vec<char> = Vec::new();
    if secs < 60 {
        push_dec(&mut out, secs);
    } else if secs < 3600 {
        push_dec(&mut out, secs / 60);
        out.push('m');
        push_dec(&mut out, secs % 60);
    } else {
        push_dec(&mut out, secs / 3600);
        out.push('h');
        push_dec(&mut out, (secs % 3600) / 60);
        out.push('m');
        push_dec(&mut out, secs % 60);
    }
    out.push('s');
    string_of(&out)
}

fn push_binary_scaled(out: &mut Vec<char>, b: u64, unit: u64)
    requires
        1024 <= unit <= 1024 * 1024 * 1024,
    ensures
        final(out)@ == old(out)@ + fixed_text(round_nearest(10 * b as nat, unit as nat), 1),
{
    let bb: u128 = b as u128;
    let uu: u128 = unit as u128;
    assert(20 * bb + uu < 0x1_0000_0000_0000_0000_0000);
    let t: u128 = (20 * bb + uu) / (2 * uu);
    assert(t <= bb) by (nonlinear_arith)
        requires
            t == (20 * bb + uu) / (2 * uu),
            uu >= 1024,
            bb >= 0,
    ;
    assert(10 * (b as nat) == 10 * bb);
    push_fixed(out, t as u64, 1);
}

/// Formats a byte count with binary prefixes: `"512 B"`, `"1.5 KB"`, `"1.0 MB"`, `"2.0 GB"`.
pub fn format_bytes(bytes: usize) -> (r: String)
    ensures
        r@ == bytes_text(bytes as nat),
{
    let b: u64 = bytes as u64;
    let mut out: Vec<char> = Vec::new();
    if b >= 1024 * 1024 * 1024 {
        push_binary_scaled(&mut out, b, 1024 * 1024 * 1024);
        out.push(' ');
        out.push('G');
    } else if b >= 1024 * 1024 {
        push_binary_scaled(&mut out, b, 1024 * 1024);
        out.push(' ');
        out.push('M');
    } else if b >= 1024 {
        push_binary_scaled(&mut out, b, 1024);
        out.push(' ');
        out.push('K');
    } else {
        push_dec(&mut out, b);
        out.push(' ');
    }
    out.push('B');
    string_of(&out)
}

/// Appends `c / 10^e` with `d` decimals.
fn push_scaled(out: &mut Vec<char>, c: u64, d: usize, e: u64)
    requires
        1 <= e <= 9,
    ensures
        final(out)@ == old(out)@ + scaled_text(c as nat, d as nat, e as nat),
{
    if d as u64 >= e {
        let p = pow10_u64(e);
        push_dec(out, c / p);
        out.push('.');
        push_padded(out, c % p, e as usize);
        push_repeat(out, '0', d - e as usize);
    } else {
        let u = pow10_u64(e - d as u64);
        let q = c / u;
        let rem = c % u;
        let n: u64 = if 2 * (rem as u128) > u as u128 || (2 * (rem as u128) == u as u128 && q % 2
            == 1) {
            assert(q < u64::MAX) by (nonlinear_arith)
                requires
                    q == c / u,
                    u >= 10,
                    c <= u64::MAX,
            ;
            q + 1
        } else {
            q
        };
        push_fixed(out, n, d as u64);
    }
}

/// Formats a count with decimal prefixes (K, M, B) and `decimals` decimals;
/// counts under a thousand are written as they are.
pub fn format_count(count: usize, decimals: usize) -> (r: String)
    ensures
        r@ == count_text(count as nat, decimals as nat),
{
    let c: u64 = count as u64;
    let mut out: Vec<char> = Vec::new();
    if c >= 1_000_000_000 {
        push_scaled(&mut out, c, decimals, 9);
        out.push('B');
    } else if c >= 1_000_000 {
        push_scaled(&mut out, c, decimals, 6);
        out.push('M');
    } else if c >= 1_000 {
        push_scaled(&mut out, c, decimals, 3);
        out.push('K');
    } else {
        push_dec(&mut out, c);
    }
    string_of(&out)
}

} // verus!
