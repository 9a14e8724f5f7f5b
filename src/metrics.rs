//! Values shown by the template functions: rate, ETA, byte counters, and text cut to a
//! byte budget.
use vstd::prelude::*;
use crate::format::{
    fixed_text, round_half_even, duration_text, bytes_text, format_bytes, format_duration, push_fixed,
};
use crate::text::{dec, padded, chars_of, string_of, push_all, slice_chars, push_dec128, push_padded128};
use crate::format::pow10;
use vstd::arithmetic::div_mod::{lemma_fundamental_div_mod_converse, lemma_mod_multiples_vanish};

verus! {

/// The rate used for display, in thousandths of an item per second: the smoothed rate if
/// there is one, else `cur` items over `elapsed_ms`.
pub open spec fn display_rate(cur: nat, smoothed: Option<u64>, elapsed_ms: nat) -> nat {
    match smoothed {
        Some(r) => r as nat,
        None => if elapsed_ms > 0 && cur > 0 {
            let r = cur * 1_000_000 / elapsed_ms;
            if r > u64::MAX {
                u64::MAX as nat
            } else {
                r
            }
        } else {
            0
        },
    }
}

/// A rate given in thousandths of an item per second: `"X.Y/s"` from one per second,
/// `"X.Y/m"` from one per minute, `"X.YY/s"` below, `"-/s"` at zero.
pub open spec fn rate_text(m: nat) -> Seq<char> {
    if m >= 1000 {
        fixed_text(round_half_even(m, 100), 1) + seq!['/', 's']
    } else if m * 60 >= 1000 {
        fixed_text(round_half_even(m * 60, 100), 1) + seq!['/', 'm']
    } else if m > 0 {
        fixed_text(round_half_even(m, 10), 2) + seq!['/', 's']
    } else {
        seq!['-', '/', 's']
    }
}

/// The rate shown for a job: nothing known gives `"-/s"`.
pub open spec fn rate_string(
    progress: Option<(usize, usize)>,
    smoothed: Option<u64>,
    elapsed_ms: u64,
) -> Seq<char> {
    match progress {
        Some((cur, _)) => rate_text(display_rate(cur as nat, smoothed, elapsed_ms as nat)),
        None => seq!['-', '/', 's'],
    }
}

fn push_rounded(out: &mut Vec<char>, x: u64, u: u64, d: u64)
    requires
        u == 10 || u == 100,
        d <= 2,
    ensures
        final(out)@ == old(out)@ + fixed_text(round_half_even(x as nat, u as nat), d as nat),
{
    let q = x / u;
    let r = x % u;
    let n: u64 = if 2 * r > u || (2 * r == u && q % 2 == 1) {
        q + 1
    } else {
        q
    };
    push_fixed(out, n, d);
}

/// Formats a rate given in thousandths of an item per second.
pub fn format_rate(m: u64) -> (r: String)
    ensures
        r@ == rate_text(m as nat),
{
    let mut out: Vec<char> = Vec::new();
    if m >= 1000 {
        push_rounded(&mut out, m, 100, 1);
        out.push('/');
        out.push('s');
    } else if m * 60 >= 1000 {
        push_rounded(&mut out, m * 60, 100, 1);
        out.push('/');
        out.push('m');
    } else if m > 0 {
        push_rounded(&mut out, m, 10, 2);
        out.push('/');
        out.push('s');
    } else {
        out.push('-');
        out.push('/');
        out.push('s');
    }
    string_of(&out)
}

/// The rate shown for a job with progress `progress`, smoothed rate `smoothed` and
/// `elapsed_ms` spent on the current stage.
pub fn calculate_rate_string(
    progress: Option<(usize, usize)>,
    smoothed: Option<u64>,
    elapsed_ms: u64,
) -> (r: String)
    ensures
        r@ == rate_string(progress, smoothed, elapsed_ms),
{
    match progress {
        Some((cur, _)) => {
            let m: u64 = match smoothed {
                Some(r) => r,
                None => if elapsed_ms > 0 && cur > 0 {
                    assert((cur as u128) * 1_000_000 <= 0xffff_ffff_ffff_ffff * 1_000_000) by (
                    nonlinear_arith)
                        requires
                            cur <= 0xffff_ffff_ffff_ffffu64,
                    ;
                    let raw: u128 = (cur as u128) * 1_000_000 / (elapsed_ms as u128);
                    if raw > u64::MAX as u128 {
                        u64::MAX
                    } else {
                        raw as u64
                    }
                } else {
                    0
                },
            };
            format_rate(m)
        },
        None => {
            let mut out: Vec<char> = Vec::new();
            out.push('-');
            out.push('/');
            out.push('s');
            string_of(&out)
        },
    }
}

/// `n`, capped at `u64::MAX`.
pub open spec fn cap64(n: nat) -> nat {
    if n > u64::MAX {
        u64::MAX as nat
    } else {
        n
    }
}

/// Whole seconds left (capped at `u64::MAX`), if any time is left: `remaining` items at the
/// smoothed rate, else by extrapolating `elapsed_ms` over the share done so far.
pub open spec fn eta_secs(cur: nat, total: nat, smoothed: Option<u64>, elapsed_ms: nat) -> Option<
    nat,
> {
    let remaining = (total - cur) as nat;
    match smoothed {
        Some(r) if r > 0 => if remaining > 0 {
            Some(cap64(remaining * 1000 / (r as nat)))
        } else {
            None
        },
        _ => if remaining > 0 && elapsed_ms > 0 {
            Some(cap64(elapsed_ms * remaining / (cur * 1000)))
        } else {
            None
        },
    }
}

/// The ETA of a job and whether it counts as complete: `None` without usable progress.
pub open spec fn eta(
    progress: Option<(usize, usize)>,
    smoothed: Option<u64>,
    elapsed_ms: u64,
) -> (Option<Seq<char>>, bool) {
    match progress {
        Some((cur, total)) => if cur > 0 && total > 0 && cur <= total {
            match eta_secs(cur as nat, total as nat, smoothed, elapsed_ms as nat) {
                Some(s) => (Some(duration_text(s)), false),
                None => (Some(seq!['0', 's']), true),
            }
        } else {
            (None, cur >= total)
        },
        None => (None, false),
    }
}

/// Computes the ETA of a job and whether it counts as complete.
pub fn calculate_eta(progress: Option<(usize, usize)>, smoothed: Option<u64>, elapsed_ms: u64) -> (r: (
    Option<String>,
    bool,
))
    ensures
        r.1 == eta(progress, smoothed, elapsed_ms).1,
        match eta(progress, smoothed, elapsed_ms).0 {
            Some(t) => r.0 matches Some(s) && s@ == t,
            None => r.0 is None,
        },
{
    match progress {
        Some((cur, total)) => {
            if cur > 0 && total > 0 && cur <= total {
                let remaining: usize = total - cur;
                let secs: Option<u64> = match smoothed {
                    Some(r) if r > 0 => if remaining > 0 {
                        let s: u128 = (remaining as u128) * 1000 / (r as u128);
                        Some(
                            if s > u64::MAX as u128 {
                                u64::MAX
                            } else {
                                s as u64
                            },
                        )
                    } else {
                        None
                    },
                    _ => if remaining > 0 && elapsed_ms > 0 {
                        assert((elapsed_ms as u128) * (remaining as u128) <= 0xffff_ffff_ffff_ffff
                            * 0xffff_ffff_ffff_ffff) by (nonlinear_arith)
                            requires
                                elapsed_ms <= 0xffff_ffff_ffff_ffffu64,
                                remaining <= 0xffff_ffff_ffff_ffffu64,
                        ;
                        let s: u128 = (elapsed_ms as u128) * (remaining as u128) / ((cur as u128)
                            * 1000);
                        Some(
                            if s > u64::MAX as u128 {
                                u64::MAX
                            } else {
                                s as u64
                            },
                        )
                    } else {
                        None
                    },
                };
                match secs {
                    Some(s) => (Some(format_duration(s)), false),
                    None => {
                        let mut out: Vec<char> = Vec::new();
                        out.push('0');
                        out.push('s');
                        (Some(string_of(&out)), true)
                    },
                }
            } else {
                (None, cur >= total)
            }
        },
        None => (None, false),
    }
}

/// What `eta()` shows: empty when asked to hide a complete or unknown ETA, `"-"` when
/// unknown.
pub open spec fn eta_display(e: (Option<Seq<char>>, bool), hide_complete: bool) -> Seq<char> {
    if hide_complete && (e.1 || e.0 is None) {
        Seq::empty()
    } else {
        match e.0 {
            Some(t) => t,
            None => seq!['-'],
        }
    }
}

/// The text of `eta()` for a job.
pub fn eta_text(
    progress: Option<(usize, usize)>,
    smoothed: Option<u64>,
    elapsed_ms: u64,
    hide_complete: bool,
) -> (r: String)
    ensures
        r@ == eta_display(eta(progress, smoothed, elapsed_ms), hide_complete),
{
    let (value, complete) = calculate_eta(progress, smoothed, elapsed_ms);
    if hide_complete && (complete || value.is_none()) {
        String::new()
    } else {
        match value {
            Some(t) => t,
            None => string_of(&vec!['-']),
        }
    }
}

/// What `bytes()` shows: `"cur / total"` as byte sizes, or the current size alone; empty
/// without progress, or when asked to hide a complete one.
pub open spec fn bytes_progress(
    progress: Option<(usize, usize)>,
    hide_complete: bool,
    show_total: bool,
) -> Seq<char> {
    let complete = match progress {
        Some((c, t)) => c >= t,
        None => false,
    };
    if hide_complete && complete {
        Seq::empty()
    } else {
        match progress {
            Some((c, t)) => if show_total {
                bytes_text(c as nat) + seq![' ', '/', ' '] + bytes_text(t as nat)
            } else {
                bytes_text(c as nat)
            },
            None => Seq::empty(),
        }
    }
}

/// The text of `bytes()` for a job.
pub fn bytes_progress_text(
    progress: Option<(usize, usize)>,
    hide_complete: bool,
    show_total: bool,
) -> (r: String)
    ensures
        r@ == bytes_progress(progress, hide_complete, show_total),
{
    match progress {
        Some((c, t)) => {
            if hide_complete && c >= t {
                String::new()
            } else if show_total {
                let mut out = chars_of(format_bytes(c).as_str());
                out.push(' ');
                out.push('/');
                out.push(' ');
                push_all(&mut out, &chars_of(format_bytes(t).as_str()));
                string_of(&out)
            } else {
                format_bytes(c)
            }
        },
        None => String::new(),
    }
}

/// Bytes taken by a character in UTF-8.
pub open spec fn utf8_len(c: char) -> nat {
    let u = c as u32;
    if u < 0x80 {
        1
    } else if u < 0x800 {
        2
    } else if u < 0x10000 {
        3
    } else {
        4
    }
}

/// Bytes taken by a text in UTF-8.
pub open spec fn byte_len(s: Seq<char>) -> nat
    decreases s.len(),
{
    if s.len() == 0 {
        0
    } else {
        byte_len(s.drop_last()) + utf8_len(s.last())
    }
}

/// The longest prefix of `s` that ends where a character starting before byte `m` starts
/// (the index of that character), if any character starts before `m`.
pub open spec fn last_start_before(s: Seq<char>, i: int, off: nat, m: nat) -> Option<nat>
    decreases s.len() - i,
{
    if i < 0 || i >= s.len() || off >= m {
        None
    } else {
        match last_start_before(s, i + 1, off + utf8_len(s[i]), m) {
            Some(j) => Some(j),
            None => Some(i as nat),
        }
    }
}

/// `s` if it fits in `m` bytes; else the text before the last character that starts
/// below byte `m`.
pub open spec fn safe_prefix_text(s: Seq<char>, m: nat) -> Seq<char> {
    if byte_len(s) <= m {
        s
    } else {
        match last_start_before(s, 0, 0, m) {
            Some(j) => s.subrange(0, j as int),
            None => Seq::empty(),
        }
    }
}

fn utf8_len_exec(c: char) -> (r: usize)
    ensures
        r == utf8_len(c),
{
    let u = c as u32;
    if u < 0x80 {
        1
    } else if u < 0x800 {
        2
    } else if u < 0x10000 {
        3
    } else {
        4
    }
}

/// Bytes in `s`.
fn byte_len_exec(s: &Vec<char>) -> (r: u128)
    ensures
        r == byte_len(s@),
{
    let mut n: u128 = 0;
    let mut i: usize = 0;
    assert(s@.subrange(0, 0) =~= Seq::<char>::empty());
    while i < s.len()
        invariant
            i <= s.len(),
            n == byte_len(s@.subrange(0, i as int)),
            n <= 4 * i,
        decreases s.len() - i,
    {
        assert(s@.subrange(0, i + 1).drop_last() =~= s@.subrange(0, i as int));
        n = n + utf8_len_exec(s[i]) as u128;
        i = i + 1;
    }
    assert(s@.subrange(0, s.len() as int) =~= s@);
    n
}

/// Returns the longest prefix of `s` with fewer than `max_bytes` bytes that ends on a
/// character boundary, or `s` itself when it has at most `max_bytes` bytes.
pub fn safe_prefix(s: &str, max_bytes: usize) -> (r: String)
    ensures
        r@ == safe_prefix_text(s@, max_bytes as nat),
{
    let v = chars_of(s);
    if byte_len_exec(&v) <= max_bytes as u128 {
        return string_of(&v);
    }
    let mut i: usize = 0;
    let mut off: usize = 0;
    let mut last: Option<usize> = None;
    while i < v.len() && off < max_bytes
        invariant
            i <= v.len(),
            off <= max_bytes,
            last matches Some(l) ==> l < v.len(),
            last_start_before(v@, 0, 0, max_bytes as nat) == match last_start_before(
                v@,
                i as int,
                off as nat,
                max_bytes as nat,
            ) {
                Some(j) => Some(j),
                None => match last {
                    Some(l) => Some(l as nat),
                    None => None,
                },
            },
        decreases v.len() - i,
    {
        let w = utf8_len_exec(v[i]);
        last = Some(i);
        if w >= max_bytes - off {
            assert(last_start_before(v@, i + 1, (off + w) as nat, max_bytes as nat) is None);
            i = v.len();
        } else {
            off = off + w;
            i = i + 1;
        }
    }
    match last {
        Some(j) => string_of(&slice_chars(&v, 0, j)),
        None => String::new(),
    }
}

/// Cuts `content` for text output: kept if it has at most `max_len` bytes, else its
/// safe prefix below `max_len - 1` bytes followed by an ellipsis.
pub open spec fn truncated_text(content: Seq<char>, max_len: nat) -> Seq<char> {
    if byte_len(content) <= max_len {
        content
    } else if max_len > 1 {
        safe_prefix_text(content, (max_len - 1) as nat) + seq!['\u{2026}']
    } else {
        seq!['\u{2026}']
    }
}

/// The `truncate_text` filter: `content` cut to `max_len` bytes with an ellipsis.
pub fn truncate_text(content: &str, max_len: usize) -> (r: String)
    ensures
        r@ == truncated_text(content@, max_len as nat),
{
    let v = chars_of(content);
    if byte_len_exec(&v) <= max_len as u128 {
        string_of(&v)
    } else if max_len > 1 {
        let mut out = chars_of(safe_prefix(content, max_len - 1).as_str());
        out.push('\u{2026}');
        string_of(&out)
    } else {
        string_of(&vec!['\u{2026}'])
    }
}

/// `cur / total` as a percentage with `d` decimals, the exact value rounded half to even.
pub open spec fn percent_text(cur: nat, total: nat, d: nat) -> Seq<char> {
    fixed_text(round_half_even(cur * 100 * pow10(d), total), d) + seq!['%']
}

/// Most decimals a percentage is written with.
pub const MAX_PERCENT_DECIMALS: usize = 20;

/// What `percentage()` shows: empty without progress or when asked to hide a complete
/// one, `"0%"` for a zero total, else the percentage with `decimals` decimals (at most
/// `MAX_PERCENT_DECIMALS`).
pub open spec fn percentage_display(
    progress: Option<(usize, usize)>,
    hide_complete: bool,
    decimals: usize,
) -> Seq<char> {
    let d = if decimals > MAX_PERCENT_DECIMALS {
        MAX_PERCENT_DECIMALS
    } else {
        decimals
    };
    match progress {
        Some((c, t)) => if hide_complete && c >= t {
            Seq::empty()
        } else if t > 0 {
            percent_text(c as nat, t as nat, d as nat)
        } else {
            seq!['0', '%']
        },
        None => Seq::empty(),
    }
}

proof fn lemma_pow10_positive(k: nat)
    ensures
        pow10(k) >= 1,
        k >= 1 ==> pow10(k) % 2 == 0,
    decreases k,
{
    if k > 0 {
        lemma_pow10_positive((k - 1) as nat);
        assert(pow10(k) == 10 * pow10((k - 1) as nat));
    }
}

proof fn lemma_pow10_monotonic(i: nat, j: nat)
    requires
        i <= j,
    ensures
        pow10(i) <= pow10(j),
    decreases j - i,
{
    if i < j {
        lemma_pow10_monotonic(i, (j - 1) as nat);
        lemma_pow10_positive((j - 1) as nat);
    }
}

proof fn lemma_pow10_bounded(i: nat)
    requires
        i <= 20,
    ensures
        pow10(i) <= 100_000_000_000_000_000_000,
{
    lemma_pow10_monotonic(i, 20);
    reveal_with_fuel(pow10, 21);
}

fn pow10_u128(k: usize) -> (r: u128)
    requires
        k <= MAX_PERCENT_DECIMALS,
    ensures
        r == pow10(k as nat),
{
    let mut r: u128 = 1;
    let mut i: usize = 0;
    while i < k
        invariant
            i <= k <= 20,
            r == pow10(i as nat),
        decreases k - i,
    {
        proof {
            lemma_pow10_bounded((i + 1) as nat);
        }
        r = r * 10;
        i = i + 1;
    }
    r
}

fn push_percent(out: &mut Vec<char>, cur: usize, total: usize, d: usize)
    requires
        total > 0,
        d <= MAX_PERCENT_DECIMALS,
    ensures
        final(out)@ == old(out)@ + percent_text(cur as nat, total as nat, d as nat),
{
    let n: u128 = cur as u128 * 100;
    let t: u128 = total as u128;
    let q: u128 = n / t;
    let r0: u128 = n % t;
    let mut f: u128 = 0;
    let mut r: u128 = r0;
    let mut i: usize = 0;
    while i < d
        invariant
            i <= d <= 20,
            t == total as u128,
            t > 0,
            r < t,
            r0 < t,
            f < pow10(i as nat),
            f * t + r == r0 * pow10(i as nat),
            pow10(i as nat) <= 100_000_000_000_000_000_000,
        decreases d - i,
    {
        let x: u128 = r * 10;
        let digit: u128 = x / t;
        proof {
            vstd::arithmetic::div_mod::lemma_fundamental_div_mod(x as int, t as int);
            assert(digit < 10) by (nonlinear_arith)
                requires
                    digit == x / t,
                    x == r * 10,
                    r < t,
            ;
            assert((f * 10 + digit) * t + x % t == r0 * (10 * pow10(i as nat))) by (nonlinear_arith)
                requires
                    f * t + r == r0 * pow10(i as nat),
                    x == r * 10,
                    x == t * digit + x % t,
            ;
            assert(f * 10 + digit < 10 * pow10(i as nat)) by (nonlinear_arith)
                requires
                    f < pow10(i as nat),
                    digit < 10,
            ;
            assert(pow10((i + 1) as nat) == 10 * pow10(i as nat));
            lemma_pow10_bounded((i + 1) as nat);
        }
        f = f * 10 + digit;
        r = x % t;
        i = i + 1;
    }
    let p = pow10_u128(d);
    proof {
        lemma_pow10_positive(d as nat);
        assert(p == 2 * (p / 2) || d == 0);
        let big = cur as nat * 100 * pow10(d as nat);
        assert(n == t * q + r0) by {
            vstd::arithmetic::div_mod::lemma_fundamental_div_mod(n as int, t as int);
        }
        assert(big == (q * p + f) * t + r) by (nonlinear_arith)
            requires
                big == n * p,
                n == t * q + r0,
                f * t + r == r0 * p,
        ;
        lemma_fundamental_div_mod_converse(big as int, t as int, (q * p + f) as int, r as int);
    }
    let odd: bool = if d == 0 {
        q % 2 == 1
    } else {
        f % 2 == 1
    };
    proof {
        if d > 0 {
            let k = p / 2;
            assert(q * p == 2 * (q * k)) by (nonlinear_arith)
                requires
                    p == 2 * k,
            ;
            lemma_mod_multiples_vanish((q * k) as int, f as int, 2);
            assert((q * p + f) % 2 == f % 2);
        } else {
            assert(f == 0);
            assert(p == 1);
            assert(q * p == q) by (nonlinear_arith)
                requires
                    p == 1,
            ;
        }
    }
    let up: bool = 2 * r > t || (2 * r == t && odd);
    let g: u128 = if up {
        f + 1
    } else {
        f
    };
    let ghost s: nat = (q * p + g) as nat;
    assert(odd == ((q * p + f) % 2 == 1));
    assert(s == round_half_even(cur as nat * 100 * pow10(d as nat), total as nat));
    if d == 0 {
        assert(fixed_text(s, 0) == dec(s));
        push_dec128(out, q + g);
    } else {
        let (ip, fp): (u128, u128) = if g == p {
            (q + 1, 0)
        } else {
            (q, g)
        };
        proof {
            assert((q + 1) * p == q * p + p) by (nonlinear_arith);
            assert(fp < p);
            lemma_fundamental_div_mod_converse(s as int, p as int, ip as int, fp as int);
        }
        assert(fixed_text(s, d as nat) == dec(ip as nat) + seq!['.'] + padded(fp as nat, d as nat));
        push_dec128(out, ip);
        out.push('.');
        push_padded128(out, fp, d);
    }
    out.push('%');
}

/// The text of `percentage()` for a job.
pub fn percentage_text(progress: Option<(usize, usize)>, hide_complete: bool, decimals: usize) -> (r:
    String)
    ensures
        r@ == percentage_display(progress, hide_complete, decimals),
{
    let d = if decimals > MAX_PERCENT_DECIMALS {
        MAX_PERCENT_DECIMALS
    } else {
        decimals
    };
    match progress {
        Some((c, t)) => {
            if hide_complete && c >= t {
                String::new()
            } else if t > 0 {
                let mut out: Vec<char> = Vec::new();
                push_percent(&mut out, c, t, d);
                string_of(&out)
            } else {
                string_of(&vec!['0', '%'])
            }
        },
        None => String::new(),
    }
}

} // verus!
