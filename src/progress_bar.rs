//! Progress bars drawn from five configurable pieces.
use vstd::prelude::*;
use crate::measure::{text_width, measure_text_width, dim_text, dim_open, attr_reset};
use crate::text::{repeat_seq, push_all, push_repeat_seq, chars_of, string_of};

verus! {

/// Characters used to draw a progress bar.
#[derive(Debug, Clone)]
pub struct ProgressBarChars {
    /// Filled part (default `"="`).
    pub fill: String,
    /// Leading edge of the filled part (default `">"`).
    pub head: String,
    /// Empty part (default `" "`).
    pub empty: String,
    /// Left bracket (default `"["`).
    pub left: String,
    /// Right bracket (default `"]"`).
    pub right: String,
}

/// The five pieces of a bar as character sequences.
pub struct BarPieces {
    pub fill: Seq<char>,
    pub head: Seq<char>,
    pub empty: Seq<char>,
    pub left: Seq<char>,
    pub right: Seq<char>,
}

impl ProgressBarChars {
    pub open spec fn pieces(&self) -> BarPieces {
        BarPieces {
            fill: self.fill@,
            head: self.head@,
            empty: self.empty@,
            left: self.left@,
            right: self.right@,
        }
    }

    /// Block-style characters without brackets.
    pub fn blocks() -> (r: Self)
        ensures
            r.fill@ == seq!['\u{2588}'],
            r.head@ == seq!['\u{2593}'],
            r.empty@ == seq!['\u{2591}'],
            r.left@ == Seq::<char>::empty(),
            r.right@ == Seq::<char>::empty(),
    {
        ProgressBarChars {
            fill: string_of(&vec!['\u{2588}']),
            head: string_of(&vec!['\u{2593}']),
            empty: string_of(&vec!['\u{2591}']),
            left: String::new(),
            right: String::new(),
        }
    }

    /// Thin line characters without brackets.
    pub fn thin() -> (r: Self)
        ensures
            r.fill@ == seq!['\u{2501}'],
            r.head@ == seq!['\u{2578}'],
            r.empty@ == seq!['\u{2500}'],
            r.left@ == Seq::<char>::empty(),
            r.right@ == Seq::<char>::empty(),
    {
        ProgressBarChars {
            fill: string_of(&vec!['\u{2501}']),
            head: string_of(&vec!['\u{2578}']),
            empty: string_of(&vec!['\u{2500}']),
            left: String::new(),
            right: String::new(),
        }
    }
}

impl Default for ProgressBarChars {
    /// `=` fill, `>` head, blank empty part, square brackets.
    fn default() -> (r: Self)
        ensures
            r.fill@ == seq!['='],
            r.head@ == seq!['>'],
            r.empty@ == seq![' '],
            r.left@ == seq!['['],
            r.right@ == seq![']'],
    {
        ProgressBarChars {
            fill: string_of(&vec!['=']),
            head: string_of(&vec!['>']),
            empty: string_of(&vec![' ']),
            left: string_of(&vec!['[']),
            right: string_of(&vec![']']),
        }
    }
}

/// The default pieces: `=`, `>`, blank, `[` and `]`.
pub open spec fn default_pieces() -> BarPieces {
    BarPieces {
        fill: seq!['='],
        head: seq!['>'],
        empty: seq![' '],
        left: seq!['['],
        right: seq![']'],
    }
}

/// `x / u` rounded to the nearest integer, an exact half upwards.
pub open spec fn round_div(x: nat, u: nat) -> nat {
    x / u + if 2 * (x % u) >= u {
        1nat
    } else {
        0nat
    }
}

/// Number of filled cells out of `inner` for `cur` of `total`.
pub open spec fn filled_cells(cur: nat, total: nat, inner: nat) -> nat {
    if total == 0 {
        0
    } else {
        round_div(inner * cur, total)
    }
}

/// The inside of a bar `inner` cells wide: all filled once complete; else the filled
/// cells, the last of them drawn as the head, then empty cells.
pub open spec fn bar_inside(cur: nat, total: nat, inner: nat, p: BarPieces) -> Seq<char> {
    let filled = filled_cells(cur, total, inner);
    if total > 0 && cur >= total {
        repeat_seq(p.fill, inner)
    } else if filled > 0 {
        repeat_seq(p.fill, (filled - 1) as nat) + p.head + repeat_seq(p.empty, (inner - filled) as nat)
    } else {
        repeat_seq(p.empty, inner)
    }
}

/// Cells left for the inside of a bar `width` wide once the brackets are drawn.
pub open spec fn inner_width(width: nat, p: BarPieces) -> nat {
    let b = text_width(p.left) + text_width(p.right);
    if width >= b {
        (width - b) as nat
    } else {
        0
    }
}

/// A bar `width` wide, before styling.
pub open spec fn bar_plain(cur: nat, total: nat, width: nat, p: BarPieces) -> Seq<char> {
    p.left + bar_inside(cur, total, inner_width(width, p), p) + p.right
}

/// A bar `width` wide, dimmed when `colors` is on.
pub open spec fn bar_text(cur: nat, total: nat, width: nat, p: BarPieces, colors: bool) -> Seq<
    char,
> {
    if colors {
        dim_open() + bar_plain(cur, total, width, p) + attr_reset()
    } else {
        bar_plain(cur, total, width, p)
    }
}

fn filled_exec(cur: usize, total: usize, inner: usize) -> (r: usize)
    requires
        cur < total,
    ensures
        r == filled_cells(cur as nat, total as nat, inner as nat),
        r <= inner,
{
    assert((inner as int) * (cur as int) <= 0xffff_ffff_ffff_ffff * 0xffff_ffff_ffff_ffff) by (
    nonlinear_arith)
        requires
            inner <= 0xffff_ffff_ffff_ffffu64,
            cur <= 0xffff_ffff_ffff_ffffu64,
    ;
    let x: u128 = (inner as u128) * (cur as u128);
    let t: u128 = total as u128;
    let q: u128 = x / t;
    let rem: u128 = x % t;
    let up: bool = rem >= t - rem;
    assert(q + (if up {
        1int
    } else {
        0int
    }) <= inner) by (nonlinear_arith)
        requires
            q == x / t,
            rem == x % t,
            x == (inner as u128) * (cur as u128),
            t == total as u128,
            cur < total,
            up == (rem >= t - rem),
    ;
    let r: u128 = if up {
        q + 1
    } else {
        q
    };
    r as usize
}

/// Draws a bar `width` cells wide for `cur` of `total`, dimmed when `colors` is on.
pub fn progress_bar_with_chars(
    cur: usize,
    total: usize,
    width: usize,
    chars: &ProgressBarChars,
    colors: bool,
) -> (r: String)
    ensures
        r@ == bar_text(cur as nat, total as nat, width as nat, chars.pieces(), colors),
{
    let fill = chars_of(chars.fill.as_str());
    let head = chars_of(chars.head.as_str());
    let empty = chars_of(chars.empty.as_str());
    let left = chars_of(chars.left.as_str());
    let right = chars_of(chars.right.as_str());
    let lw = measure_text_width(&left);
    let rw = measure_text_width(&right);
    let inner: usize = if lw as u128 + rw as u128 <= width as u128 {
        width - lw - rw
    } else {
        0
    };
    let mut out: Vec<char> = Vec::new();
    push_all(&mut out, &left);
    if total > 0 && cur >= total {
        push_repeat_seq(&mut out, &fill, inner);
    } else if total == 0 {
        push_repeat_seq(&mut out, &empty, inner);
    } else if filled_exec(cur, total, inner) > 0 {
        let filled = filled_exec(cur, total, inner);
        push_repeat_seq(&mut out, &fill, filled - 1);
        push_all(&mut out, &head);
        push_repeat_seq(&mut out, &empty, inner - filled);
    } else {
        push_repeat_seq(&mut out, &empty, inner);
    }
    push_all(&mut out, &right);
    assert(out@ == bar_plain(cur as nat, total as nat, width as nat, chars.pieces()));
    let styled = dim_text(&out, colors);
    string_of(&styled)
}

} // verus!
