//! Values of the `progress_bar()` and `spinner()` template functions.
use vstd::prelude::*;
use crate::flex::{flex_tag, sat_sub};
use crate::placeholder::{
    encode_pieces, encode_progress_bar_chars, encode_part, encode_char, placeholder, is_ws, is_trim,
    trim_start, trim_end, scan_fields, apply_field, parse_usize, digits_value, is_digit, starts_with,
    cur_key, total_key, chars_key, ScanState, lemma_encode_decode_round_trip,
};
use crate::progress_bar::{BarPieces, ProgressBarChars, bar_text, default_pieces, progress_bar_with_chars};
use crate::text::{dec, digit_char, push_dec, push_all, chars_of, same_chars, string_of};

verus! {

/// The progress-bar placeholder for `cur` of `total` with encoded characters `enc`:
/// `<clx:progress cur=C total=T chars=E>`.
pub open spec fn marker_text(cur: nat, total: nat, enc: Seq<char>) -> Seq<char> {
    seq!['<', 'c', 'l', 'x', ':', 'p', 'r', 'o', 'g', 'r', 'e', 's', 's', ' ', 'c', 'u', 'r', '=']
        + dec(cur) + seq![' ', 't', 'o', 't', 'a', 'l', '='] + dec(total) + seq![
        ' ',
        'c',
        'h',
        'a',
        'r',
        's',
        '=',
    ] + enc + seq!['>']
}

/// The width a bar is drawn with: the `width` argument if given (a negative one counts
/// from the full `width`, down to zero), else the full width.
pub open spec fn bar_width(width_arg: Option<i64>, width: nat) -> nat {
    match width_arg {
        Some(v) => if v < 0 {
            sat_sub(width as int, -(v as int))
        } else if v > usize::MAX {
            usize::MAX as nat
        } else {
            v as nat
        },
        None => width,
    }
}

/// What `progress_bar()` shows: nothing without progress or when asked to hide a complete
/// one; with `flex`, a placeholder between flex tags, drawn later at the width left;
/// otherwise the bar itself.
pub open spec fn progress_bar_display(
    progress: Option<(usize, usize)>,
    hide_complete: bool,
    flex: bool,
    width_arg: Option<i64>,
    width: nat,
    p: BarPieces,
    colors: bool,
) -> Seq<char> {
    match progress {
        None => Seq::empty(),
        Some((c, t)) => if hide_complete && c >= t {
            Seq::empty()
        } else if flex {
            flex_tag() + marker_text(c as nat, t as nat, encode_pieces(p)) + flex_tag()
        } else {
            bar_text(c as nat, t as nat, bar_width(width_arg, width), p, colors)
        },
    }
}

fn push_str_chars(out: &mut Vec<char>, s: &str)
    ensures
        final(out)@ == old(out)@ + s@,
{
    push_all(out, &chars_of(s));
}

fn bar_width_exec(width_arg: Option<i64>, width: usize) -> (r: usize)
    ensures
        r == bar_width(width_arg, width as nat),
{
    match width_arg {
        Some(v) => if v < 0 {
            let back: i128 = -(v as i128);
            if back <= width as i128 {
                width - back as usize
            } else {
                0
            }
        } else if v as u128 > usize::MAX as u128 {
            usize::MAX
        } else {
            v as usize
        },
        None => width,
    }
}

/// The text of `progress_bar()`.
pub fn progress_bar_text(
    progress: Option<(usize, usize)>,
    hide_complete: bool,
    flex: bool,
    width_arg: Option<i64>,
    width: usize,
    chars: &ProgressBarChars,
    colors: bool,
) -> (r: String)
    ensures
        r@ == progress_bar_display(
            progress,
            hide_complete,
            flex,
            width_arg,
            width as nat,
            chars.pieces(),
            colors,
        ),
{
    match progress {
        None => String::new(),
        Some((c, t)) => {
            if hide_complete && c >= t {
                String::new()
            } else if flex {
                let tag: Vec<char> = vec!['<', 'c', 'l', 'x', ':', 'f', 'l', 'e', 'x', '>'];
                let mut out: Vec<char> = Vec::new();
                push_all(&mut out, &tag);
                let head: Vec<char> = vec![
                    '<', 'c', 'l', 'x', ':', 'p', 'r', 'o', 'g', 'r', 'e', 's', 's', ' ', 'c', 'u',
                    'r', '=',
                ];
                push_all(&mut out, &head);
                push_dec(&mut out, c as u64);
                let mid: Vec<char> = vec![' ', 't', 'o', 't', 'a', 'l', '='];
                push_all(&mut out, &mid);
                push_dec(&mut out, t as u64);
                let ch: Vec<char> = vec![' ', 'c', 'h', 'a', 'r', 's', '='];
                push_all(&mut out, &ch);
                push_str_chars(&mut out, encode_progress_bar_chars(chars).as_str());
                out.push('>');
                push_all(&mut out, &tag);
                string_of(&out)
            } else {
                progress_bar_with_chars(c, t, bar_width_exec(width_arg, width), chars, colors)
            }
        },
    }
}

/// `"blocks"` or `"thin"` as a preset name.
pub open spec fn preset(style: Option<Seq<char>>) -> Option<BarPieces> {
    match style {
        Some(s) => if s == seq!['b', 'l', 'o', 'c', 'k', 's'] {
            Some(
                BarPieces {
                    fill: seq!['\u{2588}'],
                    head: seq!['\u{2593}'],
                    empty: seq!['\u{2591}'],
                    left: Seq::empty(),
                    right: Seq::empty(),
                },
            )
        } else if s == seq!['t', 'h', 'i', 'n'] {
            Some(
                BarPieces {
                    fill: seq!['\u{2501}'],
                    head: seq!['\u{2578}'],
                    empty: seq!['\u{2500}'],
                    left: Seq::empty(),
                    right: Seq::empty(),
                },
            )
        } else {
            None
        },
        None => None,
    }
}

pub open spec fn or_default(v: Option<Seq<char>>, d: Seq<char>) -> Seq<char> {
    match v {
        Some(s) => s,
        None => d,
    }
}

pub open spec fn opt_view(v: Option<&str>) -> Option<Seq<char>> {
    match v {
        Some(s) => Some(s@),
        None => None,
    }
}

/// The characters a `progress_bar()` call asks for: a preset by name, else the default
/// characters with the ones given replaced.
pub open spec fn chosen_pieces(
    style: Option<Seq<char>>,
    fill: Option<Seq<char>>,
    head: Option<Seq<char>>,
    empty: Option<Seq<char>>,
    left: Option<Seq<char>>,
    right: Option<Seq<char>>,
) -> BarPieces {
    match preset(style) {
        Some(p) => p,
        None => BarPieces {
            fill: or_default(fill, default_pieces().fill),
            head: or_default(head, default_pieces().head),
            empty: or_default(empty, default_pieces().empty),
            left: or_default(left, default_pieces().left),
            right: or_default(right, default_pieces().right),
        },
    }
}

fn owned(s: &str) -> (r: String)
    ensures
        r@ == s@,
{
    string_of(&chars_of(s))
}

/// Builds the bar characters a `progress_bar()` call asks for.
pub fn bar_chars_from(
    style: Option<&str>,
    fill: Option<&str>,
    head: Option<&str>,
    empty: Option<&str>,
    left: Option<&str>,
    right: Option<&str>,
) -> (r: ProgressBarChars)
    ensures
        r.pieces() == chosen_pieces(
            opt_view(style),
            opt_view(fill),
            opt_view(head),
            opt_view(empty),
            opt_view(left),
            opt_view(right),
        ),
{
    if let Some(s) = style {
        let v = chars_of(s);
        if same_chars(&v, &vec!['b', 'l', 'o', 'c', 'k', 's']) {
            return ProgressBarChars::blocks();
        }
        if same_chars(&v, &vec!['t', 'h', 'i', 'n']) {
            return ProgressBarChars::thin();
        }
    }
    let mut chars = ProgressBarChars::default();
    if let Some(s) = fill {
        chars.fill = owned(s);
    }
    if let Some(s) = head {
        chars.head = owned(s);
    }
    if let Some(s) = empty {
        chars.empty = owned(s);
    }
    if let Some(s) = left {
        chars.left = owned(s);
    }
    if let Some(s) = right {
        chars.right = owned(s);
    }
    chars
}

/// The spinner frame shown after `elapsed_ms`: one frame every `frame_ms`, cycling
/// through `frames` frames.
pub fn spinner_frame(elapsed_ms: usize, frame_ms: usize, frames: usize) -> (r: usize)
    requires
        frame_ms > 0,
        frames > 0,
    ensures
        r == (elapsed_ms / frame_ms) % frames,
        r < frames,
{
    (elapsed_ms / frame_ms) % frames
}

/// Characters that survive inside a placeholder field: no white space but the blank, which
/// the encoding escapes.
pub open spec fn field_safe(s: Seq<char>) -> bool {
    forall|k: int| 0 <= k < s.len() ==> s[k] == ' ' || !is_ws(#[trigger] s[k])
}

/// Characters that end neither a field nor the placeholder's brackets.
spec fn inert(s: Seq<char>) -> bool {
    forall|k: int| 0 <= k < s.len() ==> !is_ws(#[trigger] s[k]) && !is_trim(s[k])
}

proof fn lemma_encode_inert(s: Seq<char>)
    requires
        field_safe(s),
    ensures
        inert(encode_part(s)),
    decreases s.len(),
{
    if s.len() > 0 {
        let c = s[0];
        assert(field_safe(s.drop_first())) by {
            assert forall|k: int| 0 <= k < s.drop_first().len() implies s.drop_first()[k] == ' '
                || !is_ws(#[trigger] s.drop_first()[k]) by {
                assert(s.drop_first()[k] == s[k + 1]);
            }
        }
        lemma_encode_inert(s.drop_first());
        let head = encode_char(c);
        let tail = encode_part(s.drop_first());
        assert(s[0] == ' ' || !is_ws(s[0]));
        assert(inert(head));
        assert forall|k: int| 0 <= k < (head + tail).len() implies !is_ws(#[trigger] (head
            + tail)[k]) && !is_trim((head + tail)[k]) by {
            if k >= head.len() {
                assert((head + tail)[k] == tail[k - head.len()]);
            }
        }
    }
}

proof fn lemma_inert_concat(a: Seq<char>, b: Seq<char>)
    requires
        inert(a),
        inert(b),
    ensures
        inert(a + b),
{
    assert forall|k: int| 0 <= k < (a + b).len() implies !is_ws(#[trigger] (a + b)[k]) && !is_trim(
        (a + b)[k],
    ) by {
        if k >= a.len() {
            assert((a + b)[k] == b[k - a.len()]);
        }
    }
}

proof fn lemma_digit_char(d: nat)
    requires
        d < 10,
    ensures
        is_digit(digit_char(d)),
        ((digit_char(d) as u32) - ('0' as u32)) as nat == d,
        !is_ws(digit_char(d)),
        !is_trim(digit_char(d)),
        digit_char(d) != '+',
{
    if d == 0 {
    } else if d == 1 {
    } else if d == 2 {
    } else if d == 3 {
    } else if d == 4 {
    } else if d == 5 {
    } else if d == 6 {
    } else if d == 7 {
    } else if d == 8 {
    } else {
        assert(d == 9);
    }
}

proof fn lemma_dec_digits(n: nat)
    ensures
        dec(n).len() > 0,
        digits_value(dec(n)) == Some(n),
        inert(dec(n)),
        dec(n)[0] != '+',
    decreases n,
{
    let d = n % 10;
    lemma_digit_char(d);
    if n < 10 {
        let s = seq![digit_char(n)];
        assert(dec(n) == s);
        assert(s.drop_last() =~= Seq::<char>::empty());
        assert(digits_value(Seq::<char>::empty()) == Some(0nat));
        assert(s.last() == digit_char(d));
        assert(digits_value(s) == Some(10 * 0 + d));
    } else {
        lemma_dec_digits(n / 10);
        let s = dec(n);
        assert(s == dec(n / 10) + seq![digit_char(d)]);
        assert(s.drop_last() =~= dec(n / 10));
        assert(s.last() == digit_char(d));
        assert(digits_value(s) == Some(10 * (n / 10) + d));
        lemma_inert_concat(dec(n / 10), seq![digit_char(d)]);
        assert(s[0] == dec(n / 10)[0]);
    }
}

proof fn lemma_scan_token(tok: Seq<char>, rest: Seq<char>, st: ScanState, acc: Seq<char>)
    requires
        inert(tok),
    ensures
        scan_fields(tok + rest, st, acc) == scan_fields(rest, st, acc + tok),
    decreases tok.len(),
{
    if tok.len() == 0 {
        assert(tok + rest =~= rest);
        assert(acc + tok =~= acc);
    } else {
        assert((tok + rest)[0] == tok[0]);
        assert((tok + rest).drop_first() =~= tok.drop_first() + rest);
        assert(inert(tok.drop_first())) by {
            assert forall|k: int| 0 <= k < tok.drop_first().len() implies !is_ws(
                #[trigger] tok.drop_first()[k],
            ) && !is_trim(tok.drop_first()[k]) by {
                assert(tok.drop_first()[k] == tok[k + 1]);
            }
        }
        lemma_scan_token(tok.drop_first(), rest, st, acc.push(tok[0]));
        assert(acc.push(tok[0]) + tok.drop_first() =~= acc + tok);
    }
}

proof fn lemma_scan_field_then_blank(tok: Seq<char>, rest: Seq<char>, st: ScanState)
    requires
        inert(tok),
    ensures
        scan_fields(tok + seq![' '] + rest, st, Seq::empty()) == scan_fields(
            rest,
            apply_field(tok, st),
            Seq::empty(),
        ),
{
    lemma_scan_token(tok, seq![' '] + rest, st, Seq::empty());
    assert(tok + seq![' '] + rest =~= tok + (seq![' '] + rest));
    assert(Seq::<char>::empty() + tok =~= tok);
    let r = seq![' '] + rest;
    assert(r[0] == ' ');
    assert(r.drop_first() =~= rest);
}

proof fn lemma_encoded_inert(p: BarPieces)
    requires
        field_safe(p.fill),
        field_safe(p.head),
        field_safe(p.empty),
        field_safe(p.left),
        field_safe(p.right),
    ensures
        inert(encode_pieces(p)),
        encode_pieces(p).len() > 0,
{
    lemma_encode_inert(p.fill);
    lemma_encode_inert(p.head);
    lemma_encode_inert(p.empty);
    lemma_encode_inert(p.left);
    lemma_encode_inert(p.right);
    let comma = seq![','];
    let a = encode_part(p.fill) + comma;
    lemma_inert_concat(encode_part(p.fill), comma);
    let b = a + encode_part(p.head) + comma;
    lemma_inert_concat(a, encode_part(p.head));
    lemma_inert_concat(a + encode_part(p.head), comma);
    let c = b + encode_part(p.empty) + comma;
    lemma_inert_concat(b, encode_part(p.empty));
    lemma_inert_concat(b + encode_part(p.empty), comma);
    let d = c + encode_part(p.left) + comma;
    lemma_inert_concat(c, encode_part(p.left));
    lemma_inert_concat(c + encode_part(p.left), comma);
    lemma_inert_concat(d, encode_part(p.right));
    assert(encode_pieces(p) =~= d + encode_part(p.right));
}

spec fn marker_body(cur: nat, total: nat, e: Seq<char>) -> Seq<char> {
    seq!['c', 'l', 'x', ':', 'p', 'r', 'o', 'g', 'r', 'e', 's', 's'] + seq![' '] + (cur_key()
        + dec(cur)) + seq![' '] + (total_key() + dec(total)) + seq![' '] + (chars_key() + e)
}

proof fn lemma_marker_trim(cur: nat, total: nat, e: Seq<char>)
    requires
        inert(e),
        e.len() > 0,
    ensures
        trim_end(trim_start(marker_text(cur, total, e))) == marker_body(cur, total, e),
{
    let body = marker_body(cur, total, e);
    let m = marker_text(cur, total, e);
    assert(m =~= seq!['<'] + body + seq!['>']);
    assert(m.drop_first() =~= body + seq!['>']);
    assert(body[0] == 'c');
    assert((body + seq!['>'])[0] == 'c');
    assert(m[0] == '<');
    assert(trim_start(body + seq!['>']) == body + seq!['>']);
    assert(trim_start(m) == trim_start(m.drop_first()));
    assert(trim_start(m) == body + seq!['>']);
    let bb = body + seq!['>'];
    assert(bb.len() > 0 && bb.last() == '>');
    assert(is_trim(bb.last()));
    assert(bb.drop_last() =~= body);
    assert(trim_end(bb) == trim_end(bb.drop_last()));
    assert((body + seq!['>']).drop_last() =~= body);
    assert(body.last() == e.last());
    assert(!is_trim(e[e.len() - 1]));
    assert(trim_end(body) == body);
}

#[verifier::rlimit(50)]
proof fn lemma_marker_scan(cur: nat, total: nat, e: Seq<char>)
    requires
        inert(e),
        cur <= usize::MAX,
        total <= usize::MAX,
    ensures
        scan_fields(marker_body(cur, total, e), (None, None, None), Seq::empty()) == (
            Some(cur),
            Some(total),
            Some(e),
        ),
{
    lemma_dec_digits(cur);
    lemma_dec_digits(total);
    let t1 = seq!['c', 'l', 'x', ':', 'p', 'r', 'o', 'g', 'r', 'e', 's', 's'];
    let t2 = cur_key() + dec(cur);
    let t3 = total_key() + dec(total);
    let t4 = chars_key() + e;
    assert(inert(t1));
    assert(inert(cur_key()) && inert(total_key()) && inert(chars_key()));
    lemma_inert_concat(cur_key(), dec(cur));
    lemma_inert_concat(total_key(), dec(total));
    lemma_inert_concat(chars_key(), e);
    let st0: ScanState = (None, None, None);
    let r1 = t2 + seq![' '] + t3 + seq![' '] + t4;
    assert(marker_body(cur, total, e) =~= t1 + seq![' '] + r1);
    lemma_scan_field_then_blank(t1, r1, st0);
    assert(t1.subrange(0, 4)[1] != cur_key()[1]);
    assert(t1.subrange(0, 6)[0] != total_key()[0]);
    assert(t1.subrange(0, 6)[2] != chars_key()[2]);
    assert(apply_field(t1, st0) == st0);
    let r2 = t3 + seq![' '] + t4;
    assert(r1 =~= t2 + seq![' '] + r2);
    lemma_scan_field_then_blank(t2, r2, st0);
    assert(t2.subrange(0, 4) =~= cur_key());
    assert(t2.subrange(4, t2.len() as int) =~= dec(cur));
    let st1: ScanState = (Some(cur), None, None);
    assert(apply_field(t2, st0) == st1);
    lemma_scan_field_then_blank(t3, t4, st1);
    assert(t3.subrange(0, 4)[0] != cur_key()[0]);
    assert(t3.subrange(0, 6) =~= total_key());
    assert(t3.subrange(6, t3.len() as int) =~= dec(total));
    let st2: ScanState = (Some(cur), Some(total), None);
    assert(apply_field(t3, st1) == st2);
    lemma_scan_token(t4, Seq::empty(), st2, Seq::empty());
    assert(t4 + Seq::<char>::empty() =~= t4);
    assert(Seq::<char>::empty() + t4 =~= t4);
    assert(t4.subrange(0, 4)[1] != cur_key()[1]);
    assert(t4.subrange(0, 6)[0] != total_key()[0]);
    assert(t4.subrange(0, 6) =~= chars_key());
    assert(t4.subrange(6, t4.len() as int) =~= e);
    assert(apply_field(t4, st2) == (Some(cur), Some(total), Some(e)));
}

/// The placeholder that `progress_bar_text` writes with `flex` reads back as the same
/// current value, total and bar characters, for characters whose only white space is
/// the blank.
pub proof fn lemma_marker_parses(cur: nat, total: nat, p: BarPieces)
    requires
        cur <= usize::MAX,
        total <= usize::MAX,
        field_safe(p.fill),
        field_safe(p.head),
        field_safe(p.empty),
        field_safe(p.left),
        field_safe(p.right),
    ensures
        placeholder(marker_text(cur, total, encode_pieces(p))) == Some((cur, total, p)),
{
    let e = encode_pieces(p);
    lemma_encoded_inert(p);
    lemma_marker_trim(cur, total, e);
    lemma_marker_scan(cur, total, e);
    lemma_encode_decode_round_trip(p);
}

} // verus!
