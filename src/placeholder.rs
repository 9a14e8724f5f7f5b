//! The progress-bar placeholder embedded in rendered text, and the percent encoding
//! of the bar's characters inside it.
use vstd::prelude::*;
use crate::progress_bar::{ProgressBarChars, BarPieces, default_pieces, bar_text, progress_bar_with_chars};
use crate::text::{find, find_from, occurs_at, push_all, chars_of, string_of, slice_chars, find_chars};

verus! {

/// The encoding of one character inside a placeholder.
pub open spec fn encode_char(c: char) -> Seq<char> {
    if c == ',' {
        seq!['%', '2', 'C']
    } else if c == '%' {
        seq!['%', '2', '5']
    } else if c == ' ' {
        seq!['%', '2', '0']
    } else if c == '<' {
        seq!['%', '3', 'C']
    } else if c == '>' {
        seq!['%', '3', 'E']
    } else {
        seq![c]
    }
}

/// Percent encoding of the separators and brackets of a placeholder.
pub open spec fn encode_part(s: Seq<char>) -> Seq<char>
    decreases s.len(),
{
    if s.len() == 0 {
        Seq::empty()
    } else {
        encode_char(s[0]) + encode_part(s.drop_first())
    }
}

/// What the escape `%` followed by `h` (at most two characters) stands for.
pub open spec fn escape_value(h: Seq<char>) -> Seq<char> {
    if h == seq!['2', 'C'] {
        seq![',']
    } else if h == seq!['2', '0'] {
        seq![' ']
    } else if h == seq!['3', 'C'] {
        seq!['<']
    } else if h == seq!['3', 'E'] {
        seq!['>']
    } else if h == seq!['2', '5'] {
        seq!['%']
    } else {
        seq!['%'] + h
    }
}

/// Length of the escape that starts `s` (which starts with `%`): up to three characters.
pub open spec fn escape_len(s: Seq<char>) -> nat {
    if s.len() >= 3 {
        3
    } else {
        s.len()
    }
}

/// Decoding in one pass: each `%` and the (up to) two characters after it become what
/// the escape stands for; an unknown escape is kept as it is.
pub open spec fn decode_part(s: Seq<char>) -> Seq<char>
    decreases s.len(),
{
    if s.len() == 0 {
        Seq::empty()
    } else if s[0] == '%' {
        let k = escape_len(s);
        escape_value(s.subrange(1, k as int)) + decode_part(s.subrange(k as int, s.len() as int))
    } else {
        seq![s[0]] + decode_part(s.drop_first())
    }
}

/// The encoded pieces, joined by commas: fill, head, empty, left, right.
pub open spec fn encode_pieces(p: BarPieces) -> Seq<char> {
    encode_part(p.fill) + seq![','] + encode_part(p.head) + seq![','] + encode_part(p.empty)
        + seq![','] + encode_part(p.left) + seq![','] + encode_part(p.right)
}

/// `s` split at its first `n - 1` commas.
pub open spec fn comma_split(s: Seq<char>, n: nat) -> Seq<Seq<char>>
    decreases n,
{
    if n <= 1 {
        seq![s]
    } else {
        match find(s, seq![',']) {
            None => seq![s],
            Some(i) => seq![s.subrange(0, i)] + comma_split(
                s.subrange(i + 1, s.len() as int),
                (n - 1) as nat,
            ),
        }
    }
}

/// Decoded pieces; fewer than five parts give the default pieces.
pub open spec fn decode_pieces(e: Seq<char>) -> BarPieces {
    let parts = comma_split(e, 5);
    if parts.len() >= 5 {
        BarPieces {
            fill: decode_part(parts[0]),
            head: decode_part(parts[1]),
            empty: decode_part(parts[2]),
            left: decode_part(parts[3]),
            right: decode_part(parts[4]),
        }
    } else {
        default_pieces()
    }
}

proof fn lemma_decode_encode(s: Seq<char>)
    ensures
        decode_part(encode_part(s)) == s,
    decreases s.len(),
{
    if s.len() > 0 {
        let c = s[0];
        let rest = s.drop_first();
        lemma_decode_encode(rest);
        let e = encode_part(s);
        let tail = encode_part(rest);
        assert(e == encode_char(c) + tail);
        if c == ',' || c == '%' || c == ' ' || c == '<' || c == '>' {
            assert(e[0] == '%');
            if c == ',' {
                assert(e.subrange(1, 3) =~= seq!['2', 'C']);
            } else if c == '%' {
                assert(e.subrange(1, 3) =~= seq!['2', '5']);
            } else if c == ' ' {
                assert(e.subrange(1, 3) =~= seq!['2', '0']);
            } else if c == '<' {
                assert(e.subrange(1, 3) =~= seq!['3', 'C']);
            } else {
                assert(e.subrange(1, 3) =~= seq!['3', 'E']);
            }
            assert(e.subrange(3, e.len() as int) =~= tail);
            assert(escape_value(e.subrange(1, 3)) == seq![c]);
            assert(decode_part(e) == seq![c] + decode_part(tail));
        } else {
            assert(e.drop_first() =~= tail);
            assert(decode_part(e) == seq![c] + decode_part(tail));
        }
        assert(seq![c] + rest =~= s);
    }
}

proof fn lemma_encode_no_comma(s: Seq<char>)
    ensures
        forall|k: int| 0 <= k < encode_part(s).len() ==> encode_part(s)[k] != ',',
    decreases s.len(),
{
    if s.len() > 0 {
        lemma_encode_no_comma(s.drop_first());
        let e = encode_part(s);
        let head = encode_char(s[0]);
        let tail = encode_part(s.drop_first());
        assert(e == head + tail);
        assert forall|k: int| 0 <= k < e.len() implies e[k] != ',' by {
            if k >= head.len() {
                assert(e[k] == tail[k - head.len()]);
            }
        }
    }
}

proof fn lemma_first_comma(s: Seq<char>, at: int, from: int)
    requires
        0 <= from <= at < s.len(),
        s[at] == ',',
        forall|k: int| from <= k < at ==> s[k] != ',',
    ensures
        find_from(s, seq![','], from) == Some(at),
    decreases at - from,
{
    if from < at {
        assert(s.subrange(from, from + 1)[0] == s[from]);
        lemma_first_comma(s, at, from + 1);
    } else {
        assert(s.subrange(from, from + 1) =~= seq![',']);
    }
}

proof fn lemma_split_encoded(a: Seq<char>, b: Seq<char>, n: nat)
    requires
        n >= 2,
        forall|k: int| 0 <= k < a.len() ==> a[k] != ',',
    ensures
        comma_split(a + seq![','] + b, n) == seq![a] + comma_split(b, (n - 1) as nat),
{
    let s = a + seq![','] + b;
    lemma_first_comma(s, a.len() as int, 0);
    assert(s.subrange(0, a.len() as int) =~= a);
    assert(s.subrange(a.len() as int + 1, s.len() as int) =~= b);
}

/// Encoding a bar's characters and decoding them again gives the same characters.
pub proof fn lemma_encode_decode_round_trip(p: BarPieces)
    ensures
        decode_pieces(encode_pieces(p)) == p,
{
    let ef = encode_part(p.fill);
    let eh = encode_part(p.head);
    let ee = encode_part(p.empty);
    let el = encode_part(p.left);
    let er = encode_part(p.right);
    lemma_encode_no_comma(p.fill);
    lemma_encode_no_comma(p.head);
    lemma_encode_no_comma(p.empty);
    lemma_encode_no_comma(p.left);
    lemma_decode_encode(p.fill);
    lemma_decode_encode(p.head);
    lemma_decode_encode(p.empty);
    lemma_decode_encode(p.left);
    lemma_decode_encode(p.right);
    let r3 = el + seq![','] + er;
    let r2 = ee + seq![','] + r3;
    let r1 = eh + seq![','] + r2;
    let all = ef + seq![','] + r1;
    assert(encode_pieces(p) =~= all);
    lemma_split_encoded(ef, r1, 5);
    lemma_split_encoded(eh, r2, 4);
    lemma_split_encoded(ee, r3, 3);
    lemma_split_encoded(el, er, 2);
    assert(comma_split(er, 1) == seq![er]);
    let parts = comma_split(all, 5);
    assert(parts =~= seq![ef, eh, ee, el, er]);
}

fn push_encoded(out: &mut Vec<char>, s: &Vec<char>)
    ensures
        final(out)@ == old(out)@ + encode_part(s@),
{
    let mut i: usize = 0;
    assert(s@.subrange(0, s.len() as int) =~= s@);
    while i < s.len()
        invariant
            i <= s.len(),
            old(out)@ + encode_part(s@) == out@ + encode_part(s@.subrange(i as int, s.len() as int)),
        decreases s.len() - i,
    {
        let c = s[i];
        assert(s@.subrange(i as int, s.len() as int).drop_first() =~= s@.subrange(
            i + 1,
            s.len() as int,
        ));
        if c == ',' {
            out.push('%');
            out.push('2');
            out.push('C');
        } else if c == '%' {
            out.push('%');
            out.push('2');
            out.push('5');
        } else if c == ' ' {
            out.push('%');
            out.push('2');
            out.push('0');
        } else if c == '<' {
            out.push('%');
            out.push('3');
            out.push('C');
        } else if c == '>' {
            out.push('%');
            out.push('3');
            out.push('E');
        } else {
            out.push(c);
        }
        i = i + 1;
    }
    assert(s@.subrange(s.len() as int, s.len() as int) =~= Seq::<char>::empty());
}

/// Encodes the characters of a bar for a placeholder: each piece percent-encoded, the
/// pieces joined by commas.
pub fn encode_progress_bar_chars(chars: &ProgressBarChars) -> (r: String)
    ensures
        r@ == encode_pieces(chars.pieces()),
{
    let mut out: Vec<char> = Vec::new();
    push_encoded(&mut out, &chars_of(chars.fill.as_str()));
    out.push(',');
    push_encoded(&mut out, &chars_of(chars.head.as_str()));
    out.push(',');
    push_encoded(&mut out, &chars_of(chars.empty.as_str()));
    out.push(',');
    push_encoded(&mut out, &chars_of(chars.left.as_str()));
    out.push(',');
    push_encoded(&mut out, &chars_of(chars.right.as_str()));
    string_of(&out)
}

fn decode_chars(s: &Vec<char>) -> (r: Vec<char>)
    ensures
        r@ == decode_part(s@),
{
    let mut out: Vec<char> = Vec::new();
    let mut i: usize = 0;
    assert(s@.subrange(0, s.len() as int) =~= s@);
    while i < s.len()
        invariant
            i <= s.len(),
            decode_part(s@) == out@ + decode_part(s@.subrange(i as int, s.len() as int)),
        decreases s.len() - i,
    {
        let ghost rest = s@.subrange(i as int, s.len() as int);
        if s[i] == '%' {
            let k: usize = if s.len() - i >= 3 {
                3
            } else {
                s.len() - i
            };
            let h = slice_chars(s, i + 1, i + k);
            assert(h@ =~= rest.subrange(1, k as int));
            assert(rest.subrange(k as int, rest.len() as int) =~= s@.subrange(
                (i + k) as int,
                s.len() as int,
            ));
            if h.len() == 2 && h[0] == '2' && h[1] == 'C' {
                assert(h@ =~= seq!['2', 'C']);
                out.push(',');
            } else if h.len() == 2 && h[0] == '2' && h[1] == '0' {
                assert(h@ =~= seq!['2', '0']);
                out.push(' ');
            } else if h.len() == 2 && h[0] == '3' && h[1] == 'C' {
                assert(h@ =~= seq!['3', 'C']);
                out.push('<');
            } else if h.len() == 2 && h[0] == '3' && h[1] == 'E' {
                assert(h@ =~= seq!['3', 'E']);
                out.push('>');
            } else if h.len() == 2 && h[0] == '2' && h[1] == '5' {
                assert(h@ =~= seq!['2', '5']);
                out.push('%');
            } else {
                out.push('%');
                push_all(&mut out, &h);
            }
            i = i + k;
        } else {
            assert(rest.drop_first() =~= s@.subrange(i + 1, s.len() as int));
            out.push(s[i]);
            i = i + 1;
        }
    }
    assert(s@.subrange(s.len() as int, s.len() as int) =~= Seq::<char>::empty());
    out
}

/// Decodes the characters of a bar from a placeholder; an encoding with fewer than five
/// parts gives the default characters.
pub fn decode_progress_bar_chars(encoded: &str) -> (r: ProgressBarChars)
    ensures
        r.pieces() == decode_pieces(encoded@),
{
    let e = chars_of(encoded);
    let comma: Vec<char> = vec![','];
    let mut parts: Vec<Vec<char>> = Vec::new();
    let mut rest: Vec<char> = e;
    let mut n: usize = 5;
    let ghost mut done: Seq<Seq<char>> = Seq::empty();
    let mut stopped = false;
    while n > 1 && !stopped
        invariant
            stopped ==> find(rest@, seq![',']) is None,
            1 <= n <= 5,
            parts.len() + n == 5,
            comma@ == seq![','],
            forall|k: int| 0 <= k < parts.len() ==> #[trigger] parts@[k]@ == done[k],
            done.len() == parts.len(),
            comma_split(encoded@, 5) == done + comma_split(rest@, n as nat),
        decreases n + if stopped {
            0int
        } else {
            1int
        },
    {
        match find_chars(&rest, &comma) {
            None => {
                stopped = true;
            },
            Some(i) => {
                assert(occurs_at(rest@, comma@, i as int));
                assert(comma@.len() == 1);
                assert(i + 1 <= rest@.len());
                assert(i < rest.len());
                let head = slice_chars(&rest, 0, i);
                let tail = slice_chars(&rest, i + 1, rest.len());
                proof {
                    let x = comma_split(tail@, (n - 1) as nat);
                    assert(comma_split(rest@, n as nat) == seq![head@] + x);
                    assert(done + (seq![head@] + x) =~= (done + seq![head@]) + x);
                    done = done + seq![head@];
                }
                parts.push(head);
                rest = tail;
                n = n - 1;
            },
        }
    }
    if n == 1 {
        assert(comma_split(rest@, 1) == seq![rest@]);
        let f = decode_chars(&parts[0]);
        let h = decode_chars(&parts[1]);
        let em = decode_chars(&parts[2]);
        let l = decode_chars(&parts[3]);
        let ri = decode_chars(&rest);
        let ghost all = done + seq![rest@];
        assert(comma_split(encoded@, 5) == all);
        ProgressBarChars {
            fill: string_of(&f),
            head: string_of(&h),
            empty: string_of(&em),
            left: string_of(&l),
            right: string_of(&ri),
        }
    } else {
        assert(comma_split(rest@, n as nat) == seq![rest@]);
        assert(comma_split(encoded@, 5).len() < 5);
        ProgressBarChars::default()
    }
}

/// Unicode white space, as `char::is_whitespace` classifies it.
pub open spec fn is_ws(c: char) -> bool {
    let u = c as u32;
    (9 <= u && u <= 13) || u == 32 || u == 0x85 || u == 0xA0 || u == 0x1680 || (0x2000 <= u && u
        <= 0x200A) || u == 0x2028 || u == 0x2029 || u == 0x202F || u == 0x205F || u == 0x3000
}

/// Whether `c` is Unicode white space.
pub fn is_whitespace(c: char) -> (r: bool)
    ensures
        r == is_ws(c),
{
    let u = c as u32;
    (9 <= u && u <= 13) || u == 32 || u == 0x85 || u == 0xA0 || u == 0x1680 || (0x2000 <= u && u
        <= 0x200A) || u == 0x2028 || u == 0x2029 || u == 0x202F || u == 0x205F || u == 0x3000
}

/// The characters trimmed from both ends of a placeholder.
pub open spec fn is_trim(c: char) -> bool {
    c == '<' || c == '>' || c == ' '
}

pub open spec fn trim_start(s: Seq<char>) -> Seq<char>
    decreases s.len(),
{
    if s.len() > 0 && is_trim(s[0]) {
        trim_start(s.drop_first())
    } else {
        s
    }
}

pub open spec fn trim_end(s: Seq<char>) -> Seq<char>
    decreases s.len(),
{
    if s.len() > 0 && is_trim(s.last()) {
        trim_end(s.drop_last())
    } else {
        s
    }
}

pub open spec fn starts_with(s: Seq<char>, p: Seq<char>) -> bool {
    p.len() <= s.len() && s.subrange(0, p.len() as int) == p
}

pub open spec fn is_digit(c: char) -> bool {
    '0' <= c && c <= '9'
}

/// The value of a sequence of decimal digits (the empty one is zero).
pub open spec fn digits_value(s: Seq<char>) -> Option<nat>
    decreases s.len(),
{
    if s.len() == 0 {
        Some(0)
    } else if is_digit(s.last()) {
        match digits_value(s.drop_last()) {
            Some(v) => Some(10 * v + ((s.last() as u32) - ('0' as u32)) as nat),
            None => None,
        }
    } else {
        None
    }
}

/// `usize::from_str`: optional `+`, then at least one decimal digit, the value in range.
pub open spec fn parse_usize(s: Seq<char>) -> Option<nat> {
    let d = if s.len() > 0 && s[0] == '+' {
        s.drop_first()
    } else {
        s
    };
    if d.len() == 0 {
        None
    } else {
        match digits_value(d) {
            Some(v) => if v <= usize::MAX {
                Some(v)
            } else {
                None
            },
            None => None,
        }
    }
}

/// What the fields of a placeholder have set so far: current, total, encoded characters.
pub type ScanState = (Option<nat>, Option<nat>, Option<Seq<char>>);

pub open spec fn cur_key() -> Seq<char> {
    seq!['c', 'u', 'r', '=']
}

pub open spec fn total_key() -> Seq<char> {
    seq!['t', 'o', 't', 'a', 'l', '=']
}

pub open spec fn chars_key() -> Seq<char> {
    seq!['c', 'h', 'a', 'r', 's', '=']
}

/// One `key=value` field applied to the state; a later field overrides an earlier one, and
/// a number that does not parse unsets it.
pub open spec fn apply_field(tok: Seq<char>, st: ScanState) -> ScanState {
    if tok.len() == 0 {
        st
    } else if starts_with(tok, cur_key()) {
        (parse_usize(tok.subrange(4, tok.len() as int)), st.1, st.2)
    } else if starts_with(tok, total_key()) {
        (st.0, parse_usize(tok.subrange(6, tok.len() as int)), st.2)
    } else if starts_with(tok, chars_key()) {
        (st.0, st.1, Some(tok.subrange(6, tok.len() as int)))
    } else {
        st
    }
}

/// The fields of `s`, split at white space, applied in order; `tok` is the field read so far.
pub open spec fn scan_fields(s: Seq<char>, st: ScanState, tok: Seq<char>) -> ScanState
    decreases s.len(),
{
    if s.len() == 0 {
        apply_field(tok, st)
    } else if is_ws(s[0]) {
        scan_fields(s.drop_first(), apply_field(tok, st), Seq::empty())
    } else {
        scan_fields(s.drop_first(), st, tok.push(s[0]))
    }
}

/// The bar a placeholder asks for: current, total and pieces, if both numbers are there.
pub open spec fn placeholder(content: Seq<char>) -> Option<(nat, nat, BarPieces)> {
    let st = scan_fields(trim_end(trim_start(content)), (None, None, None), Seq::empty());
    match (st.0, st.1) {
        (Some(c), Some(t)) => Some(
            (
                c,
                t,
                match st.2 {
                    Some(e) => decode_pieces(e),
                    None => default_pieces(),
                },
            ),
        ),
        _ => None,
    }
}

proof fn lemma_digits_prefix(s: Seq<char>, i: int)
    requires
        0 <= i <= s.len(),
        digits_value(s) is Some,
    ensures
        digits_value(s.subrange(0, i)) is Some,
        digits_value(s.subrange(0, i))->0 <= digits_value(s)->0,
    decreases s.len() - i,
{
    if i < s.len() {
        assert(s.drop_last() =~= s.subrange(0, s.len() - 1));
        lemma_digits_prefix(s.drop_last(), i);
        assert(s.drop_last().subrange(0, i) =~= s.subrange(0, i));
    } else {
        assert(s.subrange(0, i) =~= s);
    }
}

proof fn lemma_parse_none(s: Seq<char>, d: Seq<char>)
    requires
        d == (if s.len() > 0 && s[0] == '+' {
            s.drop_first()
        } else {
            s
        }),
        d.len() > 0,
        digits_value(d) is None || digits_value(d)->0 > usize::MAX,
    ensures
        parse_usize(s) is None,
{
    match digits_value(d) {
        Some(v) => {
            assert(v > usize::MAX);
        },
        None => {},
    }
}

fn parse_number(s: &Vec<char>) -> (r: Option<usize>)
    ensures
        r matches Some(v) ==> parse_usize(s@) == Some(v as nat),
        r is None ==> parse_usize(s@) is None,
{
    let start: usize = if s.len() > 0 && s[0] == '+' {
        1
    } else {
        0
    };
    let ghost d = if s@.len() > 0 && s@[0] == '+' {
        s@.drop_first()
    } else {
        s@
    };
    assert(d =~= s@.subrange(start as int, s.len() as int));
    if start >= s.len() {
        return None;
    }
    let mut v: usize = 0;
    let mut i: usize = start;
    assert(d.subrange(0, 0) =~= Seq::<char>::empty());
    while i < s.len()
        invariant
            start <= i <= s.len(),
            d == (if s@.len() > 0 && s@[0] == '+' {
                s@.drop_first()
            } else {
                s@
            }),
            d =~= s@.subrange(start as int, s.len() as int),
            digits_value(d.subrange(0, i - start)) == Some(v as nat),
        decreases s.len() - i,
    {
        let c = s[i];
        assert(d.subrange(0, i - start + 1).drop_last() =~= d.subrange(0, i - start));
        assert(d.subrange(0, i - start + 1).last() == c);
        if !('0' <= c && c <= '9') {
            assert(digits_value(d.subrange(0, i - start + 1)) is None);
            proof {
                if digits_value(d) is Some {
                    lemma_digits_prefix(d, i - start + 1);
                }
            }
            assert(digits_value(d) is None);
            proof {
                lemma_parse_none(s@, d);
            }
            return None;
        }
        let dv: usize = ((c as u32) - ('0' as u32)) as usize;
        if v > (usize::MAX - dv) / 10 {
            assert(10 * v + dv > usize::MAX) by (nonlinear_arith)
                requires
                    v > (usize::MAX - dv) / 10,
                    dv <= 9,
            ;
            assert(digits_value(d.subrange(0, i - start + 1)) == Some((10 * v + dv) as nat));
            proof {
                if digits_value(d) is Some {
                    lemma_digits_prefix(d, i - start + 1);
                }
            }
            assert(digits_value(d) is None || digits_value(d)->0 > usize::MAX);
            proof {
                lemma_parse_none(s@, d);
            }
            return None;
        }
        v = 10 * v + dv;
        i = i + 1;
    }
    assert(d.subrange(0, d.len() as int) =~= d);
    Some(v)
}

fn starts_with_chars(s: &Vec<char>, p: &Vec<char>) -> (r: bool)
    ensures
        r == starts_with(s@, p@),
{
    if p.len() > s.len() {
        return false;
    }
    let b = crate::text::matches_at(s, p, 0);
    assert(occurs_at(s@, p@, 0) == starts_with(s@, p@));
    b
}

type ScanExec = (Option<usize>, Option<usize>, Option<Vec<char>>);

spec fn scan_view(st: ScanExec) -> ScanState {
    (
        match st.0 {
            Some(v) => Some(v as nat),
            None => None,
        },
        match st.1 {
            Some(v) => Some(v as nat),
            None => None,
        },
        match st.2 {
            Some(v) => Some(v@),
            None => None,
        },
    )
}

fn apply_field_exec(tok: &Vec<char>, st: ScanExec) -> (r: ScanExec)
    ensures
        scan_view(r) == apply_field(tok@, scan_view(st)),
{
    let ck: Vec<char> = vec!['c', 'u', 'r', '='];
    let tk: Vec<char> = vec!['t', 'o', 't', 'a', 'l', '='];
    let hk: Vec<char> = vec!['c', 'h', 'a', 'r', 's', '='];
    if tok.len() == 0 {
        st
    } else if starts_with_chars(tok, &ck) {
        let v = parse_number(&slice_chars(tok, 4, tok.len()));
        (v, st.1, st.2)
    } else if starts_with_chars(tok, &tk) {
        let v = parse_number(&slice_chars(tok, 6, tok.len()));
        (st.0, v, st.2)
    } else if starts_with_chars(tok, &hk) {
        (st.0, st.1, Some(slice_chars(tok, 6, tok.len())))
    } else {
        st
    }
}

fn trimmed_chars(s: &Vec<char>) -> (r: Vec<char>)
    ensures
        r@ == trim_end(trim_start(s@)),
{
    let mut lo: usize = 0;
    assert(s@.subrange(0, s.len() as int) =~= s@);
    while lo < s.len() && (s[lo] == '<' || s[lo] == '>' || s[lo] == ' ')
        invariant
            lo <= s.len(),
            trim_start(s@) == trim_start(s@.subrange(lo as int, s.len() as int)),
        decreases s.len() - lo,
    {
        assert(s@.subrange(lo as int, s.len() as int).drop_first() =~= s@.subrange(
            lo + 1,
            s.len() as int,
        ));
        lo = lo + 1;
    }
    let ghost t = s@.subrange(lo as int, s.len() as int);
    assert(trim_start(s@) == t);
    let mut hi: usize = s.len();
    assert(t.subrange(0, t.len() as int) =~= t);
    while hi > lo && (s[hi - 1] == '<' || s[hi - 1] == '>' || s[hi - 1] == ' ')
        invariant
            lo <= hi <= s.len(),
            t == s@.subrange(lo as int, s.len() as int),
            trim_end(t) == trim_end(s@.subrange(lo as int, hi as int)),
        decreases hi,
    {
        assert(s@.subrange(lo as int, hi as int).drop_last() =~= s@.subrange(
            lo as int,
            hi - 1,
        ));
        hi = hi - 1;
    }
    slice_chars(s, lo, hi)
}

fn scan_placeholder(s: &Vec<char>) -> (r: ScanExec)
    ensures
        scan_view(r) == scan_fields(s@, (None, None, None), Seq::empty()),
{
    let mut st: ScanExec = (None, None, None);
    let mut tok: Vec<char> = Vec::new();
    let mut i: usize = 0;
    assert(s@.subrange(0, s.len() as int) =~= s@);
    while i < s.len()
        invariant
            i <= s.len(),
            scan_fields(s@, (None, None, None), Seq::empty()) == scan_fields(
                s@.subrange(i as int, s.len() as int),
                scan_view(st),
                tok@,
            ),
        decreases s.len() - i,
    {
        assert(s@.subrange(i as int, s.len() as int).drop_first() =~= s@.subrange(
            i + 1,
            s.len() as int,
        ));
        let c = s[i];
        if is_whitespace(c) {
            st = apply_field_exec(&tok, st);
            tok = Vec::new();
            assert(tok@ =~= Seq::<char>::empty());
        } else {
            tok.push(c);
        }
        i = i + 1;
    }
    assert(s@.subrange(s.len() as int, s.len() as int).len() == 0);
    apply_field_exec(&tok, st)
}

/// Reads a placeholder: its current, total and bar characters, or `None` when it lacks a
/// valid current or total.
pub fn parse_progress_placeholder(content: &Vec<char>) -> (r: Option<(usize, usize, ProgressBarChars)>)
    ensures
        match placeholder(content@) {
            Some((c, t, p)) => r matches Some((c2, t2, ch)) && c2 as nat == c && t2 as nat == t
                && ch.pieces() == p,
            None => r is None,
        },
{
    let body = trimmed_chars(content);
    let st = scan_placeholder(&body);
    match (st.0, st.1) {
        (Some(c), Some(t)) => {
            let chars = match st.2 {
                Some(e) => decode_progress_bar_chars(string_of(&e).as_str()),
                None => ProgressBarChars::default(),
            };
            Some((c, t, chars))
        },
        _ => None,
    }
}

/// Draws the bar a placeholder asks for, `width` cells wide, or `None` when the
/// placeholder lacks a valid current or total.
pub fn render_progress_placeholder(content: &Vec<char>, width: usize, colors: bool) -> (r: Option<
    String,
>)
    ensures
        match placeholder(content@) {
            Some((c, t, p)) => r matches Some(b) && b@ == bar_text(c, t, width as nat, p, colors),
            None => r is None,
        },
{
    match parse_progress_placeholder(content) {
        Some((c, t, chars)) => Some(progress_bar_with_chars(c, t, width, &chars, colors)),
        None => None,
    }
}

} // verus!
