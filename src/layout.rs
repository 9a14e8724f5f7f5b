//! Indentation of nested output with hard wrapping; ANSI escape sequences take no
//! width, and the last one seen is repeated at the start of each continuation row.
use vstd::prelude::*;
use crate::flex::{newline, strip_cr};
use crate::measure::{text_width, measure_text_width};
use crate::placeholder::is_ws;
use crate::text::{find, occurs_at, lemma_find_absent, find_chars, slice_chars, push_all, push_repeat, repeat_char, chars_of, string_of};

verus! {

/// Control characters (general category Cc), as `char::is_control` classifies them.
pub open spec fn is_control(c: char) -> bool {
    (c as u32) <= 0x1F || (0x7F <= (c as u32) && (c as u32) <= 0x9F)
}

/// Whether some character of `s` is not white space.
pub open spec fn has_text(s: Seq<char>) -> bool {
    exists|i: int| 0 <= i < s.len() && !is_ws(s[i])
}

/// Length of the escape sequence at the start of `s` (which starts with ESC): up to and
/// including the first `m`, or the whole of `s`.
pub open spec fn escape_len_from(s: Seq<char>, i: int) -> nat
    decreases s.len() - i,
{
    if i >= s.len() {
        s.len()
    } else if s[i] == 'm' {
        (i + 1) as nat
    } else {
        escape_len_from(s, i + 1)
    }
}

/// Rows being built for one line: finished rows, the current row, its width and the
/// last escape sequence seen.
pub struct WrapState {
    pub rows: Seq<Seq<char>>,
    pub current: Seq<char>,
    pub width: nat,
    pub ansi: Seq<char>,
}

/// The indentation string.
pub open spec fn spaces(n: nat) -> Seq<char> {
    repeat_char(' ', n)
}

/// Lays out the characters of `rest` onto rows: a row is closed before a character
/// that would pass `w`, when the row holds text and more characters follow.
pub open spec fn wrap_chars(rest: Seq<char>, st: WrapState, w: nat, ind: nat) -> WrapState
    decreases rest.len(),
{
    if rest.len() == 0 {
        st
    } else if rest[0] == '\x1b' {
        let k = escape_len_from(rest, 1);
        let code = rest.subrange(0, k as int);
        if 1 <= k && k <= rest.len() {
            wrap_chars(
                rest.subrange(k as int, rest.len() as int),
                WrapState { current: st.current + code, ansi: code, ..st },
                w,
                ind,
            )
        } else {
            st
        }
    } else {
        let c = rest[0];
        let cw = text_width(seq![c]);
        let wrap = st.width + cw > w && has_text(st.current) && rest.len() > 1;
        let rows = if wrap {
            st.rows.push(st.current)
        } else {
            st.rows
        };
        let current = if wrap {
            spaces(ind) + st.ansi
        } else {
            st.current
        };
        let width = if wrap {
            ind
        } else {
            st.width
        };
        wrap_chars(
            rest.drop_first(),
            WrapState {
                rows,
                current: current.push(c),
                width: if is_control(c) {
                    width
                } else {
                    width + cw
                },
                ansi: st.ansi,
            },
            w,
            ind,
        )
    }
}

/// How many characters of `t` fit when the row already has width `used`: the count
/// before the first visible character that passes `w`.
pub open spec fn fitting(t: Seq<char>, i: int, used: nat, w: nat) -> nat
    decreases t.len() - i,
{
    if i >= t.len() || i < 0 {
        t.len()
    } else {
        let c = t[i];
        let u = if is_control(c) {
            used
        } else {
            used + text_width(seq![c])
        };
        if !is_control(c) && u > w {
            i as nat
        } else {
            fitting(t, i + 1, u, w)
        }
    }
}

/// Where a last row that is too wide is split: after the characters that fit, and after
/// at least one character.
pub open spec fn tail_split(current: Seq<char>, w: nat, ind: nat) -> nat {
    let t = current.subrange(ind as int, current.len() as int);
    let n = fitting(t, 0, ind, w);
    let k = ind + if n == 0 {
        1
    } else {
        n
    };
    if k > current.len() {
        current.len()
    } else {
        k
    }
}

/// The rows of one line.
pub open spec fn line_rows(line: Seq<char>, w: nat, ind: nat) -> Seq<Seq<char>> {
    let st = wrap_chars(
        line,
        WrapState { rows: Seq::empty(), current: spaces(ind), width: ind, ansi: Seq::empty() },
        w,
        ind,
    );
    if st.current.len() == 0 {
        st.rows
    } else if st.width > w {
        let k = tail_split(st.current, w, ind);
        st.rows.push(st.current.subrange(0, k as int)).push(
            spaces(ind) + st.ansi + st.current.subrange(k as int, st.current.len() as int),
        )
    } else {
        st.rows.push(st.current)
    }
}

/// The rows of every line of `s`.
pub open spec fn text_rows(s: Seq<char>, w: nat, ind: nat) -> Seq<Seq<char>>
    decreases s.len(),
{
    if s.len() == 0 {
        Seq::empty()
    } else {
        match find(s, newline()) {
            Some(i) => if 0 <= i && i + 1 <= s.len() {
                line_rows(strip_cr(s.subrange(0, i)), w, ind) + text_rows(
                    s.subrange(i + 1, s.len() as int),
                    w,
                    ind,
                )
            } else {
                line_rows(s, w, ind)
            },
            None => line_rows(s, w, ind),
        }
    }
}

/// Rows joined by newlines.
pub open spec fn join_rows(rows: Seq<Seq<char>>) -> Seq<char>
    decreases rows.len(),
{
    if rows.len() == 0 {
        Seq::empty()
    } else if rows.len() == 1 {
        rows[0]
    } else {
        join_rows(rows.drop_last()) + newline() + rows.last()
    }
}

/// The indented text.
pub open spec fn indent_text(s: Seq<char>, w: nat, ind: nat) -> Seq<char> {
    join_rows(text_rows(s, w, ind))
}

/// Output being joined: the text so far and the rows it holds.
struct Joiner {
    out: Vec<char>,
    any: bool,
    rows: Ghost<Seq<Seq<char>>>,
}

impl Joiner {
    spec fn inv(&self) -> bool {
        &&& self.out@ == join_rows(self.rows@)
        &&& self.any == (self.rows@.len() > 0)
    }

    fn add(&mut self, row: &Vec<char>)
        requires
            old(self).inv(),
        ensures
            final(self).inv(),
            final(self).rows@ == old(self).rows@.push(row@),
    {
        let ghost before = self.rows@;
        if self.any {
            self.out.push('\n');
        }
        push_all(&mut self.out, row);
        proof {
            let after = before.push(row@);
            assert(after.drop_last() =~= before);
            assert(after.last() == row@);
            if before.len() == 0 {
                assert(join_rows(after) == row@);
                assert(self.out@ =~= row@);
            } else {
                assert(join_rows(after) == join_rows(before) + newline() + row@);
                assert(self.out@ =~= join_rows(before) + newline() + row@);
            }
        }
        self.rows = Ghost(before.push(row@));
        self.any = true;
    }
}

fn is_control_exec(c: char) -> (r: bool)
    ensures
        r == is_control(c),
{
    (c as u32) <= 0x1F || (0x7F <= (c as u32) && (c as u32) <= 0x9F)
}

fn has_text_exec(s: &Vec<char>) -> (r: bool)
    ensures
        r == has_text(s@),
{
    let mut i: usize = 0;
    while i < s.len()
        invariant
            i <= s.len(),
            forall|k: int| 0 <= k < i ==> is_ws(#[trigger] s@[k]),
        decreases s.len() - i,
    {
        let c = s[i];
        let u = c as u32;
        if !((9 <= u && u <= 13) || u == 32 || u == 0x85 || u == 0xA0 || u == 0x1680 || (0x2000
            <= u && u <= 0x200A) || u == 0x2028 || u == 0x2029 || u == 0x202F || u == 0x205F || u
            == 0x3000) {
            assert(!is_ws(s@[i as int]));
            return true;
        }
        i = i + 1;
    }
    false
}

fn escape_end(s: &Vec<char>, from: usize) -> (r: usize)
    requires
        from <= s.len(),
    ensures
        r == escape_len_from(s@, from as int),
        r <= s.len(),
        r > from || from == s.len(),
    decreases s.len() - from,
{
    if from >= s.len() {
        s.len()
    } else if s[from] == 'm' {
        from + 1
    } else {
        escape_end(s, from + 1)
    }
}

spec fn state_of(rows: Seq<Seq<char>>, current: Seq<char>, width: nat, ansi: Seq<char>) -> WrapState {
    WrapState { rows, current, width, ansi }
}

fn fitting_exec(t: &Vec<char>, used0: usize, w: usize) -> (r: usize)
    ensures
        r == fitting(t@, 0, used0 as nat, w as nat),
{
    let mut i: usize = 0;
    let mut used: u128 = used0 as u128;
    while i < t.len()
        invariant
            i <= t.len(),
            used <= (i + 1) * 0x1_0000_0000_0000_0000,
            fitting(t@, 0, used0 as nat, w as nat) == fitting(t@, i as int, used as nat, w as nat),
        decreases t.len() - i,
    {
        let c = t[i];
        let ctl = is_control_exec(c);
        let one: Vec<char> = vec![c];
        let cw = measure_text_width(&one);
        assert(one@ == seq![c]);
        let u: u128 = if ctl {
            used
        } else {
            used + cw as u128
        };
        if !ctl && u > w as u128 {
            return i;
        }
        used = u;
        i = i + 1;
    }
    t.len()
}

fn tail_split_exec(current: &Vec<char>, w: usize, ind: usize) -> (r: usize)
    requires
        ind <= current.len(),
    ensures
        r == tail_split(current@, w as nat, ind as nat),
        r <= current.len(),
{
    let t = slice_chars(current, ind, current.len());
    let n = fitting_exec(&t, ind, w);
    let extra: usize = if n == 0 {
        1
    } else {
        n
    };
    if extra > current.len() - ind {
        current.len()
    } else {
        ind + extra
    }
}

fn line_rows_exec(j: &mut Joiner, line: &Vec<char>, w: usize, ind: usize, pad: &Vec<char>)
    requires
        old(j).inv(),
        pad@ == spaces(ind as nat),
    ensures
        final(j).inv(),
        final(j).rows@ == old(j).rows@ + line_rows(line@, w as nat, ind as nat),
{
    let ghost start = j.rows@;
    let ghost mut rows: Seq<Seq<char>> = Seq::empty();
    let mut current: Vec<char> = slice_chars(pad, 0, pad.len());
    let mut width: u128 = ind as u128;
    let mut ansi: Vec<char> = Vec::new();
    let mut i: usize = 0;
    proof {
        assert(pad@.len() == ind) by {
            lemma_spaces_len(ind as nat);
        }
        assert(line@.subrange(0, line.len() as int) =~= line@);
        assert(current@ =~= spaces(ind as nat));
        assert(ansi@ =~= Seq::<char>::empty());
        assert(j.rows@ =~= start + rows);
    }
    while i < line.len()
        invariant
            i <= line.len(),
            pad@.len() == ind,
            ind <= current.len(),
            j.inv(),
            j.rows@ == start + rows,
            pad@ == spaces(ind as nat),
            width <= (i + 1) * 0x1_0000_0000_0000_0000,
            wrap_chars(
                line@,
                state_of(Seq::empty(), spaces(ind as nat), ind as nat, Seq::empty()),
                w as nat,
                ind as nat,
            ) == wrap_chars(
                line@.subrange(i as int, line.len() as int),
                state_of(rows, current@, width as nat, ansi@),
                w as nat,
                ind as nat,
            ),
        decreases line.len() - i,
    {
        let ghost rest = line@.subrange(i as int, line.len() as int);
        if line[i] == '\x1b' {
            let e = escape_end(line, i + 1);
            proof {
                lemma_escape_shift(line@, i as int, (i + 1) as int);
                assert(rest.subrange(0, (e - i) as int) =~= line@.subrange(i as int, e as int));
                assert(rest.subrange((e - i) as int, rest.len() as int) =~= line@.subrange(
                    e as int,
                    line.len() as int,
                ));
            }
            let code = slice_chars(line, i, e);
            let ghost st = state_of(rows, current@, width as nat, ansi@);
            push_all(&mut current, &code);
            ansi = code;
            proof {
                let k = escape_len_from(rest, 1);
                assert(k == e - i);
                assert(wrap_chars(rest, st, w as nat, ind as nat) == wrap_chars(
                    rest.subrange(k as int, rest.len() as int),
                    state_of(rows, current@, width as nat, ansi@),
                    w as nat,
                    ind as nat,
                ));
            }
            i = e;
        } else {
            let c = line[i];
            let one: Vec<char> = vec![c];
            let cw = measure_text_width(&one);
            assert(one@ == seq![c]);
            let ghost st = state_of(rows, current@, width as nat, ansi@);
            assert(rest[0] == c);
            assert(rest.len() > 1 <==> i + 1 < line.len());
            let wrap = width + cw as u128 > w as u128 && has_text_exec(&current) && i + 1
                < line.len();
            if wrap {
                j.add(&current);
                proof {
                    rows = rows.push(current@);
                    assert(j.rows@ =~= start + rows);
                }
                current = slice_chars(pad, 0, pad.len());
                assert(current@ =~= pad@);
                push_all(&mut current, &ansi);
                assert(current@ =~= spaces(ind as nat) + ansi@);
                width = ind as u128;
            }
            current.push(c);
            if !is_control_exec(c) {
                width = width + cw as u128;
            }
            assert(rest.drop_first() =~= line@.subrange(i + 1, line.len() as int));
            assert(wrap_chars(rest, st, w as nat, ind as nat) == wrap_chars(
                rest.drop_first(),
                state_of(rows, current@, width as nat, ansi@),
                w as nat,
                ind as nat,
            ));
            i = i + 1;
        }
    }
    assert(line@.subrange(line.len() as int, line.len() as int).len() == 0);
    if current.len() == 0 {
        return;
    }
    if width > w as u128 {
        let k = tail_split_exec(&current, w, ind);
        let first = slice_chars(&current, 0, k);
        let mut second = slice_chars(pad, 0, pad.len());
        push_all(&mut second, &ansi);
        push_all(&mut second, &slice_chars(&current, k, current.len()));
        j.add(&first);
        j.add(&second);
        proof {
            assert(j.rows@ =~= start + rows.push(first@).push(second@));
        }
    } else {
        j.add(&current);
        proof {
            assert(j.rows@ =~= start + rows.push(current@));
        }
    }
}

proof fn lemma_spaces_len(n: nat)
    ensures
        spaces(n).len() == n,
    decreases n,
{
    if n > 0 {
        lemma_spaces_len((n - 1) as nat);
    }
}

proof fn lemma_escape_shift(s: Seq<char>, i: int, from: int)
    requires
        0 <= i < from <= s.len(),
    ensures
        escape_len_from(s.subrange(i, s.len() as int), from - i) + i == escape_len_from(s, from),
    decreases s.len() - from,
{
    let r = s.subrange(i, s.len() as int);
    if from < s.len() && s[from] != 'm' {
        lemma_escape_shift(s, i, from + 1);
    }
}

fn text_rows_exec(j: &mut Joiner, s: &Vec<char>, w: usize, ind: usize, pad: &Vec<char>)
    requires
        old(j).inv(),
        pad@ == spaces(ind as nat),
    ensures
        final(j).inv(),
        final(j).rows@ == old(j).rows@ + text_rows(s@, w as nat, ind as nat),
    decreases s.len(),
{
    if s.len() == 0 {
        assert(old(j).rows@ + Seq::<Seq<char>>::empty() =~= old(j).rows@);
        return;
    }
    let nl: Vec<char> = vec!['\n'];
    assert(nl@ == newline());
    match find_chars(s, &nl) {
        Some(i) => {
            assert(occurs_at(s@, nl@, i as int));
            let line = slice_chars(s, 0, i);
            let line = if line.len() > 0 && line[line.len() - 1] == '\r' {
                let l = slice_chars(&line, 0, line.len() - 1);
                assert(l@ =~= line@.drop_last());
                l
            } else {
                line
            };
            assert(line@ == strip_cr(s@.subrange(0, i as int)));
            let rest = slice_chars(s, i + 1, s.len());
            let ghost a = line_rows(line@, w as nat, ind as nat);
            let ghost b = text_rows(rest@, w as nat, ind as nat);
            assert(text_rows(s@, w as nat, ind as nat) == a + b);
            line_rows_exec(j, &line, w, ind, pad);
            text_rows_exec(j, &rest, w, ind, pad);
            assert(j.rows@ =~= old(j).rows@ + (a + b));
        },
        None => {
            line_rows_exec(j, s, w, ind, pad);
        },
    }
}

/// Indents every line of `s` by `indent_size` spaces and hard-wraps rows wider than
/// `width`; the rows are joined by newlines.
pub fn indent(s: String, width: usize, indent_size: usize) -> (r: String)
    ensures
        r@ == indent_text(s@, width as nat, indent_size as nat),
{
    let mut pad: Vec<char> = Vec::new();
    push_repeat(&mut pad, ' ', indent_size);
    let mut j = Joiner { out: Vec::new(), any: false, rows: Ghost(Seq::empty()) };
    text_rows_exec(&mut j, &chars_of(s.as_str()), width, indent_size, &pad);
    assert(Seq::<Seq<char>>::empty() + text_rows(s@, width as nat, indent_size as nat) =~= text_rows(
        s@,
        width as nat,
        indent_size as nat,
    ));
    string_of(&j.out)
}

/// Width that a row's characters take: control characters take none.
pub open spec fn chars_width(s: Seq<char>) -> nat
    decreases s.len(),
{
    if s.len() == 0 {
        0
    } else {
        (if is_control(s[0]) {
            0
        } else {
            text_width(seq![s[0]])
        }) + chars_width(s.drop_first())
    }
}

proof fn lemma_wrap_fits(rest: Seq<char>, cur: Seq<char>, wd: nat, w: nat, ind: nat)
    requires
        wd + chars_width(rest) <= w,
        forall|k: int| 0 <= k < rest.len() ==> !is_control(#[trigger] rest[k]),
    ensures
        wrap_chars(
            rest,
            WrapState { rows: Seq::empty(), current: cur, width: wd, ansi: Seq::empty() },
            w,
            ind,
        ) == (WrapState {
            rows: Seq::empty(),
            current: cur + rest,
            width: wd + chars_width(rest),
            ansi: Seq::empty(),
        }),
    decreases rest.len(),
{
    if rest.len() == 0 {
        assert(cur + rest =~= cur);
    } else {
        let c = rest[0];
        let step = if is_control(c) {
            0
        } else {
            text_width(seq![c])
        };
        assert(!is_control(rest[0]));
        lemma_wrap_fits(rest.drop_first(), cur.push(c), wd + step, w, ind);
        assert(cur.push(c) + rest.drop_first() =~= cur + rest);
    }
}

/// A line that already fits comes back with only the indentation added: with no control
/// character (so no newline and no escape sequence), if the indentation and the
/// characters' widths fit in `w`,
/// `indent` returns the indentation followed by the line unchanged.
pub proof fn lemma_indent_fitting_line(s: Seq<char>, w: nat, ind: nat)
    requires
        forall|k: int| 0 <= k < s.len() ==> !is_control(#[trigger] s[k]),
        ind + chars_width(s) <= w,
        s.len() > 0,
    ensures
        indent_text(s, w, ind) == spaces(ind) + s,
{
    assert forall|k: int| 0 <= k < s.len() implies s[k] != newline()[0] by {
        assert(!is_control(s[k]));
    }
    lemma_find_absent(s, newline(), 0);
    lemma_wrap_fits(s, spaces(ind), ind, w, ind);
    let rows = line_rows(s, w, ind);
    assert(rows == seq![spaces(ind) + s]);
    assert(text_rows(s, w, ind) == rows);
}

/// A line that fits: no control character, the indentation and the characters' widths
/// within `w`, and not empty when there is no indentation.
pub open spec fn line_fits(line: Seq<char>, w: nat, ind: nat) -> bool {
    &&& forall|k: int| 0 <= k < line.len() ==> !is_control(#[trigger] line[k])
    &&& ind + chars_width(line) <= w
    &&& (ind > 0 || line.len() > 0)
}

/// Every line of `s` (split at newlines; a final newline ends the last line) fits.
pub open spec fn lines_fit(s: Seq<char>, w: nat, ind: nat) -> bool
    decreases s.len(),
{
    if s.len() == 0 {
        true
    } else {
        match find(s, newline()) {
            Some(i) => if 0 <= i && i + 1 <= s.len() {
                line_fits(s.subrange(0, i), w, ind) && lines_fit(
                    s.subrange(i + 1, s.len() as int),
                    w,
                    ind,
                )
            } else {
                line_fits(s, w, ind)
            },
            None => line_fits(s, w, ind),
        }
    }
}

/// The lines of `s`, each with the indentation put before it.
pub open spec fn prefixed_lines(s: Seq<char>, ind: nat) -> Seq<Seq<char>>
    decreases s.len(),
{
    if s.len() == 0 {
        Seq::empty()
    } else {
        match find(s, newline()) {
            Some(i) => if 0 <= i && i + 1 <= s.len() {
                seq![spaces(ind) + s.subrange(0, i)] + prefixed_lines(
                    s.subrange(i + 1, s.len() as int),
                    ind,
                )
            } else {
                seq![spaces(ind) + s]
            },
            None => seq![spaces(ind) + s],
        }
    }
}

proof fn lemma_line_rows_fit(line: Seq<char>, w: nat, ind: nat)
    requires
        line_fits(line, w, ind),
    ensures
        line_rows(line, w, ind) == seq![spaces(ind) + line],
{
    lemma_wrap_fits(line, spaces(ind), ind, w, ind);
    lemma_spaces_len(ind);
}

/// Indentation of a text whose lines all fit only adds the indentation: every line comes
/// back whole, prefixed with `ind` spaces, and the lines are joined by newlines as before.
pub proof fn lemma_indent_fitting_text(s: Seq<char>, w: nat, ind: nat)
    requires
        lines_fit(s, w, ind),
    ensures
        text_rows(s, w, ind) == prefixed_lines(s, ind),
        indent_text(s, w, ind) == join_rows(prefixed_lines(s, ind)),
    decreases s.len(),
{
    if s.len() > 0 {
        match find(s, newline()) {
            Some(i) => {
                if 0 <= i && i + 1 <= s.len() {
                    let line = s.subrange(0, i);
                    assert(line_fits(line, w, ind));
                    if line.len() > 0 {
                        assert(!is_control(line[line.len() - 1]));
                    }
                    assert(strip_cr(line) == line);
                    lemma_line_rows_fit(line, w, ind);
                    lemma_indent_fitting_text(s.subrange(i + 1, s.len() as int), w, ind);
                } else {
                    lemma_line_rows_fit(s, w, ind);
                }
            },
            None => {
                lemma_line_rows_fit(s, w, ind);
            },
        }
    }
}

/// Whether `s` begins with the indentation of `ind` spaces.
pub open spec fn indented(s: Seq<char>, ind: nat) -> bool {
    ind <= s.len() && s.subrange(0, ind as int) == spaces(ind)
}

spec fn rows_indented(rows: Seq<Seq<char>>, ind: nat) -> bool {
    forall|i: int| 0 <= i < rows.len() ==> indented(#[trigger] rows[i], ind)
}

proof fn lemma_indented_extend(s: Seq<char>, x: Seq<char>, ind: nat)
    requires
        indented(s, ind),
    ensures
        indented(s + x, ind),
{
    assert((s + x).subrange(0, ind as int) =~= s.subrange(0, ind as int));
}

proof fn lemma_wrap_indented(rest: Seq<char>, st: WrapState, w: nat, ind: nat)
    requires
        rows_indented(st.rows, ind),
        indented(st.current, ind),
    ensures
        rows_indented(wrap_chars(rest, st, w, ind).rows, ind),
        indented(wrap_chars(rest, st, w, ind).current, ind),
    decreases rest.len(),
{
    lemma_spaces_len(ind);
    assert(indented(spaces(ind), ind)) by {
        assert(spaces(ind).subrange(0, ind as int) =~= spaces(ind));
    }
    if rest.len() == 0 {
    } else if rest[0] == '\x1b' {
        let k = escape_len_from(rest, 1);
        let code = rest.subrange(0, k as int);
        if 1 <= k && k <= rest.len() {
            lemma_indented_extend(st.current, code, ind);
            lemma_wrap_indented(
                rest.subrange(k as int, rest.len() as int),
                WrapState { current: st.current + code, ansi: code, ..st },
                w,
                ind,
            );
        }
    } else {
        let c = rest[0];
        let cw = text_width(seq![c]);
        let wrap = st.width + cw > w && has_text(st.current) && rest.len() > 1;
        let rows = if wrap {
            st.rows.push(st.current)
        } else {
            st.rows
        };
        let current = if wrap {
            spaces(ind) + st.ansi
        } else {
            st.current
        };
        let width = if wrap {
            ind
        } else {
            st.width
        };
        lemma_indented_extend(spaces(ind), st.ansi, ind);
        assert(rows_indented(rows, ind)) by {
            if wrap {
                assert forall|i: int| 0 <= i < rows.len() implies indented(#[trigger] rows[i], ind) by {
                    if i < st.rows.len() {
                        assert(rows[i] == st.rows[i]);
                    }
                }
            }
        }
        lemma_indented_extend(current, seq![c], ind);
        assert(current.push(c) == current + seq![c]);
        lemma_wrap_indented(
            rest.drop_first(),
            WrapState {
                rows,
                current: current.push(c),
                width: if is_control(c) {
                    width
                } else {
                    width + cw
                },
                ansi: st.ansi,
            },
            w,
            ind,
        );
    }
}

proof fn lemma_line_rows_indented(line: Seq<char>, w: nat, ind: nat)
    ensures
        rows_indented(line_rows(line, w, ind), ind),
{
    lemma_spaces_len(ind);
    assert(indented(spaces(ind), ind)) by {
        assert(spaces(ind).subrange(0, ind as int) =~= spaces(ind));
    }
    let init = WrapState { rows: Seq::empty(), current: spaces(ind), width: ind, ansi: Seq::empty() };
    lemma_wrap_indented(line, init, w, ind);
    let st = wrap_chars(line, init, w, ind);
    let rows = line_rows(line, w, ind);
    if st.current.len() == 0 {
    } else if st.width > w {
        let k = tail_split(st.current, w, ind);
        let first = st.current.subrange(0, k as int);
        let second = spaces(ind) + st.ansi + st.current.subrange(k as int, st.current.len() as int);
        assert(k >= ind);
        assert(first.subrange(0, ind as int) =~= st.current.subrange(0, ind as int));
        lemma_indented_extend(spaces(ind), st.ansi, ind);
        lemma_indented_extend(
            spaces(ind) + st.ansi,
            st.current.subrange(k as int, st.current.len() as int),
            ind,
        );
        assert forall|i: int| 0 <= i < rows.len() implies indented(#[trigger] rows[i], ind) by {
            if i < st.rows.len() {
                assert(rows[i] == st.rows[i]);
            } else if i == st.rows.len() {
                assert(rows[i] == first);
            } else {
                assert(rows[i] == second);
            }
        }
    } else {
        assert forall|i: int| 0 <= i < rows.len() implies indented(#[trigger] rows[i], ind) by {
            if i < st.rows.len() {
                assert(rows[i] == st.rows[i]);
            }
        }
    }
}

/// Every row `indent` produces begins with the indentation.
pub proof fn lemma_rows_begin_with_indent(s: Seq<char>, w: nat, ind: nat)
    ensures
        forall|i: int| 0 <= i < text_rows(s, w, ind).len() ==> indented(
            #[trigger] text_rows(s, w, ind)[i],
            ind,
        ),
    decreases s.len(),
{
    if s.len() > 0 {
        match find(s, newline()) {
            Some(i) => {
                if 0 <= i && i + 1 <= s.len() {
                    let a = line_rows(strip_cr(s.subrange(0, i)), w, ind);
                    let rest = s.subrange(i + 1, s.len() as int);
                    lemma_line_rows_indented(strip_cr(s.subrange(0, i)), w, ind);
                    lemma_rows_begin_with_indent(rest, w, ind);
                    let b = text_rows(rest, w, ind);
                    assert(text_rows(s, w, ind) == a + b);
                    assert forall|j: int| 0 <= j < (a + b).len() implies indented(
                        #[trigger] (a + b)[j],
                        ind,
                    ) by {
                        if j < a.len() {
                            assert((a + b)[j] == a[j]);
                        } else {
                            assert((a + b)[j] == b[j - a.len()]);
                        }
                    }
                } else {
                    lemma_line_rows_indented(s, w, ind);
                }
            },
            None => {
                lemma_line_rows_indented(s, w, ind);
            },
        }
    }
}

} // verus!
