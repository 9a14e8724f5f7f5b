//! Width-dependent layout of rendered text: spans between `<clx:flex>` tags are cut
//! to the width left on their line, spans between `<clx:flex_fill>` tags are cut or
//! padded to fill it exactly.
use vstd::prelude::*;
use crate::measure::{text_width, truncated, measure_text_width, truncate_str, colors_enabled_stderr};
use crate::placeholder::{placeholder, parse_progress_placeholder, starts_with};
use crate::progress_bar::{bar_text, progress_bar_with_chars};
use crate::text::{
    find, contains, occurs_at, lemma_find_from, lemma_find_none, lemma_find_at, find_chars, slice_chars, push_all, push_repeat,
    repeat_char, same_chars, chars_of, string_of,
};

verus! {

/// `<clx:flex>`: marks a span to cut to the width left.
pub open spec fn flex_tag() -> Seq<char> {
    seq!['<', 'c', 'l', 'x', ':', 'f', 'l', 'e', 'x', '>']
}

/// `<clx:flex_fill>`: marks a span to cut or pad to the width left.
pub open spec fn fill_tag() -> Seq<char> {
    seq!['<', 'c', 'l', 'x', ':', 'f', 'l', 'e', 'x', '_', 'f', 'i', 'l', 'l', '>']
}

/// `<clx:progress`: the start of a progress-bar placeholder.
pub open spec fn progress_mark() -> Seq<char> {
    seq!['<', 'c', 'l', 'x', ':', 'p', 'r', 'o', 'g', 'r', 'e', 's', 's']
}

pub open spec fn newline() -> Seq<char> {
    seq!['\n']
}

/// The ellipsis drawn where no room is left for multi-line content.
pub open spec fn ellipsis() -> Seq<char> {
    seq!['\u{2026}']
}

/// `a - b`, or zero when `b` is larger.
pub open spec fn sat_sub(a: int, b: int) -> nat {
    if a >= b {
        (a - b) as nat
    } else {
        0
    }
}

/// The text before the first `tag`, between it and the second, and after the second;
/// with a single tag, everything after it is the middle and the end is empty.
pub open spec fn split3(s: Seq<char>, tag: Seq<char>) -> (Seq<char>, Seq<char>, Seq<char>) {
    match find(s, tag) {
        None => (s, Seq::empty(), Seq::empty()),
        Some(i) => {
            let rest = s.subrange(i + tag.len(), s.len() as int);
            match find(rest, tag) {
                Some(j) => (
                    s.subrange(0, i),
                    rest.subrange(0, j),
                    rest.subrange(j + tag.len(), rest.len() as int),
                ),
                None => (s.subrange(0, i), rest, Seq::empty()),
            }
        },
    }
}

/// Whether `tag` occurs at least twice, without overlap.
pub open spec fn has_pair(s: Seq<char>, tag: Seq<char>) -> bool {
    match find(s, tag) {
        Some(i) => contains(s.subrange(i + tag.len(), s.len() as int), tag),
        None => false,
    }
}

/// A line without the carriage return that ended it.
pub open spec fn strip_cr(x: Seq<char>) -> Seq<char> {
    if x.len() > 0 && x.last() == '\r' {
        x.drop_last()
    } else {
        x
    }
}

/// The first line of a non-empty text.
pub open spec fn first_line(s: Seq<char>) -> Seq<char> {
    match find(s, newline()) {
        Some(i) => strip_cr(s.subrange(0, i)),
        None => s,
    }
}

/// Whether a text has more than one line.
pub open spec fn multiline(s: Seq<char>) -> bool {
    match find(s, newline()) {
        Some(i) => i + 1 < s.len(),
        None => false,
    }
}

/// The text after the last newline.
pub open spec fn last_line(s: Seq<char>) -> Seq<char>
    decreases s.len(),
{
    match find(s, newline()) {
        Some(i) => if 0 <= i && i + 1 <= s.len() {
            last_line(s.subrange(i + 1, s.len() as int))
        } else {
            s
        },
        None => s,
    }
}

/// Width taken on the current line by the text before a span.
pub open spec fn prefix_width(prefix: Seq<char>) -> nat {
    if prefix.len() > 0 && prefix.last() == '\n' {
        0
    } else {
        text_width(last_line(prefix))
    }
}

/// A line with a fill span: the span is cut to the width left by the text around it,
/// or padded with spaces to exactly that width.
pub open spec fn fill_line(line: Seq<char>, w: nat) -> Seq<char> {
    let (prefix, content, suffix) = split3(line, fill_tag());
    let pw = text_width(prefix);
    let sw = text_width(suffix);
    let cw = text_width(content);
    let avail = sat_sub(w as int, (pw + sw) as int);
    if cw >= avail {
        prefix + (if avail >= 1 {
            truncated(content, avail)
        } else {
            content
        }) + suffix
    } else {
        prefix + content + repeat_char(' ', (avail - cw) as nat) + suffix
    }
}

/// A line with a flex span: the span is cut to the width left by the text around it.
pub open spec fn flex_line(line: Seq<char>, w: nat) -> Seq<char> {
    let (prefix, content, suffix) = split3(line, flex_tag());
    let pw = text_width(prefix);
    let sw = text_width(suffix);
    let avail = sat_sub(w as int, (pw + sw) as int);
    if pw >= w {
        truncated(line, w)
    } else if avail > 3 {
        prefix + truncated(content, avail) + suffix
    } else if w - pw > 3 {
        prefix + truncated(content, (w - pw) as nat)
    } else {
        prefix
    }
}

/// A text with a pair of flex tags. Multi-line content keeps only its first line; a
/// progress placeholder becomes a bar exactly as wide as the room left, when its brackets
/// fit. Where nothing of the span can be shown, the prefix stays, cut to the width if
/// needed, and the suffix follows only if it fits.
pub open spec fn flex_pair(s: Seq<char>, w: nat, colors: bool) -> Seq<char> {
    let (prefix, content, suffix) = split3(s, flex_tag());
    let pw = prefix_width(prefix);
    let sw = if suffix.len() == 0 {
        0
    } else {
        text_width(first_line(suffix))
    };
    let avail = sat_sub(w as int, (pw + sw) as int);
    let without_span = if pw + sw <= w {
        prefix + suffix
    } else {
        prefix
    };
    if content.len() == 0 {
        if pw >= w {
            truncated(prefix, w)
        } else {
            without_span
        }
    } else if multiline(content) {
        let room = sat_sub(w as int, (pw + 3) as int);
        prefix + (if room > 3 {
            truncated(first_line(content), room)
        } else {
            ellipsis()
        })
    } else if pw >= w {
        truncated(prefix, w)
    } else if starts_with(content, progress_mark()) && placeholder(content) is Some {
        let (c, t, p) = placeholder(content)->0;
        if pw + sw + text_width(p.left) + text_width(p.right) <= w {
            prefix + bar_text(c, t, avail, p, colors) + suffix
        } else {
            without_span
        }
    } else if avail > 3 {
        prefix + truncated(content, avail) + suffix
    } else if w - pw > 3 {
        prefix + truncated(content, (w - pw) as nat)
    } else {
        prefix
    }
}

/// One line of the fallback, line-by-line pass.
pub open spec fn layout_line(line: Seq<char>, w: nat) -> Seq<char> {
    if contains(line, fill_tag()) {
        fill_line(line, w)
    } else if !contains(line, flex_tag()) {
        line
    } else {
        flex_line(line, w)
    }
}

/// The fallback for tags without a partner on their line: each line laid out on its own,
/// the lines joined by newlines.
pub open spec fn by_lines(s: Seq<char>, w: nat) -> Seq<char>
    decreases s.len(),
{
    if s.len() == 0 {
        Seq::empty()
    } else {
        match find(s, newline()) {
            Some(i) => if 0 <= i && i + 1 <= s.len() {
                let rest = s.subrange(i + 1, s.len() as int);
                layout_line(strip_cr(s.subrange(0, i)), w) + if rest.len() > 0 {
                    newline() + by_lines(rest, w)
                } else {
                    Seq::empty()
                }
            } else {
                layout_line(s, w)
            },
            None => layout_line(s, w),
        }
    }
}

/// One layout pass: a fill pair first, then a flex pair, else line by line.
pub open spec fn layout_pass(s: Seq<char>, w: nat, colors: bool) -> Seq<char> {
    if has_pair(s, fill_tag()) {
        fill_line(s, w)
    } else if has_pair(s, flex_tag()) {
        flex_pair(s, w, colors)
    } else {
        by_lines(s, w)
    }
}

/// Whether a flex or fill tag is left.
pub open spec fn has_tags(s: Seq<char>) -> bool {
    contains(s, flex_tag()) || contains(s, fill_tag())
}

/// Passes repeated while tags remain and a pass changes the text, at most `n` times.
pub open spec fn layout_passes(s: Seq<char>, w: nat, colors: bool, n: nat) -> Seq<char>
    decreases n,
{
    if n == 0 || !has_tags(s) {
        s
    } else {
        let t = layout_pass(s, w, colors);
        if t == s {
            s
        } else {
            layout_passes(t, w, colors, (n - 1) as nat)
        }
    }
}

/// Most passes a text gets.
pub const MAX_PASSES: usize = 8;

/// The laid-out text.
pub open spec fn flex_text(s: Seq<char>, w: nat, colors: bool) -> Seq<char> {
    layout_passes(s, w, colors, MAX_PASSES as nat)
}

fn flex_tag_chars() -> (r: Vec<char>)
    ensures
        r@ == flex_tag(),
{
    vec!['<', 'c', 'l', 'x', ':', 'f', 'l', 'e', 'x', '>']
}

fn fill_tag_chars() -> (r: Vec<char>)
    ensures
        r@ == fill_tag(),
{
    vec!['<', 'c', 'l', 'x', ':', 'f', 'l', 'e', 'x', '_', 'f', 'i', 'l', 'l', '>']
}

fn newline_chars() -> (r: Vec<char>)
    ensures
        r@ == newline(),
{
    vec!['\n']
}

fn split3_exec(s: &Vec<char>, tag: &Vec<char>) -> (r: (Vec<char>, Vec<char>, Vec<char>))
    ensures
        (r.0@, r.1@, r.2@) == split3(s@, tag@),
{
    match find_chars(s, tag) {
        None => (slice_chars(s, 0, s.len()), Vec::new(), Vec::new()),
        Some(i) => {
            assert(occurs_at(s@, tag@, i as int));
            assert(i + tag.len() <= s.len());
            let rest = slice_chars(s, i + tag.len(), s.len());
            match find_chars(&rest, tag) {
                Some(j) => (
                    slice_chars(s, 0, i),
                    slice_chars(&rest, 0, j),
                    slice_chars(&rest, j + tag.len(), rest.len()),
                ),
                None => (slice_chars(s, 0, i), rest, Vec::new()),
            }
        },
    }
}

fn has_pair_exec(s: &Vec<char>, tag: &Vec<char>) -> (r: bool)
    ensures
        r == has_pair(s@, tag@),
{
    match find_chars(s, tag) {
        Some(i) => {
            assert(occurs_at(s@, tag@, i as int));
            assert(i + tag.len() <= s.len());
            let rest = slice_chars(s, i + tag.len(), s.len());
            find_chars(&rest, tag).is_some()
        },
        None => false,
    }
}

fn contains_exec(s: &Vec<char>, tag: &Vec<char>) -> (r: bool)
    ensures
        r == contains(s@, tag@),
{
    find_chars(s, tag).is_some()
}

fn strip_cr_exec(x: Vec<char>) -> (r: Vec<char>)
    ensures
        r@ == strip_cr(x@),
{
    if x.len() > 0 && x[x.len() - 1] == '\r' {
        slice_chars(&x, 0, x.len() - 1)
    } else {
        x
    }
}

fn first_line_exec(s: &Vec<char>) -> (r: Vec<char>)
    ensures
        r@ == first_line(s@),
{
    match find_chars(s, &newline_chars()) {
        Some(i) => strip_cr_exec(slice_chars(s, 0, i)),
        None => slice_chars(s, 0, s.len()),
    }
}

fn multiline_exec(s: &Vec<char>) -> (r: bool)
    ensures
        r == multiline(s@),
{
    match find_chars(s, &newline_chars()) {
        Some(i) => {
            assert(occurs_at(s@, newline(), i as int));
            i < s.len() - 1
        },
        None => false,
    }
}

fn last_line_exec(s: &Vec<char>) -> (r: Vec<char>)
    ensures
        r@ == last_line(s@),
    decreases s.len(),
{
    match find_chars(s, &newline_chars()) {
        Some(i) => {
            let rest = slice_chars(s, i + 1, s.len());
            last_line_exec(&rest)
        },
        None => slice_chars(s, 0, s.len()),
    }
}

fn prefix_width_exec(prefix: &Vec<char>) -> (r: usize)
    ensures
        r == prefix_width(prefix@),
{
    if prefix.len() > 0 && prefix[prefix.len() - 1] == '\n' {
        0
    } else {
        measure_text_width(&last_line_exec(prefix))
    }
}

/// `w - (a + b)`, or zero.
fn room(w: usize, a: usize, b: usize) -> (r: usize)
    ensures
        r == sat_sub(w as int, (a + b) as int),
{
    if a as u128 + b as u128 <= w as u128 {
        w - a - b
    } else {
        0
    }
}

fn process_line_flex_fill(line: &Vec<char>, w: usize) -> (r: Vec<char>)
    ensures
        r@ == fill_line(line@, w as nat),
{
    let (prefix, content, suffix) = split3_exec(line, &fill_tag_chars());
    let pw = measure_text_width(&prefix);
    let sw = measure_text_width(&suffix);
    let cw = measure_text_width(&content);
    let avail = room(w, pw, sw);
    let mut out = prefix;
    if cw >= avail {
        if avail >= 1 {
            push_all(&mut out, &truncate_str(&content, avail));
        } else {
            push_all(&mut out, &content);
        }
    } else {
        push_all(&mut out, &content);
        push_repeat(&mut out, ' ', avail - cw);
    }
    push_all(&mut out, &suffix);
    out
}

fn process_line_flex(line: &Vec<char>, w: usize) -> (r: Vec<char>)
    requires
        w >= 1,
    ensures
        r@ == flex_line(line@, w as nat),
{
    let (prefix, content, suffix) = split3_exec(line, &flex_tag_chars());
    let pw = measure_text_width(&prefix);
    let sw = measure_text_width(&suffix);
    let avail = room(w, pw, sw);
    if pw >= w {
        return truncate_str(line, w);
    }
    let mut out = prefix;
    if avail > 3 {
        push_all(&mut out, &truncate_str(&content, avail));
        push_all(&mut out, &suffix);
    } else if w - pw > 3 {
        push_all(&mut out, &truncate_str(&content, w - pw));
    }
    out
}

fn process_flex_tags(s: &Vec<char>, w: usize, colors: bool) -> (r: Vec<char>)
    requires
        w >= 1,
    ensures
        r@ == flex_pair(s@, w as nat, colors),
{
    let (prefix, content, suffix) = split3_exec(s, &flex_tag_chars());
    let pw = prefix_width_exec(&prefix);
    let sw: usize = if suffix.len() == 0 {
        0
    } else {
        measure_text_width(&first_line_exec(&suffix))
    };
    let avail = room(w, pw, sw);
    let suffix_fits = pw as u128 + sw as u128 <= w as u128;
    if content.len() == 0 {
        if pw >= w {
            return truncate_str(&prefix, w);
        }
        let mut out = prefix;
        if suffix_fits {
            push_all(&mut out, &suffix);
        }
        return out;
    }
    if multiline_exec(&content) {
        let room3 = room(w, pw, 3);
        let mut out = prefix;
        if room3 > 3 {
            push_all(&mut out, &truncate_str(&first_line_exec(&content), room3));
        } else {
            out.push('\u{2026}');
        }
        return out;
    }
    if pw >= w {
        return truncate_str(&prefix, w);
    }
    let mark: Vec<char> = vec!['<', 'c', 'l', 'x', ':', 'p', 'r', 'o', 'g', 'r', 'e', 's', 's'];
    let is_bar = mark.len() <= content.len() && crate::text::matches_at(&content, &mark, 0);
    assert(is_bar == starts_with(content@, progress_mark()));
    let mut out = prefix;
    if is_bar {
        match parse_progress_placeholder(&content) {
            Some((c, t, chars)) => {
                let lw = measure_text_width(&chars_of(chars.left.as_str()));
                let rw = measure_text_width(&chars_of(chars.right.as_str()));
                if pw as u128 + sw as u128 + lw as u128 + rw as u128 <= w as u128 {
                    let bar = progress_bar_with_chars(c, t, avail, &chars, colors);
                    push_all(&mut out, &chars_of(bar.as_str()));
                    push_all(&mut out, &suffix);
                } else if suffix_fits {
                    push_all(&mut out, &suffix);
                }
                return out;
            },
            None => {},
        }
    }
    if avail > 3 {
        push_all(&mut out, &truncate_str(&content, avail));
        push_all(&mut out, &suffix);
    } else if w - pw > 3 {
        push_all(&mut out, &truncate_str(&content, w - pw));
    }
    out
}

fn layout_line_exec(line: &Vec<char>, w: usize) -> (r: Vec<char>)
    requires
        w >= 1,
    ensures
        r@ == layout_line(line@, w as nat),
{
    if contains_exec(line, &fill_tag_chars()) {
        process_line_flex_fill(line, w)
    } else if !contains_exec(line, &flex_tag_chars()) {
        slice_chars(line, 0, line.len())
    } else {
        process_line_flex(line, w)
    }
}

fn process_flex_line_by_line(s: &Vec<char>, w: usize) -> (r: Vec<char>)
    requires
        w >= 1,
    ensures
        r@ == by_lines(s@, w as nat),
    decreases s.len(),
{
    if s.len() == 0 {
        return Vec::new();
    }
    match find_chars(s, &newline_chars()) {
        Some(i) => {
            let rest = slice_chars(s, i + 1, s.len());
            let mut out = layout_line_exec(&strip_cr_exec(slice_chars(s, 0, i)), w);
            if rest.len() > 0 {
                out.push('\n');
                push_all(&mut out, &process_flex_line_by_line(&rest, w));
            }
            out
        },
        None => layout_line_exec(s, w),
    }
}

fn flex_process_once(s: &Vec<char>, w: usize, colors: bool) -> (r: Vec<char>)
    requires
        w >= 1,
    ensures
        r@ == layout_pass(s@, w as nat, colors),
{
    if has_pair_exec(s, &fill_tag_chars()) {
        process_line_flex_fill(s, w)
    } else if has_pair_exec(s, &flex_tag_chars()) {
        process_flex_tags(s, w, colors)
    } else {
        process_flex_line_by_line(s, w)
    }
}

/// Lays out the flex and fill spans of `s` for a line `width` columns wide, drawing
/// progress-bar placeholders dimmed when `colors` is on.
pub fn flex_with_colors(s: &str, width: usize, colors: bool) -> (r: String)
    requires
        width >= 1,
    ensures
        r@ == flex_text(s@, width as nat, colors),
{
    let mut cur = chars_of(s);
    let mut left: usize = MAX_PASSES;
    let ft = flex_tag_chars();
    let lt = fill_tag_chars();
    let mut settled = false;
    while !settled && left > 0 && (contains_exec(&cur, &ft) || contains_exec(&cur, &lt))
        invariant
            settled ==> layout_passes(cur@, width as nat, colors, left as nat) == cur@,
            left <= MAX_PASSES,
            width >= 1,
            ft@ == flex_tag(),
            lt@ == fill_tag(),
            flex_text(s@, width as nat, colors) == layout_passes(
                cur@,
                width as nat,
                colors,
                left as nat,
            ),
        decreases left + if settled {
            0int
        } else {
            1int
        },
    {
        let next = flex_process_once(&cur, width, colors);
        if same_chars(&next, &cur) {
            settled = true;
        } else {
            cur = next;
            left = left - 1;
        }
    }
    assert(layout_passes(cur@, width as nat, colors, left as nat) == cur@);
    string_of(&cur)
}

/// Lays out the flex and fill spans of `s` for a line `width` columns wide. Progress
/// bars are dimmed when stderr is styled, which depends on the terminal; the result is
/// the layout for one of the two cases.
pub fn flex(s: &str, width: usize) -> (r: String)
    requires
        width >= 1,
    ensures
        r@ == flex_text(s@, width as nat, true) || r@ == flex_text(s@, width as nat, false),
{
    let colors = colors_enabled_stderr();
    flex_with_colors(s, width, colors)
}

/// Text free of `<` and of newlines: it holds no tag and no line break.
pub open spec fn plain(s: Seq<char>) -> bool {
    forall|k: int| 0 <= k < s.len() ==> s[k] != '<' && s[k] != '\n'
}

/// A tag occurs in `p + tag + c + tag + q` exactly where the two tags were put, when the
/// pieces are plain.
proof fn lemma_tag_positions(p: Seq<char>, c: Seq<char>, q: Seq<char>, tag: Seq<char>, k: int)
    requires
        plain(p),
        plain(c),
        plain(q),
        tag.len() > 0,
        tag[0] == '<',
        forall|j: int| 0 < j < tag.len() ==> tag[j] != '<',
        k != p.len(),
        k != p.len() + tag.len() + c.len(),
    ensures
        !occurs_at(p + tag + c + tag + q, tag, k),
{
    let s = p + tag + c + tag + q;
    let a = p.len() as int;
    let b = a + tag.len() + c.len();
    if occurs_at(s, tag, k) {
        assert(s.subrange(k, k + tag.len())[0] == s[k]);
        assert(s[k] == '<');
        if k < a {
            assert(s[k] == p[k]);
        } else if k < a + tag.len() {
            assert(s[k] == tag[k - a]);
        } else if k < b {
            assert(s[k] == c[k - a - tag.len()]);
        } else if k < b + tag.len() {
            assert(s[k] == tag[k - b]);
        } else {
            assert(s[k] == q[k - b - tag.len()]);
        }
    }
}

proof fn lemma_no_newline(s: Seq<char>)
    requires
        plain(s),
    ensures
        find(s, newline()) is None,
        last_line(s) == s,
        s.len() > 0 ==> first_line(s) == s,
        !multiline(s),
{
    assert forall|k: int| 0 <= k implies !occurs_at(s, newline(), k) by {
        if occurs_at(s, newline(), k) {
            assert(s.subrange(k, k + 1)[0] == s[k]);
        }
    }
    lemma_find_none(s, newline(), 0);
}

proof fn lemma_split_tagged(p: Seq<char>, c: Seq<char>, q: Seq<char>, tag: Seq<char>)
    requires
        plain(p),
        plain(c),
        plain(q),
        tag.len() > 0,
        tag[0] == '<',
        forall|j: int| 0 < j < tag.len() ==> tag[j] != '<',
    ensures
        has_pair(p + tag + c + tag + q, tag),
        split3(p + tag + c + tag + q, tag) == (p, c, q),
{
    let s = p + tag + c + tag + q;
    let a = p.len() as int;
    assert(s.subrange(a, a + tag.len()) =~= tag);
    assert forall|k: int| 0 <= k < a implies !occurs_at(s, tag, k) by {
        lemma_tag_positions(p, c, q, tag, k);
    }
    lemma_find_at(s, tag, 0, a);
    let rest = s.subrange(a + tag.len(), s.len() as int);
    assert(rest =~= c + tag + q);
    let e = Seq::<char>::empty();
    assert(e + tag + c + tag + q =~= tag + c + tag + q);
    assert forall|k: int| 0 <= k < c.len() implies !occurs_at(rest, tag, k) by {
        lemma_tag_positions(e, c, q, tag, k + tag.len());
        assert(e + tag + c + tag + q =~= tag + rest);
        if occurs_at(rest, tag, k) {
            assert((tag + rest).subrange(k + tag.len(), k + 2 * tag.len()) =~= rest.subrange(
                k,
                k + tag.len(),
            ));
        }
    }
    assert(rest.subrange(c.len() as int, (c.len() + tag.len()) as int) =~= tag);
    lemma_find_at(rest, tag, 0, c.len() as int);
    assert(s.subrange(0, a) =~= p);
    assert(rest.subrange(0, c.len() as int) =~= c);
    assert(rest.subrange((c.len() + tag.len()) as int, rest.len() as int) =~= q);
}

/// One layout pass over `prefix<clx:flex>content<clx:flex>suffix`, with plain pieces and
/// room to spare, keeps prefix and suffix and hands the content to `truncate_str` with
/// the width the prefix and suffix leave, `w - width(prefix) - width(suffix)`. How wide
/// the cut content then is rests on `console` and is not stated here.
pub proof fn lemma_flex_pass(p: Seq<char>, c: Seq<char>, q: Seq<char>, w: nat, colors: bool)
    requires
        plain(p),
        plain(c),
        plain(q),
        c.len() > 0,
        text_width(p) + (if q.len() == 0 {
            0
        } else {
            text_width(q)
        }) + 3 < w,
    ensures
        ({
            let sw = if q.len() == 0 {
                0
            } else {
                text_width(q)
            };
            let room = (w - text_width(p) - sw) as nat;
            &&& layout_pass(p + flex_tag() + c + flex_tag() + q, w, colors) == p + truncated(c, room)
                + q
            &&& text_width(p) + room + sw == w
        }),
{
    let s = p + flex_tag() + c + flex_tag() + q;
    lemma_split_tagged(p, c, q, flex_tag());
    assert forall|k: int| 0 <= k implies !occurs_at(s, fill_tag(), k) by {
        if occurs_at(s, fill_tag(), k) {
            assert(s.subrange(k, k + 15)[0] == s[k]);
            assert(s[k] == '<');
            let a = p.len() as int;
            let b = a + 10 + c.len();
            if k == a || k == b {
                assert(s.subrange(k, k + 15)[9] == s[k + 9]);
                assert(s[k + 9] == '>');
            } else {
                lemma_tag_positions(p, c, q, flex_tag(), k);
                assert(s.subrange(k, k + 10) =~= s.subrange(k, k + 15).subrange(0, 10));
                assert(s.subrange(k, k + 15).subrange(0, 10) =~= fill_tag().subrange(0, 10));
                assert(fill_tag().subrange(0, 10)[9] == '_');
                assert(s.subrange(k, k + 10)[9] == s[k + 9]);
                assert(occurs_at(s, flex_tag(), k) || s[k + 9] == '_');
                assert(s[k + 9] == '_');
                assert(k + 9 < s.len());
                if k < a {
                    assert(s[k] == p[k]);
                } else if k < a + 10 {
                    assert(s[k] == flex_tag()[k - a]);
                } else if k < b {
                    assert(s[k] == c[k - a - 10]);
                } else if k < b + 10 {
                    assert(s[k] == flex_tag()[k - b]);
                } else {
                    assert(s[k] == q[k - b - 10]);
                }
            }
        }
    }
    lemma_find_none(s, fill_tag(), 0);
    lemma_no_newline(p);
    lemma_no_newline(c);
    lemma_no_newline(q);
    if p.len() > 0 {
        assert(p.last() != '\n');
    }
    assert(!starts_with(c, progress_mark())) by {
        if starts_with(c, progress_mark()) {
            assert(c.subrange(0, 13)[0] == c[0]);
        }
    }
}

/// One layout pass over `prefix<clx:flex_fill>content<clx:flex_fill>suffix`, with plain
/// pieces that fit in `w`, pads the content so that the widths of prefix, content,
/// padding and suffix add up to exactly `w`.
pub proof fn lemma_fill_pass(p: Seq<char>, c: Seq<char>, q: Seq<char>, w: nat, colors: bool)
    requires
        plain(p),
        plain(c),
        plain(q),
        text_width(p) + text_width(q) + text_width(c) < w,
    ensures
        ({
            let pad = (w - text_width(p) - text_width(q) - text_width(c)) as nat;
            &&& layout_pass(p + fill_tag() + c + fill_tag() + q, w, colors) == p + c
                + repeat_char(' ', pad) + q
            &&& text_width(p) + text_width(c) + pad + text_width(q) == w
        }),
{
    lemma_split_tagged(p, c, q, fill_tag());
}

/// One layout pass over `prefix<clx:flex_fill>content<clx:flex_fill>suffix`, with plain
/// pieces, where prefix and suffix leave at least one column but the content does not
/// fit: the content is handed to `truncate_str` with exactly the columns left.
pub proof fn lemma_fill_pass_cut(p: Seq<char>, c: Seq<char>, q: Seq<char>, w: nat, colors: bool)
    requires
        plain(p),
        plain(c),
        plain(q),
        text_width(p) + text_width(q) < w,
        text_width(p) + text_width(q) + text_width(c) >= w,
    ensures
        ({
            let room = (w - text_width(p) - text_width(q)) as nat;
            &&& room >= 1
            &&& layout_pass(p + fill_tag() + c + fill_tag() + q, w, colors) == p + truncated(c, room)
                + q
            &&& text_width(p) + room + text_width(q) == w
        }),
{
    lemma_split_tagged(p, c, q, fill_tag());
}

/// One layout pass over `prefix<clx:flex><clx:flex>suffix` (an empty span), with plain
/// pieces: a prefix at least `w` wide is cut to `w`; otherwise the prefix stays and the
/// suffix follows only if both fit in `w`.
pub proof fn lemma_flex_empty_span(p: Seq<char>, q: Seq<char>, w: nat, colors: bool)
    requires
        plain(p),
        plain(q),
    ensures
        ({
            let pw = text_width(p);
            let sw = if q.len() == 0 {
                0
            } else {
                text_width(q)
            };
            layout_pass(p + flex_tag() + Seq::empty() + flex_tag() + q, w, colors) == if pw >= w {
                truncated(p, w)
            } else if pw + sw <= w {
                p + q
            } else {
                p
            }
        }),
{
    let e = Seq::<char>::empty();
    let s = p + flex_tag() + e + flex_tag() + q;
    lemma_split_tagged(p, e, q, flex_tag());
    assert forall|k: int| 0 <= k implies !occurs_at(s, fill_tag(), k) by {
        if occurs_at(s, fill_tag(), k) {
            assert(s.subrange(k, k + 15)[0] == s[k]);
            let a = p.len() as int;
            if k == a || k == a + 10 {
                assert(s.subrange(k, k + 15)[9] == s[k + 9]);
            } else {
                lemma_tag_positions(p, e, q, flex_tag(), k);
                assert(s.subrange(k, k + 15)[9] == s[k + 9]);
                if k < a {
                    assert(s[k] == p[k]);
                } else if k < a + 10 {
                    assert(s[k] == flex_tag()[k - a]);
                } else if k < a + 20 {
                    assert(s[k] == flex_tag()[k - a - 10]);
                } else {
                    assert(s[k] == q[k - a - 20]);
                }
            }
        }
    }
    lemma_find_none(s, fill_tag(), 0);
    lemma_no_newline(p);
    lemma_no_newline(q);
    if p.len() > 0 {
        assert(p.last() != '\n');
    }
}

/// The fill span is padded to exactly the width left: when the text around it and the
/// span itself fit in `w`, the prefix, span, padding and suffix widths add up to `w`.
pub proof fn lemma_fill_fills_width(line: Seq<char>, w: nat)
    requires
        contains(line, fill_tag()),
        ({
            let (p, c, s) = split3(line, fill_tag());
            text_width(p) + text_width(s) + text_width(c) < w
        }),
    ensures
        ({
            let (p, c, s) = split3(line, fill_tag());
            let pad = (w - text_width(p) - text_width(s) - text_width(c)) as nat;
            &&& fill_line(line, w) == p + c + repeat_char(' ', pad) + s
            &&& text_width(p) + text_width(c) + pad + text_width(s) == w
        }),
{
}

/// On a single line, a flex span with room to spare is handed to `truncate_str` with the
/// width the prefix and suffix leave, `w - width(prefix) - width(suffix)`.
pub proof fn lemma_flex_cuts_to_room(line: Seq<char>, w: nat)
    requires
        contains(line, flex_tag()),
        ({
            let (p, c, s) = split3(line, flex_tag());
            text_width(p) + text_width(s) + 3 < w
        }),
    ensures
        ({
            let (p, c, s) = split3(line, flex_tag());
            let room = (w - text_width(p) - text_width(s)) as nat;
            &&& flex_line(line, w) == p + truncated(c, room) + s
            &&& text_width(p) + room + text_width(s) == w
        }),
{
}

} // verus!
