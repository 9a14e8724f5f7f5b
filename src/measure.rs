//! The terminal text measurements this library takes from `console`.
use vstd::prelude::*;

verus! {

/// Visible width of a text on a terminal, as `console::measure_text_width` reports it:
/// ANSI escape sequences count as zero, wide characters as two.
pub uninterp spec fn text_width(s: Seq<char>) -> nat;

/// What `console::truncate_str` makes of a text cut to a width, with `…` as the tail.
pub uninterp spec fn truncated(s: Seq<char>, width: nat) -> Seq<char>;

/// The escape sequence that starts dim text.
pub open spec fn dim_open() -> Seq<char> {
    seq!['\x1b', '[', '2', 'm']
}

/// The escape sequence that resets text attributes.
pub open spec fn attr_reset() -> Seq<char> {
    seq!['\x1b', '[', '0', 'm']
}

/// Relies on `console::measure_text_width`: the visible width of `s`; the empty text
/// has width zero.
#[verifier::external_body]
pub(crate) fn measure_text_width(s: &Vec<char>) -> (r: usize)
    ensures
        r == text_width(s@),
        s@.len() == 0 ==> r == 0,
{
    let s: String = s.iter().collect();
    console::measure_text_width(&s)
}

/// Relies on `console::truncate_str` with the tail `"…"`: `s` cut to `width` columns.
/// The tail's own width (one column) is taken from `width`, so `width` is at least one.
#[verifier::external_body]
pub(crate) fn truncate_str(s: &Vec<char>, width: usize) -> (r: Vec<char>)
    requires
        width >= 1,
    ensures
        r@ == truncated(s@, width as nat),
{
    let s: String = s.iter().collect();
    console::truncate_str(&s, width, "…").chars().collect()
}

/// Relies on `console::colors_enabled_stderr`: whether stderr is styled. It depends on
/// the terminal and the environment, so nothing is stated of it.
#[verifier::external_body]
pub(crate) fn colors_enabled_stderr() -> (r: bool) {
    console::colors_enabled_stderr()
}

/// Relies on `console::style(..).force_styling(colors).dim()` and its `Display`: with
/// colors the text is wrapped in the dim and reset sequences, without it is left as is.
#[verifier::external_body]
pub(crate) fn dim_text(s: &Vec<char>, colors: bool) -> (r: Vec<char>)
    ensures
        r@ == if colors {
            dim_open() + s@ + attr_reset()
        } else {
            s@
        },
{
    let s: String = s.iter().collect();
    console::style(s).force_styling(colors).dim().to_string().chars().collect()
}

} // verus!
