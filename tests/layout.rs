use clx::flex::{flex, flex_with_colors};
use clx::layout::indent;
use clx::placeholder::{decode_progress_bar_chars, encode_progress_bar_chars};
use clx::progress_bar::{progress_bar_with_chars, ProgressBarChars};

#[test]
fn test_flex() {
    let s = "prefix<clx:flex>content<clx:flex>suffix";
    let result = flex(s, 20);
    let width = console::measure_text_width(&result);
    assert!(width <= 20);
    assert!(result.contains("prefix"));
    assert!(result.contains("suffix"));

    let s = "very_long_prefix<clx:flex>content<clx:flex>very_long_suffix";
    let result = flex(s, 10);
    let width = console::measure_text_width(&result);
    assert!(width <= 10);
    assert!(!result.is_empty());

    let long_content = "a".repeat(1000);
    let s = format!("prefix<clx:flex>{}<clx:flex>suffix", long_content);
    let result = flex(&s, 30);
    let width = console::measure_text_width(&result);
    assert!(width <= 30);
    assert!(result.contains("prefix"));
    assert!(result.contains("suffix"));

    let long_prefix = "very_long_prefix_that_exceeds_screen_width_".repeat(10);
    let long_suffix = "very_long_suffix_that_exceeds_screen_width_".repeat(10);
    let s = format!("{}<clx:flex>content<clx:flex>{}", long_prefix, long_suffix);
    let result = flex(&s, 50);
    let width = console::measure_text_width(&result);
    assert!(width <= 50);
    assert!(!result.is_empty());
}

#[test]
fn test_flex_progress_placeholder_basic() {
    let s = "prefix<clx:flex><clx:progress cur=5 total=10><clx:flex>suffix";
    let target_width = 50;
    let result = flex(s, target_width);
    let width = console::measure_text_width(&result);
    assert_eq!(width, target_width);
    assert!(result.contains('[') && result.contains(']'));
    assert!(!result.contains("<clx:progress"));
}

#[test]
fn test_flex_progress_placeholder_min_width() {
    let prefix = "a";
    let suffix = "b";
    let s = format!(
        "{}<clx:flex><clx:progress cur=1 total=1><clx:flex>{}",
        prefix, suffix
    );
    let target_width = 4;
    let result = flex(&s, target_width);
    let width = console::measure_text_width(&result);
    assert_eq!(width, target_width);
    assert!(!result.contains("<clx:progress"));
}

#[test]
fn test_flex_fill() {
    let s = "prefix<clx:flex_fill>short<clx:flex_fill>suffix";
    let result = flex(s, 30);
    let width = console::measure_text_width(&result);
    assert_eq!(width, 30);
    assert!(result.starts_with("prefix"));
    assert!(result.ends_with("suffix"));
    assert!(result.contains("short"));
    assert!(result.contains("     "));

    let s = "pre<clx:flex_fill>this is very long content that needs truncation<clx:flex_fill>end";
    let result = flex(s, 20);
    let width = console::measure_text_width(&result);
    assert!(width <= 20);
    assert!(result.starts_with("pre"));
}

#[test]
fn test_flex_fill_right_align() {
    let s = "X<clx:flex_fill>msg<clx:flex_fill>[====]";
    let result = flex(s, 20);
    assert_eq!(console::measure_text_width(&result), 20);
    assert!(result.starts_with("Xmsg"));
    assert!(result.ends_with("[====]"));
}

#[test]
fn flex_without_tags_is_unchanged() {
    assert_eq!(flex("plain text\nsecond line", 5), "plain text\nsecond line");
}

#[test]
fn flex_fill_pads_exactly() {
    let result = flex_with_colors("ab<clx:flex_fill>cd<clx:flex_fill>ef", 10, false);
    assert_eq!(result, "abcd    ef");
}

#[test]
fn flex_truncates_with_ellipsis() {
    let result = flex_with_colors("ab<clx:flex>abcdefghij<clx:flex>cd", 10, false);
    assert_eq!(result, "ababcde\u{2026}cd");
}

#[test]
fn flex_multiline_content_keeps_first_line() {
    let result = flex_with_colors("p<clx:flex>line one\nline two<clx:flex>", 40, false);
    assert_eq!(result, "pline one");
}

#[test]
fn flex_unpaired_tag_is_laid_out_per_line() {
    let result = flex_with_colors("a<clx:flex_fill>b\nplain", 5, false);
    assert_eq!(result, "ab   \nplain");
}

#[test]
fn flex_progress_bar_uncolored() {
    let result = flex_with_colors("x<clx:flex><clx:progress cur=5 total=10><clx:flex>y", 14, false);
    assert_eq!(result, "x[====>     ]y");
}

#[test]
fn flex_progress_bar_custom_chars() {
    let chars = ProgressBarChars {
        fill: "#".to_string(),
        head: "#".to_string(),
        empty: ".".to_string(),
        left: "<".to_string(),
        right: ">".to_string(),
    };
    let s = format!(
        "<clx:flex><clx:progress cur=1 total=4 chars={}><clx:flex>",
        encode_progress_bar_chars(&chars)
    );
    let result = flex_with_colors(&s, 10, false);
    assert_eq!(result, "<##......>");
}

#[test]
fn test_indent() {
    let s = "aaaaaaaaaaaaaaaaaaaaaaaaaaaaaaaaaa";
    let result = indent(s.to_string(), 10, 2);
    assert_eq!(result, "  aaaaaaaa\n  aaaaaaaa\n  aaaaaaaa\n  aaaaaaaa\n  aa");

    let s = "\x1b[0;31maaaaaaaaaaaaaaaaaaaaaaaaaaaaaaaaaa";
    let result = indent(s.to_string(), 10, 2);
    assert_eq!(
        result,
        "  \x1b[0;31maaaaaaaa\n  \x1b[0;31maaaaaaaa\n  \x1b[0;31maaaaaaaa\n  \x1b[0;31maaaaaaaa\n  \x1b[0;31maa"
    );
}

#[test]
fn indent_short_line_only_gains_prefix() {
    assert_eq!(indent("hello".to_string(), 20, 3), "   hello");
    assert_eq!(indent("one\ntwo".to_string(), 20, 1), " one\n two");
}

#[test]
fn indent_wraps_last_character() {
    assert_eq!(indent("aaaaaaaaa".to_string(), 10, 2), "  aaaaaaaa\n  a");
}

#[test]
fn test_encode_decode_progress_bar_chars() {
    let chars = ProgressBarChars {
        fill: "█".to_string(),
        head: "▓".to_string(),
        empty: " ".to_string(),
        left: "[".to_string(),
        right: "]".to_string(),
    };

    let encoded = encode_progress_bar_chars(&chars);
    let decoded = decode_progress_bar_chars(&encoded);

    assert_eq!(decoded.fill, chars.fill);
    assert_eq!(decoded.head, chars.head);
    assert_eq!(decoded.empty, chars.empty);
    assert_eq!(decoded.left, chars.left);
    assert_eq!(decoded.right, chars.right);
}

#[test]
fn test_encode_decode_special_chars() {
    let chars = ProgressBarChars {
        fill: "|".to_string(),
        head: "|".to_string(),
        empty: " ".to_string(),
        left: "|".to_string(),
        right: "|".to_string(),
    };

    let encoded = encode_progress_bar_chars(&chars);
    let decoded = decode_progress_bar_chars(&encoded);

    assert_eq!(decoded.fill, chars.fill);
    assert_eq!(decoded.head, chars.head);
    assert_eq!(decoded.empty, chars.empty);
    assert_eq!(decoded.left, chars.left);
    assert_eq!(decoded.right, chars.right);
}

#[test]
fn test_encode_decode_angle_brackets() {
    let chars = ProgressBarChars {
        fill: "=".to_string(),
        head: ">".to_string(),
        empty: " ".to_string(),
        left: "<".to_string(),
        right: ">".to_string(),
    };

    let encoded = encode_progress_bar_chars(&chars);
    let decoded = decode_progress_bar_chars(&encoded);

    assert_eq!(decoded.fill, chars.fill);
    assert_eq!(decoded.head, chars.head);
    assert_eq!(decoded.empty, chars.empty);
    assert_eq!(decoded.left, chars.left);
    assert_eq!(decoded.right, chars.right);
}

#[test]
fn encode_escapes_separators() {
    let chars = ProgressBarChars {
        fill: ",".to_string(),
        head: "%".to_string(),
        empty: " ".to_string(),
        left: "<".to_string(),
        right: ">".to_string(),
    };
    assert_eq!(encode_progress_bar_chars(&chars), "%2C,%25,%20,%3C,%3E");
}

#[test]
fn decode_with_too_few_parts_gives_default() {
    let decoded = decode_progress_bar_chars("a,b");
    assert_eq!(decoded.fill, "=");
    assert_eq!(decoded.right, "]");
}

#[test]
fn decode_keeps_unknown_escape() {
    let decoded = decode_progress_bar_chars("%41,b,c,d,e,f");
    assert_eq!(decoded.fill, "%41");
    assert_eq!(decoded.right, "e,f");
}

#[test]
fn test_progress_bar_default() {
    let bar = progress_bar_with_chars(50, 100, 12, &ProgressBarChars::default(), false);
    assert!(bar.contains('['));
    assert!(bar.contains(']'));
    assert_eq!(bar, "[====>     ]");
}

#[test]
fn test_progress_bar_complete() {
    let bar = progress_bar_with_chars(100, 100, 12, &ProgressBarChars::default(), false);
    assert!(bar.contains('['));
    assert!(bar.contains(']'));
    assert_eq!(bar, "[==========]");
}

#[test]
fn test_progress_bar_empty() {
    let bar = progress_bar_with_chars(0, 100, 12, &ProgressBarChars::default(), false);
    assert!(bar.contains('['));
    assert!(bar.contains(']'));
    assert_eq!(bar, "[          ]");
}

#[test]
fn test_progress_bar_custom_chars() {
    let chars = ProgressBarChars::blocks();
    let bar = progress_bar_with_chars(50, 100, 10, &chars, false);
    assert!(!bar.contains('['));
}

#[test]
fn progress_bar_dimmed_with_colors() {
    let bar = progress_bar_with_chars(0, 0, 4, &ProgressBarChars::default(), true);
    assert_eq!(bar, "\x1b[2m[  ]\x1b[0m");
}

#[test]
fn test_progress_bar_chars_presets() {
    let _ = ProgressBarChars::default();
    let _ = ProgressBarChars::blocks();
    let _ = ProgressBarChars::thin();
}
