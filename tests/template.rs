use clx::flex::flex_with_colors;
use clx::progress_bar::ProgressBarChars;
use clx::template::{bar_chars_from, progress_bar_text, spinner_frame};

#[test]
fn progress_bar_placeholder_text() {
    let chars = ProgressBarChars::default();
    let text = progress_bar_text(Some((5, 10)), false, true, None, 80, &chars, false);
    assert_eq!(text, "<clx:flex><clx:progress cur=5 total=10 chars==,%3E,%20,[,]><clx:flex>");
    let laid = flex_with_colors(&format!("x{}y", text), 14, false);
    assert_eq!(laid, "x[====>     ]y");
}

#[test]
fn progress_bar_fixed_and_relative_width() {
    let chars = ProgressBarChars::default();
    assert_eq!(progress_bar_text(Some((5, 10)), false, false, Some(12), 80, &chars, false), "[====>     ]");
    assert_eq!(progress_bar_text(Some((5, 10)), false, false, Some(-68), 80, &chars, false), "[====>     ]");
    assert_eq!(progress_bar_text(Some((5, 10)), false, false, Some(-100), 80, &chars, false), "[]");
    assert_eq!(progress_bar_text(Some((10, 10)), true, false, Some(12), 80, &chars, false), "");
    assert_eq!(progress_bar_text(None, false, false, Some(12), 80, &chars, false), "");
}

#[test]
fn bar_chars_presets_and_overrides() {
    let blocks = bar_chars_from(Some("blocks"), Some("#"), None, None, None, None);
    assert_eq!(blocks.fill, "\u{2588}");
    let thin = bar_chars_from(Some("thin"), None, None, None, None, None);
    assert_eq!(thin.fill, "\u{2501}");
    let custom = bar_chars_from(Some("other"), Some("#"), None, Some("."), Some(""), None);
    assert_eq!(custom.fill, "#");
    assert_eq!(custom.head, ">");
    assert_eq!(custom.empty, ".");
    assert_eq!(custom.left, "");
    assert_eq!(custom.right, "]");
}

#[test]
fn spinner_frames_cycle() {
    assert_eq!(spinner_frame(0, 200, 10), 0);
    assert_eq!(spinner_frame(450, 200, 10), 2);
    assert_eq!(spinner_frame(2100, 200, 10), 0);
}
