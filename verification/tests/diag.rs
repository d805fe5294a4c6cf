use sabbahc::err::{digit_count, get_terminal_width, render_snippet, Diagnostic, ErrorHandler};
use sabbahc::strutil::{repeat_char, usize_to_string};

#[test]
fn snippet_box_around_the_offending_line() {
    let out = render_snippet("abc\ndef", 2, 2, 80);
    let expected = format!("──┼{}─\n1 │ abc\n2 │ def\n  │ ^\n", "─".repeat(75));
    assert_eq!(out, expected);
}

#[test]
fn long_lines_are_truncated_with_an_ellipsis() {
    // Width 10 with a one-digit line count leaves 5 columns of content.
    let out = render_snippet("abcdefgh", 1, 1, 10);
    let expected = format!("──┼{}─\n1 │ abcde...\n  │ ^\n", "─".repeat(5));
    assert_eq!(out, expected);
}

#[test]
fn elision_markers_at_the_window_edges() {
    let src = "l1\nl2\nl3\nl4\nl5\nl6\nl7";
    // Around line 5 the window shows lines 3..=7: elision above, none below.
    let top = render_snippet(src, 5, 1, 80);
    assert!(top.contains(" │ ...\n3 │ l3\n"));
    assert!(top.ends_with("7 │ l7\n"));
    // Around line 1 the window shows lines 1..=3: none above, elision below.
    let bottom = render_snippet(src, 1, 1, 80);
    assert!(!bottom.contains("...\n1 │"));
    assert!(bottom.ends_with(" │ ...\n"));
}

#[test]
fn carriage_returns_are_stripped_before_newlines() {
    let out = render_snippet("abc\r\ndef", 1, 1, 80);
    assert!(out.contains("1 │ abc\n"));
}

#[test]
fn rendered_diagnostic_carries_header_snippet_and_fix() {
    let handler = ErrorHandler::new("return 300;".to_string(), "demo.sbb");
    let d = handler.err(
        1,
        8,
        "Integer literal out of range for an 8-bit value".to_string(),
        Some("Use a value between 0 and 255".to_string()),
    );
    let text = d.render("return 300;", 80);
    let header = "\u{1b}[1m\u{1b}[31merror:\u{1b}[0m Integer literal out of range for an 8-bit value at demo.sbb:1:8\n";
    assert!(text.starts_with(header));
    assert!(text.contains("1 │ return 300;\n"));
    assert!(text.ends_with("\u{1b}[1mfix:\u{1b}[0m Use a value between 0 and 255\n"));
    assert!(!text.contains("[internal compiler error]"));
}

#[test]
fn internal_errors_are_marked() {
    let handler = ErrorHandler::new("x".to_string(), "demo.sbb");
    let d = handler.comperr(1, 1, "broken invariant".to_string(), None);
    let text = d.render("x", 80);
    assert!(text.starts_with("[internal compiler error]"));
    assert!(!text.contains("fix:"));
}

#[test]
fn handler_distinguishes_severities() {
    let handler = ErrorHandler::new("src".to_string(), "f.sbb");
    let user = handler.err(3, 4, "msg".to_string(), None);
    assert_eq!((user.file.as_str(), user.line, user.column), ("f.sbb", 3, 4));
    assert!(!user.comperr);
    let internal = handler.comperr(3, 4, "msg".to_string(), None);
    assert!(internal.comperr);
}

#[test]
fn digit_count_matches_decimal_length() {
    assert_eq!(digit_count(0), 1);
    assert_eq!(digit_count(9), 1);
    assert_eq!(digit_count(10), 2);
    assert_eq!(digit_count(99), 2);
    assert_eq!(digit_count(100), 3);
    assert_eq!(digit_count(usize::MAX), 20);
}

#[test]
fn counters_render_in_decimal() {
    assert_eq!(usize_to_string(0), "0");
    assert_eq!(usize_to_string(7), "7");
    assert_eq!(usize_to_string(240), "240");
    assert_eq!(usize_to_string(18446744073709551615), "18446744073709551615");
}

#[test]
fn repeat_char_repeats() {
    assert_eq!(repeat_char('x', 0), "");
    assert_eq!(repeat_char('─', 3), "───");
}

#[test]
fn terminal_width_is_a_column_count() {
    let w = get_terminal_width();
    assert!(w <= u16::MAX as usize);
}
