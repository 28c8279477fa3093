use tokenicode_core::frontmatter::update_frontmatter_field;
use tokenicode_core::textproc::strip_ansi;

#[test]
fn test_strip_color_codes() {
    assert_eq!(strip_ansi("\u{1b}[31mred\u{1b}[0m"), "red");
    assert_eq!(strip_ansi("\u{1b}[1;32;40mbold\u{1b}[m"), "bold");
}

#[test]
fn test_strip_osc_sequences() {
    // an OSC runs to the bell, or to the escape-backslash terminator
    assert_eq!(strip_ansi("a\u{1b}]0;title\u{7}b"), "ab");
    assert_eq!(strip_ansi("a\u{1b}]0;title\u{1b}\\b"), "ab");
}

#[test]
fn test_strip_charset_and_lone_escape() {
    assert_eq!(strip_ansi("a\u{1b}(Bc"), "ac");
    assert_eq!(strip_ansi("x\u{1b}"), "x");
    assert_eq!(strip_ansi("x\u{1b}Zy"), "xy");
}

#[test]
fn test_strip_control_chars_keeps_line_shape() {
    assert_eq!(strip_ansi("a\u{0}b\u{7}c"), "abc");
    assert_eq!(strip_ansi("a\nb\tc\rd"), "a\nb\tc\rd");
    assert_eq!(strip_ansi("a\u{7f}b"), "a\u{7f}b");
}

#[test]
fn test_strip_unterminated_sequence() {
    assert_eq!(strip_ansi("go\u{1b}[31"), "go");
    assert_eq!(strip_ansi("go\u{1b}]still going"), "go");
}

#[test]
fn test_frontmatter_replaces_field() {
    let doc = "---\nname: a\ndesc: b\n---\nbody";
    assert_eq!(
        update_frontmatter_field(doc, "desc", Some("c")),
        "---\n\nname: a\ndesc: c\n---\nbody"
    );
}

#[test]
fn test_frontmatter_removes_field() {
    let doc = "---\na: 1\nb: 2\n---\nX";
    assert_eq!(update_frontmatter_field(doc, "a", None), "---\n\nb: 2\n---\nX");
}

#[test]
fn test_frontmatter_removes_empty_block() {
    let doc = "---\nname: a\n---\nbody";
    assert_eq!(update_frontmatter_field(doc, "name", None), "body");
}

#[test]
fn test_frontmatter_created_when_missing() {
    assert_eq!(update_frontmatter_field("hello", "x", Some("1")), "---\nx: 1\n---\nhello");
    assert_eq!(update_frontmatter_field("hello", "x", None), "hello");
}
