use unicode_segmentation::UnicodeSegmentation;
use zpl_forge::engine::shaping::wrap_shaped;

fn graphemes(s: &str) -> u32 {
    s.graphemes(true).count() as u32
}

#[test]
fn emergency_wrap_keeps_combining_clusters() {
    let lines = wrap_shaped("e\u{301}e\u{301}e\u{301}", 1, &graphemes);
    assert_eq!(lines, ["e\u{301}", "e\u{301}", "e\u{301}"]);
}

#[test]
fn cjk_breaks_and_explicit_lines_preserve_text() {
    let lines = wrap_shaped("中文标签\\&上海", 2, &graphemes);
    assert_eq!(lines, ["中文", "标签", "上海"]);
}

#[test]
fn shaped_wrap_prefers_break_opportunities() {
    let lines = wrap_shaped("hello world again", 11, &graphemes);
    assert_eq!(lines, ["hello", "world again"]);
    let lines = wrap_shaped("hello world", 7, &graphemes);
    assert_eq!(lines, ["hello", "world"]);
}

#[test]
fn shaped_wrap_without_width_keeps_segments() {
    let lines = wrap_shaped(" a b \\&c", 0, &graphemes);
    assert_eq!(lines, [" a b ", "c"]);
}
