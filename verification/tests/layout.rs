use zpl_forge::engine::shaping::shape;
use zpl_forge::ZplError;
use zpl_forge::engine::layout::block_fits_check;
use zpl_forge::engine::layout::{layout_text_block, wrap_text_block};
use zpl_forge::engine::TextBlock;

fn ten_per_char(s: &str) -> u32 {
    s.chars().count() as u32 * 10
}

#[test]
fn wrap_fills_lines_greedily() {
    let lines = wrap_text_block("hello world foo", 110, &ten_per_char);
    assert_eq!(lines, vec!["hello world".to_string(), "foo".to_string()]);
}

#[test]
fn wrap_breaks_at_explicit_marker() {
    let lines = wrap_text_block("ab\\&cd", 100, &ten_per_char);
    assert_eq!(lines, vec!["ab".to_string(), "cd".to_string()]);
}

#[test]
fn wrap_without_width_trims_segments() {
    let lines = wrap_text_block("  x y  \\&z", 0, &ten_per_char);
    assert_eq!(lines, vec!["x y".to_string(), "z".to_string()]);
}

#[test]
fn wrap_hard_breaks_long_words() {
    let lines = wrap_text_block("abcdefgh", 30, &ten_per_char);
    assert_eq!(lines, vec!["abc".to_string(), "def".to_string(), "gh".to_string()]);
    let single = wrap_text_block("ab cdefgh i", 30, &ten_per_char);
    assert_eq!(
        single,
        vec!["ab".to_string(), "cde".to_string(), "fgh".to_string(), "i".to_string()]
    );
}

#[test]
fn wrap_of_empty_text_is_one_empty_line() {
    assert_eq!(wrap_text_block("", 50, &ten_per_char), vec![String::new()]);
}

fn block(width: u32, max_lines: u32, justification: char) -> TextBlock {
    TextBlock { width, max_lines, line_spacing: 5, justification, indent: 0 }
}

#[test]
fn layout_centres_and_advances_lines() {
    let placed = layout_text_block(100, 50, Some(20), 'N', "hello world foo", &block(110, 3, 'C'), &ten_per_char);
    let got: Vec<(u32, u32, String)> = placed.into_iter().map(|p| (p.x, p.y, p.text)).collect();
    assert_eq!(got, vec![(100, 50, "hello world".to_string()), (140, 75, "foo".to_string())]);
}

#[test]
fn layout_rotates_with_the_field() {
    let placed = layout_text_block(100, 50, Some(20), 'R', "hello world foo", &block(110, 3, 'C'), &ten_per_char);
    let got: Vec<(u32, u32)> = placed.iter().map(|p| (p.x, p.y)).collect();
    assert_eq!(got, vec![(125, 50), (100, 90)]);
}

#[test]
fn layout_keeps_at_most_max_lines_and_indents() {
    let placed = layout_text_block(0, 0, None, 'N', "aa bb cc", &block(20, 1, 'L'), &ten_per_char);
    assert_eq!(placed.len(), 1);
    assert_eq!((placed[0].x, placed[0].y, placed[0].text.as_str()), (0, 0, "aa"));
    let indented = TextBlock { width: 50, max_lines: 2, line_spacing: 0, justification: 'R', indent: 10 };
    let placed = layout_text_block(0, 0, None, 'N', "aaa bbb", &indented, &ten_per_char);
    // Line 0: 30 of 50 dots, right-aligned at 20; line 1 after the indent: 30 of 40 at 10 + 10.
    let got: Vec<(u32, u32)> = placed.iter().map(|p| (p.x, p.y)).collect();
    assert_eq!(got, vec![(20, 0), (20, 9)]);
}

#[test]
fn block_fit_check_follows_coordinates() {
    assert!(block_fits_check(100, 50, Some(20), 'N', "hello world foo", &block(110, 3, 'C'), &ten_per_char));
    assert!(!block_fits_check(u32::MAX, 50, Some(20), 'N', "hello", &block(110, 3, 'C'), &ten_per_char));
    assert!(!block_fits_check(0, 0, Some(u32::MAX), 'N', "hello", &block(110, 3, 'C'), &ten_per_char));
}

#[test]
fn wrapped_lines_fit_or_are_single_characters() {
    let text = "a bb ccccccc dd e fffffffffffff g\\&hh iiii";
    for max in [10u32, 20, 35, 60] {
        for line in wrap_text_block(text, max, &ten_per_char) {
            assert!(ten_per_char(&line) <= max || line.chars().count() <= 1, "{line:?} at {max}");
        }
    }
}

#[test]
fn shaping_refuses_long_text_and_bad_fonts() {
    let long = "a".repeat(4097);
    assert_eq!(
        shape(b"not a font", &long).err(),
        Some(ZplError::SecurityLimitExceeded("Shaped field character limit".to_string()))
    );
    assert_eq!(
        shape(b"not a font", "abc").err(),
        Some(ZplError::FontError("Unsupported shaped text or font".to_string()))
    );
}
