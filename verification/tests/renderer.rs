use zpl_forge::renderer::{
    check_font_bytes, check_output, check_page_count, check_variables_size, map_render_error,
    validate,
};
use zpl_forge::ZplError;

#[test]
fn rejects_limits_before_parsing() {
    assert_eq!(validate("", 816, 1216, 203), Err("ZPL_INPUT_LIMIT"));
    assert_eq!(validate("^XA^XZ", 4096, 4096, 203), Err("ZPL_CANVAS_LIMIT"));
    assert_eq!(
        validate("^XA^XZ", 816, 1216, 200),
        Err("ZPL_RESOLUTION_INVALID")
    );
    assert!(validate("^XA^XZ", 816, 1216, 203).is_ok());
}

#[test]
fn input_limit_counts_utf8_bytes() {
    let ascii = format!("^XA{}^XZ", "A".repeat(65536 - 6));
    assert!(validate(&ascii, 816, 1216, 203).is_ok());
    let over = format!("^XA{}^XZ", "A".repeat(65536 - 5));
    assert_eq!(validate(&over, 816, 1216, 203), Err("ZPL_INPUT_LIMIT"));
    // Two bytes per character: half as many characters reach the limit.
    let wide = format!("^XA{}^XZ", "é".repeat(32766));
    assert_eq!(validate(&wide, 816, 1216, 203), Err("ZPL_INPUT_LIMIT"));
}

#[test]
fn single_format_rule() {
    assert!(validate("  \n^XA^FDx^FS^XZ\r\n ", 816, 1216, 203).is_ok());
    assert_eq!(
        validate("^XA^XZ^XA^XZ", 816, 1216, 203),
        Err("ZPL_SINGLE_FORMAT_REQUIRED")
    );
    assert_eq!(
        validate("^FD^XA^XZ", 816, 1216, 203),
        Err("ZPL_SINGLE_FORMAT_REQUIRED")
    );
    assert_eq!(
        validate("^XA^XZ x", 816, 1216, 203),
        Err("ZPL_SINGLE_FORMAT_REQUIRED")
    );
    assert_eq!(
        validate("^XA", 816, 1216, 203),
        Err("ZPL_SINGLE_FORMAT_REQUIRED")
    );
}

#[test]
fn canvas_limits() {
    assert_eq!(validate("^XA^XZ", 0, 10, 203), Err("ZPL_CANVAS_LIMIT"));
    assert_eq!(validate("^XA^XZ", 10, 0, 203), Err("ZPL_CANVAS_LIMIT"));
    assert_eq!(validate("^XA^XZ", 4097, 1, 203), Err("ZPL_CANVAS_LIMIT"));
    assert!(validate("^XA^XZ", 4096, 1024, 600).is_ok());
    assert_eq!(validate("^XA^XZ", 4096, 1025, 300), Err("ZPL_CANVAS_LIMIT"));
}

#[test]
fn font_bytes_are_checked_by_size_and_signature() {
    assert_eq!(check_font_bytes(&[]), Err("FONT_SIZE_LIMIT"));
    assert_eq!(check_font_bytes(&[0, 1, 0]), Err("FONT_INVALID"));
    assert_eq!(check_font_bytes(b"OTTO...."), Err("FONT_INVALID"));
    assert!(check_font_bytes(&[0, 1, 0, 0, 7]).is_ok());
    assert!(check_font_bytes(b"true").is_ok());
    assert_eq!(
        check_font_bytes(&vec![0u8; 16 * 1024 * 1024 + 1]),
        Err("FONT_SIZE_LIMIT")
    );
}

#[test]
fn variables_pages_and_output_limits() {
    assert!(check_variables_size("[{\"a\":\"b\"}]").is_ok());
    assert_eq!(
        check_variables_size(&"x".repeat(64 * 1024 + 1)),
        Err("ZPL_VARIABLES_LIMIT")
    );
    assert_eq!(check_page_count(0), Err("ZPL_PAGE_LIMIT"));
    assert!(check_page_count(32).is_ok());
    assert_eq!(check_page_count(33), Err("ZPL_PAGE_LIMIT"));
    assert_eq!(check_output(vec![1, 2, 3]), Ok(vec![1, 2, 3]));
    assert_eq!(
        check_output(vec![0u8; 16 * 1024 * 1024 + 1]),
        Err("ZPL_OUTPUT_LIMIT")
    );
}

#[test]
fn render_errors_map_to_codes() {
    assert_eq!(
        map_render_error(&ZplError::FontError("x".to_string())),
        "ZPL_FONT_UNSUPPORTED"
    );
    assert_eq!(
        map_render_error(&ZplError::SecurityLimitExceeded("x".to_string())),
        "ZPL_RESOURCE_LIMIT"
    );
    assert_eq!(map_render_error(&ZplError::EmptyInput), "ZPL_RENDER_FAILED");
}
