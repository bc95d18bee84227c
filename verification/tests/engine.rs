use zpl_forge::ast::cmd::CommandOf;
use zpl_forge::ast::parser::parse_zpl;
use zpl_forge::engine::common::ZplInstructionOf;
use zpl_forge::engine::engine::{replace_vars, ZplEngine};
use zpl_forge::engine::intr::unescape_hex;
use zpl_forge::engine::vars::Variables;
use zpl_forge::tools::zpl_decode;
use zpl_forge::ZplError;

fn vars(pairs: &[(&str, &str)]) -> Variables {
    let mut v = Variables::new();
    for (k, val) in pairs {
        v.insert(k.to_string(), val.to_string());
    }
    v
}

#[test]
fn parses_a_simple_label() {
    let cmds = parse_zpl("^XA^FO10,20^FDHello^FS^XZ").unwrap();
    assert_eq!(cmds.len(), 5);
    assert!(matches!(cmds[0], CommandOf::StartFormat));
    assert!(matches!(cmds[1], CommandOf::FieldOrigin { x: Some(10), y: Some(20) }));
    match &cmds[2] {
        CommandOf::FieldData { data } => assert_eq!(data, "Hello"),
        other => panic!("unexpected {:?}", other),
    }
    assert!(matches!(cmds[3], CommandOf::FieldSeparator));
    assert!(matches!(cmds[4], CommandOf::EndFormat));
}

#[test]
fn parse_error_reports_line_and_kind() {
    match parse_zpl("^XA\n^FOabc^FS^XZ") {
        Err(ZplError::ParseError { line, message }) => {
            assert_eq!(line, 2);
            assert_eq!(message, "Invalid or malformed ZPL command (Error code: Digit)");
        }
        other => panic!("unexpected {:?}", other),
    }
    match parse_zpl("^XA junk") {
        Err(ZplError::ParseError { line, message }) => {
            assert_eq!(line, 1);
            assert_eq!(message, "Invalid or malformed ZPL command (Error code: Eof)");
        }
        other => panic!("unexpected {:?}", other),
    }
    match parse_zpl("^XA^GB10;20^XZ") {
        Err(ZplError::ParseError { message, .. }) => {
            assert_eq!(message, "Invalid or malformed ZPL command (Error code: Tag)");
        }
        other => panic!("unexpected {:?}", other),
    }
}

#[test]
fn unknown_commands_are_kept() {
    let cmds = parse_zpl("^XA^ZZ foo ^XZ").unwrap();
    match &cmds[1] {
        CommandOf::UnsupportedCommand { command, args } => {
            assert_eq!(command, "^ZZ");
            assert_eq!(args, "foo");
        }
        other => panic!("unexpected {:?}", other),
    }
}

#[test]
fn parses_parameters_of_barcodes_and_fonts() {
    let cmds = parse_zpl("^XA^A0N,30,40^BY3,2.5,80^BCN,100,Y,N,N^B0R,7,N,0,Y,1,ID^XZ").unwrap();
    assert!(matches!(
        cmds[1],
        CommandOf::FontSpecFull { font_name: '0', orientation: Some('N'), height: Some(30), width: Some(40) }
    ));
    match &cmds[2] {
        CommandOf::BarcodeDefault { module_width, ratio, height } => {
            assert_eq!(*module_width, Some(3));
            assert_eq!(ratio.as_deref(), Some("2.5"));
            assert_eq!(*height, Some(80));
        }
        other => panic!("unexpected {:?}", other),
    }
    assert!(matches!(
        cmds[3],
        CommandOf::Code128 {
            orientation: Some('N'),
            height: Some(100),
            interpretation_line: Some('Y'),
            interpretation_line_above: Some('N'),
            check_digit: Some('N'),
            mode: None
        }
    ));
    match &cmds[4] {
        CommandOf::AztecCode { orientation, magnification, extended_channel, menu_symbol, symbols_count, id_field, .. } => {
            assert_eq!(*orientation, Some('R'));
            assert_eq!(*magnification, Some(7));
            assert_eq!(*extended_channel, Some(false));
            assert_eq!(*menu_symbol, Some(true));
            assert_eq!(*symbols_count, Some(1));
            assert_eq!(id_field.as_deref(), Some("ID"));
        }
        other => panic!("unexpected {:?}", other),
    }
}

#[test]
fn empty_document_is_refused() {
    assert!(matches!(ZplEngine::new(""), Err(ZplError::EmptyInput)));
    assert!(matches!(ZplEngine::new("   "), Err(ZplError::ParseError { .. })));
}

#[test]
fn builds_text_at_the_field_origin() {
    let engine = ZplEngine::new("^XA^FO10,20^A0N,30,30^FDHello^FS^XZ").unwrap();
    let page = engine.render(&Variables::new());
    assert_eq!(page.len(), 1);
    match &page[0] {
        ZplInstructionOf::Text { x, y, font, height, width, orientation, text, .. } => {
            assert_eq!((*x, *y), (10, 20));
            assert_eq!(*font, '0');
            assert_eq!((*height, *width), (Some(30), Some(30)));
            assert_eq!(*orientation, 'N');
            assert_eq!(text, "Hello");
        }
        other => panic!("unexpected {:?}", other),
    }
}

#[test]
fn typeset_origin_is_the_baseline() {
    let engine = ZplEngine::new("^XA^FT10,100^A0N,30^FDHi^FS^FT5,10^FDLow^FS^XZ").unwrap();
    let page = engine.render(&Variables::new());
    match (&page[0], &page[1]) {
        (ZplInstructionOf::Text { x, y, .. }, ZplInstructionOf::Text { x: x2, y: y2, .. }) => {
            assert_eq!((*x, *y), (10, 70));
            assert_eq!((*x2, *y2), (5, 0));
        }
        other => panic!("unexpected {:?}", other),
    }
}

#[test]
fn consecutive_formats_are_separated_by_page_breaks() {
    let engine = ZplEngine::new("^XA^FDa^FS^XZ^XA^FDb^FS^XZ").unwrap();
    let page = engine.render(&Variables::new());
    assert_eq!(page.len(), 3);
    assert!(matches!(page[1], ZplInstructionOf::PageBreak));
}

#[test]
fn variables_fill_placeholders_and_conditions() {
    let engine = ZplEngine::new(
        "^XA^FO0,0^FDHello {{name}}^FS^FO0,50^IFCuser,admin^FDSecret^FS^XZ",
    )
    .unwrap();
    let page = engine.render(&vars(&[("name", "World"), ("user", "admin")]));
    assert_eq!(page.len(), 2);
    match &page[0] {
        ZplInstructionOf::Text { text, .. } => assert_eq!(text, "Hello World"),
        other => panic!("unexpected {:?}", other),
    }
    let page = engine.render(&vars(&[("user", "guest")]));
    assert_eq!(page.len(), 1);
    match &page[0] {
        ZplInstructionOf::Text { text, .. } => assert_eq!(text, "Hello {{name}}"),
        other => panic!("unexpected {:?}", other),
    }
    let pages = engine.render_pages(&[vars(&[("name", "A")]), vars(&[("name", "B")])]);
    assert_eq!(pages.len(), 2);
    assert!(engine.render_pages(&[]).is_empty());
}

#[test]
fn placeholders_without_variables_stay() {
    let v = vars(&[("a", "1")]);
    assert_eq!(replace_vars("{{a}}{{b}}{{a", &v), "1{{b}}{{a");
    assert_eq!(replace_vars("x{{a}}y{{a}}z", &v), "x1y1z");
    assert_eq!(replace_vars("no braces", &Variables::new()), "no braces");
}

#[test]
fn hex_escapes_are_decoded() {
    assert_eq!(unescape_hex("_41_42", '_'), "AB");
    assert_eq!(unescape_hex("_4", '_'), "_4");
    assert_eq!(unescape_hex("a_zb", '_'), "a_zb");
    let engine = ZplEngine::new("^XA^FH^FD_48_49^FS^XZ").unwrap();
    match &engine.render(&Variables::new())[0] {
        ZplInstructionOf::Text { text, .. } => assert_eq!(text, "HI"),
        other => panic!("unexpected {:?}", other),
    }
}

#[test]
fn graphic_fields_decode_ascii_hex() {
    assert_eq!(zpl_decode("FF00FF00", 2).unwrap(), vec![0xFF, 0x00, 0xFF, 0x00]);
    assert_eq!(zpl_decode("F,:", 2).unwrap(), vec![0xF0, 0x00, 0xF0, 0x00]);
    assert_eq!(zpl_decode("IF", 0).unwrap(), vec![0xFF, 0xF0]);
    let engine = ZplEngine::new("^XA^FO1,2^GFA,4,4,2,FF00FF00^FS^XZ").unwrap();
    match &engine.render(&Variables::new())[0] {
        ZplInstructionOf::GraphicField { x, y, width, height, data, .. } => {
            assert_eq!((*x, *y, *width, *height), (1, 2, 16, 2));
            assert_eq!(data, &vec![0xFF, 0x00, 0xFF, 0x00]);
        }
        other => panic!("unexpected {:?}", other),
    }
    let stopped = ZplEngine::new("^XA^FDa^FS^GFB,1,1,1,X^FDb^FS^XZ").unwrap();
    assert_eq!(stopped.render(&Variables::new()).len(), 1);
}

#[test]
fn maxicode_rejects_unsupported_modes_and_sequences() {
    for command in [
        "^BD5",
        "^BD6",
        "^BD4,2,2",
        "^BD4,0,1",
        "^BDoops",
        "^BD4,1,1,2",
    ] {
        assert!(ZplEngine::new(&format!("^XA^FO20,20{command}^FDHELLO^FS^XZ")).is_err());
    }
}

#[test]
fn maxicode_default_and_by_invariance() {
    let render = |command: &str| {
        let e = ZplEngine::new(&format!(
            "^XA^FO30,90{command}^FH^FD002840336091062[)>_1E01_1D96TRACK_1E_04^FS^XZ"
        ))
        .unwrap();
        format!("{:?}", e.render(&Variables::new()))
    };
    assert_eq!(render("^BD"), render("^BY6^BD2,1,1"));
    assert_eq!(render("^BD\n"), render("^BD2\n"));
}
