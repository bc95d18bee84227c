use zpl_forge::engine::font_map::font_range;
use zpl_forge::forge::geometry::{bars_fit_check, cells_fit_check};
use zpl_forge::forge::symbology::{msi_fits_check, MsiCheck};
use zpl_forge::forge::maxicode::{dark_modules, encode_codewords};
use zpl_forge::forge::barcode::{barcode_1d_format, encode_barcode, is_two_width, EncodeOptions, SymbolFormat};
use zpl_forge::forge::color::parse_hex_color;
use zpl_forge::forge::geometry::{cell_rects, element_rects, rotate_rect};
use zpl_forge::forge::symbology::Element;
use zpl_forge::forge::winansi::{build_tounicode_cmap, char_to_winansi, winansi_to_char};
use zpl_forge::ast::commons::Barcode1DKind;
use zpl_forge::ZplError;

#[test]
fn winansi_maps_latin1_and_cp1252() {
    assert_eq!(char_to_winansi('A'), Some(0x41));
    assert_eq!(char_to_winansi('ñ'), Some(0xF1));
    assert_eq!(char_to_winansi('€'), Some(0x80));
    assert_eq!(char_to_winansi('\u{0178}'), Some(0x9F));
    assert_eq!(char_to_winansi('\u{7F}'), None);
    assert_eq!(char_to_winansi('中'), None);
    assert_eq!(winansi_to_char(0x80), Some('€'));
    assert_eq!(winansi_to_char(0x81), None);
    assert_eq!(winansi_to_char(0x1F), None);
    assert_eq!(winansi_to_char(0xE9), Some('é'));
}

#[test]
fn winansi_round_trips() {
    for b in 0u8..=255 {
        if let Some(c) = winansi_to_char(b) {
            assert_eq!(char_to_winansi(c), Some(b));
        }
    }
}

#[test]
fn tounicode_cmap_lists_every_code() {
    let cmap = build_tounicode_cmap();
    assert!(cmap.starts_with("/CIDInit /ProcSet findresource begin\n12 dict begin\nbegincmap\n"));
    assert!(cmap.contains("1 begincodespacerange\n<20> <FF>\nendcodespacerange\n"));
    // 95 printable ASCII codes, 27 defined CP1252 codes and 96 Latin-1 codes.
    assert!(cmap.contains("100 beginbfchar\n<20> <0020>\n"));
    assert!(cmap.contains("18 beginbfchar\n"));
    assert!(cmap.contains("<80> <20AC>\n"));
    assert!(!cmap.contains("<81>"));
    assert!(cmap.ends_with("endcmap\nCMapName currentdict /CMap defineresource pop\nend\nend\n"));
    assert_eq!(cmap.matches("endbfchar").count(), 3);
}

#[test]
fn hex_colors_parse() {
    assert_eq!(parse_hex_color(&Some("#FF8000".to_string())), (255, 128, 0));
    assert_eq!(parse_hex_color(&Some("##0a0B0c".to_string())), (10, 11, 12));
    assert_eq!(parse_hex_color(&Some("#F80".to_string())), (255, 136, 0));
    assert_eq!(parse_hex_color(&Some("+f+f+f".to_string())), (15, 15, 15));
    assert_eq!(parse_hex_color(&Some("#GG0000".to_string())), (0, 0, 0));
    assert_eq!(parse_hex_color(&Some("#12345".to_string())), (0, 0, 0));
    assert_eq!(parse_hex_color(&None), (0, 0, 0));
}

#[test]
fn rectangles_turn_with_the_field() {
    // A 2x3 rectangle at (1, 0) in a 10x3 symbol drawn at (100, 50).
    assert_eq!(rotate_rect('N', 100, 50, 1, 0, 2, 3, 10, 3), (101, 50, 2, 3));
    assert_eq!(rotate_rect('R', 100, 50, 1, 0, 2, 3, 10, 3), (100, 51, 3, 2));
    assert_eq!(rotate_rect('I', 100, 50, 1, 0, 2, 3, 10, 3), (107, 50, 2, 3));
    assert_eq!(rotate_rect('B', 100, 50, 1, 0, 2, 3, 10, 3), (100, 57, 3, 2));
}

#[test]
fn bars_are_laid_side_by_side() {
    let els = [
        Element { bar: true, width: 2 },
        Element { bar: false, width: 3 },
        Element { bar: true, width: 1 },
    ];
    assert_eq!(element_rects(10, 20, 'N', 30, &els), vec![(10, 20, 2, 30), (15, 20, 1, 30)]);
    assert_eq!(element_rects(10, 20, 'I', 30, &els), vec![(14, 20, 2, 30), (10, 20, 1, 30)]);
}

#[test]
fn matrix_cells_are_scaled() {
    let rows = vec![vec![true, false], vec![false, true]];
    assert_eq!(cell_rects(0, 0, 'N', 3, 2, &rows, 2), vec![(0, 0, 3, 2), (3, 2, 3, 2)]);
    assert_eq!(cell_rects(0, 0, 'R', 3, 2, &rows, 2), vec![(2, 0, 2, 3), (0, 3, 2, 3)]);
}

fn no_options() -> EncodeOptions {
    EncodeOptions {
        margin: None,
        force_code_set: None,
        error_correction: None,
        force_square: false,
        pdf417_compaction: None,
        pdf417_dimensions: None,
    }
}

#[test]
fn encoding_has_no_quiet_zone_by_default() {
    let (w, h, rows) = encode_barcode(SymbolFormat::Qr, "A", &no_options()).unwrap();
    assert_eq!((w, h), (21, 21));
    assert_eq!(rows.len(), 21);
    // The finder pattern starts at the very first module.
    assert!(rows[0][0]);
}

#[test]
fn forced_code_set_is_dropped_when_it_cannot_encode() {
    let mut o = no_options();
    o.force_code_set = Some("C".to_string());
    let forced = encode_barcode(SymbolFormat::Code128, "ABC", &o).unwrap();
    let free = encode_barcode(SymbolFormat::Code128, "ABC", &no_options()).unwrap();
    assert_eq!(forced, free);
}

#[test]
fn refused_data_is_a_generation_error() {
    match encode_barcode(SymbolFormat::Ean13, "ABC", &no_options()) {
        Err(ZplError::BackendError(m)) => assert!(m.starts_with("Barcode Generation Error: ")),
        other => panic!("unexpected {:?}", other.map(|m| (m.0, m.1))),
    }
}

#[test]
fn generic_1d_kinds_map_to_writers() {
    assert_eq!(barcode_1d_format(Barcode1DKind::Interleaved2of5), SymbolFormat::Itf);
    assert_eq!(barcode_1d_format(Barcode1DKind::Codabar), SymbolFormat::Codabar);
    assert_eq!(barcode_1d_format(Barcode1DKind::Msi), SymbolFormat::Code128);
}

#[test]
fn font_ranges_follow_identifier_order() {
    assert_eq!(font_range('X', '2'), vec!['X', 'Y', 'Z', '0', '1', '2']);
    assert_eq!(font_range('H', 'H'), vec!['H']);
    assert!(font_range('9', '0').is_empty());
    assert!(font_range('a', 'Z').is_empty());
}

#[test]
fn layout_checks_agree_with_bounds() {
    let els = [Element { bar: true, width: 2 }];
    assert!(bars_fit_check(10, 10, 'N', 30, &els));
    assert!(!bars_fit_check(u32::MAX, 10, 'N', 30, &els));
    let rows = vec![vec![true, false]];
    assert!(cells_fit_check(0, 0, 'N', 3, 3, &rows, 2));
    assert!(!cells_fit_check(0, 0, 'N', 3, 3, &rows, 3));
    assert!(!cells_fit_check(0, 0, 'N', u32::MAX, 3, &rows, 2));
}

#[test]
fn msi_fit_check() {
    assert!(msi_fits_check("123456", MsiCheck::Mod10));
    // The digits at even positions from the right read 3000000000, whose
    // double does not fit in u32.
    assert!(!msi_fits_check("3101010101010101010", MsiCheck::Mod10));
    assert!(msi_fits_check("3101010101010101010", MsiCheck::NoCheck));
}

#[test]
fn maxicode_dark_modules_include_every_set_bit() {
    let cw = encode_codewords("HELLO WORLD", 4).unwrap();
    let dark = dark_modules(&cw);
    assert!(!dark.is_empty());
    assert!(dark.iter().all(|&(r, c)| r < 33 && c < 30));
    let none = dark_modules(&vec![0u8; 144]);
    let all = dark_modules(&vec![63u8; 144]);
    // Orientation marks are dark whatever the codewords; every data module
    // is dark when every bit is set.
    assert!(none.len() < dark.len() && dark.len() < all.len());
}

#[test]
fn two_width_classification() {
    assert!(is_two_width(SymbolFormat::Itf));
    assert!(is_two_width(SymbolFormat::Code39));
    assert!(!is_two_width(SymbolFormat::Code128));
    assert!(!is_two_width(SymbolFormat::Ean13));
}

#[test]
fn short_colors_double_their_digits() {
    for (short, long) in [("#ABC", "#AABBCC"), ("#09f", "#0099ff"), ("#000", "#000000")] {
        assert_eq!(parse_hex_color(&Some(short.to_string())), parse_hex_color(&Some(long.to_string())));
    }
}

#[test]
fn msi_digits_start_with_the_data() {
    for check in [MsiCheck::NoCheck, MsiCheck::Mod10, MsiCheck::Mod10Twice, MsiCheck::Mod11Mod10] {
        let text = zpl_forge::forge::symbology::msi_text("a9-87x6", check);
        assert!(text.starts_with("9876"));
    }
}

#[test]
fn cid_cmap_maps_glyphs_to_utf16() {
    let entries = vec![(1u16, "中".to_string()), (2, String::new()), (3, "😀".to_string())];
    let cmap = zpl_forge::forge::winansi::cid_tounicode_cmap(&entries);
    assert!(cmap.contains("<0000> <FFFF>"));
    assert!(cmap.contains("2 beginbfchar\n<0001> <4E2D>\n<0003> <D83DDE00>\nendbfchar\n"));
    let empty = zpl_forge::forge::winansi::cid_tounicode_cmap(&vec![(1u16, String::new())]);
    assert!(!empty.contains("beginbfchar"));
}

#[test]
fn text_operations_escape_and_encode() {
    let op = zpl_forge::forge::winansi::tj_operation("a(b)\\é中");
    assert_eq!(op, b"(a\\(b\\)\\\\\xE9?) Tj\n".to_vec());
}
