use zpl_forge::engine::intr::unescape_hex;
use zpl_forge::forge::barcode::{encode_barcode, SymbolFormat};
use zpl_forge::engine::common::ZplInstructionOf;
use zpl_forge::engine::engine::ZplEngine;
use zpl_forge::engine::shaping::{break_graphemes, place_glyphs};
use zpl_forge::engine::vars::Variables;
use zpl_forge::forge::maxicode::check_maxicode_reverse;
use zpl_forge::forge::symbology::{msi_text, postnet_bars, BarHeight, MsiCheck};
use zpl_forge::forge::winansi::subset_font_name;
use zpl_forge::renderer::is_truetype;
use zpl_forge::standalone_barcode::{matrix_png, matrix_svg};
use zpl_forge::ZplError;

#[test]
fn field_reverse_reaches_micropdf417_and_aztec() {
    let engine = ZplEngine::new(
        "^XA^FO10,10^FR^BFN,8,3^FDHELLO^FS^FO10,100^FR^B0N,4^FDABC^FS^FO200,10^BFN,8,3^FDX^FS^FO200,100^B0N,4^FDY^FS^XZ",
    )
    .unwrap();
    let page = engine.render(&Variables::new());
    let mut micro = Vec::new();
    let mut aztec = Vec::new();
    for i in &page {
        match i {
            ZplInstructionOf::MicroPdf417 { reverse_print, .. } => micro.push(*reverse_print),
            ZplInstructionOf::AztecCode { reverse_print, .. } => aztec.push(*reverse_print),
            _ => {}
        }
    }
    assert_eq!(micro, vec![true, false]);
    assert_eq!(aztec, vec![true, false]);
}

#[test]
fn graphemes_break_at_opportunities() {
    let seg: Vec<char> = "hello world".chars().collect();
    let gs: Vec<String> = seg.iter().map(|c| c.to_string()).collect();
    let count = |s: &str| s.chars().count() as u32;
    let lines = break_graphemes(&count, &seg, &gs, &vec![6, 11], 7);
    let text: Vec<String> = lines.iter().map(|l| l.iter().collect()).collect();
    assert_eq!(text, ["hello", "world"]);
    // Without an opportunity the line breaks between clusters.
    let lines = break_graphemes(&count, &seg, &gs, &vec![11], 7);
    let text: Vec<String> = lines.iter().map(|l| l.iter().collect()).collect();
    assert_eq!(text, ["hello w", "orld"]);
}

#[test]
fn glyphs_are_placed_by_advance_and_offset() {
    let records = vec![(5, 0, 100, 0, 0), (6, 1, 120, 3, -2), (7, 1, 50, 0, 0)];
    let (glyphs, advance) = place_glyphs("ab", &records).unwrap();
    assert_eq!(advance, 270);
    assert_eq!(glyphs.len(), 3);
    assert_eq!((glyphs[0].id, glyphs[0].source.as_str(), glyphs[0].x, glyphs[0].y), (5, "a", 0, 0));
    assert_eq!((glyphs[1].id, glyphs[1].source.as_str(), glyphs[1].x, glyphs[1].y), (6, "b", 103, -2));
    assert_eq!((glyphs[2].id, glyphs[2].source.as_str(), glyphs[2].x), (7, "", 220));
    assert!(place_glyphs("ab", &vec![(0, 0, 100, 0, 0)]).is_none());
    // A cluster inside a character does not fall on a boundary.
    assert!(place_glyphs("é", &vec![(3, 1, 100, 0, 0)]).is_none());
}

#[test]
fn matrix_svg_and_png() {
    let svg = matrix_svg(2, 1, &vec![vec![true, false]], 2).unwrap();
    assert_eq!(
        svg,
        "<svg xmlns=\"http://www.w3.org/2000/svg\" width=\"4\" height=\"2\" viewBox=\"0 0 4 2\" shape-rendering=\"crispEdges\"><rect width=\"100%\" height=\"100%\" fill=\"white\"/><path d=\"M0 0h2v2H0z\" fill=\"black\"/></svg>"
    );
    match matrix_svg(u32::MAX, 0, &vec![], 2) {
        Err(ZplError::BackendError(m)) => assert_eq!(m, "BARCODE_OUTPUT_LIMIT"),
        other => panic!("unexpected {:?}", other),
    }
    let png = matrix_png(1, 1, &vec![vec![true]], 2).unwrap();
    assert!(png.starts_with(b"\x89PNG\r\n\x1a\n"));
    match matrix_png(4000, 4001, &vec![vec![false; 4000]; 4001], 1) {
        Err(ZplError::BackendError(m)) => assert_eq!(m, "BARCODE_OUTPUT_LIMIT"),
        other => panic!("unexpected {:?}", other.map(|v| v.len())),
    }
}

#[test]
fn subset_names_and_truetype_signatures() {
    assert_eq!(subset_font_name(0), "AAAAAA+ZplSubset");
    assert_eq!(subset_font_name(27), "BBAAAA+ZplSubset");
    assert_eq!(subset_font_name(25), "ZAAAAA+ZplSubset");
    assert!(is_truetype(&[0, 1, 0, 0, 9]));
    assert!(is_truetype(b"true"));
    assert!(!is_truetype(b"OTTO"));
    assert!(!is_truetype(&[0, 1, 0]));
}

#[test]
fn maxicode_reverse_is_refused() {
    assert!(check_maxicode_reverse(false).is_ok());
    match check_maxicode_reverse(true) {
        Err(ZplError::BackendError(m)) => assert_eq!(m, "MAXICODE_REVERSE_UNSUPPORTED"),
        other => panic!("unexpected {:?}", other),
    }
}

#[test]
fn long_data_without_bounds() {
    let digits = "1234567890".repeat(1000);
    assert_eq!(msi_text(&digits, MsiCheck::NoCheck), digits);
    let bars = postnet_bars(&digits);
    assert_eq!(bars.len(), 5 * 10001 + 2);
    assert_eq!(bars[0], BarHeight::Full);
    assert_eq!(bars[bars.len() - 1], BarHeight::Full);
}

fn gf64() -> ([u8; 126], [u8; 64]) {
    let mut exp = [0u8; 126];
    let mut log = [0u8; 64];
    let mut x: u8 = 1;
    for i in 0..63 {
        exp[i] = x;
        log[x as usize] = i as u8;
        x <<= 1;
        if x & 64 != 0 {
            x ^= 0x43;
        }
    }
    for i in 63..126 {
        exp[i] = exp[i - 63];
    }
    (exp, log)
}

fn evaluate(poly: &[u8], at: u8, exp: &[u8; 126], log: &[u8; 64]) -> u8 {
    let mul = |a: u8, b: u8| {
        if a == 0 || b == 0 {
            0
        } else {
            exp[log[a as usize] as usize + log[b as usize] as usize]
        }
    };
    poly.iter().fold(0u8, |r, c| mul(r, at) ^ c)
}

#[test]
fn reed_solomon_codewords_vanish_at_the_generator_roots() {
    let (exp, log) = gf64();
    for (data, mode) in [
        ("HELLO WORLD", 4),
        ("abcd 123456789 \u{1C}xyz", 4),
        ("002840336091062[)>ABC", 2),
        ("001124K1A0B1[)>ABC", 3),
    ] {
        let cw = zpl_forge::forge::maxicode::encode_codewords(data, mode).unwrap();
        let primary = &cw[0..20];
        for i in 1..=10 {
            assert_eq!(evaluate(primary, exp[i], &exp, &log), 0);
        }
        for half in 0..2 {
            let mut poly: Vec<u8> = (0..42).map(|j| cw[20 + 2 * j + half]).collect();
            poly.extend((0..20).map(|k| cw[104 + 2 * k + half]));
            for i in 1..=20 {
                assert_eq!(evaluate(&poly, exp[i], &exp, &log), 0);
            }
        }
    }
}

fn options(margin: Option<&str>, ecc: Option<&str>) -> zpl_forge::forge::barcode::EncodeOptions {
    zpl_forge::forge::barcode::EncodeOptionsOf {
        margin: margin.map(|m| m.to_string()),
        force_code_set: None,
        error_correction: ecc.map(|e| e.to_string()),
        force_square: false,
        pdf417_compaction: None,
        pdf417_dimensions: None,
    }
}

#[test]
fn writer_input_out_of_range_is_refused() {
    for (format, o) in [
        (SymbolFormat::Aztec, options(None, Some("4000000000"))),
        (SymbolFormat::Aztec, options(None, Some("101"))),
        (SymbolFormat::Code128, options(Some("abc"), None)),
        (SymbolFormat::Qr, options(Some("12345"), None)),
    ] {
        match encode_barcode(format, "HELLO", &o) {
            Err(ZplError::BackendError(m)) => assert!(m.starts_with("Barcode Generation Error: ")),
            other => panic!("unexpected {:?}", other.map(|v| v.0)),
        }
    }
    assert!(encode_barcode(SymbolFormat::Aztec, "HELLO", &options(None, Some("50"))).is_ok());
    assert!(encode_barcode(SymbolFormat::Qr, "HELLO", &options(Some("4"), None)).is_ok());
}

#[test]
fn maxicode_generators_meet_the_divisibility_law() {
    // The law that data and check words form a multiple of the generator
    // asks for a monic generator whose lower coefficients are non-zero.
    for n in [10usize, 20] {
        let g = zpl_forge::forge::maxicode::rs_build_generator(n);
        assert_eq!(g.len(), n + 1);
        assert_eq!(g[n], 1);
        assert!(g[..n].iter().all(|&c| c != 0 && c < 64));
    }
}

#[test]
fn hex_escapes_round_trip() {
    let text = "Aé\u{1}_ÿ";
    let escaped: String = text.chars().map(|c| format!("_{:02X}", c as u32)).collect();
    assert_eq!(unescape_hex(&escaped, '_'), text);
    assert_eq!(unescape_hex("plain text", '_'), "plain text");
}
