use zpl_forge::forge::fields::{
    code128_code_set, interpretation_metrics, pdf417_descale, pdf417_dimensions, qr_field_data,
};
use zpl_forge::forge::symbology::{
    matrix_elements, msi_check_digits, msi_elements, msi_text, postnet_bars, postnet_pitch,
    BarHeight, Element, MsiCheck,
};
use zpl_forge::standalone_barcode::{
    checked_dimension, module_type, render_png, render_svg, validate_layout, BarcodeKind,
};
use zpl_forge::ZplError;

#[test]
fn postnet_matches_labelary_geometry() {
    let bars = postnet_bars("12345");
    assert_eq!(bars.len(), 32);
    assert_eq!(bars[0], BarHeight::Full);
    assert_eq!(bars[31], BarHeight::Full);
    assert_eq!(
        &bars[1..6],
        &[
            BarHeight::Half,
            BarHeight::Half,
            BarHeight::Half,
            BarHeight::Full,
            BarHeight::Full
        ]
    );
    let (bar_w, gap) = postnet_pitch(2);
    let total = bars.len() as u32 * bar_w + (bars.len() as u32 - 1) * gap;
    assert_eq!(total, 157);
}

#[test]
fn msi_check_digit_and_width() {
    assert_eq!(msi_text("123456", MsiCheck::Mod10), "1234566");
    // A 2.0 ratio at module width 2 gives wide elements of 4 dots.
    let els = msi_elements("123456", MsiCheck::Mod10, 2, 4);
    assert_eq!(els.len(), 61);
    let total: u32 = els.iter().map(|e| e.width).sum();
    assert_eq!(total, 182);
}

#[test]
fn msi_no_check_digit_leaves_data_alone() {
    assert_eq!(msi_text("123456", MsiCheck::NoCheck), "123456");
}

#[test]
fn msi_check_modes_from_letters() {
    assert_eq!(MsiCheck::from_zpl('A'), MsiCheck::NoCheck);
    assert_eq!(MsiCheck::from_zpl('b'), MsiCheck::Mod10);
    assert_eq!(MsiCheck::from_zpl('C'), MsiCheck::Mod10Twice);
    assert_eq!(MsiCheck::from_zpl('d'), MsiCheck::Mod11Mod10);
    assert_eq!(MsiCheck::from_zpl('Z'), MsiCheck::Mod10);
}

#[test]
fn msi_two_check_digit_modes() {
    // Mod 10 of 123456 is 6, and mod 10 of 1234566 is 6 again.
    assert_eq!(msi_text("123456", MsiCheck::Mod10Twice), "12345666");
    assert_eq!(msi_check_digits("123456", MsiCheck::Mod10Twice), vec![1, 2, 3, 4, 5, 6, 6, 6]);
    // Weights 2..7 from the right: 6*2+5*3+4*4+3*5+2*6+1*7 = 77, 77 mod 11 = 0.
    // Then mod 10 of 1234560 is 9.
    let d = msi_check_digits("123456", MsiCheck::Mod11Mod10);
    assert_eq!(d, vec![1, 2, 3, 4, 5, 6, 0, 9]);
}

#[test]
fn msi_digit_pattern_uses_wide_bars_for_ones() {
    // "1" is 0001: three narrow/wide pairs, then a wide/narrow pair.
    let els = msi_elements("1", MsiCheck::NoCheck, 1, 3);
    assert_eq!(els.len(), 2 + 8 + 3);
    assert_eq!(els[0], Element { bar: true, width: 3 });
    assert_eq!(els[1], Element { bar: false, width: 1 });
    assert_eq!(els[2], Element { bar: true, width: 1 });
    assert_eq!(els[3], Element { bar: false, width: 3 });
    assert_eq!(els[8], Element { bar: true, width: 3 });
    assert_eq!(els[9], Element { bar: false, width: 1 });
    assert_eq!(els[12], Element { bar: true, width: 1 });
}

#[test]
fn postnet_pitch_of_small_modules() {
    assert_eq!(postnet_pitch(0), (1, 1));
    assert_eq!(postnet_pitch(1), (1, 1));
    assert_eq!(postnet_pitch(3), (3, 4));
    assert_eq!(postnet_pitch(10), (10, 14));
}

#[test]
fn postnet_ignores_non_digits_and_adds_check_digit() {
    // "1-2" carries the digits 1 and 2; check digit 7 makes the sum 10.
    let bars = postnet_bars("1-2");
    assert_eq!(bars.len(), 2 + 3 * 5);
    assert_eq!(
        &bars[11..16],
        &[BarHeight::Full, BarHeight::Half, BarHeight::Half, BarHeight::Half, BarHeight::Full]
    );
}

#[test]
fn matrix_runs_become_elements() {
    let row = [true, true, false, true, false, false, false];
    let plain = matrix_elements(&row, 2, None);
    assert_eq!(
        plain,
        vec![
            Element { bar: true, width: 4 },
            Element { bar: false, width: 2 },
            Element { bar: true, width: 2 },
            Element { bar: false, width: 6 },
        ]
    );
    let two_width = matrix_elements(&row, 2, Some(5));
    assert_eq!(
        two_width,
        vec![
            Element { bar: true, width: 5 },
            Element { bar: false, width: 2 },
            Element { bar: true, width: 2 },
            Element { bar: false, width: 5 },
        ]
    );
    assert!(matrix_elements(&[], 3, None).is_empty());
}

#[test]
fn code128_invocations_select_the_subset() {
    assert_eq!(code128_code_set(">9ABC"), ("ABC".to_string(), "A".to_string()));
    assert_eq!(code128_code_set(">:abc"), ("abc".to_string(), "B".to_string()));
    assert_eq!(code128_code_set(">;1234"), ("1234".to_string(), "C".to_string()));
    assert_eq!(code128_code_set(">5X"), (">5X".to_string(), "B".to_string()));
    assert_eq!(code128_code_set("PLAIN"), ("PLAIN".to_string(), "B".to_string()));
}

#[test]
fn qr_prefix_selects_error_correction() {
    assert_eq!(qr_field_data("HA,DATA", 'Q'), ('H', "DATA".to_string()));
    assert_eq!(qr_field_data("LM,123", 'Q'), ('L', "123".to_string()));
    assert_eq!(qr_field_data("M,XYZ", 'Q'), ('M', "XYZ".to_string()));
    assert_eq!(qr_field_data("DATA", 'Q'), ('Q', "DATA".to_string()));
    assert_eq!(qr_field_data("ZA,DATA", 'M'), ('M', "ZA,DATA".to_string()));
}

#[test]
fn pdf417_dimensions_clamp() {
    assert_eq!(pdf417_dimensions(Some(5), Some(10)), (5, 5, 10, 10));
    assert_eq!(pdf417_dimensions(Some(0), Some(2)), (1, 1, 3, 90));
    assert_eq!(pdf417_dimensions(None, None), (1, 1, 3, 90));
    assert_eq!(pdf417_dimensions(Some(31), Some(91)), (1, 1, 3, 90));
}

#[test]
fn pdf417_descale_keeps_every_fourth_row() {
    let m: Vec<Vec<bool>> = (0..8).map(|i| vec![i % 2 == 0, i == 4]).collect();
    let d = pdf417_descale(&m);
    assert_eq!(d, vec![vec![true, false], vec![true, true]]);
    let small = vec![vec![true], vec![false]];
    assert_eq!(pdf417_descale(&small), small);
}

#[test]
fn interpretation_font_scales_with_module() {
    assert_eq!(interpretation_metrics(0), ('A', 9, 5, 6));
    assert_eq!(interpretation_metrics(3), ('A', 27, 15, 6));
}

#[test]
fn renders_qr_svg_and_code128_png() {
    let svg = render_svg("QR", "https://yqn.com", 4, 4).unwrap();
    assert!(svg.starts_with("<svg "));
    assert!(svg.contains("<path d=\"M"));
    let png = render_png("CODE_128", "ABC-123", 2, 10).unwrap();
    assert_eq!(&png[..8], b"\x89PNG\r\n\x1a\n");
}

#[test]
fn rejects_unknown_or_unbounded_input() {
    assert!(render_svg("UNKNOWN", "x", 1, 0).is_err());
    assert!(render_svg("QR", "", 1, 0).is_err());
    assert!(render_svg("QR", "x", 0, 0).is_err());
}

#[test]
fn barcode_errors_name_the_limit() {
    let invalid = ZplError::BackendError("BARCODE_INPUT_INVALID".to_string());
    assert_eq!(render_svg("QR", "x", 33, 0), Err(invalid.clone()));
    assert_eq!(render_png("QR", "x", 1, 65), Err(invalid.clone()));
    assert_eq!(render_png("NOPE", "x", 1, 0), Err(invalid.clone()));
    let big = "x".repeat(4097);
    assert_eq!(render_svg("QR", &big, 1, 0), Err(invalid.clone()));
    assert_eq!(validate_layout(1, 64), Ok(()));
    assert_eq!(validate_layout(0, 0), Err(invalid));
    assert_eq!(checked_dimension(10, 3), Ok(30));
    assert_eq!(
        checked_dimension(u32::MAX, 2),
        Err(ZplError::BackendError("BARCODE_OUTPUT_LIMIT".to_string()))
    );
}

#[test]
fn svg_size_follows_module_size() {
    let a = render_svg("QR", "A", 1, 0).unwrap();
    let b = render_svg("QR", "A", 2, 0).unwrap();
    // A version-1 QR code is 21 modules wide.
    assert!(a.contains("width=\"21\" height=\"21\""));
    assert!(b.contains("width=\"42\" height=\"42\""));
    assert!(a.ends_with("\" fill=\"black\"/></svg>"));
}

#[test]
fn png_differs_from_its_pixels() {
    let png = render_png("QR", "A", 1, 0).unwrap();
    // A PNG of 441 grey pixels starts with its signature and header, not
    // with the raw pixels.
    assert_eq!(&png[12..16], b"IHDR");
    assert_eq!(&png[16..24], &[0, 0, 0, 21, 0, 0, 0, 21]);
}

#[test]
fn module_type_names() {
    assert_eq!(module_type("QR"), Some(BarcodeKind::Qr));
    assert_eq!(module_type("INTERLEAVED_2_OF_5"), Some(BarcodeKind::Interleaved2of5));
    assert_eq!(module_type("qr"), None);
}
