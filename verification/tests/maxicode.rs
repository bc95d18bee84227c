use zpl_forge::forge::maxicode::{encode_codewords, encode_message};

const LIBZINT_SET_C: [u8; 144] = [
    4, 60, 60, 0, 0, 0, 28, 29, 30, 59, 60, 5, 57, 7, 24, 21, 37, 54, 40, 17, 58, 33, 33, 33,
    33, 33, 33, 33, 33, 33, 33, 33, 33, 33, 33, 33, 33, 33, 33, 33, 33, 33, 33, 33, 33, 33, 33,
    33, 33, 33, 33, 33, 33, 33, 33, 33, 33, 33, 33, 33, 33, 33, 33, 33, 33, 33, 33, 33, 33, 33,
    33, 33, 33, 33, 33, 33, 33, 33, 33, 33, 33, 33, 33, 33, 33, 33, 33, 33, 33, 33, 33, 33, 33,
    33, 33, 33, 33, 33, 33, 33, 33, 33, 33, 33, 8, 60, 19, 40, 20, 9, 9, 43, 1, 14, 3, 50, 8,
    12, 32, 53, 28, 57, 16, 58, 11, 36, 23, 28, 56, 10, 18, 53, 44, 37, 19, 30, 48, 14, 33, 5,
    39, 31, 39, 40,
];
const LIBZINT_SET_D: [u8; 144] = [
    4, 61, 61, 0, 0, 0, 28, 29, 30, 59, 6, 38, 35, 25, 50, 30, 12, 26, 5, 17, 58, 33, 33, 33,
    33, 33, 33, 33, 33, 33, 33, 33, 33, 33, 33, 33, 33, 33, 33, 33, 33, 33, 33, 33, 33, 33, 33,
    33, 33, 33, 33, 33, 33, 33, 33, 33, 33, 33, 33, 33, 33, 33, 33, 33, 33, 33, 33, 33, 33, 33,
    33, 33, 33, 33, 33, 33, 33, 33, 33, 33, 33, 33, 33, 33, 33, 33, 33, 33, 33, 33, 33, 33, 33,
    33, 33, 33, 33, 33, 33, 33, 33, 33, 33, 33, 8, 60, 19, 40, 20, 9, 9, 43, 1, 14, 3, 50, 8,
    12, 32, 53, 28, 57, 16, 58, 11, 36, 23, 28, 56, 10, 18, 53, 44, 37, 19, 30, 48, 14, 33, 5,
    39, 31, 39, 40,
];
const LIBZINT_SET_E: [u8; 144] = [
    4, 62, 62, 1, 2, 3, 13, 32, 33, 34, 61, 15, 49, 58, 12, 12, 52, 38, 39, 49, 59, 28, 28, 28,
    28, 28, 28, 28, 28, 28, 28, 28, 28, 28, 28, 28, 28, 28, 28, 28, 28, 28, 28, 28, 28, 28, 28,
    28, 28, 28, 28, 28, 28, 28, 28, 28, 28, 28, 28, 28, 28, 28, 28, 28, 28, 28, 28, 28, 28, 28,
    28, 28, 28, 28, 28, 28, 28, 28, 28, 28, 28, 28, 28, 28, 28, 28, 28, 28, 28, 28, 28, 28, 28,
    28, 28, 28, 28, 28, 28, 28, 28, 28, 28, 28, 39, 26, 30, 45, 5, 49, 2, 38, 17, 31, 3, 5, 15,
    44, 26, 43, 40, 7, 45, 12, 27, 1, 19, 62, 20, 58, 52, 43, 36, 57, 51, 13, 23, 31, 42, 29,
    46, 53, 35, 45,
];
const LIBZINT_MIXED: [u8; 144] = [
    4, 1, 31, 7, 22, 60, 52, 21, 63, 2, 16, 27, 40, 34, 32, 50, 55, 12, 11, 42, 31, 7, 22, 60,
    52, 21, 2, 2, 2, 63, 1, 33, 33, 33, 33, 33, 33, 33, 33, 33, 33, 33, 33, 33, 33, 33, 33, 33,
    33, 33, 33, 33, 33, 33, 33, 33, 33, 33, 33, 33, 33, 33, 33, 33, 33, 33, 33, 33, 33, 33, 33,
    33, 33, 33, 33, 33, 33, 33, 33, 33, 33, 33, 33, 33, 33, 33, 33, 33, 33, 33, 33, 33, 33, 33,
    33, 33, 33, 33, 33, 33, 33, 33, 33, 33, 55, 56, 56, 45, 53, 41, 57, 9, 17, 61, 9, 41, 13,
    12, 3, 23, 10, 25, 23, 42, 54, 28, 13, 1, 20, 36, 43, 17, 24, 60, 6, 50, 50, 29, 36, 49,
    11, 43, 19, 33,
];


#[test]
fn public_encoder_matches_libzint_sets_c_d_e_and_mixed_vectors() {
    let cases: [(&str, &[u8; 144]); 4] = [
        ("ÀÀÀ\u{1C}\u{1D}\u{1E} ", &LIBZINT_SET_C),
        ("ààà\u{1C}\u{1D}\u{1E} ", &LIBZINT_SET_D),
        ("\u{01}\u{02}\u{03}\r\u{1C}\u{1D}\u{1E} ", &LIBZINT_SET_E),
        ("A123456789b123456789bbbA", &LIBZINT_MIXED),
    ];
    for (input, expected) in cases {
        assert_eq!(&encode_codewords(input, 4).unwrap(), expected);
    }
}

#[test]
fn public_encoder_rejects_characters_outside_latin1() {
    assert!(encode_codewords("€", 4).is_err());
}

#[test]
fn text_encoder_reaches_all_five_code_sets() {
    assert_eq!(&encode_message(b"A", 4).unwrap()[..1], &[1]);
    assert_eq!(&encode_message(b"a", 4).unwrap()[..2], &[59, 1]);
    assert_eq!(&encode_message(&[0x00], 4).unwrap()[..2], &[62, 0]);
    assert_eq!(&encode_message(&[0xC0], 4).unwrap()[..2], &[60, 0]);
    assert_eq!(&encode_message(&[0xE0], 4).unwrap()[..2], &[61, 0]);
}

#[test]
fn text_encoder_chooses_latch_for_lowercase_run() {
    assert_eq!(&encode_message(b"abcd", 8).unwrap()[..5], &[63, 1, 2, 3, 4]);
}

#[test]
fn text_encoder_compacts_nine_digits_into_six_codewords() {
    assert_eq!(
        &encode_message(b"123456789", 10).unwrap()[..6],
        &[31, 7, 22, 60, 52, 21]
    );
}

#[test]
fn maxicode_mode_4_matches_qr_atelier_reference_codewords() {
    let codewords = encode_codewords("HELLO WORLD", 4).unwrap();
    assert_eq!(
        &codewords[..20],
        &[
            4, 8, 5, 12, 12, 15, 32, 23, 15, 18, 52, 3, 23, 18, 30, 12, 21, 9, 11, 39
        ]
    );
    assert_eq!(&codewords[20..22], &[12, 4]);
    assert!(codewords[22..104].iter().all(|&value| value == 33));
    assert_eq!(
        &codewords[104..],
        &[
            35, 11, 38, 60, 46, 45, 14, 36, 31, 45, 34, 37, 0, 51, 10, 44, 21, 40, 7, 8, 22,
            54, 1, 0, 31, 60, 31, 26, 62, 7, 9, 3, 15, 58, 42, 11, 20, 42, 57, 11
        ]
    );
}

#[test]
fn maxicode_mode_2_primary_matches_qr_atelier_reference() {
    let codewords = encode_codewords("002840336091062[)>ABC", 2).unwrap();
    assert_eq!(
        &codewords[..20],
        &[
            34, 45, 23, 33, 0, 21, 2, 18, 11, 0, 18, 59, 54, 25, 36, 30, 59, 12, 34, 61
        ]
    );
}

#[test]
fn maxicode_mode_3_primary_matches_qr_atelier_reference() {
    let codewords = encode_codewords("001124K1A0B1[)>ABC", 3).unwrap();
    assert_eq!(
        &codewords[..20],
        &[
            19, 44, 0, 28, 16, 60, 2, 31, 4, 0, 5, 55, 36, 44, 7, 9, 48, 63, 50, 17
        ]
    );
}

#[test]
fn maxicode_numeric_compaction_matches_libzint_reference() {
    let codewords = encode_codewords("123456789", 4).unwrap();
    assert_eq!(&codewords[1..7], &[31, 7, 22, 60, 52, 21]);
}

#[test]
fn maxicode_numeric_compaction_avoids_false_capacity_error() {
    assert!(encode_codewords(&"1".repeat(138), 4).is_ok());
    assert!(encode_codewords(&"1".repeat(139), 4).is_err());
}

#[test]
fn maxicode_rejects_unsupported_modes_and_excess_data() {
    assert!(encode_codewords("HELLO", 5).is_err());
    assert!(encode_codewords(&"A".repeat(94), 4).is_err());
    assert!(encode_codewords("002840NOT-A-POSTAL-CODE", 2).is_err());
    assert!(encode_codewords("ü02840336091062", 2).is_err());
}

#[test]
fn maxicode_error_messages_name_the_cause() {
    assert_eq!(encode_codewords("", 4).unwrap_err(), "MaxiCode: empty content");
    assert_eq!(
        encode_codewords("HELLO", 5).unwrap_err(),
        "MaxiCode mode 5 is not supported; expected 2, 3, or 4"
    );
    assert_eq!(
        encode_codewords("HELLO", -7).unwrap_err(),
        "MaxiCode mode -7 is not supported; expected 2, 3, or 4"
    );
    assert_eq!(
        encode_codewords("12345[)>A", 2).unwrap_err(),
        "MaxiCode mode 2: primary too short (5 chars, need >=7)"
    );
    assert_eq!(
        encode_codewords("123ü56", 3).unwrap_err(),
        "MaxiCode country code must contain 3 digits"
    );
    assert_eq!(
        encode_codewords("A2345678", 2).unwrap_err(),
        "MaxiCode service class must contain 3 digits"
    );
    assert_eq!(
        encode_codewords("0028401234567890", 2).unwrap_err(),
        "MaxiCode mode 2 postal code must contain 1 to 9 digits"
    );
    assert_eq!(
        encode_codewords("001124K1A0B", 3).unwrap_err(),
        "MaxiCode mode 3 postal code must contain exactly 6 alphanumeric characters"
    );
    assert_eq!(
        encode_codewords("€", 4).unwrap_err(),
        "MaxiCode cannot encode character U+20AC"
    );
    assert_eq!(
        encode_codewords(&"A".repeat(94), 4).unwrap_err(),
        "MaxiCode message exceeds the 93-codeword capacity"
    );
}

#[test]
fn message_padding_follows_the_final_code_set() {
    // Set E pads with 28, Sets C and D return to A (58) before padding with 33.
    assert_eq!(encode_message(&[0x00, 0x01, 0x02], 6).unwrap(), vec![62, 62, 0, 1, 2, 28]);
    assert_eq!(encode_message(&[0xC0, 0xC0, 0xC0], 6).unwrap(), vec![60, 60, 0, 0, 0, 58]);
    assert_eq!(encode_message(b"", 3).unwrap(), vec![33, 33, 33]);
    assert!(encode_message(b"ABCDE", 4).is_err());
}
