use escpos_viewer::barcode::code128::{
    clean_code128_hri, clean_hri_text, encode_code128_runs, encode_code128_text,
};
use escpos_viewer::barcode::code39::encode_code39_runs;
use escpos_viewer::barcode::ean::encode_ean_runs;
use escpos_viewer::barcode::itf::encode_itf_runs;
use escpos_viewer::barcode::render::{
    can_draw_barcode, encode_barcode, render_barcode, render_barcode_text, runs_to_image,
};
use escpos_viewer::barcode::runs::bits01_to_runs;
use escpos_viewer::image::MonoImage;
use escpos_viewer::model::PrinterState;

fn widths(patterns: &[&str]) -> Vec<u8> {
    patterns.concat().bytes().map(|b| b - b'0').collect()
}

fn bits(patterns: &[&str]) -> Vec<bool> {
    patterns.concat().bytes().map(|b| b == b'1').collect()
}

fn modules(runs: &[u8]) -> Vec<bool> {
    let mut out = Vec::new();
    let mut black = true;
    for &run in runs {
        for _ in 0..run {
            out.push(black);
        }
        black = !black;
    }
    out
}

fn black(image: &MonoImage, x: usize, y: usize) -> bool {
    image.pixels[y * image.width + x]
}

#[test]
fn runs_are_the_lengths_of_equal_bits() {
    assert_eq!(
        bits01_to_runs(&vec![1, 1, 0, 1, 0, 0, 0]),
        Some((vec![2, 1, 1, 3], true))
    );
    assert_eq!(bits01_to_runs(&vec![0, 0, 1]), Some((vec![2, 1], false)));
    assert_eq!(bits01_to_runs(&vec![]), None);
    assert_eq!(bits01_to_runs(&vec![1; 300]), Some((vec![255], true)));
}

#[test]
fn code128_draws_a_letter_in_set_b() {
    let (runs, hri) = encode_code128_runs(b"A").unwrap();
    assert_eq!(runs, widths(&["211214", "111323", "131123", "2331112"]));
    assert_eq!(hri, "A");
}

#[test]
fn code128_draws_pairs_of_digits_in_set_c() {
    let (runs, hri) = encode_code128_text("{C1234");
    assert_eq!(
        runs,
        widths(&["211232", "112232", "131123", "121241", "2331112"])
    );
    assert_eq!(hri, "1234");
}

#[test]
fn code128_leaves_set_c_for_an_odd_digit() {
    let (runs, hri) = encode_code128_text("{C123");
    // 105, 12, change to B (100), '3' = 19, check (105 + 12 + 200 + 57) % 103 = 65
    assert_eq!(
        runs,
        widths(&["211232", "112232", "114131", "221132", "121124", "2331112"])
    );
    assert_eq!(hri, "123");
}

#[test]
fn code128_draws_control_characters_in_set_a() {
    let (runs, _) = encode_code128_text("{A\u{1}a");
    // 103, 65, '?' = 31, check (103 + 65 + 62) % 103 = 24
    assert_eq!(
        runs,
        widths(&["211412", "121124", "212321", "311222", "2331112"])
    );
}

#[test]
fn code128_draws_escapes() {
    let (runs, hri) = encode_code128_text("{1{{");
    // 104, FNC1 (102), '{' = 91, check (104 + 102 + 182) % 103 = 79
    assert_eq!(
        runs,
        widths(&["211214", "411131", "412121", "134111", "2331112"])
    );
    assert_eq!(hri, "{");
}

#[test]
fn code128_of_nothing_is_start_check_and_stop() {
    let (runs, hri) = encode_code128_runs(b"").unwrap();
    assert_eq!(runs, widths(&["211214", "222122", "2331112"]));
    assert_eq!(hri, "");
}

#[test]
fn code128_has_eleven_modules_a_symbol() {
    let (runs, _) = encode_code128_text("HELLO-128");
    let total: usize = runs.iter().map(|&r| r as usize).sum();
    assert_eq!(total, 11 * 9 + 35);
}

#[test]
fn code128_reads_bytes_that_are_no_utf8_as_replacement_characters() {
    let (runs, hri) = encode_code128_runs(&[0xFF]).unwrap();
    // U+FFFD takes three bytes, and each is drawn as '?': (104 + 31 * 6) % 103 = 84
    assert_eq!(
        runs,
        widths(&["211214", "212321", "212321", "212321", "124112", "2331112"])
    );
    assert_eq!(hri, "\u{FFFD}");
}

#[test]
fn code128_text_is_shown_without_escapes() {
    assert_eq!(clean_hri_text("{BAB{{C{1D{AE{xF"), "AB{CDE{xF");
    assert_eq!(clean_hri_text("{"), "{");
    assert_eq!(clean_code128_hri(b"{B12{4\xFF"), "12\u{FFFD}");
}

#[test]
fn code128_shows_the_cleaned_text_of_the_whole_data() {
    for data in [
        &b"{C1234"[..],
        b"{B12{4\xFF",
        b"{A{BX",
        b"{{A",
        b"\xFF{B",
        b"{",
        b"",
    ] {
        let (_, hri) = encode_code128_runs(data).unwrap();
        assert_eq!(hri, clean_code128_hri(data));
    }
    assert_eq!(encode_code128_runs(b"{A{BX").unwrap().1, "X");
}

#[test]
fn code128_starts_in_set_b_chosen_or_not() {
    for data in [&b"ABC"[..], b"{{x", b"{", b"", b"\xE2\x82{A", b"{1\xFF"] {
        let mut chosen = b"{B".to_vec();
        chosen.extend_from_slice(data);
        assert_eq!(encode_code128_runs(&chosen), encode_code128_runs(data));
    }
    assert_ne!(
        encode_code128_runs(b"{B{C12").unwrap().0,
        encode_code128_runs(b"{C12").unwrap().0
    );
}

#[test]
fn code128_check_symbol_of_a_long_barcode() {
    // 7000 times '!', which is symbol 1: 104 + 7000 * 7001 / 2 = 24503604, and 7 modulo 103
    let (runs, _) = encode_code128_runs(&vec![b'!'; 7000]).unwrap();
    let check = runs.len() - 13;
    // symbol 7 is an apostrophe in set B
    let (apostrophe, _) = encode_code128_runs(b"'").unwrap();
    assert_eq!(runs[check..check + 6], apostrophe[6..12]);
}

#[test]
fn ean13_is_completed_with_its_check_digit() {
    let (runs, hri) = encode_ean_runs("400638133393").unwrap();
    assert_eq!(hri, "4006381333931");
    let expected = bits(&[
        "101", // parity of 4: LGLLGG
        "0001101", "0100111", "0101111", "0111101", "0001001", "0110011", "01010", "1000010",
        "1000010", "1000010", "1110100", "1000010", "1100110", "101",
    ]);
    assert_eq!(modules(&runs), expected);
    assert_eq!(expected.len(), 95);
}

#[test]
fn ean13_of_thirteen_digits_is_drawn_as_it_is() {
    let (complete, _) = encode_ean_runs("400638133393").unwrap();
    let (given, hri) = encode_ean_runs("4006381333931").unwrap();
    assert_eq!(complete, given);
    assert_eq!(hri, "4006381333931");
}

#[test]
fn ean8_is_completed_with_its_check_digit() {
    let (runs, hri) = encode_ean_runs("55-12345").unwrap();
    assert_eq!(hri, "55123457");
    let expected = bits(&[
        "101", "0110001", "0110001", "0011001", "0010011", "01010", "1000010", "1011100",
        "1001110", "1000100", "101",
    ]);
    assert_eq!(modules(&runs), expected);
    assert_eq!(expected.len(), 67);
}

#[test]
fn ean_numbers_are_drawn_alike_only_where_they_are_the_same() {
    let texts = [
        "400638133393",
        "4006381333931",
        "0006381333931",
        "9006381333931",
        "4006381333932",
        "5512345",
        "55-12345-7",
        "55123458",
    ];
    for a in texts {
        for b in texts {
            let (runs_a, hri_a) = encode_ean_runs(a).unwrap();
            let (runs_b, hri_b) = encode_ean_runs(b).unwrap();
            assert_eq!(runs_a == runs_b, hri_a == hri_b);
        }
    }
}

#[test]
fn ean_of_another_length_is_not_drawn() {
    assert_eq!(encode_ean_runs("123456"), None);
    assert_eq!(encode_ean_runs(""), None);
    assert_eq!(encode_ean_runs("12345678901"), None);
}

#[test]
fn code39_draws_its_characters_between_stars() {
    let (runs, hri) = encode_code39_runs("a*").unwrap();
    assert_eq!(hri, "a");
    let expected = bits(&[
        "100101101101",
        "0",
        "110101001011",
        "0",
        "100101101101",
    ]);
    assert_eq!(modules(&runs), expected);
    assert_eq!(expected.len(), 13 + 25);
}

#[test]
fn code39_draws_a_text_alike_in_both_cases() {
    for text in ["qr 7", "Mixed-Case*ñ", "az$", "ABC"] {
        let (runs, hri) = encode_code39_runs(text).unwrap();
        assert_eq!(
            encode_code39_runs(&text.to_ascii_uppercase()),
            Some((runs, hri.to_ascii_uppercase()))
        );
    }
    assert_eq!(encode_code39_runs("ñ"), None);
    assert_eq!(encode_code39_runs(&"ñ".to_ascii_uppercase()), None);
}

#[test]
fn code39_without_drawable_characters_is_not_drawn() {
    assert_eq!(encode_code39_runs("*ñ_"), None);
    assert_eq!(encode_code39_runs(""), None);
}

#[test]
fn itf_interleaves_pairs_of_digits() {
    let (runs, hri) = encode_itf_runs("1-23").unwrap();
    assert_eq!(hri, "0123");
    assert_eq!(
        runs,
        vec![
            1, 1, 1, 1, 1, 3, 1, 1, 3, 1, 3, 1, 1, 3, 1, 3, 3, 3, 1, 1, 1, 1, 3, 1, 3, 1, 1
        ]
    );
    let total: usize = runs.iter().map(|&r| r as usize).sum();
    assert_eq!(total, 9 * 4 + 9);
    assert_eq!(encode_itf_runs("abc"), None);
}

#[test]
fn runs_are_drawn_between_quiet_zones() {
    let image = runs_to_image(&[1, 2], true, 2, 3, 1).unwrap();
    assert_eq!((image.width, image.height), (10, 3));
    let row = vec![
        false, false, true, true, false, false, false, false, false, false,
    ];
    for y in 0..3 {
        assert_eq!(image.pixels[10 * y..10 * (y + 1)].to_vec(), row);
    }
    let inverted = runs_to_image(&[1, 2], false, 1, 1, 0).unwrap();
    assert_eq!(inverted.pixels, vec![false, true, true]);
}

#[test]
fn nothing_is_not_drawn() {
    assert_eq!(runs_to_image(&[], true, 1, 1, 1), None);
    assert_eq!(runs_to_image(&[1], true, 0, 1, 1), None);
    assert_eq!(runs_to_image(&[1], true, 1, 0, 1), None);
    assert_eq!(runs_to_image(&[0], true, 1, 1, 0), None);
    assert!(runs_to_image(&[0], true, 1, 1, 1).is_some());
}

#[test]
fn every_kind_of_barcode_has_its_code() {
    assert_eq!(encode_barcode(0x49, "A"), encode_code128_runs(b"A"));
    assert_eq!(encode_barcode(0x43, "5512345"), encode_ean_runs("5512345"));
    assert_eq!(encode_barcode(0x44, "5512345"), encode_ean_runs("5512345"));
    assert_eq!(encode_barcode(0x46, "12"), encode_itf_runs("12"));
    assert_eq!(encode_barcode(0x45, "A"), encode_code39_runs("A"));
    assert_eq!(encode_barcode(0x41, "A"), None);
}

#[test]
fn a_barcode_is_drawn_in_the_size_that_the_printer_was_told() {
    let mut state = PrinterState::default();
    let (image, hri) = render_barcode_text(&state, 0x43, "400638133393").unwrap();
    assert_eq!((image.width, image.height), ((95 + 20) * 3, 72));
    assert_eq!(hri, "4006381333931");
    assert!(!black(&image, 29, 0));
    assert!(black(&image, 30, 0));
    assert!(black(&image, 32, 71));
    assert!(!black(&image, 33, 0));

    state.barcode_module_width = 0;
    state.barcode_height = 0;
    let (image, _) = render_barcode_text(&state, 0x43, "5512345").unwrap();
    assert_eq!((image.width, image.height), (67 + 20, 28));

    state.barcode_module_width = 200;
    state.barcode_height = 255;
    let (image, _) = render_barcode_text(&state, 0x43, "5512345").unwrap();
    assert_eq!((image.width, image.height), ((67 + 20) * 6, 220));
}

#[test]
fn the_height_of_a_barcode_is_nine_tenths_rounded() {
    for height in 0..=255u8 {
        let state = PrinterState {
            barcode_height: height,
            barcode_module_width: 1,
            ..PrinterState::default()
        };
        let (image, _) = render_barcode_text(&state, 0x46, "12").unwrap();
        let expected = ((height as f32) * 0.9).round() as usize;
        assert_eq!(image.height, expected.clamp(28, 220));
    }
}

#[test]
fn a_barcode_is_rendered_from_bytes() {
    let state = PrinterState::default();
    let (image, hri) = render_barcode(&state, 0x45, b"A\xFFB").unwrap();
    let (text_image, _) = render_barcode_text(&state, 0x45, "AB").unwrap();
    assert_eq!(image, text_image);
    assert_eq!(hri, "AB");
    assert_eq!(render_barcode(&state, 0x43, b"12"), None);
    assert_eq!(render_barcode(&state, 0x00, b"12"), None);
}

#[test]
fn a_long_barcode_is_drawn_in_its_own_size() {
    let state = PrinterState {
        barcode_height: 0,
        barcode_module_width: 1,
        ..PrinterState::default()
    };
    let data = vec![b'A'; 12_000];
    assert!(can_draw_barcode(&state, 0x49, &data));
    let (image, _) = render_barcode(&state, 0x49, &data).unwrap();
    // start, data and check have eleven modules each, the stop thirteen
    assert_eq!(
        (image.width, image.height),
        (11 * 12_002 + 13 + 20, 28)
    );
    assert!(can_draw_barcode(&state, 0x00, &data));
    assert_eq!(render_barcode(&state, 0x00, &data), None);
}
