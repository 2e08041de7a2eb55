use escpos_viewer::image::{bitimage_to_image, can_hold, raster_to_image};
use escpos_viewer::qr::{
    count_penalty, draw_symbol, ecc_to_level, mask_can_be_chosen, qr_to_image, try_qr_to_image,
    Correction, Tally, MAX_DATA,
};

#[test]
fn a_raster_image_has_eight_dots_a_byte() {
    let image = raster_to_image(2, 2, &[0x80, 0x01, 0x00, 0xF0]).unwrap();
    assert_eq!((image.width, image.height), (16, 2));
    let mut expected = vec![false; 32];
    expected[0] = true;
    expected[15] = true;
    for x in 8..12 {
        expected[16 + x] = true;
    }
    assert_eq!(image.pixels, expected);
}

#[test]
fn a_raster_image_without_enough_bytes_is_not_drawn() {
    assert_eq!(raster_to_image(2, 2, &[0, 0, 0]), None);
    assert_eq!(raster_to_image(0, 2, &[0, 0, 0]), None);
    assert_eq!(raster_to_image(2, 0, &[0, 0, 0]), None);
    assert_eq!(raster_to_image(0xFFFF, 0xFFFF, &[0, 0, 0]), None);
    assert!(raster_to_image(1, 1, &[0, 0, 0]).is_some());
}

#[test]
fn a_bit_image_of_eight_pins_has_a_byte_a_column() {
    let image = bitimage_to_image(0, 2, &[0x80, 0x01]).unwrap();
    assert_eq!((image.width, image.height), (2, 8));
    let mut expected = vec![false; 16];
    expected[0] = true;
    expected[15] = true;
    assert_eq!(image.pixels, expected);
    assert_eq!(bitimage_to_image(7, 2, &[0x80, 0x01]), Some(image));
}

#[test]
fn a_bit_image_of_24_pins_has_three_bytes_a_column() {
    for mode in [32, 33] {
        let image = bitimage_to_image(mode, 1, &[0x80, 0x00, 0x01]).unwrap();
        assert_eq!((image.width, image.height), (1, 24));
        let mut expected = vec![false; 24];
        expected[0] = true;
        expected[23] = true;
        assert_eq!(image.pixels, expected);
    }
    assert_eq!(bitimage_to_image(32, 1, &[0, 0]), None);
    assert_eq!(bitimage_to_image(32, 0, &[0, 0]), None);
}

#[test]
fn images_are_held_as_far_as_memory_goes() {
    assert!(can_hold(4096, 4096));
    assert!(!can_hold(usize::MAX, 2));
    assert!(!can_hold(usize::MAX, usize::MAX));
    assert!(can_hold(usize::MAX, 0));
}

#[test]
fn correction_levels_are_48_to_51() {
    assert_eq!(ecc_to_level(48), Correction::L);
    assert_eq!(ecc_to_level(49), Correction::M);
    assert_eq!(ecc_to_level(50), Correction::Q);
    assert_eq!(ecc_to_level(51), Correction::H);
    assert_eq!(ecc_to_level(0), Correction::M);
}

#[test]
fn a_symbol_is_drawn_in_squares_inside_a_quiet_zone() {
    let image = draw_symbol(2, &vec![true, false, false, true], 3).unwrap();
    assert_eq!((image.width, image.height), (30, 30));
    for y in 0..30 {
        for x in 0..30 {
            let first = (12..15).contains(&x) && (12..15).contains(&y);
            let last = (15..18).contains(&x) && (15..18).contains(&y);
            assert_eq!(image.pixels[30 * y + x], first || last);
        }
    }
    assert_eq!(draw_symbol(0, &vec![], 3), None);
    assert_eq!(draw_symbol(1, &vec![true], 0).unwrap().width, 9);
    assert_eq!(draw_symbol(1, &vec![true], 255).unwrap().width, 9 * 16);
}

#[test]
fn a_qr_symbol_shows_the_modules_of_its_code() {
    let levels = [
        (48, qrcode::EcLevel::L),
        (49, qrcode::EcLevel::M),
        (50, qrcode::EcLevel::Q),
        (51, qrcode::EcLevel::H),
    ];
    for (ecc, level) in levels {
        let code = qrcode::QrCode::with_error_correction_level(b"https://example.org", level).unwrap();
        let dark: Vec<bool> = code
            .to_colors()
            .into_iter()
            .map(|c| c == qrcode::Color::Dark)
            .collect();
        let image = qr_to_image(b"https://example.org", ecc, 2).unwrap();
        assert_eq!(image.width, (code.width() + 8) * 2);
        assert_eq!(Some(image), draw_symbol(code.width(), &dark, 2));
    }
}

#[test]
fn the_longest_numeral_fills_the_largest_symbol() {
    let digits: Vec<u8> = (0..7090u32).map(|i| b'0' + (i * i % 97 % 10) as u8).collect();
    assert_eq!(MAX_DATA, 7089);
    let image = try_qr_to_image(&digits[..7089], 48, 1).unwrap().unwrap();
    assert_eq!(image.width, 177 + 8);
    assert_eq!(try_qr_to_image(&digits, 48, 1), Some(None));
    // the encoder refuses it too
    assert!(qrcode::QrCode::with_error_correction_level(&digits, qrcode::EcLevel::L).is_err());
    assert_eq!(try_qr_to_image(&vec![0; 1_000_000], 48, 1), Some(None));
}

#[test]
fn data_that_is_too_long_has_no_qr_symbol() {
    assert_eq!(qr_to_image(&[0xAA; 4000], 48, 1), None);
    let scattered: Vec<u8> = (0..2900u32).map(|i| (i * i / 7 + i) as u8).collect();
    assert_eq!(try_qr_to_image(&scattered, 51, 1), Some(None));
    assert_eq!(try_qr_to_image(&scattered, 48, 1).unwrap().unwrap().width, 185);
    assert_eq!(qr_to_image(b"", 48, 1).unwrap().width, 29);
}

#[test]
fn a_large_symbol_whose_pattern_repeats_has_no_mask() {
    assert!(!mask_can_be_chosen(&[0xAA; 2900], Correction::L));
    assert_eq!(try_qr_to_image(&[0xAA; 2900], 48, 1), None);
    assert!(mask_can_be_chosen(&[0xAA; 200], Correction::L));
    assert!(mask_can_be_chosen(&[0xAA; 4000], Correction::L));
    assert_eq!(try_qr_to_image(&[0; 2900], 48, 1).unwrap().unwrap().width, 185);
}

#[test]
fn penalties_are_counted_by_place() {
    // Version 1-Q under the checkerboard mask: 88 and 92 points for runs, 90 for squares, and one
    // column like a finder pattern beside the nine rows and columns of the three real ones.
    let symbol = [
        "#######.##....#######",
        "#.....#.#..#..#.....#",
        "#.###.#.#..##.#.###.#",
        "#.###.#.#.....#.###.#",
        "#.###.#.#.#...#.###.#",
        "#.....#...#...#.....#",
        "#######.#.#.#.#######",
        "........#............",
        ".##.#.##....#.#.#####",
        ".#......####....#...#",
        "..##.###.##...#.##...",
        ".##.##.#..##.#.#.###.",
        "#...#.#.#.###.###.#.#",
        "........##.#..#...#.#",
        "#######.#.#....#.##..",
        "#.....#..#.##.##.#...",
        "#.###.#.#.#...#######",
        "#.###.#..#.#.#.#...#.",
        "#.###.#.#...####.#..#",
        "#.....#.#.##.#...#.##",
        "#######.....####....#",
    ];
    let dark: Vec<bool> = symbol.concat().bytes().map(|b| b == b'#').collect();
    let count = dark.iter().filter(|d| **d).count() as u64;
    assert_eq!(
        count_penalty(&dark, 21),
        Tally {
            plain: 88 + 92 + 90,
            row_finders: 360,
            column_finders: 400,
            dark: count,
        }
    );
}

#[test]
fn a_run_gives_two_points_less_than_its_length() {
    // All 7 x 7 modules dark: seven runs of seven each way, and 36 squares.
    let t = count_penalty(&vec![true; 49], 7);
    assert_eq!(t.plain, 7 * 5 + 7 * 5 + 3 * 36);
    assert_eq!((t.row_finders, t.column_finders, t.dark), (0, 0, 49));
    assert_eq!(count_penalty(&vec![], 0).plain, 0);
}
