use escpos_viewer::hex_dump::pretty_hex;

#[test]
fn nothing_is_listed_as_nothing() {
    assert_eq!(pretty_hex(&[]), "");
}

#[test]
fn bytes_are_listed_sixteen_a_line() {
    let data: Vec<u8> = (0..18).map(|i| 0xF0u8.wrapping_add(i)).collect();
    assert_eq!(
        pretty_hex(&data),
        "0000: f0 f1 f2 f3 f4 f5 f6 f7 f8 f9 fa fb fc fd fe ff \n0010: 00 01 \n"
    );
}

#[test]
fn a_full_line_ends_the_listing() {
    assert_eq!(
        pretty_hex(&[0x1b; 16]),
        "0000: 1b 1b 1b 1b 1b 1b 1b 1b 1b 1b 1b 1b 1b 1b 1b 1b \n"
    );
}

#[test]
fn every_byte_has_its_own_place() {
    let data: Vec<u8> = (0..1000u32).map(|i| (i * 7) as u8).collect();
    let listing: Vec<char> = pretty_hex(&data).chars().collect();
    for (i, byte) in data.iter().enumerate() {
        let at = 55 * (i / 16) + 6 + 3 * (i % 16);
        let shown: String = listing[at..at + 2].iter().collect();
        assert_eq!(shown, format!("{:02x}", byte));
    }
}

#[test]
fn offsets_grow_beyond_four_digits() {
    let listing = pretty_hex(&vec![0; 0x1_0001]);
    assert!(listing.ends_with("10000: 00 \n"));
    assert!(listing.contains("\nfff0: 00 "));
}

#[test]
fn every_byte_has_its_own_place_behind_long_offsets() {
    let data: Vec<u8> = (0..0x1_0020u32).map(|i| (i * 7) as u8).collect();
    let listing: Vec<char> = pretty_hex(&data).chars().collect();
    let full = 55 * 0x1000;
    for i in 0..32 {
        let at = full + 56 * (i / 16) + 7 + 3 * (i % 16);
        let shown: String = listing[at..at + 2].iter().collect();
        assert_eq!(shown, format!("{:02x}", data[0x1_0000 + i]));
    }
}

#[test]
fn the_listing_of_whole_lines_begins_a_longer_one() {
    let data: Vec<u8> = (0..100).collect();
    for lines in 0..6 {
        assert!(pretty_hex(&data).starts_with(&pretty_hex(&data[..16 * lines])));
    }
    assert!(!pretty_hex(&data).starts_with(&pretty_hex(&data[..17])));
}

#[test]
fn different_bytes_are_listed_differently() {
    let rows: [&[u8]; 6] = [&[], &[0], &[0, 0], &[1], &[0x10], &[0; 16]];
    for a in rows {
        for b in rows {
            assert_eq!(pretty_hex(a) == pretty_hex(b), a == b);
        }
    }
}
