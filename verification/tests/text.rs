use subnet_calc::text::{format_ipv4, parse_ipv4, Parsed};

#[test]
fn parses_an_address() {
    assert_eq!(parse_ipv4("192.168.0.1"), Parsed::Valid(0xC0A8_0001));
    assert_eq!(parse_ipv4("10.0.5.200"), Parsed::Valid(0x0A00_05C8));
    assert_eq!(parse_ipv4("1.2.3.4"), Parsed::Valid(0x0102_0304));
}

#[test]
fn parses_the_lowest_and_the_highest_address() {
    assert_eq!(parse_ipv4("0.0.0.0"), Parsed::Valid(0));
    assert_eq!(parse_ipv4("255.255.255.255"), Parsed::Valid(u32::MAX));
}

#[test]
fn parses_a_mask_that_is_not_canonical() {
    assert_eq!(parse_ipv4("255.0.255.0"), Parsed::Valid(0xFF00_FF00));
    assert_eq!(parse_ipv4("0.255.0.255"), Parsed::Valid(0x00FF_00FF));
}

#[test]
fn rejects_a_wrong_number_of_fields() {
    assert_eq!(parse_ipv4(""), Parsed::Invalid);
    assert_eq!(parse_ipv4("1"), Parsed::Invalid);
    assert_eq!(parse_ipv4("1.2"), Parsed::Invalid);
    assert_eq!(parse_ipv4("1.2.3"), Parsed::Invalid);
    assert_eq!(parse_ipv4("1.2.3.4.5"), Parsed::Invalid);
    assert_eq!(parse_ipv4("..."), Parsed::Invalid);
}

#[test]
fn rejects_an_empty_field() {
    assert_eq!(parse_ipv4("1.2.3."), Parsed::Invalid);
    assert_eq!(parse_ipv4(".1.2.3"), Parsed::Invalid);
    assert_eq!(parse_ipv4("1..2.3"), Parsed::Invalid);
    assert_eq!(parse_ipv4("1.2.3.4."), Parsed::Invalid);
}

#[test]
fn rejects_an_octet_out_of_range() {
    assert_eq!(parse_ipv4("999.1.1.1"), Parsed::Invalid);
    assert_eq!(parse_ipv4("256.0.0.0"), Parsed::Invalid);
    assert_eq!(parse_ipv4("0.0.0.256"), Parsed::Invalid);
    assert_eq!(parse_ipv4("1.2.3.1000"), Parsed::Invalid);
    assert_eq!(parse_ipv4("255.255.255.255"), Parsed::Valid(0xFFFF_FFFF));
}

#[test]
fn rejects_what_is_no_number() {
    assert_eq!(parse_ipv4("abc"), Parsed::Invalid);
    assert_eq!(parse_ipv4("a.b.c.d"), Parsed::Invalid);
    assert_eq!(parse_ipv4("1.2.3.x"), Parsed::Invalid);
    assert_eq!(parse_ipv4("1.2.3.-4"), Parsed::Invalid);
    assert_eq!(parse_ipv4("+1.2.3.4"), Parsed::Invalid);
    assert_eq!(parse_ipv4("1.2.3.4 "), Parsed::Invalid);
    assert_eq!(parse_ipv4(" 1.2.3.4"), Parsed::Invalid);
    assert_eq!(parse_ipv4("1.2.3.4\n"), Parsed::Invalid);
    assert_eq!(parse_ipv4("1,2,3,4"), Parsed::Invalid);
    assert_eq!(parse_ipv4("0x1.2.3.4"), Parsed::Invalid);
}

#[test]
fn rejects_digits_outside_ascii() {
    assert_eq!(parse_ipv4("١.٢.٣.٤"), Parsed::Invalid);
    assert_eq!(parse_ipv4("1.2.3.４"), Parsed::Invalid);
    assert_eq!(parse_ipv4("1.2.3.4é"), Parsed::Invalid);
}

#[test]
fn rejects_a_leading_zero() {
    assert_eq!(parse_ipv4("01.2.3.4"), Parsed::Invalid);
    assert_eq!(parse_ipv4("1.2.3.04"), Parsed::Invalid);
    assert_eq!(parse_ipv4("1.2.3.00"), Parsed::Invalid);
    assert_eq!(parse_ipv4("1.2.3.000"), Parsed::Invalid);
    assert_eq!(parse_ipv4("192.168.000.1"), Parsed::Invalid);
    assert_eq!(parse_ipv4("1.0.3.4"), Parsed::Valid(0x0100_0304));
}

#[test]
fn reads_a_table_of_texts() {
    let table = [
        ("127.0.0.1", Parsed::Valid(0x7F00_0001)),
        ("10.20.30.40", Parsed::Valid(0x0A14_1E28)),
        ("9.99.199.249", Parsed::Valid(0x0963_C7F9)),
        ("25.250.255.26", Parsed::Valid(0x19FA_FF1A)),
        ("100.200.0.255", Parsed::Valid(0x64C8_00FF)),
        ("0.0.0.00", Parsed::Invalid),
        ("300.1.1.1", Parsed::Invalid),
        ("1.2.3.0255", Parsed::Invalid),
        ("1.2.3.4/24", Parsed::Invalid),
        ("1.2.3.4.5.6.7.8", Parsed::Invalid),
        ("4294967295", Parsed::Invalid),
        ("1.2.3.4294967297", Parsed::Invalid),
    ];
    for (text, expected) in table {
        assert_eq!(parse_ipv4(text), expected, "{text:?}");
    }
}

#[test]
fn writes_an_address() {
    assert_eq!(format_ipv4(0xC0A8_0001), "192.168.0.1");
    assert_eq!(format_ipv4(0), "0.0.0.0");
    assert_eq!(format_ipv4(u32::MAX), "255.255.255.255");
    assert_eq!(format_ipv4(0x0A00_05C8), "10.0.5.200");
    assert_eq!(format_ipv4(0x0964_C70A), "9.100.199.10");
    assert_eq!(format_ipv4(0xFFFF_FF80), "255.255.255.128");
}

#[test]
fn writes_the_four_octets_in_decimal() {
    let mut addr: u32 = 1;
    for _ in 0..2000 {
        addr = addr.wrapping_mul(1_664_525).wrapping_add(1_013_904_223);
        let expected = format!(
            "{}.{}.{}.{}",
            addr >> 24,
            (addr >> 16) & 0xFF,
            (addr >> 8) & 0xFF,
            addr & 0xFF
        );
        assert_eq!(format_ipv4(addr), expected);
    }
}

#[test]
fn reads_back_what_it_wrote() {
    let mut addr: u32 = 7;
    for _ in 0..2000 {
        addr = addr.wrapping_mul(1_664_525).wrapping_add(1_013_904_223);
        assert_eq!(parse_ipv4(&format_ipv4(addr)), Parsed::Valid(addr));
    }
    for octet in 0..=255u32 {
        let addr = octet << 24 | octet << 16 | octet << 8 | octet;
        assert_eq!(parse_ipv4(&format_ipv4(addr)), Parsed::Valid(addr));
    }
}

#[test]
fn writes_back_what_it_read() {
    for text in ["192.168.0.1", "0.0.0.0", "255.255.255.255", "10.0.5.200", "1.20.210.9"] {
        match parse_ipv4(text) {
            Parsed::Valid(addr) => assert_eq!(format_ipv4(addr), text),
            Parsed::Invalid => panic!("{text} is an address"),
        }
    }
}
