use barcode_proto::card::digits;
use barcode_proto::display::{clock_text, format_display_code, rotate_half_turn, selection_after_delete, split_32_digit_code};
use barcode_proto::kind::CodeKind;
use barcode_proto::shops::{detect_shops, preferred_shop, shop_url, str_eq, Shop};
use barcode_proto::{extract_card_number, ProtoError};

fn n_digits(n: usize) -> String {
    (0..n).map(|i| char::from(b'0' + (i % 10) as u8)).collect()
}

#[test]
fn digits_keep_ascii_digits_only() {
    assert_eq!(digits("a1-2 3٣x"), "123");
    assert_eq!(digits(""), "");
}

#[test]
fn card_rewe_39_keeps_first_13() {
    let code = n_digits(39);
    assert_eq!(extract_card_number(CodeKind::Barcode, &code).unwrap(), code[..13]);
}

#[test]
fn card_38_and_36_drop_first_18() {
    let code = n_digits(38);
    assert_eq!(extract_card_number(CodeKind::Barcode, &code).unwrap(), code[18..]);
    let code = n_digits(36);
    assert_eq!(extract_card_number(CodeKind::QrCode, &code).unwrap(), code[18..]);
}

#[test]
fn card_standard_range_kept() {
    for n in [10usize, 13, 16, 18, 20, 24, 32] {
        let code = n_digits(n);
        assert_eq!(extract_card_number(CodeKind::Barcode, &code).unwrap(), code);
    }
}

#[test]
fn card_strips_non_digits() {
    assert_eq!(
        extract_card_number(CodeKind::QrCode, "card: 1234-5678-90 ok").unwrap(),
        "1234567890"
    );
}

#[test]
fn card_errors() {
    assert_eq!(extract_card_number(CodeKind::Barcode, "abc"), Err(ProtoError::NoDigits));
    assert_eq!(extract_card_number(CodeKind::Barcode, ""), Err(ProtoError::NoDigits));
    assert_eq!(
        extract_card_number(CodeKind::Barcode, "123456789"),
        Err(ProtoError::UnrecognisedDigitCount(9))
    );
    for n in [33usize, 34, 35, 37, 40] {
        assert_eq!(
            extract_card_number(CodeKind::Barcode, &n_digits(n)),
            Err(ProtoError::UnrecognisedDigitCount(n))
        );
    }
}

#[test]
fn card_extraction_is_idempotent() {
    for n in [10usize, 13, 32, 36, 38, 39] {
        let once = extract_card_number(CodeKind::Barcode, &n_digits(n)).unwrap();
        let twice = extract_card_number(CodeKind::Barcode, &once).unwrap();
        assert_eq!(once, twice);
        assert!(once.len() >= 10 && once.len() <= 32);
    }
}

#[test]
fn display_code_formats() {
    let c39 = n_digits(39);
    assert_eq!(format_display_code(&c39), c39[..13]);
    let c38 = n_digits(38);
    assert_eq!(format_display_code(&c38), c38[18..]);
    let c36 = format!("x{}", n_digits(36));
    assert_eq!(format_display_code(&c36), n_digits(36)[18..]);
    let c32 = n_digits(32);
    assert_eq!(format_display_code(&c32), c32);
    assert_eq!(
        format_display_code("12345678901234567890123456789012"),
        "12345678901234567890123456789012"
    );
    assert_eq!(format_display_code("EDEKA 1234567890-1234567890-123456789012"), "EDEKA 1234567890-1234567890-123456789012");
    assert_eq!(format_display_code("AB-123"), "AB-123");
    assert_eq!(format_display_code(&n_digits(24)), n_digits(24));
}

#[test]
fn display_mirrors_card_number() {
    for n in [36usize, 38, 39] {
        let code = n_digits(n);
        assert_eq!(format_display_code(&code), extract_card_number(CodeKind::Barcode, &code).unwrap());
    }
}

#[test]
fn split_32_digits() {
    let c32 = n_digits(32);
    let (dm, e1, e2) = split_32_digit_code(&c32).unwrap();
    assert_eq!(dm, c32);
    assert_eq!(e1, c32[11..16]);
    assert_eq!(e2, c32[18..]);
    assert!(split_32_digit_code(&n_digits(31)).is_none());
}

#[test]
fn shop_detection_by_digit_count() {
    assert_eq!(detect_shops(&n_digits(13)), vec!["REWE"]);
    assert_eq!(detect_shops(&n_digits(39)), vec!["REWE"]);
    assert_eq!(detect_shops(&n_digits(32)), vec!["EDEKA", "DM"]);
    assert_eq!(detect_shops(&n_digits(24)), vec!["DM"]);
    assert_eq!(detect_shops(&n_digits(20)), vec!["ALDI", "LIDL"]);
    assert_eq!(detect_shops(&n_digits(36)), vec!["ALDI", "LIDL"]);
    assert_eq!(detect_shops(&n_digits(38)), vec!["ALDI", "LIDL"]);
    assert_eq!(detect_shops(&n_digits(18)), vec!["LIDL"]);
    assert!(detect_shops(&n_digits(16)).is_empty());
    assert!(detect_shops("no digits").is_empty());
}

#[test]
fn shop_urls_by_name() {
    assert_eq!(shop_url("REWE"), Some("https://kartenwelt.rewe.de/rewe-geschenkkarte.html"));
    assert_eq!(shop_url("EDEKA"), Some("https://evci.pin-host.com/evci/#/saldo"));
    assert_eq!(shop_url("DM"), Some("https://www.dm.de/services/services-im-markt/geschenkkarten"));
    assert_eq!(shop_url("ALDI"), Some("https://www.helaba.com/de/aldi/"));
    assert_eq!(shop_url("LIDL"), Some("https://www.lidl.de/c/lidl-geschenkkarten/s10007775"));
    assert_eq!(shop_url("rewe"), None);
    assert_eq!(shop_url(""), None);
}

#[test]
fn shops_in_order() {
    let names: Vec<&str> = Shop::all().iter().map(|s| s.name()).collect();
    assert_eq!(names, vec!["REWE", "EDEKA", "DM", "ALDI", "LIDL"]);
    assert_eq!(Shop::from_name("DM"), Some(Shop::Dm));
    assert_eq!(Shop::from_name("DMX"), None);
    assert!(Shop::Lidl.has_digit_count(18));
    assert!(!Shop::Aldi.has_digit_count(18));
}

#[test]
fn preferred_shop_only_when_unique() {
    assert_eq!(preferred_shop(&["DM"]), Some("DM"));
    assert_eq!(preferred_shop(&["ALDI", "LIDL"]), None);
    assert_eq!(preferred_shop(&[]), None);
}

#[test]
fn string_equality() {
    assert!(str_eq("äb", "äb"));
    assert!(!str_eq("äb", "ab"));
    assert!(!str_eq("a", "ab"));
}

#[test]
fn clock_text_formula() {
    assert_eq!(clock_text(0), "00:00:00");
    assert_eq!(clock_text(3_725), "01:02:05");
    assert_eq!(clock_text(86_399), "23:59:59");
    assert_eq!(clock_text(86_400 + 45_296), "12:34:56");
    assert_eq!(clock_text(u64::MAX), "07:00:15");
}

#[test]
fn selection_after_delete_follows_row() {
    assert_eq!(selection_after_delete(Some(3), 3), None);
    assert_eq!(selection_after_delete(Some(4), 3), Some(3));
    assert_eq!(selection_after_delete(Some(2), 3), Some(2));
    assert_eq!(selection_after_delete(None, 0), None);
}

#[test]
fn rotation_half_turns() {
    assert_eq!(rotate_half_turn(0), 180);
    assert_eq!(rotate_half_turn(180), 0);
    assert_eq!(rotate_half_turn(-200), -20);
}
