use barcode_proto::entry::ScanEntry;
use barcode_proto::kind::CodeKind;
use barcode_proto::labels::{detection_class, detection_label, join_texts, row_class, shop_button_class, shop_list_text};
use barcode_proto::numbers::{manual_count, parse_i32_text, trim_text};
use barcode_proto::order::cmp_manual_count;
use barcode_proto::pairing::{parse_ticket, ticket_qr_svg};
use iroh_tickets::Ticket;
use barcode_proto::scan::ScanResult;
use barcode_proto::store::SyncStore;
use barcode_proto::sync::{decode_sync_all_reply, decode_sync_poll_reply, encode_sync_poll_request};
use barcode_proto::table::{count_hidden, table_order};
use barcode_proto::ProtoError;
use std::cmp::Ordering;

fn entry(code: &str, hidden: bool, sort: &str) -> ScanEntry {
    let r = ScanResult::outgoing(CodeKind::Barcode, code.to_string(), Vec::new());
    let mut e = ScanEntry::from_scan(&r, "00:00:00".to_string());
    e.hidden = hidden;
    e.sort_count = sort.to_string();
    e
}

#[test]
fn store_reads_back_checked_state() {
    let mut s = SyncStore::new();
    assert!(!s.is_checked("a"));
    s.set_checked("a", true);
    assert!(s.is_checked("a"));
    assert!(!s.is_checked("b"));
    s.set_checked("a", false);
    assert!(!s.is_checked("a"));
    s.set_checked("b", true);
    s.forget("b");
    assert!(!s.is_checked("b"));
}

#[test]
fn store_answers_poll_in_request_order() {
    let mut s = SyncStore::new();
    s.set_checked("x", true);
    s.set_checked("y", false);
    let req = encode_sync_poll_request(&["y".to_string(), "z".to_string(), "x".to_string()]);
    let reply = s.answer_sync_poll(&req[1..]).unwrap();
    assert_eq!(
        decode_sync_poll_reply(&reply).unwrap(),
        vec![("y".to_string(), false), ("z".to_string(), false), ("x".to_string(), true)]
    );
    assert_eq!(s.answer_sync_poll(&[0, 0]).unwrap_err(), ProtoError::Truncated);
}

#[test]
fn store_answers_sync_all_in_arrival_order() {
    let mut s = SyncStore::new();
    s.record_scan("first", 0);
    s.record_scan("second", 1);
    s.record_scan("first", 1);
    s.set_checked("second", true);
    let reply = s.answer_sync_all();
    assert_eq!(
        decode_sync_all_reply(&reply).unwrap(),
        vec![
            ("first".to_string(), CodeKind::Barcode, false),
            ("second".to_string(), CodeKind::QrCode, true),
            ("first".to_string(), CodeKind::QrCode, false),
        ]
    );
    s.forget("first");
    assert_eq!(
        decode_sync_all_reply(&s.answer_sync_all()).unwrap(),
        vec![
            ("second".to_string(), CodeKind::QrCode, true),
            ("first".to_string(), CodeKind::QrCode, false),
        ]
    );
}

#[test]
fn store_empty_sync_all() {
    let s = SyncStore::new();
    assert_eq!(s.answer_sync_all(), vec![0, 0, 0, 0]);
}

#[test]
fn entry_from_scan_fields() {
    let r = ScanResult::outgoing(CodeKind::QrCode, "1234567890123".to_string(), vec![0xff]);
    let mut r2 = r.clone();
    r2.extracted_card = Some("1234567890123".to_string());
    let e = ScanEntry::from_scan(&r2, "12:00:00".to_string());
    assert_eq!(e.kind, "QR Code");
    assert_eq!(e.code, "1234567890123");
    assert_eq!(e.extracted_card.as_deref(), Some("1234567890123"));
    assert_eq!(e.image_b64, "/w==");
    assert_eq!(e.timestamp, "12:00:00");
    assert_eq!(e.detected_shops, vec!["REWE"]);
    assert!(!e.hidden);
    assert_eq!(e.display_code, "1234567890123");
    assert!(e.manual_count.is_empty() && e.sort_count.is_empty() && e.card_value.is_empty());
}

#[test]
fn entry_base64_of_image() {
    let r = ScanResult::outgoing(CodeKind::Barcode, "c".to_string(), b"hello".to_vec());
    assert_eq!(ScanEntry::from_scan(&r, String::new()).image_b64, "aGVsbG8=");
    let r = ScanResult::outgoing(CodeKind::Barcode, "c".to_string(), Vec::new());
    assert_eq!(ScanEntry::from_scan(&r, String::new()).image_b64, "");
}

#[test]
fn trim_matches_std() {
    for s in ["  12 ", "\t\u{3000}7\u{a0}", "", "   ", "a b", "\u{85}x\u{2028}"] {
        assert_eq!(trim_text(s), s.trim());
    }
}

#[test]
fn parse_matches_std() {
    for s in ["0", "12", "-7", "+7", "-", "+", "", "1a", "2147483647", "2147483648", "-2147483648", "-2147483649", "99999999999", "007", " 1"] {
        assert_eq!(parse_i32_text(s), s.parse::<i32>().ok(), "{s:?}");
    }
}

#[test]
fn manual_count_trims() {
    assert_eq!(manual_count(" 42 "), Some(42));
    assert_eq!(manual_count("x"), None);
    assert_eq!(manual_count(""), None);
}

#[test]
fn cmp_manual_count_orders_numbers_first() {
    assert_eq!(cmp_manual_count("2", "10"), Ordering::Less);
    assert_eq!(cmp_manual_count("10", "2"), Ordering::Greater);
    assert_eq!(cmp_manual_count(" 3", "3 "), Ordering::Equal);
    assert_eq!(cmp_manual_count("1", ""), Ordering::Less);
    assert_eq!(cmp_manual_count("abc", "-5"), Ordering::Greater);
    assert_eq!(cmp_manual_count("", "x"), Ordering::Equal);
}

#[test]
fn table_order_unchecked_first_then_by_number() {
    let rows = vec![
        entry("a", false, ""),
        entry("b", true, "1"),
        entry("c", false, "5"),
        entry("d", false, "2"),
        entry("e", false, ""),
        entry("f", true, ""),
    ];
    assert_eq!(table_order(&rows, true), vec![3, 2, 0, 4, 1, 5]);
    assert_eq!(table_order(&rows, false), vec![3, 2, 0, 4]);
    assert_eq!(count_hidden(&rows), 2);
}

#[test]
fn table_order_matches_stable_sort() {
    let rows = vec![
        entry("a", false, "3"),
        entry("b", false, "3"),
        entry("c", true, "x"),
        entry("d", false, "-1"),
        entry("e", true, "0"),
    ];
    let mut expect: Vec<usize> = (0..rows.len()).collect();
    expect.sort_by(|&i, &j| match (rows[i].hidden, rows[j].hidden) {
        (false, true) => Ordering::Less,
        (true, false) => Ordering::Greater,
        _ => cmp_manual_count(&rows[i].sort_count, &rows[j].sort_count),
    });
    assert_eq!(table_order(&rows, true), expect);
}

#[test]
fn shop_texts() {
    assert_eq!(shop_list_text(&[]), "\u{2014}");
    assert_eq!(shop_list_text(&["ALDI", "LIDL"]), "ALDI/LIDL");
    assert_eq!(detection_label(&["DM"]), ">> DM");
    assert_eq!(detection_label(&["EDEKA", "DM"]), "?? EDEKA / DM -- choose");
    assert_eq!(detection_label(&[]), "-- no shop detected");
    assert_eq!(detection_class(1), "shop-detect found");
    assert_eq!(detection_class(2), "shop-detect ambiguous");
    assert_eq!(detection_class(0), "shop-detect none");
    assert_eq!(join_texts(&["a", "b", "c"], ", "), "a, b, c");
}

#[test]
fn row_and_button_classes() {
    assert_eq!(row_class(true, true), "selected-row hidden-row");
    assert_eq!(row_class(true, false), "selected-row");
    assert_eq!(row_class(false, true), "hidden-row");
    assert_eq!(row_class(false, false), "");
    assert_eq!(shop_button_class(true, true, 2), "btn btn-sm btn-selected");
    assert_eq!(shop_button_class(false, true, 2), "btn btn-sm btn-orange");
    assert_eq!(shop_button_class(false, true, 1), "btn btn-sm btn-green");
    assert_eq!(shop_button_class(false, false, 1), "btn btn-sm");
}

#[test]
fn ticket_qr_is_svg() {
    let svg = ticket_qr_svg("endpointabc").unwrap();
    assert!(svg.contains("<svg"));
    assert!(ticket_qr_svg(&"x".repeat(8000)).is_none());
}

#[test]
fn ticket_parsing() {
    let sk = iroh::SecretKey::from_bytes(&[7u8; 32]);
    let addr = iroh::EndpointAddr::from(sk.public());
    let text = iroh_tickets::endpoint::EndpointTicket::new(addr.clone()).encode_string();
    assert!(text.starts_with("endpoint"));
    let ticket = parse_ticket(&text).unwrap();
    assert_eq!(ticket.endpoint_addr(), &addr);
    assert!(parse_ticket("foo").is_none());
    assert!(parse_ticket("endpointzzzz").is_none());
    assert!(parse_ticket("").is_none());
}
