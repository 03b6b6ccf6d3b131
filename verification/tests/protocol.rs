use barcode_proto::kind::CodeKind;
use barcode_proto::scan::{encode_scan, recv_scan, recv_scan_with_kind, check_ack, kind_from_platform, ScanResult, ACK};
use barcode_proto::sync::{
    decode_sync_all_reply, decode_sync_poll_reply, decode_sync_poll_request, encode_sync_all_reply,
    encode_sync_all_request, encode_sync_poll_reply, encode_sync_poll_request, route_stream,
    StreamRoute,
};
use barcode_proto::wire::{MAX_CODE_LEN, MAX_ENTRIES, MAX_IMAGE_LEN};
use barcode_proto::ProtoError;

fn scan(kind: CodeKind, code: &str, image: &[u8]) -> ScanResult {
    ScanResult::outgoing(kind, code.to_string(), image.to_vec())
}

#[test]
fn code_kind_from_u8_accepts_zero_and_one_only() {
    assert_eq!(CodeKind::from_u8(0), Ok(CodeKind::Barcode));
    assert_eq!(CodeKind::from_u8(1), Ok(CodeKind::QrCode));
    assert_eq!(CodeKind::from_u8(2), Err(ProtoError::UnknownCodeKind(2)));
    assert_eq!(CodeKind::from_u8(0xff), Err(ProtoError::UnknownCodeKind(0xff)));
}

#[test]
fn code_kind_byte_roundtrip() {
    for k in [CodeKind::Barcode, CodeKind::QrCode] {
        assert_eq!(CodeKind::from_u8(k.to_u8()), Ok(k));
    }
    assert_eq!(CodeKind::Barcode.to_u8(), 0);
    assert_eq!(CodeKind::QrCode.to_u8(), 1);
}

#[test]
fn code_kind_labels() {
    assert_eq!(CodeKind::Barcode.as_str(), "Barcode");
    assert_eq!(CodeKind::QrCode.as_str(), "QR Code");
}

#[test]
fn platform_kind_defaults_to_barcode() {
    assert_eq!(kind_from_platform(0), CodeKind::Barcode);
    assert_eq!(kind_from_platform(1), CodeKind::QrCode);
    assert_eq!(kind_from_platform(7), CodeKind::Barcode);
    assert_eq!(kind_from_platform(-1), CodeKind::Barcode);
}

#[test]
fn scan_frame_layout() {
    let bytes = encode_scan(&scan(CodeKind::QrCode, "AB", &[9, 8, 7]));
    assert_eq!(bytes, vec![1, 0, 0, 0, 2, b'A', b'B', 0, 0, 0, 3, 9, 8, 7]);
}

#[test]
fn scan_frame_without_image() {
    let bytes = encode_scan(&scan(CodeKind::Barcode, "é", &[]));
    assert_eq!(bytes, vec![0, 0, 0, 0, 2, 0xc3, 0xa9, 0, 0, 0, 0]);
}

#[test]
fn scan_roundtrip_extracts_card() {
    let sent = scan(CodeKind::Barcode, "1234567890123", &[1, 2, 3, 4]);
    let got = recv_scan(&encode_scan(&sent)).unwrap();
    assert_eq!(got.kind, CodeKind::Barcode);
    assert_eq!(got.code, "1234567890123");
    assert_eq!(got.image_jpeg, vec![1, 2, 3, 4]);
    assert_eq!(got.extracted_card.as_deref(), Some("1234567890123"));
}

#[test]
fn scan_roundtrip_without_card() {
    let sent = scan(CodeKind::QrCode, "https://example.org", &[]);
    let got = recv_scan(&encode_scan(&sent)).unwrap();
    assert_eq!(got.kind, CodeKind::QrCode);
    assert_eq!(got.code, "https://example.org");
    assert!(got.image_jpeg.is_empty());
    assert_eq!(got.extracted_card, None);
}

#[test]
fn scan_ignores_trailing_bytes() {
    let mut bytes = encode_scan(&scan(CodeKind::Barcode, "x", &[5]));
    bytes.extend_from_slice(&[1, 2, 3]);
    let got = recv_scan(&bytes).unwrap();
    assert_eq!(got.code, "x");
    assert_eq!(got.image_jpeg, vec![5]);
}

#[test]
fn scan_errors() {
    assert_eq!(recv_scan(&[]).unwrap_err(), ProtoError::Truncated);
    assert_eq!(recv_scan(&[2, 0, 0, 0, 0]).unwrap_err(), ProtoError::UnknownCodeKind(2));
    assert_eq!(recv_scan(&[0, 0, 0]).unwrap_err(), ProtoError::Truncated);
    assert_eq!(recv_scan(&[0, 0, 0, 0x27, 0x11]).unwrap_err(), ProtoError::CodeTooLarge(10_001));
    assert_eq!(recv_scan(&[0, 0, 0, 0, 2, b'a']).unwrap_err(), ProtoError::Truncated);
    assert_eq!(recv_scan(&[0, 0, 0, 0, 1, 0xff, 0, 0, 0, 0]).unwrap_err(), ProtoError::NotUtf8);
    assert_eq!(recv_scan(&[0, 0, 0, 0, 0, 0, 0]).unwrap_err(), ProtoError::Truncated);
    assert_eq!(
        recv_scan(&[0, 0, 0, 0, 0, 0, 0x4c, 0x4b, 0x41]).unwrap_err(),
        ProtoError::ImageTooLarge(5_000_001)
    );
    assert_eq!(recv_scan(&[0, 0, 0, 0, 0, 0, 0, 0, 2, 1]).unwrap_err(), ProtoError::Truncated);
}

#[test]
fn scan_limits_are_inclusive() {
    let code = "7".repeat(MAX_CODE_LEN as usize);
    let image = vec![0u8; MAX_IMAGE_LEN as usize];
    let got = recv_scan(&encode_scan(&scan(CodeKind::Barcode, &code, &image))).unwrap();
    assert_eq!(got.code.len(), MAX_CODE_LEN as usize);
    assert_eq!(got.image_jpeg.len(), MAX_IMAGE_LEN as usize);
    let long = "7".repeat(MAX_CODE_LEN as usize + 1);
    assert_eq!(
        recv_scan(&encode_scan(&scan(CodeKind::Barcode, &long, &[]))).unwrap_err(),
        ProtoError::CodeTooLarge(MAX_CODE_LEN + 1)
    );
}

#[test]
fn scan_with_kind_skips_routing_byte() {
    let bytes = encode_scan(&scan(CodeKind::QrCode, "q", &[]));
    let got = recv_scan_with_kind(bytes[0], &bytes[1..]).unwrap();
    assert_eq!(got.kind, CodeKind::QrCode);
    assert_eq!(recv_scan_with_kind(9, &bytes[1..]).unwrap_err(), ProtoError::UnknownCodeKind(9));
}

#[test]
fn ack_checks() {
    assert_eq!(check_ack(&[ACK]), Ok(()));
    assert_eq!(check_ack(&[ACK, 7]), Ok(()));
    assert_eq!(check_ack(&[]), Err(ProtoError::Truncated));
    assert_eq!(check_ack(&[0]), Err(ProtoError::UnexpectedAck(0)));
}

#[test]
fn routing_bytes() {
    assert_eq!(route_stream(0x10), StreamRoute::SyncPoll);
    assert_eq!(route_stream(0x12), StreamRoute::SyncAll);
    assert_eq!(route_stream(0), StreamRoute::Scan(0));
    assert_eq!(route_stream(1), StreamRoute::Scan(1));
    assert_eq!(route_stream(0x11), StreamRoute::Scan(0x11));
}

#[test]
fn poll_request_layout_and_roundtrip() {
    let codes = vec!["ab".to_string(), String::new(), "ü".to_string()];
    let bytes = encode_sync_poll_request(&codes);
    assert_eq!(
        bytes,
        vec![0x10, 0, 0, 0, 3, 0, 0, 0, 2, b'a', b'b', 0, 0, 0, 0, 0, 0, 0, 2, 0xc3, 0xbc]
    );
    assert_eq!(decode_sync_poll_request(&bytes[1..]).unwrap(), codes);
}

#[test]
fn poll_request_errors() {
    assert_eq!(decode_sync_poll_request(&[0, 0]).unwrap_err(), ProtoError::Truncated);
    assert_eq!(
        decode_sync_poll_request(&[0, 0, 0x27, 0x11]).unwrap_err(),
        ProtoError::TooManyEntries(MAX_ENTRIES + 1)
    );
    assert_eq!(decode_sync_poll_request(&[0, 0, 0, 1, 0, 0]).unwrap_err(), ProtoError::Truncated);
    assert_eq!(
        decode_sync_poll_request(&[0, 0, 0, 1, 0, 0, 0, 1, 0x80]).unwrap_err(),
        ProtoError::NotUtf8
    );
    assert_eq!(decode_sync_poll_request(&[0, 0, 0, 0]).unwrap(), Vec::<String>::new());
}

#[test]
fn poll_reply_roundtrip() {
    let entries = vec![("a".to_string(), true), ("bc".to_string(), false)];
    let bytes = encode_sync_poll_reply(&entries);
    assert_eq!(bytes, vec![0, 0, 0, 2, 0, 0, 0, 1, b'a', 1, 0, 0, 0, 2, b'b', b'c', 0]);
    assert_eq!(decode_sync_poll_reply(&bytes).unwrap(), entries);
}

#[test]
fn poll_reply_reads_any_nonzero_byte_as_checked() {
    let got = decode_sync_poll_reply(&[0, 0, 0, 1, 0, 0, 0, 1, b'z', 7]).unwrap();
    assert_eq!(got, vec![("z".to_string(), true)]);
    assert_eq!(decode_sync_poll_reply(&[0, 0, 0, 1, 0, 0, 0, 1, b'z']).unwrap_err(), ProtoError::Truncated);
}

#[test]
fn sync_all_roundtrip() {
    assert_eq!(encode_sync_all_request(), vec![0x12]);
    let entries = vec![("k".to_string(), 1u8, false), ("m".to_string(), 0u8, true)];
    let bytes = encode_sync_all_reply(&entries);
    assert_eq!(bytes, vec![0, 0, 0, 2, 0, 0, 0, 1, b'k', 1, 0, 0, 0, 0, 1, b'm', 0, 1]);
    assert_eq!(
        decode_sync_all_reply(&bytes).unwrap(),
        vec![("k".to_string(), CodeKind::QrCode, false), ("m".to_string(), CodeKind::Barcode, true)]
    );
}

#[test]
fn sync_all_errors() {
    assert_eq!(
        decode_sync_all_reply(&[0, 0, 0, 1, 0, 0, 0, 1, b'k', 5, 0]).unwrap_err(),
        ProtoError::UnknownCodeKind(5)
    );
    assert_eq!(decode_sync_all_reply(&[0, 0, 0, 1, 0, 0, 0, 1, b'k', 1]).unwrap_err(), ProtoError::Truncated);
    assert_eq!(decode_sync_all_reply(&[0, 0, 0, 1, 0, 0, 0, 1, b'k']).unwrap_err(), ProtoError::Truncated);
    assert_eq!(decode_sync_all_reply(&[]).unwrap_err(), ProtoError::Truncated);
}

#[test]
fn alpn_name() {
    assert_eq!(barcode_proto::sync::alpn(), b"barcodescan/0".to_vec());
}
