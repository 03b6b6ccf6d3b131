//! The scan stream: a scanned code and its photo, sent from the phone.
//!
//! Wire format: `kind(u8) | code_len(u32 BE) | code | image_len(u32 BE) | image_jpeg`,
//! answered by the receiver with the single byte `ACK`.

use vstd::prelude::*;
use vstd::utf8::*;
use crate::card::{extract_card_number, spec_card_number};
use crate::error::ProtoError;
use crate::kind::{spec_kind_byte, spec_kind_of, CodeKind};
use crate::wire::{
    lemma_len_prefix_small, lemma_read_code_field, lemma_read_u32_prefix, MAX_CODE_LEN,
    be_bytes, code_field, get_code, get_u32_be, len_prefix, push_bytes, push_code, push_len_prefix,
    read_code, read_u32, MAX_IMAGE_LEN,
};

verus! {

/// The byte with which a receiver acknowledges a scan.
pub const ACK: u8 = 0x01;

/// A scanned code with its image and the card number extracted from it.
#[derive(Debug, Clone)]
pub struct ScanResult {
    pub kind: CodeKind,
    pub code: String,
    pub image_jpeg: Vec<u8>,
    /// Card number extracted and validated from the code (`None` if extraction failed).
    pub extracted_card: Option<String>,
}

/// A scan as plain values.
#[verifier::ext_equal]
pub struct ScanView {
    pub kind: CodeKind,
    pub code: Seq<char>,
    pub image: Seq<u8>,
    pub extracted_card: Option<Seq<char>>,
}

/// The characters of an optional string.
pub open spec fn opt_string_view(s: Option<String>) -> Option<Seq<char>> {
    match s {
        Some(t) => Some(t@),
        None => None,
    }
}

impl View for ScanResult {
    type V = ScanView;

    open spec fn view(&self) -> ScanView {
        ScanView {
            kind: self.kind,
            code: self.code@,
            image: self.image_jpeg@,
            extracted_card: opt_string_view(self.extracted_card),
        }
    }
}

/// The card number of a code, or `None` where extraction refuses it.
pub open spec fn card_of(code: Seq<char>) -> Option<Seq<char>> {
    match spec_card_number(code) {
        Ok(c) => Some(c),
        Err(_) => None,
    }
}

/// The bytes a scanner writes for a scan.
pub open spec fn scan_frame(kind: CodeKind, code: Seq<char>, image: Seq<u8>) -> Seq<u8> {
    seq![spec_kind_byte(kind)] + code_field(code) + be_bytes(len_prefix(image.len())) + image
}

/// What a receiver makes of the bytes of a scan stream that follow the kind byte.
pub open spec fn spec_decode_scan_body(kind_byte: u8, buf: Seq<u8>) -> Result<ScanView, ProtoError> {
    match spec_kind_of(kind_byte) {
        None => Err(ProtoError::UnknownCodeKind(kind_byte)),
        Some(kind) => match read_code(buf, 0) {
            Err(e) => Err(e),
            Ok((code, p)) => match read_u32(buf, p) {
                None => Err(ProtoError::Truncated),
                Some(m) => if m > MAX_IMAGE_LEN {
                    Err(ProtoError::ImageTooLarge(m))
                } else if p + 4 + m > buf.len() {
                    Err(ProtoError::Truncated)
                } else {
                    Ok(
                        ScanView {
                            kind,
                            code,
                            image: buf.subrange(p + 4, p + 4 + m),
                            extracted_card: card_of(code),
                        },
                    )
                },
            },
        },
    }
}

/// What a receiver makes of a whole scan stream, kind byte included.
pub open spec fn spec_decode_scan(buf: Seq<u8>) -> Result<ScanView, ProtoError> {
    if buf.len() == 0 {
        Err(ProtoError::Truncated)
    } else {
        spec_decode_scan_body(buf[0], buf.skip(1))
    }
}

/// What a scanner makes of the receiver's reply to a scan.
pub open spec fn spec_check_ack(reply: Seq<u8>) -> Result<(), ProtoError> {
    if reply.len() == 0 {
        Err(ProtoError::Truncated)
    } else if reply[0] != ACK {
        Err(ProtoError::UnexpectedAck(reply[0]))
    } else {
        Ok(())
    }
}

/// What a scanner sends for a scan, a receiver reads back as the same kind,
/// code and image, with the card number extracted from the code, whenever the
/// code's UTF-8 length and the image's length are within the receiver's limits.
pub proof fn law_scan_roundtrip(kind: CodeKind, code: Seq<char>, image: Seq<u8>)
    requires
        encode_utf8(code).len() <= MAX_CODE_LEN,
        image.len() <= MAX_IMAGE_LEN,
    ensures
        spec_decode_scan(scan_frame(kind, code, image)) == Ok::<ScanView, ProtoError>(
            ScanView { kind, code, image, extracted_card: card_of(code) },
        ),
{
    let frame = scan_frame(kind, code, image);
    let body = frame.skip(1);
    let f = code_field(code);
    let m = image.len();
    lemma_len_prefix_small(m);
    assert(body =~= f + be_bytes(m as u32) + image);
    assert(body.subrange(0, f.len() as int) =~= f);
    lemma_read_code_field(code, body, 0);
    let p = f.len() as int;
    assert(body.subrange(p, p + 4) =~= be_bytes(m as u32));
    lemma_read_u32_prefix(m as u32, body, p);
    assert(body.subrange(p + 4, p + 4 + m) =~= image);
}

/// A reply of the acknowledgement byte is accepted by the scanner.
pub proof fn law_ack_accepted()
    ensures
        spec_check_ack(seq![ACK]) == Ok::<(), ProtoError>(()),
{
}

impl CodeKind {
    /// The byte that stands for the kind on the wire.
    pub fn to_u8(&self) -> (r: u8)
        ensures
            r == spec_kind_byte(*self),
    {
        match self {
            CodeKind::Barcode => 0,
            CodeKind::QrCode => 1,
        }
    }
}

/// The kind that a phone platform's integer code names: 1 is a QR code;
/// 0, and any unknown value, a barcode.
pub fn kind_from_platform(kind: i32) -> (r: CodeKind)
    ensures
        kind == 1 ==> r == CodeKind::QrCode,
        kind != 1 ==> r == CodeKind::Barcode,
{
    match kind {
        1 => CodeKind::QrCode,
        _ => CodeKind::Barcode,
    }
}

impl ScanResult {
    /// A scan as the phone sends it: the card number is left to the receiver.
    pub fn outgoing(kind: CodeKind, code: String, image_jpeg: Vec<u8>) -> (r: ScanResult)
        ensures
            r.kind == kind,
            r.code@ == code@,
            r.image_jpeg@ == image_jpeg@,
            r.extracted_card is None,
    {
        ScanResult { kind, code, image_jpeg, extracted_card: None }
    }
}

/// Scanner side: the bytes to write on a fresh stream for a scan. The
/// extracted card number is not sent; the receiver works it out itself.
pub fn encode_scan(result: &ScanResult) -> (r: Vec<u8>)
    ensures
        r@ == scan_frame(result.kind, result.code@, result.image_jpeg@),
{
    let mut out: Vec<u8> = Vec::new();
    out.push(result.kind.to_u8());
    push_code(&mut out, result.code.as_str());
    push_len_prefix(&mut out, result.image_jpeg.len());
    push_bytes(&mut out, result.image_jpeg.as_slice());
    assert(out@ =~= scan_frame(result.kind, result.code@, result.image_jpeg@));
    out
}

/// Receiver side: reads a scan from the bytes of a stream whose kind byte the
/// caller has already taken, and extracts its card number. Bytes after the
/// image are ignored.
pub fn recv_scan_with_kind(kind_byte: u8, body: &[u8]) -> (r: Result<ScanResult, ProtoError>)
    ensures
        match r {
            Ok(s) => spec_decode_scan_body(kind_byte, body@) == Ok::<ScanView, ProtoError>(s@),
            Err(e) => spec_decode_scan_body(kind_byte, body@) == Err::<ScanView, ProtoError>(e),
        },
{
    let kind = match CodeKind::from_u8(kind_byte) {
        Ok(k) => k,
        Err(e) => return Err(e),
    };
    let (code, p) = match get_code(body, 0) {
        Ok(x) => x,
        Err(e) => return Err(e),
    };
    let m = match get_u32_be(body, p) {
        None => return Err(ProtoError::Truncated),
        Some(m) => m,
    };
    if m > MAX_IMAGE_LEN {
        return Err(ProtoError::ImageTooLarge(m));
    }
    let blen = body.len();
    assert(p + 4 <= blen);
    let start = p + 4;
    let len = m as usize;
    if blen - start < len {
        return Err(ProtoError::Truncated);
    }
    let end = start + len;
    let image_jpeg = vstd::slice::slice_to_vec(vstd::slice::slice_subrange(body, start, end));
    let extracted_card = match extract_card_number(kind, code.as_str()) {
        Ok(c) => Some(c),
        Err(_) => None,
    };
    let result = ScanResult { kind, code, image_jpeg, extracted_card };
    assert(result@ =~= spec_decode_scan_body(kind_byte, body@).unwrap());
    Ok(result)
}

/// Receiver side: reads a scan from a whole stream, kind byte included.
pub fn recv_scan(stream: &[u8]) -> (r: Result<ScanResult, ProtoError>)
    ensures
        match r {
            Ok(s) => spec_decode_scan(stream@) == Ok::<ScanView, ProtoError>(s@),
            Err(e) => spec_decode_scan(stream@) == Err::<ScanView, ProtoError>(e),
        },
{
    if stream.len() == 0 {
        return Err(ProtoError::Truncated);
    }
    let body = vstd::slice::slice_subrange(stream, 1, stream.len());
    assert(body@ =~= stream@.skip(1));
    recv_scan_with_kind(stream[0], body)
}

/// Scanner side: checks the receiver's reply to a scan.
pub fn check_ack(reply: &[u8]) -> (r: Result<(), ProtoError>)
    ensures
        r == spec_check_ack(reply@),
{
    if reply.len() == 0 {
        Err(ProtoError::Truncated)
    } else if reply[0] != ACK {
        Err(ProtoError::UnexpectedAck(reply[0]))
    } else {
        Ok(())
    }
}

} // verus!
