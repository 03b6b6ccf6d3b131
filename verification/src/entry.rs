//! A row of the receiver's scan table, made from a received scan.

use base64::Engine;
use vstd::prelude::*;
use crate::display::{format_display_code, spec_display_code};
use crate::card::digits_of;
use crate::scan::{opt_string_view, ScanResult};
use crate::shops::{detect_shops, shop_names, shops_with_count, strs_view};

verus! {

/// The character of a six-bit value in the standard base64 alphabet
/// (RFC 4648): `A`-`Z`, `a`-`z`, `0`-`9`, `+`, `/`.
pub open spec fn base64_char(v: int) -> char {
    if v < 26 {
        (65 + v) as char
    } else if v < 52 {
        (97 + (v - 26)) as char
    } else if v < 62 {
        (48 + (v - 52)) as char
    } else if v == 62 {
        '+'
    } else {
        '/'
    }
}

/// The standard base64 text (RFC 4648 alphabet, with `=` padding) of some
/// bytes: each group of three bytes, read as 24 bits, gives four characters of
/// six bits each; a last group of two bytes gives three characters and `=`,
/// of one byte two characters and `==`.
pub open spec fn spec_base64(bytes: Seq<u8>) -> Seq<char>
    decreases bytes.len(),
{
    if bytes.len() == 0 {
        Seq::empty()
    } else if bytes.len() == 1 {
        let a = bytes[0] as int;
        seq![base64_char(a / 4), base64_char((a % 4) * 16), '=', '=']
    } else if bytes.len() == 2 {
        let a = bytes[0] as int;
        let b = bytes[1] as int;
        seq![base64_char(a / 4), base64_char((a % 4) * 16 + b / 16), base64_char((b % 16) * 4), '=']
    } else {
        let a = bytes[0] as int;
        let b = bytes[1] as int;
        let c = bytes[2] as int;
        seq![
            base64_char(a / 4),
            base64_char((a % 4) * 16 + b / 16),
            base64_char((b % 16) * 4 + c / 64),
            base64_char(c % 64),
        ] + spec_base64(bytes.skip(3))
    }
}

/// `base64::engine::general_purpose::STANDARD.encode` (base64 0.22): the
/// standard, padded base64 text of the bytes. The crate panics where the
/// length of that text (`encoded_len` with padding) overflows `usize`, which
/// `requires` rules out.
#[verifier::external_body]
fn base64_standard(bytes: &[u8]) -> (r: String)
    requires
        bytes@.len() / 3 * 4 + 4 <= usize::MAX,
    ensures
        r@ == spec_base64(bytes@),
{
    base64::engine::general_purpose::STANDARD.encode(bytes)
}

/// A scan as the receiver lists it.
#[derive(Debug, Clone)]
pub struct ScanEntry {
    /// The kind's label.
    pub kind: String,
    pub code: String,
    /// Card number extracted and validated from the code.
    pub extracted_card: Option<String>,
    /// The photo as base64 text; empty when there is no photo.
    pub image_b64: String,
    pub timestamp: String,
    /// Names of the shops whose codes have as many digits as this one.
    pub detected_shops: Vec<&'static str>,
    /// Checked off (hidden) by the user.
    pub hidden: bool,
    /// The code as shown.
    pub display_code: String,
    /// The sort number being typed.
    pub manual_count: String,
    /// The sort number in force.
    pub sort_count: String,
    /// A note of the card's value.
    pub card_value: String,
}

/// The image text of a scan: empty without a photo, base64 otherwise.
pub open spec fn spec_image_text(image: Seq<u8>) -> Seq<char> {
    if image.len() == 0 {
        Seq::empty()
    } else {
        spec_base64(image)
    }
}

/// The label of a kind.
pub open spec fn spec_kind_label(k: crate::kind::CodeKind) -> Seq<char> {
    match k {
        crate::kind::CodeKind::Barcode => "Barcode"@,
        crate::kind::CodeKind::QrCode => "QR Code"@,
    }
}

impl ScanEntry {
    /// The table row for a scan that has just arrived at `timestamp`:
    /// unchecked, unsorted and without a value note.
    pub fn from_scan(result: &ScanResult, timestamp: String) -> (r: ScanEntry)
        requires
            result.image_jpeg@.len() / 3 * 4 + 4 <= usize::MAX,
        ensures
            r.kind@ == spec_kind_label(result.kind),
            r.code@ == result.code@,
            opt_string_view(r.extracted_card) == opt_string_view(result.extracted_card),
            r.image_b64@ == spec_image_text(result.image_jpeg@),
            r.timestamp@ == timestamp@,
            strs_view(r.detected_shops@) == shop_names(
                shops_with_count(digits_of(result.code@).len()),
            ),
            !r.hidden,
            r.display_code@ == spec_display_code(result.code@),
            r.manual_count@ == Seq::<char>::empty(),
            r.sort_count@ == Seq::<char>::empty(),
            r.card_value@ == Seq::<char>::empty(),
    {
        let image_b64 = if result.image_jpeg.len() == 0 {
            String::new()
        } else {
            base64_standard(result.image_jpeg.as_slice())
        };
        let extracted_card = match &result.extracted_card {
            Some(c) => Some(c.clone()),
            None => None,
        };
        ScanEntry {
            kind: result.kind.as_str().to_owned(),
            code: result.code.clone(),
            extracted_card,
            image_b64,
            timestamp,
            detected_shops: detect_shops(result.code.as_str()),
            hidden: false,
            display_code: format_display_code(result.code.as_str()),
            manual_count: String::new(),
            sort_count: String::new(),
            card_value: String::new(),
        }
    }
}

} // verus!
