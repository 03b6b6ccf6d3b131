use vstd::prelude::*;
use crate::error::ProtoError;

verus! {

/// What kind of code the scanner read.
#[derive(Debug, Clone, Copy, PartialEq, Eq, Structural)]
pub enum CodeKind {
    Barcode,
    QrCode,
}

/// The byte that stands for a kind on the wire.
pub open spec fn spec_kind_byte(k: CodeKind) -> u8 {
    match k {
        CodeKind::Barcode => 0,
        CodeKind::QrCode => 1,
    }
}

/// The kind that a wire byte stands for, if any.
pub open spec fn spec_kind_of(b: u8) -> Option<CodeKind> {
    if b == 0 {
        Some(CodeKind::Barcode)
    } else if b == 1 {
        Some(CodeKind::QrCode)
    } else {
        None
    }
}

/// A barcode is the byte 0 on the wire and a QR code the byte 1.
pub proof fn law_kind_bytes()
    ensures
        spec_kind_byte(CodeKind::Barcode) == 0,
        spec_kind_byte(CodeKind::QrCode) == 1,
        spec_kind_of(0) == Some(CodeKind::Barcode),
        spec_kind_of(1) == Some(CodeKind::QrCode),
{
}

/// Every kind's byte reads back as that kind, and only the bytes 0 and 1 stand for a kind.
pub proof fn law_kind_byte_roundtrip(k: CodeKind, b: u8)
    ensures
        spec_kind_of(spec_kind_byte(k)) == Some(k),
        spec_kind_of(b) is Some <==> b <= 1,
        spec_kind_of(b) matches Some(j) ==> spec_kind_byte(j) == b,
{
}

impl CodeKind {
    /// Reads a kind from its wire byte.
    pub fn from_u8(v: u8) -> (r: Result<CodeKind, ProtoError>)
        ensures
            match spec_kind_of(v) {
                Some(k) => r == Ok::<CodeKind, ProtoError>(k),
                None => r == Err::<CodeKind, ProtoError>(ProtoError::UnknownCodeKind(v)),
            },
    {
        match v {
            0 => Ok(CodeKind::Barcode),
            1 => Ok(CodeKind::QrCode),
            other => Err(ProtoError::UnknownCodeKind(other)),
        }
    }

    /// The human-readable label of the kind.
    pub fn as_str(&self) -> (r: &'static str)
        ensures
            *self == CodeKind::Barcode ==> r@ == "Barcode"@,
            *self == CodeKind::QrCode ==> r@ == "QR Code"@,
    {
        match self {
            CodeKind::Barcode => "Barcode",
            CodeKind::QrCode => "QR Code",
        }
    }
}

} // verus!
