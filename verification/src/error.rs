use vstd::prelude::*;

verus! {

/// Why a byte, a frame or a scanned code was refused.
#[derive(Debug, Clone, Copy, PartialEq, Eq, Structural)]
pub enum ProtoError {
    /// A kind byte other than 0 (barcode) or 1 (QR code).
    UnknownCodeKind(u8),
    /// The stream ended before a field that the frame announces.
    Truncated,
    /// A code's length prefix exceeds the limit on code length.
    CodeTooLarge(u32),
    /// An image's length prefix exceeds the limit on image length.
    ImageTooLarge(u32),
    /// A count prefix exceeds the limit on the number of entries.
    TooManyEntries(u32),
    /// A code's bytes are not well-formed UTF-8.
    NotUtf8,
    /// The receiver answered a scan with a byte other than the acknowledgement.
    UnexpectedAck(u8),
    /// The scanned code holds no ASCII digit.
    NoDigits,
    /// The scanned code holds a number of digits that no card format has.
    UnrecognisedDigitCount(usize),
}

} // verus!
