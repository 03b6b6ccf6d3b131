//! The QR code that the receiver shows for the phone to scan and connect.

use iroh_tickets::Ticket;
use iroh_tickets::endpoint::EndpointTicket;
use vstd::prelude::*;
use vstd::utf8::*;
use crate::scan::opt_string_view;
use crate::text::utf8_bytes;

verus! {

/// A connection ticket: the receiver's endpoint id and addresses.
#[verifier::external_type_specification]
#[verifier::external_body]
pub struct ExEndpointTicket(EndpointTicket);

/// The endpoint ticket whose string form a text is, if it is one.
pub uninterp spec fn spec_ticket_of(text: Seq<char>) -> Option<EndpointTicket>;

/// `<EndpointTicket as Ticket>::decode_string` (iroh-tickets 1.0): the ticket
/// that the text encodes, a function of the text alone (`None` where the crate
/// returns an error); the crate's source refuses any text that does not start
/// with the kind prefix `endpoint`.
#[verifier::external_body]
fn decode_ticket_string(text: &str) -> (r: Option<EndpointTicket>)
    ensures
        r == spec_ticket_of(text@),
        r is Some ==> text@.len() >= 8 && text@.take(8) == "endpoint"@,
{
    EndpointTicket::decode_string(text).ok()
}

/// Phone side: reads the ticket that the phone scanned off the receiver's
/// screen; `None` if the text is no endpoint ticket.
pub fn parse_ticket(text: &str) -> (r: Option<EndpointTicket>)
    ensures
        r == spec_ticket_of(text@),
        r is Some ==> text@.len() >= 8 && text@.take(8) == "endpoint"@,
{
    decode_ticket_string(text)
}

/// Least width and height, in pixels, of the pairing QR code.
pub const QR_MIN_SIZE: u32 = 280;

/// The SVG image of the QR code that encodes `data`, drawn at least
/// `min_size` pixels wide and high, or `None` where no QR code can hold `data`.
pub uninterp spec fn spec_qr_svg(data: Seq<u8>, min_size: u32) -> Option<Seq<char>>;

/// `qrcode::QrCode::new` (qrcode 0.14) on the data, then the SVG renderer of
/// that code with `min_dimensions(min_size, min_size)` and `build`. `None`
/// exactly where `QrCode::new` returns an error (data too long for any QR
/// version). The size is kept small so that the renderer's pixel arithmetic
/// stays within `u32`.
#[verifier::external_body]
fn qr_svg(data: &[u8], min_size: u32) -> (r: Option<String>)
    requires
        min_size <= 10_000,
    ensures
        opt_string_view(r) == spec_qr_svg(data@, min_size),
{
    match qrcode::QrCode::new(data) {
        Ok(code) => Some(
            code.render::<qrcode::render::svg::Color>().min_dimensions(min_size, min_size).build(),
        ),
        Err(_) => None,
    }
}

/// The SVG of the QR code that encodes a connection ticket's text, at the
/// size the receiver shows it; `None` if the ticket is too long for a QR code.
pub fn ticket_qr_svg(ticket: &str) -> (r: Option<String>)
    ensures
        opt_string_view(r) == spec_qr_svg(encode_utf8(ticket@), QR_MIN_SIZE),
{
    let bytes = utf8_bytes(ticket);
    qr_svg(bytes.as_slice(), QR_MIN_SIZE)
}

} // verus!
