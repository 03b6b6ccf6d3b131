use vstd::prelude::*;
use vstd::utf8::*;
use vstd::string::*;

verus! {

/// `String::from_utf8` (std): the standard library documents that it succeeds
/// exactly when the bytes are well-formed UTF-8, and that the string then
/// holds the characters those bytes encode.
#[verifier::external_body]
pub(crate) fn string_from_utf8(bytes: Vec<u8>) -> (r: Option<String>)
    ensures
        r is Some <==> valid_utf8(bytes@),
        r matches Some(s) ==> s@ == decode_utf8(bytes@),
{
    String::from_utf8(bytes).ok()
}

/// The UTF-8 bytes of a string, copied into a vector.
pub fn utf8_bytes(s: &str) -> (r: Vec<u8>)
    ensures
        r@ == encode_utf8(s@),
{
    let b = s.as_bytes();
    vstd::slice::slice_to_vec(b)
}

/// The bytes that stand for the characters of an ASCII sequence, one each.
pub open spec fn ascii_bytes(chars: Seq<char>) -> Seq<u8> {
    chars.map_values(|c: char| c as u8)
}

/// An ASCII sequence is its own UTF-8 encoding, byte for character.
pub proof fn lemma_ascii_encoding(chars: Seq<char>)
    requires
        is_ascii_chars(chars),
    ensures
        encode_utf8(chars) == ascii_bytes(chars),
        valid_utf8(ascii_bytes(chars)),
        decode_utf8(ascii_bytes(chars)) == chars,
{
    is_ascii_chars_encode_utf8(chars);
    assert(encode_utf8(chars) =~= ascii_bytes(chars));
    encode_utf8_valid_utf8(chars);
    encode_utf8_decode_utf8(chars);
}

/// Turns the bytes of ASCII characters into the string of those characters.
pub(crate) fn ascii_string(bytes: Vec<u8>, Ghost(chars): Ghost<Seq<char>>) -> (r: String)
    requires
        is_ascii_chars(chars),
        bytes@ == ascii_bytes(chars),
    ensures
        r@ == chars,
{
    proof {
        lemma_ascii_encoding(chars);
    }
    match string_from_utf8(bytes) {
        Some(s) => s,
        None => {
            proof {
                assert(false);
            }
            String::new()
        },
    }
}

} // verus!
