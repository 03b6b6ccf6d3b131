//! Card numbers: the digits of a scanned code, cut to the format of the shop.

use vstd::prelude::*;
use vstd::utf8::*;
use crate::error::ProtoError;
use crate::kind::CodeKind;
use crate::text::{ascii_bytes, ascii_string};

verus! {

/// An ASCII digit, `'0'` to `'9'`.
pub open spec fn is_digit(c: char) -> bool {
    '0' <= c && c <= '9'
}

/// The ASCII digits of a code, in order; everything else is dropped.
pub open spec fn digits_of(code: Seq<char>) -> Seq<char> {
    code.filter(|c: char| is_digit(c))
}

/// The card number carried by a code, by the number `n` of its digits `d`:
/// no digits is refused; 39 digits give the first 13; 38 or 36 digits drop
/// the first 18; 10 to 32 digits are kept whole; any other count is refused.
pub open spec fn spec_card_number(code: Seq<char>) -> Result<Seq<char>, ProtoError> {
    let d = digits_of(code);
    let n = d.len();
    if n == 0 {
        Err(ProtoError::NoDigits)
    } else if n == 39 {
        Ok(d.take(13))
    } else if n == 38 || n == 36 {
        Ok(d.skip(18))
    } else if 10 <= n <= 32 {
        Ok(d)
    } else {
        Err(ProtoError::UnrecognisedDigitCount(n as usize))
    }
}

/// A sequence of ASCII digits only.
pub open spec fn all_digits(s: Seq<char>) -> bool {
    forall|i: int| 0 <= i < s.len() ==> is_digit(#[trigger] s[i])
}

/// The digits of a code are digits, no more of them than the code has characters.
pub proof fn lemma_digits_of(code: Seq<char>)
    ensures
        all_digits(digits_of(code)),
        digits_of(code).len() <= code.len(),
        is_ascii_chars(digits_of(code)),
{
    let d = digits_of(code);
    code.lemma_filter_len(|c: char| is_digit(c));
    assert forall|i: int| 0 <= i < d.len() implies is_digit(#[trigger] d[i]) by {
        code.lemma_filter_pred(|c: char| is_digit(c), i);
    }
}

/// Adding one character to a code adds it to the digits when it is a digit.
proof fn lemma_digits_step(code: Seq<char>, i: int)
    requires
        0 <= i < code.len(),
    ensures
        digits_of(code.take(i + 1)) == if is_digit(code[i]) {
            digits_of(code.take(i)).push(code[i])
        } else {
            digits_of(code.take(i))
        },
{
    reveal(Seq::filter);
    assert(code.take(i + 1).drop_last() =~= code.take(i));
    assert(code.take(i + 1).last() == code[i]);
}

/// The ASCII digits of a code, as a string.
pub fn digits(code: &str) -> (r: String)
    ensures
        r@ == digits_of(code@),
{
    broadcast use vstd::string::group_string_axioms;
    let mut bytes: Vec<u8> = Vec::new();
    let ghost mut d: Seq<char> = Seq::empty();
    for c in it: code.chars()
        invariant
            it.seq() == code@,
            d == digits_of(code@.take(it.index())),
            bytes@ == ascii_bytes(d),
    {
        proof {
            lemma_digits_step(code@, it.index());
        }
        if '0' <= c && c <= '9' {
            bytes.push(c as u8);
            proof {
                d = d.push(c);
            }
            assert(bytes@ =~= ascii_bytes(d));
        }
    }
    assert(code@.take(code@.len() as int) =~= code@);
    proof {
        lemma_digits_of(code@);
    }
    ascii_string(bytes, Ghost(d))
}

/// Extracts and validates the card number of a scanned code.
///
/// Only the ASCII digits of the code count. A REWE code of 39 digits gives
/// its first 13; an ALDI or LIDL code of 38 or 36 digits drops its first 18;
/// any other code of 10 to 32 digits is kept whole. The kind of code plays no
/// part.
pub fn extract_card_number(kind: CodeKind, code: &str) -> (r: Result<String, ProtoError>)
    ensures
        match r {
            Ok(s) => spec_card_number(code@) == Ok::<Seq<char>, ProtoError>(s@),
            Err(e) => spec_card_number(code@) == Err::<Seq<char>, ProtoError>(e),
        },
{
    let _ = kind;
    let d = digits(code);
    let ds = d.as_str();
    let n = ds.unicode_len();
    proof {
        lemma_digits_of(code@);
    }
    if n == 0 {
        Err(ProtoError::NoDigits)
    } else if n == 39 {
        Ok(ds.substring_ascii(0, 13).to_owned())
    } else if n == 38 || n == 36 {
        Ok(ds.substring_ascii(18, n).to_owned())
    } else if 10 <= n && n <= 32 {
        Ok(d)
    } else {
        Err(ProtoError::UnrecognisedDigitCount(n))
    }
}

/// A sequence of digits only is its own digits.
pub proof fn lemma_digits_of_digits(s: Seq<char>)
    requires
        all_digits(s),
    ensures
        digits_of(s) == s,
    decreases s.len(),
{
    reveal(Seq::filter);
    if s.len() > 0 {
        assert(all_digits(s.drop_last()));
        lemma_digits_of_digits(s.drop_last());
        assert(s.drop_last().push(s.last()) =~= s);
    }
}

/// A card number that extraction gives is 10 to 32 ASCII digits, and
/// extracting again gives it back unchanged.
pub proof fn law_card_number_idempotent(code: Seq<char>)
    requires
        spec_card_number(code) is Ok,
    ensures
        all_digits(spec_card_number(code)->Ok_0),
        10 <= spec_card_number(code)->Ok_0.len() <= 32,
        spec_card_number(spec_card_number(code)->Ok_0) == spec_card_number(code),
{
    lemma_digits_of(code);
    let c = spec_card_number(code)->Ok_0;
    assert(all_digits(c));
    lemma_digits_of_digits(c);
}

/// What extraction gives, by the number of ASCII digits in the code: with no
/// digit it refuses; with 39 digits it gives the first 13 of them; with 38 or
/// 36 it gives all but the first 18; with 10 to 32 it gives all of them, in
/// order; with any other count it refuses, naming the count.
pub proof fn law_card_number_by_digit_count(code: Seq<char>)
    ensures
        ({
            let d = digits_of(code);
            let n = d.len();
            &&& n == 0 ==> spec_card_number(code) == Err::<Seq<char>, ProtoError>(ProtoError::NoDigits)
            &&& n == 39 ==> (spec_card_number(code) matches Ok(r) && r.len() == 13 && forall|i: int|
                0 <= i < 13 ==> r[i] == d[i])
            &&& (n == 38 || n == 36) ==> (spec_card_number(code) matches Ok(r) && r.len() == n - 18
                && forall|i: int| 0 <= i < n - 18 ==> r[i] == d[i + 18])
            &&& 10 <= n <= 32 ==> spec_card_number(code) == Ok::<Seq<char>, ProtoError>(d)
            &&& (n != 0 && n != 36 && n != 38 && n != 39 && !(10 <= n <= 32)) ==> spec_card_number(
                code,
            ) == Err::<Seq<char>, ProtoError>(ProtoError::UnrecognisedDigitCount(n as usize))
        }),
{
}

} // verus!
