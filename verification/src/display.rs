//! How the receiver shows a scan: the code as displayed, the numbers offered
//! for copying, the time of arrival, and which row stays selected.

use vstd::prelude::*;
use crate::card::{digits, digits_of, lemma_digits_of};
use crate::text::{ascii_bytes, ascii_string};

verus! {

/// The code as the receiver shows it, by the number `n` of its digits `d`:
/// 39 digits show the first 13; 38 or 36 digits drop the first 18; any other
/// code (a DM code of 24 digits, a REWE code of 13, an EDEKA code of 32) is
/// shown as scanned.
pub open spec fn spec_display_code(code: Seq<char>) -> Seq<char> {
    let d = digits_of(code);
    let n = d.len();
    if n == 39 {
        d.take(13)
    } else if n == 38 || n == 36 {
        d.skip(18)
    } else {
        code
    }
}

/// Formats a scanned code for display.
pub fn format_display_code(code: &str) -> (r: String)
    ensures
        r@ == spec_display_code(code@),
{
    let d = digits(code);
    let ds = d.as_str();
    let n = ds.unicode_len();
    proof {
        lemma_digits_of(code@);
    }
    if n == 39 {
        ds.substring_ascii(0, 13).to_owned()
    } else if n == 38 || n == 36 {
        ds.substring_ascii(18, n).to_owned()
    } else {
        code.to_owned()
    }
}

/// The displayed code is the card number for the codes of 39, 38 and 36
/// digits; every other code, those of 32 digits included, is shown as scanned.
pub proof fn law_display_mirrors_card_number(code: Seq<char>)
    ensures
        digits_of(code).len() == 39 || digits_of(code).len() == 38 || digits_of(code).len() == 36
            ==> crate::card::spec_card_number(code) == Ok::<Seq<char>, crate::error::ProtoError>(
            spec_display_code(code),
        ),
        digits_of(code).len() != 39 && digits_of(code).len() != 38 && digits_of(code).len() != 36
            ==> spec_display_code(code) == code,
        digits_of(code).len() == 32 ==> spec_display_code(code) == code,
{
}

/// For a code of 32 digits: all of them (the DM card number), and the two
/// EDEKA numbers, digits 11 to 15 and the digits from 18 on.
pub open spec fn spec_split_32(code: Seq<char>) -> Option<(Seq<char>, Seq<char>, Seq<char>)> {
    let d = digits_of(code);
    if d.len() == 32 {
        Some((d, d.subrange(11, 16), d.skip(18)))
    } else {
        None
    }
}

/// What the receiver shows of a code, by the number of its ASCII digits: with
/// 39 digits the first 13 of them; with 38 or 36 all but the first 18; with
/// any other count the code itself, unchanged.
pub proof fn law_display_code_by_digit_count(code: Seq<char>)
    ensures
        ({
            let d = digits_of(code);
            let n = d.len();
            &&& n == 39 ==> spec_display_code(code).len() == 13 && forall|i: int|
                0 <= i < 13 ==> spec_display_code(code)[i] == d[i]
            &&& (n == 38 || n == 36) ==> spec_display_code(code).len() == n - 18 && forall|i: int|
                0 <= i < n - 18 ==> spec_display_code(code)[i] == d[i + 18]
            &&& (n != 39 && n != 38 && n != 36) ==> spec_display_code(code) == code
        }),
{
}

/// The numbers offered for copying from a code of exactly 32 ASCII digits: all
/// 32 digits (DM); the five digits at positions 11 to 15 (first EDEKA number);
/// the fourteen digits from position 18 on (second EDEKA number). A code with
/// any other number of digits offers none.
pub proof fn law_split_32_digit_code(code: Seq<char>)
    ensures
        ({
            let d = digits_of(code);
            &&& d.len() != 32 ==> spec_split_32(code) is None
            &&& d.len() == 32 ==> (spec_split_32(code) matches Some((dm, e1, e2)) && dm == d
                && e1.len() == 5 && (forall|i: int| 0 <= i < 5 ==> e1[i] == d[11 + i]) && e2.len()
                == 14 && (forall|i: int| 0 <= i < 14 ==> e2[i] == d[18 + i]))
        }),
{
}

/// The numbers a 32-digit code offers for copying: the DM number and the two
/// EDEKA numbers; `None` for any other code.
pub fn split_32_digit_code(code: &str) -> (r: Option<(String, String, String)>)
    ensures
        match spec_split_32(code@) {
            Some((a, b, c)) => r matches Some((x, y, z)) && x@ == a && y@ == b && z@ == c,
            None => r is None,
        },
{
    let d = digits(code);
    let n = d.as_str().unicode_len();
    proof {
        lemma_digits_of(code@);
    }
    if n == 32 {
        let first = d.as_str().substring_ascii(11, 16).to_owned();
        let second = d.as_str().substring_ascii(18, n).to_owned();
        Some((d, first, second))
    } else {
        None
    }
}

/// The character of a decimal digit.
pub open spec fn digit_char(v: int) -> char {
    (48 + v) as char
}

/// `v` as two decimal digits.
pub open spec fn two_digits(v: int) -> Seq<char> {
    seq![digit_char(v / 10), digit_char(v % 10)]
}

/// The time of day, `HH:MM:SS`, of a count of seconds since midnight of some day.
pub open spec fn spec_clock_text(secs: u64) -> Seq<char> {
    let h = (secs % 86400) / 3600;
    let m = (secs % 3600) / 60;
    let s = secs % 60;
    two_digits(h as int) + seq![':'] + two_digits(m as int) + seq![':'] + two_digits(s as int)
}

/// The characters of two decimal digits are ASCII, byte for character.
proof fn lemma_two_digits(v: int)
    requires
        0 <= v < 100,
    ensures
        vstd::utf8::is_ascii_chars(two_digits(v)),
        ascii_bytes(two_digits(v)) == seq![(48 + v / 10) as u8, (48 + v % 10) as u8],
{
    assert(ascii_bytes(two_digits(v)) =~= seq![(48 + v / 10) as u8, (48 + v % 10) as u8]);
}

/// Appends two decimal digits of `v`.
fn push_two_digits(out: &mut Vec<u8>, v: u64)
    requires
        v < 100,
    ensures
        final(out)@ == old(out)@ + seq![(48 + v / 10) as u8, (48 + v % 10) as u8],
{
    out.push((48 + v / 10) as u8);
    out.push((48 + v % 10) as u8);
    assert(final(out)@ =~= old(out)@ + seq![(48 + v / 10) as u8, (48 + v % 10) as u8]);
}

/// The time of day, `HH:MM:SS`, of a count of seconds since the Unix epoch (UTC).
pub fn clock_text(secs: u64) -> (r: String)
    ensures
        r@ == spec_clock_text(secs),
{
    let h = (secs % 86400) / 3600;
    let m = (secs % 3600) / 60;
    let s = secs % 60;
    let mut out: Vec<u8> = Vec::new();
    push_two_digits(&mut out, h);
    out.push(58u8);
    push_two_digits(&mut out, m);
    out.push(58u8);
    push_two_digits(&mut out, s);
    let ghost chars = spec_clock_text(secs);
    proof {
        lemma_two_digits(h as int);
        lemma_two_digits(m as int);
        lemma_two_digits(s as int);
        assert(ascii_bytes(chars) =~= ascii_bytes(two_digits(h as int)) + seq![58u8] + ascii_bytes(
            two_digits(m as int),
        ) + seq![58u8] + ascii_bytes(two_digits(s as int)));
        assert(out@ =~= ascii_bytes(chars));
        assert(vstd::utf8::is_ascii_chars(chars));
    }
    ascii_string(out, Ghost(chars))
}

/// The selected row after row `deleted` is deleted: none if it was the
/// deleted one, one up if it was below it, unchanged otherwise.
pub open spec fn spec_selection_after_delete(sel: Option<usize>, deleted: usize) -> Option<usize> {
    match sel {
        Some(s) => if s == deleted {
            None
        } else if s > deleted {
            Some((s - 1) as usize)
        } else {
            Some(s)
        },
        None => None,
    }
}

/// After a deletion the selection still points at the same scan, unless that
/// scan is the one deleted.
pub proof fn law_selection_follows_scan<A>(scans: Seq<A>, sel: usize, deleted: usize)
    requires
        sel < scans.len(),
        deleted < scans.len(),
    ensures
        sel == deleted ==> spec_selection_after_delete(Some(sel), deleted) is None,
        sel != deleted ==> (spec_selection_after_delete(Some(sel), deleted) matches Some(t) && t
            < scans.remove(deleted as int).len() && scans.remove(deleted as int)[t as int]
            == scans[sel as int]),
{
}

/// The clock text is two digits each of hours (under 24), minutes and seconds
/// (under 60), which add up to the seconds into the day.
pub proof fn law_clock_text(secs: u64)
    ensures
        spec_clock_text(secs).len() == 8,
        ({
            let h = (secs % 86400) / 3600;
            let m = (secs % 3600) / 60;
            let s = secs % 60;
            h < 24 && m < 60 && s < 60 && h * 3600 + m * 60 + s == secs % 86400
        }),
{
    assert((secs % 86400) % 3600 == secs % 3600) by (nonlinear_arith);
}

/// Keeps the selected row index valid after a row is deleted.
pub fn selection_after_delete(sel: Option<usize>, deleted: usize) -> (r: Option<usize>)
    ensures
        r == spec_selection_after_delete(sel, deleted),
{
    match sel {
        Some(s) => if s == deleted {
            None
        } else if s > deleted {
            Some(s - 1)
        } else {
            Some(s)
        },
        None => None,
    }
}

/// The remainder of `a` by 360 that keeps the sign of `a`, as Rust's `%` does.
pub open spec fn rem_360(a: int) -> int {
    if a >= 0 {
        a % 360
    } else {
        -((-a) % 360)
    }
}

/// A rotation turned by half a turn, in degrees within one turn.
pub fn rotate_half_turn(deg: i32) -> (r: i32)
    requires
        deg <= i32::MAX - 180,
    ensures
        r == rem_360(deg + 180),
{
    (deg + 180) % 360
}

} // verus!
