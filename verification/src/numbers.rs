//! Reading the sort number typed into a row: surrounding whitespace is
//! ignored, and what remains must be a decimal `i32`.

use vstd::prelude::*;
use crate::card::{all_digits, is_digit};

verus! {

/// Whether a character has the Unicode `White_Space` property.
pub open spec fn is_white_space(c: char) -> bool {
    let u = c as u32;
    (0x09 <= u && u <= 0x0D) || u == 0x20 || u == 0x85 || u == 0xA0 || u == 0x1680 || (0x2000 <= u
        && u <= 0x200A) || u == 0x2028 || u == 0x2029 || u == 0x202F || u == 0x205F || u == 0x3000
}

/// The characters without leading white space.
pub open spec fn trim_start(s: Seq<char>) -> Seq<char>
    decreases s.len(),
{
    if s.len() > 0 && is_white_space(s[0]) {
        trim_start(s.drop_first())
    } else {
        s
    }
}

/// The characters without trailing white space.
pub open spec fn trim_end(s: Seq<char>) -> Seq<char>
    decreases s.len(),
{
    if s.len() > 0 && is_white_space(s.last()) {
        trim_end(s.drop_last())
    } else {
        s
    }
}

/// The characters without leading and trailing white space.
pub open spec fn trim(s: Seq<char>) -> Seq<char> {
    trim_end(trim_start(s))
}

/// The number that a sequence of decimal digits writes.
pub open spec fn decimal_value(d: Seq<char>) -> int
    decreases d.len(),
{
    if d.len() == 0 {
        0
    } else {
        decimal_value(d.drop_last()) * 10 + (d.last() as int - 48)
    }
}

/// The `i32` that a text writes in decimal: an optional `+` or `-`, then one
/// or more ASCII digits, with a value within the range of `i32`; anything else
/// writes none.
pub open spec fn spec_parse_i32(s: Seq<char>) -> Option<i32> {
    let signed = s.len() > 0 && (s[0] == '-' || s[0] == '+');
    let neg = s.len() > 0 && s[0] == '-';
    let body = if signed {
        s.skip(1)
    } else {
        s
    };
    if body.len() == 0 || !all_digits(body) {
        None
    } else {
        let v = if neg {
            -decimal_value(body)
        } else {
            decimal_value(body)
        };
        if i32::MIN <= v && v <= i32::MAX {
            Some(v as i32)
        } else {
            None
        }
    }
}

/// The sort number of a row, if its text writes one once trimmed.
pub open spec fn spec_manual_count(s: Seq<char>) -> Option<i32> {
    spec_parse_i32(trim(s))
}

/// Reading a decimal number: a non-empty run of ASCII digits reads as its
/// value when that fits in an `i32`, and as nothing when it does not; a
/// leading `+` changes nothing; a leading `-` reads as the negated value when
/// that fits; a text holding anything but digits after its sign reads as
/// nothing. The sort number of such a run, with white space around it, is
/// the same value.
pub proof fn law_parse_decimal(s: Seq<char>, pad: Seq<char>)
    requires
        s.len() > 0,
        all_digits(s),
        forall|i: int| 0 <= i < pad.len() ==> is_white_space(#[trigger] pad[i]),
    ensures
        decimal_value(s) <= i32::MAX ==> spec_parse_i32(s) == Some(decimal_value(s) as i32),
        decimal_value(s) <= i32::MAX ==> spec_parse_i32(seq!['+'] + s) == Some(
            decimal_value(s) as i32,
        ),
        decimal_value(s) <= 0x8000_0000 ==> spec_parse_i32(seq!['-'] + s) == Some(
            (-decimal_value(s)) as i32,
        ),
        decimal_value(s) > i32::MAX ==> spec_parse_i32(s) is None,
        decimal_value(s) <= i32::MAX ==> spec_manual_count(pad + s + pad) == Some(
            decimal_value(s) as i32,
        ),
{
    assert(is_digit(s[0]));
    lemma_decimal_nonneg(s);
    assert((seq!['+'] + s)[0] == '+');
    assert((seq!['-'] + s)[0] == '-');
    assert((seq!['+'] + s).skip(1) =~= s);
    assert((seq!['-'] + s).skip(1) =~= s);
    assert(is_digit(s.last()));
    lemma_trim_padded(s, pad);
}

/// A text with no white space at either end, padded on both sides with white
/// space, trims back to itself.
proof fn lemma_trim_padded(s: Seq<char>, pad: Seq<char>)
    requires
        s.len() > 0,
        !is_white_space(s[0]),
        !is_white_space(s.last()),
        forall|i: int| 0 <= i < pad.len() ==> is_white_space(#[trigger] pad[i]),
    ensures
        trim(pad + s + pad) == s,
{
    let t = pad + s + pad;
    assert forall|j: int| 0 <= j < pad.len() implies is_white_space(#[trigger] t[j]) by {
        assert(t[j] == pad[j]);
    }
    lemma_trim_start_skip(t, pad.len() as int);
    let u = t.skip(pad.len() as int);
    assert(u =~= s + pad);
    assert(trim_start(u) == u) by {
        assert(u[0] == s[0]);
    }
    assert forall|j: int| s.len() <= j < u.len() implies is_white_space(#[trigger] u[j]) by {
        assert(u[j] == pad[j - s.len()]);
    }
    lemma_trim_end_take(u, s.len() as int);
    assert(u.take(s.len() as int) =~= s);
    assert(trim_end(s) == s) by {
        assert(s.last() == s[s.len() - 1]);
    }
}

/// Whether a character has the Unicode `White_Space` property.
pub fn is_white_space_char(c: char) -> (r: bool)
    ensures
        r == is_white_space(c),
{
    let u = c as u32;
    (0x09 <= u && u <= 0x0D) || u == 0x20 || u == 0x85 || u == 0xA0 || u == 0x1680 || (0x2000 <= u
        && u <= 0x200A) || u == 0x2028 || u == 0x2029 || u == 0x202F || u == 0x205F || u == 0x3000
}

/// Trimming from the front skips exactly the leading white space.
proof fn lemma_trim_start_skip(s: Seq<char>, i: int)
    requires
        0 <= i <= s.len(),
        forall|j: int| 0 <= j < i ==> is_white_space(#[trigger] s[j]),
    ensures
        trim_start(s) == trim_start(s.skip(i)),
    decreases i,
{
    if i > 0 {
        assert(s.drop_first().skip(i - 1) =~= s.skip(i));
        assert forall|j: int| 0 <= j < i - 1 implies is_white_space(#[trigger] s.drop_first()[j]) by {
            assert(s.drop_first()[j] == s[j + 1]);
        }
        lemma_trim_start_skip(s.drop_first(), i - 1);
    } else {
        assert(s.skip(0) =~= s);
    }
}

/// Trimming from the back drops exactly the trailing white space.
proof fn lemma_trim_end_take(s: Seq<char>, k: int)
    requires
        0 <= k <= s.len(),
        forall|j: int| k <= j < s.len() ==> is_white_space(#[trigger] s[j]),
    ensures
        trim_end(s) == trim_end(s.take(k)),
    decreases s.len() - k,
{
    if k < s.len() {
        assert(s.drop_last().take(k) =~= s.take(k));
        assert forall|j: int| k <= j < s.len() - 1 implies is_white_space(#[trigger] s.drop_last()[j]) by {
            assert(s.drop_last()[j] == s[j]);
        }
        lemma_trim_end_take(s.drop_last(), k);
    } else {
        assert(s.take(k) =~= s);
    }
}

/// The text without leading and trailing white space.
pub fn trim_text(s: &str) -> (r: &str)
    ensures
        r@ == trim(s@),
{
    let n = s.unicode_len();
    let mut start: usize = 0;
    while start < n
        invariant
            n == s@.len(),
            start <= n,
            forall|j: int| 0 <= j < start ==> is_white_space(#[trigger] s@[j]),
        ensures
            start <= n,
            forall|j: int| 0 <= j < start ==> is_white_space(#[trigger] s@[j]),
            start < n ==> !is_white_space(s@[start as int]),
        decreases n - start,
    {
        if !is_white_space_char(s.get_char(start)) {
            break;
        }
        start = start + 1;
    }
    proof {
        lemma_trim_start_skip(s@, start as int);
    }
    let rest = s.substring_char(start, n);
    assert(rest@ =~= s@.skip(start as int));
    let m = n - start;
    let mut end: usize = m;
    while end > 0
        invariant
            m == rest@.len(),
            end <= m,
            forall|j: int| end <= j < m ==> is_white_space(#[trigger] rest@[j]),
        ensures
            end <= m,
            forall|j: int| end <= j < m ==> is_white_space(#[trigger] rest@[j]),
            end > 0 ==> !is_white_space(rest@[end - 1]),
        decreases end,
    {
        if !is_white_space_char(rest.get_char(end - 1)) {
            break;
        }
        end = end - 1;
    }
    proof {
        lemma_trim_end_take(rest@, end as int);
        if start < n {
            assert(rest@.len() > 0 && !is_white_space(rest@[0]));
            assert(trim_start(s@.skip(start as int)) == s@.skip(start as int));
        } else {
            assert(s@.skip(start as int).len() == 0);
        }
        let t = rest@.take(end as int);
        if end > 0 {
            assert(t.last() == rest@[end - 1]);
        }
        assert(trim_end(t) == t);
    }
    let r = rest.substring_char(0, end);
    assert(r@ =~= rest@.take(end as int));
    r
}

/// A number written with more digits is at least the number of its first digits.
proof fn lemma_decimal_prefix(d: Seq<char>, k: int)
    requires
        all_digits(d),
        0 <= k <= d.len(),
    ensures
        decimal_value(d) >= decimal_value(d.take(k)),
        decimal_value(d.take(k)) >= 0,
    decreases d.len(),
{
    if k == d.len() {
        assert(d.take(k) =~= d);
        lemma_decimal_nonneg(d);
    } else {
        assert(all_digits(d.drop_last()));
        assert(d.drop_last().take(k) =~= d.take(k));
        lemma_decimal_prefix(d.drop_last(), k);
        assert(is_digit(d.last()));
    }
}

/// Digits write a number of at least zero.
proof fn lemma_decimal_nonneg(d: Seq<char>)
    requires
        all_digits(d),
    ensures
        decimal_value(d) >= 0,
    decreases d.len(),
{
    if d.len() > 0 {
        assert(all_digits(d.drop_last()));
        lemma_decimal_nonneg(d.drop_last());
        assert(is_digit(d.last()));
    }
}

/// Reads the `i32` that a text writes in decimal, if any.
pub fn parse_i32_text(s: &str) -> (r: Option<i32>)
    ensures
        r == spec_parse_i32(s@),
{
    let n = s.unicode_len();
    let mut i: usize = 0;
    let mut neg = false;
    if n > 0 {
        let c = s.get_char(0);
        if c == '-' || c == '+' {
            neg = c == '-';
            i = 1;
        }
    }
    let ghost body = s@.skip(i as int);
    assert(body == (if s@.len() > 0 && (s@[0] == '-' || s@[0] == '+') {
        s@.skip(1)
    } else {
        s@
    })) by {
        if i == 0 {
            assert(s@.skip(0) =~= s@);
        }
    }
    if i == n {
        assert(body.len() == 0);
        return None;
    }
    assert(neg == (s@.len() > 0 && s@[0] == '-'));
    let start = i;
    let mut acc: i64 = 0;
    while i < n
        invariant
            n == s@.len(),
            start <= i <= n,
            body == s@.skip(start as int),
            body == (if s@.len() > 0 && (s@[0] == '-' || s@[0] == '+') {
                s@.skip(1)
            } else {
                s@
            }),
            neg == (s@.len() > 0 && s@[0] == '-'),
            body.len() > 0,
            all_digits(body.take(i - start)),
            acc == decimal_value(body.take(i - start)),
            0 <= acc <= 0x8000_0000,
        decreases n - i,
    {
        let c = s.get_char(i);
        if !('0' <= c && c <= '9') {
            proof {
                assert(body[i - start] == c);
                assert(!is_digit(body[i - start]));
                assert(!all_digits(body));
            }
            return None;
        }
        let digit = (c as u32 - 48) as i64;
        proof {
            let t = body.take(i - start + 1);
            assert(t.drop_last() =~= body.take(i - start));
            assert(t.last() == c);
            assert(all_digits(t));
        }
        acc = acc * 10 + digit;
        i = i + 1;
        if acc > 0x8000_0000 {
            proof {
                if all_digits(body) {
                    lemma_decimal_prefix(body, i - start);
                }
            }
            return None;
        }
    }
    assert(body.take(i - start) =~= body);
    if neg {
        Some((0 - acc) as i32)
    } else if acc <= 0x7fff_ffff {
        Some(acc as i32)
    } else {
        None
    }
}

/// The sort number of a row, if its text writes one once trimmed.
pub fn manual_count(s: &str) -> (r: Option<i32>)
    ensures
        r == spec_manual_count(s@),
{
    parse_i32_text(trim_text(s))
}

} // verus!
