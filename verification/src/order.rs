//! Comparing the sort numbers typed into two rows.

use vstd::prelude::*;
use core::cmp::Ordering;
use crate::numbers::{manual_count, spec_manual_count};

verus! {

/// Where a sort number ranks: valid numbers in ascending order, then rows
/// without one.
pub open spec fn count_rank(k: Option<i32>) -> int {
    match k {
        Some(v) => v + 0x8000_0000,
        None => 0x1_0000_0000,
    }
}

/// Compares two sort-number texts numerically: rows with a valid integer come
/// first, in ascending order; empty or non-numeric ones come last, equal to
/// each other.
pub fn cmp_manual_count(a: &str, b: &str) -> (r: Ordering)
    ensures
        match (spec_manual_count(a@), spec_manual_count(b@)) {
            (Some(x), Some(y)) => (r == Ordering::Less) == (x < y) && (r == Ordering::Equal) == (x
                == y) && (r == Ordering::Greater) == (x > y),
            (Some(_), None) => r == Ordering::Less,
            (None, Some(_)) => r == Ordering::Greater,
            (None, None) => r == Ordering::Equal,
        },
{
    match (manual_count(a), manual_count(b)) {
        (Some(x), Some(y)) => if x < y {
            Ordering::Less
        } else if x == y {
            Ordering::Equal
        } else {
            Ordering::Greater
        },
        (Some(_), None) => Ordering::Less,
        (None, Some(_)) => Ordering::Greater,
        (None, None) => Ordering::Equal,
    }
}

/// The comparison of sort numbers is the comparison of their ranks; so it is
/// a total preorder, and the table's order by rank is the order it gives.
pub proof fn law_manual_count_order_is_rank_order(a: Seq<char>, b: Seq<char>, r: Ordering)
    requires
        match (spec_manual_count(a), spec_manual_count(b)) {
            (Some(x), Some(y)) => (r == Ordering::Less) == (x < y) && (r == Ordering::Equal) == (x
                == y) && (r == Ordering::Greater) == (x > y),
            (Some(_), None) => r == Ordering::Less,
            (None, Some(_)) => r == Ordering::Greater,
            (None, None) => r == Ordering::Equal,
        },
    ensures
        (r == Ordering::Less) == (count_rank(spec_manual_count(a)) < count_rank(
            spec_manual_count(b),
        )),
        (r == Ordering::Equal) == (count_rank(spec_manual_count(a)) == count_rank(
            spec_manual_count(b),
        )),
        (r == Ordering::Greater) == (count_rank(spec_manual_count(a)) > count_rank(
            spec_manual_count(b),
        )),
{
}

} // verus!
