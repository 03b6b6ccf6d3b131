//! The order in which the receiver lists its scans.

use vstd::prelude::*;
use crate::entry::ScanEntry;
use crate::numbers::{manual_count, spec_manual_count};
use crate::order::count_rank;

verus! {

/// Where a row ranks: unchecked rows before checked ones, each group by sort number.
pub open spec fn row_rank(e: ScanEntry) -> int {
    (if e.hidden {
        0x2_0000_0000int
    } else {
        0int
    }) + count_rank(spec_manual_count(e.sort_count@))
}

/// Whether row `i` is listed before row `j`: by rank, and rows of equal rank
/// in the order in which they arrived.
pub open spec fn row_before(rows: Seq<ScanEntry>, i: int, j: int) -> bool {
    row_rank(rows[i]) < row_rank(rows[j]) || (row_rank(rows[i]) == row_rank(rows[j]) && i < j)
}

/// What listing row `i` before row `j` means: a checked row never comes
/// before an unchecked one; among rows alike in that, a row with a sort number
/// never comes after one without, numbers come in ascending order, and rows
/// of equal number (or both without one) come in arrival order.
pub proof fn law_row_order(rows: Seq<ScanEntry>, i: int, j: int)
    requires
        0 <= i < rows.len(),
        0 <= j < rows.len(),
        row_before(rows, i, j),
    ensures
        rows[i].hidden ==> rows[j].hidden,
        rows[i].hidden == rows[j].hidden ==> match (
            spec_manual_count(rows[i].sort_count@),
            spec_manual_count(rows[j].sort_count@),
        ) {
            (Some(x), Some(y)) => x < y || (x == y && i < j),
            (Some(_), None) => true,
            (None, Some(_)) => false,
            (None, None) => i < j,
        },
{
}

/// Whether row `i` is listed at all.
pub open spec fn row_listed(rows: Seq<ScanEntry>, i: int, show_hidden: bool) -> bool {
    show_hidden || !rows[i].hidden
}

/// The rank of a row.
fn rank_of(e: &ScanEntry) -> (r: i64)
    ensures
        r == row_rank(*e),
{
    let base: i64 = if e.hidden {
        0x2_0000_0000
    } else {
        0
    };
    match manual_count(e.sort_count.as_str()) {
        Some(v) => base + (v as i64) + 0x8000_0000,
        None => base + 0x1_0000_0000,
    }
}

/// The positions of the rows to list, in the order to list them: checked rows
/// only when `show_hidden`; unchecked rows first, each group by sort number
/// (numbers ascending, rows without one last), rows that compare equal in the
/// order in which they arrived.
pub fn table_order(rows: &[ScanEntry], show_hidden: bool) -> (r: Vec<usize>)
    ensures
        forall|k: int|
            0 <= k < r@.len() ==> #[trigger] r@[k] < rows@.len() && row_listed(
                rows@,
                r@[k] as int,
                show_hidden,
            ),
        forall|i: int|
            0 <= i < rows@.len() && row_listed(rows@, i, show_hidden) ==> exists|k: int|
                0 <= k < r@.len() && #[trigger] r@[k] == i,
        forall|a: int, b: int|
            0 <= a < b < r@.len() ==> row_before(rows@, #[trigger] r@[a] as int, #[trigger] r@[b] as int),
{
    let mut out: Vec<usize> = Vec::new();
    let mut ranks: Vec<i64> = Vec::new();
    let mut i: usize = 0;
    while i < rows.len()
        invariant
            i <= rows@.len(),
            ranks@.len() == out@.len(),
            forall|k: int|
                0 <= k < out@.len() ==> #[trigger] out@[k] < i && row_listed(
                    rows@,
                    out@[k] as int,
                    show_hidden,
                ) && ranks@[k] == row_rank(rows@[out@[k] as int]),
            forall|j: int|
                0 <= j < i && row_listed(rows@, j, show_hidden) ==> exists|k: int|
                    0 <= k < out@.len() && #[trigger] out@[k] == j,
            forall|a: int, b: int|
                0 <= a < b < out@.len() ==> row_before(rows@, #[trigger] out@[a] as int, #[trigger] out@[b] as int),
        decreases rows@.len() - i,
    {
        if show_hidden || !rows[i].hidden {
            let k = rank_of(&rows[i]);
            let mut p: usize = 0;
            while p < ranks.len()
                invariant
                    p <= ranks@.len(),
                    forall|q: int| 0 <= q < p ==> #[trigger] ranks@[q] <= k,
                ensures
                    p <= ranks@.len(),
                    forall|q: int| 0 <= q < p ==> #[trigger] ranks@[q] <= k,
                    p < ranks@.len() ==> ranks@[p as int] > k,
                decreases ranks@.len() - p,
            {
                if ranks[p] > k {
                    break;
                }
                p = p + 1;
            }
            let ghost old_out = out@;
            let ghost old_ranks = ranks@;
            proof {
                // ranks are ordered along the list
                assert forall|a: int, b: int| 0 <= a < b < old_out.len() implies old_ranks[a]
                    <= old_ranks[b] by {
                    assert(row_before(rows@, old_out[a] as int, old_out[b] as int));
                }
            }
            out.insert(p, i);
            ranks.insert(p, k);
            proof {
                let n = out@;
                assert forall|q: int| 0 <= q < n.len() implies #[trigger] n[q] == (if q < p {
                    old_out[q]
                } else if q == p {
                    i
                } else {
                    old_out[q - 1]
                }) by {}
                assert forall|a: int, b: int| 0 <= a < b < n.len() implies row_before(
                    rows@,
                    #[trigger] n[a] as int,
                    #[trigger] n[b] as int,
                ) by {
                    if b < p {
                        assert(row_before(rows@, old_out[a] as int, old_out[b] as int));
                    } else if a < p && b == p {
                        assert(old_ranks[a] <= k);
                    } else if a < p && b > p {
                        assert(row_before(rows@, old_out[a] as int, old_out[b - 1] as int));
                    } else if a == p {
                        assert(old_ranks[b - 1] >= old_ranks[p as int]);
                        assert(old_ranks[p as int] > k);
                    } else {
                        assert(row_before(rows@, old_out[a - 1] as int, old_out[b - 1] as int));
                    }
                }
                assert forall|j: int|
                    0 <= j < i + 1 && row_listed(rows@, j, show_hidden) implies exists|q: int|
                    0 <= q < n.len() && #[trigger] n[q] == j by {
                    if j == i {
                        assert(n[p as int] == j);
                    } else {
                        let q = choose|q: int| 0 <= q < old_out.len() && #[trigger] old_out[q] == j;
                        if q < p {
                            assert(n[q] == j);
                        } else {
                            assert(n[q + 1] == j);
                        }
                    }
                }
            }
        }
        i = i + 1;
    }
    out
}

/// The number of checked rows.
pub open spec fn hidden_count(rows: Seq<ScanEntry>) -> nat
    decreases rows.len(),
{
    if rows.len() == 0 {
        0
    } else {
        hidden_count(rows.drop_last()) + if rows.last().hidden {
            1nat
        } else {
            0nat
        }
    }
}

/// The count of checked rows is the number of rows that are checked: the
/// length of the checked rows picked out in order.
pub proof fn law_hidden_count(rows: Seq<ScanEntry>)
    ensures
        hidden_count(rows) == rows.filter(|e: ScanEntry| e.hidden).len(),
        hidden_count(rows) <= rows.len(),
    decreases rows.len(),
{
    reveal(Seq::filter);
    if rows.len() > 0 {
        law_hidden_count(rows.drop_last());
    }
}

/// Counts the checked rows.
pub fn count_hidden(rows: &[ScanEntry]) -> (r: usize)
    ensures
        r == hidden_count(rows@),
{
    let mut n: usize = 0;
    let mut i: usize = 0;
    while i < rows.len()
        invariant
            i <= rows@.len(),
            n == hidden_count(rows@.take(i as int)),
            n <= i,
        decreases rows@.len() - i,
    {
        assert(rows@.take(i + 1).drop_last() =~= rows@.take(i as int));
        if rows[i].hidden {
            n = n + 1;
        }
        i = i + 1;
    }
    assert(rows@.take(rows@.len() as int) =~= rows@);
    n
}

} // verus!
