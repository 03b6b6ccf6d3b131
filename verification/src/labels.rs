//! The short texts with which the receiver labels a scan's detected shops.

use vstd::prelude::*;
use crate::shops::strs_view;

verus! {

/// Parts joined by a separator.
pub open spec fn join_with(parts: Seq<Seq<char>>, sep: Seq<char>) -> Seq<char>
    decreases parts.len(),
{
    if parts.len() == 0 {
        Seq::empty()
    } else if parts.len() == 1 {
        parts[0]
    } else {
        join_with(parts.drop_last(), sep) + sep + parts.last()
    }
}

/// Joins texts with a separator between each two.
pub fn join_texts(parts: &[&str], sep: &str) -> (r: String)
    ensures
        r@ == join_with(strs_view(parts@), sep@),
{
    let mut out = String::new();
    let mut i: usize = 0;
    while i < parts.len()
        invariant
            i <= parts@.len(),
            out@ == join_with(strs_view(parts@.take(i as int)), sep@),
        decreases parts@.len() - i,
    {
        let ghost before = strs_view(parts@.take(i as int));
        let ghost after = strs_view(parts@.take(i + 1));
        assert(after.drop_last() =~= before);
        assert(after.last() == parts@[i as int]@);
        if i > 0 {
            out.append(sep);
        }
        out.append(parts[i]);
        assert(out@ =~= join_with(after, sep@));
        i = i + 1;
    }
    assert(parts@.take(parts@.len() as int) =~= parts@);
    out
}

/// The shops of a row: their names joined by `/`, or a dash when there are none.
pub open spec fn spec_shop_list_text(names: Seq<Seq<char>>) -> Seq<char> {
    if names.len() == 0 {
        "\u{2014}"@
    } else {
        join_with(names, "/"@)
    }
}

/// The shops of a row as shown in the table.
pub fn shop_list_text(detected: &[&str]) -> (r: String)
    ensures
        r@ == spec_shop_list_text(strs_view(detected@)),
{
    if detected.len() == 0 {
        "\u{2014}".to_owned()
    } else {
        join_texts(detected, "/")
    }
}

/// The line above a scan's details: the one shop detected, the shops to
/// choose between, or that none was detected.
pub open spec fn spec_detection_label(names: Seq<Seq<char>>) -> Seq<char> {
    if names.len() == 1 {
        ">> "@ + names[0]
    } else if names.len() > 1 {
        "?? "@ + join_with(names, " / "@) + " -- choose"@
    } else {
        "-- no shop detected"@
    }
}

/// The line above a scan's details.
pub fn detection_label(detected: &[&str]) -> (r: String)
    ensures
        r@ == spec_detection_label(strs_view(detected@)),
{
    if detected.len() == 1 {
        let mut s = ">> ".to_owned();
        s.append(detected[0]);
        s
    } else if detected.len() > 1 {
        let mut s = "?? ".to_owned();
        let joined = join_texts(detected, " / ");
        s.append(joined.as_str());
        s.append(" -- choose");
        s
    } else {
        "-- no shop detected".to_owned()
    }
}

/// The style class of the detection line: found, ambiguous or none.
pub open spec fn spec_detection_class(n: nat) -> Seq<char> {
    if n == 1 {
        "shop-detect found"@
    } else if n > 1 {
        "shop-detect ambiguous"@
    } else {
        "shop-detect none"@
    }
}

/// The style class of the detection line, by the number of shops detected.
pub fn detection_class(n: usize) -> (r: &'static str)
    ensures
        r@ == spec_detection_class(n as nat),
{
    if n == 1 {
        "shop-detect found"
    } else if n > 1 {
        "shop-detect ambiguous"
    } else {
        "shop-detect none"
    }
}

/// The style class of a table row, by whether it is selected and checked.
pub fn row_class(selected: bool, hidden: bool) -> (r: &'static str)
    ensures
        selected && hidden ==> r@ == "selected-row hidden-row"@,
        selected && !hidden ==> r@ == "selected-row"@,
        !selected && hidden ==> r@ == "hidden-row"@,
        !selected && !hidden ==> r@ == ""@,
{
    if selected && hidden {
        "selected-row hidden-row"
    } else if selected {
        "selected-row"
    } else if hidden {
        "hidden-row"
    } else {
        ""
    }
}

/// The style class of a shop button: selected, detected (green when the only
/// one, orange among several), or plain.
pub fn shop_button_class(is_selected: bool, is_detected: bool, n_detected: usize) -> (r: &'static str)
    ensures
        is_selected ==> r@ == "btn btn-sm btn-selected"@,
        !is_selected && is_detected && n_detected > 1 ==> r@ == "btn btn-sm btn-orange"@,
        !is_selected && is_detected && n_detected <= 1 ==> r@ == "btn btn-sm btn-green"@,
        !is_selected && !is_detected ==> r@ == "btn btn-sm"@,
{
    if is_selected {
        "btn btn-sm btn-selected"
    } else if is_detected {
        if n_detected > 1 {
            "btn btn-sm btn-orange"
        } else {
            "btn btn-sm btn-green"
        }
    } else {
        "btn btn-sm"
    }
}

} // verus!
