//! The shops whose gift cards the receiver recognises, by the number of digits
//! in a scanned code.

use vstd::prelude::*;
use vstd::utf8::*;
use crate::card::{digits, digits_of};

verus! {

/// A shop whose card numbers the receiver knows.
#[derive(Debug, Clone, Copy, PartialEq, Eq, Structural)]
pub enum Shop {
    Rewe,
    Edeka,
    Dm,
    Aldi,
    Lidl,
}

/// The shops, in the order in which they are offered.
pub open spec fn all_shops() -> Seq<Shop> {
    seq![Shop::Rewe, Shop::Edeka, Shop::Dm, Shop::Aldi, Shop::Lidl]
}

/// Whether a shop's codes come with `n` digits.
pub open spec fn spec_has_digit_count(s: Shop, n: nat) -> bool {
    match s {
        Shop::Rewe => n == 13 || n == 39,
        Shop::Edeka => n == 32,
        Shop::Dm => n == 24 || n == 32,
        Shop::Aldi => n == 20 || n == 36 || n == 38,
        Shop::Lidl => n == 18 || n == 20 || n == 36 || n == 38,
    }
}

/// The shop's name.
pub open spec fn spec_shop_name(s: Shop) -> Seq<char> {
    match s {
        Shop::Rewe => "REWE"@,
        Shop::Edeka => "EDEKA"@,
        Shop::Dm => "DM"@,
        Shop::Aldi => "ALDI"@,
        Shop::Lidl => "LIDL"@,
    }
}

/// The page on which the shop lets one check a card's balance.
pub open spec fn spec_shop_url(s: Shop) -> Seq<char> {
    match s {
        Shop::Rewe => "https://kartenwelt.rewe.de/rewe-geschenkkarte.html"@,
        Shop::Edeka => "https://evci.pin-host.com/evci/#/saldo"@,
        Shop::Dm => "https://www.dm.de/services/services-im-markt/geschenkkarten"@,
        Shop::Aldi => "https://www.helaba.com/de/aldi/"@,
        Shop::Lidl => "https://www.lidl.de/c/lidl-geschenkkarten/s10007775"@,
    }
}

/// The shops, in order, whose codes come with `n` digits.
pub open spec fn shops_with_count(n: nat) -> Seq<Shop> {
    all_shops().filter(|s: Shop| spec_has_digit_count(s, n))
}

/// A shop is detected for `n` digits exactly when its codes come with `n`
/// digits, and no shop is detected twice.
pub proof fn law_detected_shops(n: nat, s: Shop)
    ensures
        shops_with_count(n).contains(s) <==> spec_has_digit_count(s, n),
        shops_with_count(n).no_duplicates(),
{
    reveal_with_fuel(Seq::filter, 6);
    let f = shops_with_count(n);
    assert(all_shops()[0] == Shop::Rewe);
    assert(all_shops()[1] == Shop::Edeka);
    assert(all_shops()[2] == Shop::Dm);
    assert(all_shops()[3] == Shop::Aldi);
    assert(all_shops()[4] == Shop::Lidl);
    assert(all_shops().drop_last().drop_last().drop_last().drop_last().drop_last().len() == 0);
    if spec_has_digit_count(s, n) {
        all_shops().lemma_filter_contains(|t: Shop| spec_has_digit_count(t, n), match s {
            Shop::Rewe => 0,
            Shop::Edeka => 1,
            Shop::Dm => 2,
            Shop::Aldi => 3,
            Shop::Lidl => 4,
        });
    }
    if f.contains(s) {
        let i = choose|i: int| 0 <= i < f.len() && f[i] == s;
        all_shops().lemma_filter_pred(|t: Shop| spec_has_digit_count(t, n), i);
    }
}

/// The digit counts of each shop's codes: REWE 13 and 39, EDEKA 32, DM 24 and
/// 32, ALDI 20, 36 and 38, LIDL 18, 20, 36 and 38. So the shops detected for a
/// count are, in order: 13 and 39 REWE; 18 LIDL; 20, 36 and 38 ALDI and LIDL;
/// 24 DM; 32 EDEKA and DM; and for any other count none.
pub proof fn law_shop_digit_counts(n: nat)
    ensures
        spec_has_digit_count(Shop::Rewe, n) <==> set![13nat, 39nat].contains(n),
        spec_has_digit_count(Shop::Edeka, n) <==> set![32nat].contains(n),
        spec_has_digit_count(Shop::Dm, n) <==> set![24nat, 32nat].contains(n),
        spec_has_digit_count(Shop::Aldi, n) <==> set![20nat, 36nat, 38nat].contains(n),
        spec_has_digit_count(Shop::Lidl, n) <==> set![18nat, 20nat, 36nat, 38nat].contains(n),
        (n == 13 || n == 39) ==> shops_with_count(n) == seq![Shop::Rewe],
        n == 18 ==> shops_with_count(n) == seq![Shop::Lidl],
        (n == 20 || n == 36 || n == 38) ==> shops_with_count(n) == seq![Shop::Aldi, Shop::Lidl],
        n == 24 ==> shops_with_count(n) == seq![Shop::Dm],
        n == 32 ==> shops_with_count(n) == seq![Shop::Edeka, Shop::Dm],
        !set![13nat, 18nat, 20nat, 24nat, 32nat, 36nat, 38nat, 39nat].contains(n)
            ==> shops_with_count(n).len() == 0,
{
    reveal_with_fuel(Seq::filter, 6);
    let a = all_shops();
    assert(a.drop_last() =~= seq![Shop::Rewe, Shop::Edeka, Shop::Dm, Shop::Aldi]);
    assert(a.drop_last().drop_last() =~= seq![Shop::Rewe, Shop::Edeka, Shop::Dm]);
    assert(a.drop_last().drop_last().drop_last() =~= seq![Shop::Rewe, Shop::Edeka]);
    assert(a.drop_last().drop_last().drop_last().drop_last() =~= seq![Shop::Rewe]);
    assert(a.drop_last().drop_last().drop_last().drop_last().drop_last() =~= Seq::<Shop>::empty());
    assert(seq![Shop::Rewe] =~= Seq::<Shop>::empty().push(Shop::Rewe));
    assert(seq![Shop::Lidl] =~= Seq::<Shop>::empty().push(Shop::Lidl));
    assert(seq![Shop::Dm] =~= Seq::<Shop>::empty().push(Shop::Dm));
    assert(seq![Shop::Aldi, Shop::Lidl] =~= Seq::<Shop>::empty().push(Shop::Aldi).push(Shop::Lidl));
    assert(seq![Shop::Edeka, Shop::Dm] =~= Seq::<Shop>::empty().push(Shop::Edeka).push(Shop::Dm));
}

/// The characters of each string.
pub open spec fn strs_view(v: Seq<&'static str>) -> Seq<Seq<char>> {
    v.map_values(|s: &'static str| s@)
}

/// The names of the shops.
pub open spec fn shop_names(v: Seq<Shop>) -> Seq<Seq<char>> {
    v.map_values(|s: Shop| spec_shop_name(s))
}

/// The shop of the given name, if any.
pub open spec fn shop_named(name: Seq<char>) -> Option<Shop> {
    if name == "REWE"@ {
        Some(Shop::Rewe)
    } else if name == "EDEKA"@ {
        Some(Shop::Edeka)
    } else if name == "DM"@ {
        Some(Shop::Dm)
    } else if name == "ALDI"@ {
        Some(Shop::Aldi)
    } else if name == "LIDL"@ {
        Some(Shop::Lidl)
    } else {
        None
    }
}

/// Two strings hold the same characters.
pub fn str_eq(a: &str, b: &str) -> (r: bool)
    ensures
        r == (a@ == b@),
{
    let x = a.as_bytes();
    let y = b.as_bytes();
    proof {
        encode_utf8_decode_utf8(a@);
        encode_utf8_decode_utf8(b@);
    }
    if x.len() != y.len() {
        return false;
    }
    let mut i: usize = 0;
    while i < x.len()
        invariant
            x@ == encode_utf8(a@),
            y@ == encode_utf8(b@),
            x@.len() == y@.len(),
            i <= x@.len(),
            forall|j: int| 0 <= j < i ==> x@[j] == y@[j],
        decreases x@.len() - i,
    {
        if x[i] != y[i] {
            return false;
        }
        i = i + 1;
    }
    assert(x@ =~= y@);
    true
}

impl Shop {
    /// The shop's name.
    pub fn name(&self) -> (r: &'static str)
        ensures
            r@ == spec_shop_name(*self),
    {
        match self {
            Shop::Rewe => "REWE",
            Shop::Edeka => "EDEKA",
            Shop::Dm => "DM",
            Shop::Aldi => "ALDI",
            Shop::Lidl => "LIDL",
        }
    }

    /// The page on which the shop lets one check a card's balance.
    pub fn url(&self) -> (r: &'static str)
        ensures
            r@ == spec_shop_url(*self),
    {
        match self {
            Shop::Rewe => "https://kartenwelt.rewe.de/rewe-geschenkkarte.html",
            Shop::Edeka => "https://evci.pin-host.com/evci/#/saldo",
            Shop::Dm => "https://www.dm.de/services/services-im-markt/geschenkkarten",
            Shop::Aldi => "https://www.helaba.com/de/aldi/",
            Shop::Lidl => "https://www.lidl.de/c/lidl-geschenkkarten/s10007775",
        }
    }

    /// Whether the shop's codes come with `n` digits.
    pub fn has_digit_count(&self, n: usize) -> (r: bool)
        ensures
            r == spec_has_digit_count(*self, n as nat),
    {
        match self {
            Shop::Rewe => n == 13 || n == 39,
            Shop::Edeka => n == 32,
            Shop::Dm => n == 24 || n == 32,
            Shop::Aldi => n == 20 || n == 36 || n == 38,
            Shop::Lidl => n == 18 || n == 20 || n == 36 || n == 38,
        }
    }

    /// The shops, in the order in which they are offered.
    pub fn all() -> (r: Vec<Shop>)
        ensures
            r@ == all_shops(),
    {
        let v = vec![Shop::Rewe, Shop::Edeka, Shop::Dm, Shop::Aldi, Shop::Lidl];
        assert(v@ =~= all_shops());
        v
    }

    /// The shop of the given name, if any.
    pub fn from_name(name: &str) -> (r: Option<Shop>)
        ensures
            r == shop_named(name@),
    {
        if str_eq(name, "REWE") {
            Some(Shop::Rewe)
        } else if str_eq(name, "EDEKA") {
            Some(Shop::Edeka)
        } else if str_eq(name, "DM") {
            Some(Shop::Dm)
        } else if str_eq(name, "ALDI") {
            Some(Shop::Aldi)
        } else if str_eq(name, "LIDL") {
            Some(Shop::Lidl)
        } else {
            None
        }
    }
}

/// The names of the shops whose codes come with as many digits as the code
/// has, in the order in which the shops are offered.
pub fn detect_shops(code: &str) -> (r: Vec<&'static str>)
    ensures
        strs_view(r@) == shop_names(shops_with_count(digits_of(code@).len())),
{
    let d = digits(code);
    let n = d.as_str().unicode_len();
    let shops = Shop::all();
    let mut out: Vec<&'static str> = Vec::new();
    let mut i: usize = 0;
    while i < shops.len()
        invariant
            shops@ == all_shops(),
            n == digits_of(code@).len(),
            i <= shops@.len(),
            strs_view(out@) == shop_names(shops@.take(i as int).filter(
                |s: Shop| spec_has_digit_count(s, n as nat),
            )),
        decreases shops@.len() - i,
    {
        let s = shops[i];
        proof {
            reveal(Seq::filter);
            assert(shops@.take(i + 1).drop_last() =~= shops@.take(i as int));
        }
        if s.has_digit_count(n) {
            let ghost before = out@;
            out.push(s.name());
            assert(strs_view(out@) =~= strs_view(before).push(spec_shop_name(s)));
            assert(shop_names(shops@.take(i + 1).filter(|s: Shop| spec_has_digit_count(s, n as nat)))
                =~= shop_names(shops@.take(i as int).filter(|s: Shop| spec_has_digit_count(s, n as nat))).push(
                spec_shop_name(s),
            ));
        }
        i = i + 1;
    }
    assert(shops@.take(shops@.len() as int) =~= shops@);
    out
}

/// The balance-check page of the shop of the given name, if there is such a shop.
pub fn shop_url(name: &str) -> (r: Option<&'static str>)
    ensures
        match shop_named(name@) {
            Some(s) => r matches Some(u) && u@ == spec_shop_url(s),
            None => r is None,
        },
{
    match Shop::from_name(name) {
        Some(s) => Some(s.url()),
        None => None,
    }
}

/// The shop to preselect for a scan: the detected shop when exactly one was detected.
pub fn preferred_shop(detected: &[&'static str]) -> (r: Option<&'static str>)
    ensures
        detected@.len() == 1 ==> r == Some(detected@[0]),
        detected@.len() != 1 ==> r is None,
{
    if detected.len() == 1 {
        Some(detected[0])
    } else {
        None
    }
}

} // verus!
