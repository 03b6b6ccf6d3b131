//! The receiver's memory of what it has seen, from which it answers the phone's
//! sync streams: the checked state of each code, and every scan in arrival order.

use vstd::prelude::*;
use crate::error::ProtoError;
use crate::kind::CodeKind;
use crate::wire::{MAX_CODE_LEN, MAX_ENTRIES};
use vstd::utf8::encode_utf8;
use crate::sync::{
    codes_within_limit, law_all_reply_roundtrip, law_poll_reply_roundtrip,
    law_poll_request_roundtrip, poll_request_frame, read_back_all_entry, spec_decode_all_reply,
    spec_decode_poll_reply,
    all_reply_frame, decode_sync_poll_request, encode_sync_all_reply, encode_sync_poll_reply,
    poll_reply_frame, spec_decode_poll_request, strings_view, all_entries_view,
    poll_entries_view,
};

verus! {

/// The receiver's sync state.
pub struct SyncStore {
    checked: Vec<(String, bool)>,
    seen: Vec<(String, u8)>,
}

/// The sync state as plain values.
#[verifier::ext_equal]
pub struct StoreView {
    /// The checked (hidden) state recorded for each code.
    pub checked: Map<Seq<char>, bool>,
    /// Every scan received, as its code and kind byte, in arrival order.
    pub seen: Seq<(Seq<char>, u8)>,
}

/// No code occurs twice among the keys.
pub open spec fn keys_unique(v: Seq<(String, bool)>) -> bool {
    forall|i: int, j: int| 0 <= i < j < v.len() ==> (#[trigger] v[i]).0@ != (#[trigger] v[j]).0@
}

/// Some entry has the code `k`.
pub open spec fn has_key(v: Seq<(String, bool)>, k: Seq<char>) -> bool {
    exists|i: int| 0 <= i < v.len() && (#[trigger] v[i]).0@ == k
}

/// The map from codes to flags that a list of keyed entries stands for.
pub open spec fn entries_map(v: Seq<(String, bool)>) -> Map<Seq<char>, bool> {
    Map::new(
        |k: Seq<char>| has_key(v, k),
        |k: Seq<char>| v[choose|i: int| 0 <= i < v.len() && (#[trigger] v[i]).0@ == k].1,
    )
}

/// Scans as plain values.
pub open spec fn seen_view(v: Seq<(String, u8)>) -> Seq<(Seq<char>, u8)> {
    v.map_values(|e: (String, u8)| (e.0@, e.1))
}

/// Whether a code counts as checked: recorded and recorded as checked.
pub open spec fn checked_of(m: Map<Seq<char>, bool>, k: Seq<char>) -> bool {
    m.contains_key(k) && m[k]
}

/// The first position at which a scan has code `k`, if any.
pub open spec fn first_seen(s: Seq<(Seq<char>, u8)>, k: Seq<char>) -> Option<int> {
    if exists|i: int| 0 <= i < s.len() && (#[trigger] s[i]).0 == k {
        Some(
            choose|i: int|
                0 <= i < s.len() && (#[trigger] s[i]).0 == k && forall|j: int|
                    0 <= j < i ==> (#[trigger] s[j]).0 != k,
        )
    } else {
        None
    }
}

/// The scans with the first one of code `k` taken out.
pub open spec fn forget_first(s: Seq<(Seq<char>, u8)>, k: Seq<char>) -> Seq<(Seq<char>, u8)> {
    match first_seen(s, k) {
        Some(i) => s.remove(i),
        None => s,
    }
}

/// The poll reply entries for the polled codes under a checked map.
pub open spec fn poll_answer(m: Map<Seq<char>, bool>, codes: Seq<Seq<char>>) -> Seq<(Seq<char>, bool)> {
    codes.map_values(|c: Seq<char>| (c, checked_of(m, c)))
}

/// The sync-all reply entries for the scans seen under a checked map.
pub open spec fn all_answer(m: Map<Seq<char>, bool>, s: Seq<(Seq<char>, u8)>) -> Seq<(Seq<char>, u8, bool)> {
    s.map_values(|e: (Seq<char>, u8)| (e.0, e.1, checked_of(m, e.0)))
}

/// A code reads back as checked exactly as last written; writing one code
/// leaves every other code as it was; a code never written, or forgotten, is
/// unchecked.
pub proof fn law_checked_read_after_write(
    m: Map<Seq<char>, bool>,
    k: Seq<char>,
    b: bool,
    other: Seq<char>,
)
    ensures
        checked_of(m.insert(k, b), k) == b,
        other != k ==> checked_of(m.insert(k, b), other) == checked_of(m, other),
        !checked_of(Map::<Seq<char>, bool>::empty(), k),
        !checked_of(m.remove(k), k),
        other != k ==> checked_of(m.remove(k), other) == checked_of(m, other),
{
}

/// A scan that has just arrived, recorded and marked unchecked, is the last
/// entry of the next sync-all answer, unchecked, after the scans seen before it.
pub proof fn law_arrival_listed_last(
    m: Map<Seq<char>, bool>,
    s: Seq<(Seq<char>, u8)>,
    code: Seq<char>,
    kind_byte: u8,
)
    ensures
        all_answer(m.insert(code, false), s.push((code, kind_byte))).len() == s.len() + 1,
        all_answer(m.insert(code, false), s.push((code, kind_byte))).last() == (
            code,
            kind_byte,
            false,
        ),
{
}

/// A poll answers, for each polled code in order, the checked state that the
/// receiver last wrote for it, and false for a code it never wrote.
pub proof fn law_poll_answer(m: Map<Seq<char>, bool>, codes: Seq<Seq<char>>, i: int)
    requires
        0 <= i < codes.len(),
    ensures
        poll_answer(m, codes).len() == codes.len(),
        poll_answer(m, codes)[i] == (codes[i], m.contains_key(codes[i]) && m[codes[i]]),
{
}

/// A sync-all answer lists every scan seen, in arrival order, with its kind
/// byte and the checked state of its code.
pub proof fn law_all_answer(m: Map<Seq<char>, bool>, s: Seq<(Seq<char>, u8)>, i: int)
    requires
        0 <= i < s.len(),
    ensures
        all_answer(m, s).len() == s.len(),
        all_answer(m, s)[i] == (s[i].0, s[i].1, checked_of(m, s[i].0)),
{
}

/// A poll, end to end: the phone sends its codes, the receiver answers from
/// its checked map, and the phone reads back every code it sent, in the same
/// order, with the receiver's checked state of it; whenever the phone sends at
/// most `MAX_ENTRIES` codes, each within the length limit.
pub proof fn law_poll_end_to_end(m: Map<Seq<char>, bool>, codes: Seq<Seq<char>>)
    requires
        codes.len() <= MAX_ENTRIES,
        codes_within_limit(codes),
    ensures
        spec_decode_poll_request(poll_request_frame(codes).skip(1)) == Ok::<
            Seq<Seq<char>>,
            ProtoError,
        >(codes),
        spec_decode_poll_reply(poll_reply_frame(poll_answer(m, codes))) == Ok::<
            Seq<(Seq<char>, bool)>,
            ProtoError,
        >(codes.map_values(|c: Seq<char>| (c, checked_of(m, c)))),
{
    law_poll_request_roundtrip(codes);
    let answer = poll_answer(m, codes);
    assert forall|i: int| 0 <= i < answer.len() implies encode_utf8(#[trigger] answer[i].0).len()
        <= MAX_CODE_LEN by {
        assert(answer[i].0 == codes[i]);
    }
    law_poll_reply_roundtrip(answer);
}

/// A sync-all, end to end: the phone reads back every scan the receiver has
/// seen, in arrival order, with its kind and the receiver's checked state of
/// its code; whenever the receiver has seen at most `MAX_ENTRIES` scans, each
/// with a code within the length limit and a kind byte of 0 or 1.
pub proof fn law_all_end_to_end(m: Map<Seq<char>, bool>, seen: Seq<(Seq<char>, u8)>)
    requires
        seen.len() <= MAX_ENTRIES,
        forall|i: int| 0 <= i < seen.len() ==> encode_utf8(#[trigger] seen[i].0).len() <= MAX_CODE_LEN,
        forall|i: int| 0 <= i < seen.len() ==> #[trigger] seen[i].1 <= 1,
    ensures
        spec_decode_all_reply(all_reply_frame(all_answer(m, seen))) == Ok::<
            Seq<(Seq<char>, CodeKind, bool)>,
            ProtoError,
        >(seen.map_values(|e: (Seq<char>, u8)| read_back_all_entry((e.0, e.1, checked_of(m, e.0))))),
{
    let answer = all_answer(m, seen);
    assert forall|i: int| 0 <= i < answer.len() implies encode_utf8(#[trigger] answer[i].0).len()
        <= MAX_CODE_LEN by {
        assert(answer[i].0 == seen[i].0);
    }
    assert forall|i: int| 0 <= i < answer.len() implies #[trigger] answer[i].1 <= 1 by {
        assert(answer[i].1 == seen[i].1);
    }
    law_all_reply_roundtrip(answer);
    assert(answer.map_values(|e: (Seq<char>, u8, bool)| read_back_all_entry(e)) =~= seen.map_values(
        |e: (Seq<char>, u8)| read_back_all_entry((e.0, e.1, checked_of(m, e.0))),
    ));
}

impl View for SyncStore {
    type V = StoreView;

    closed spec fn view(&self) -> StoreView {
        StoreView { checked: entries_map(self.checked@), seen: seen_view(self.seen@) }
    }
}

/// Where in the entries the code `key` is, if anywhere.
fn find_key(v: &Vec<(String, bool)>, key: &String) -> (r: Option<usize>)
    ensures
        match r {
            Some(i) => i < v@.len() && v@[i as int].0@ == key@,
            None => !has_key(v@, key@),
        },
{
    let mut i: usize = 0;
    while i < v.len()
        invariant
            i <= v@.len(),
            forall|j: int| 0 <= j < i ==> (#[trigger] v@[j]).0@ != key@,
        decreases v@.len() - i,
    {
        if v[i].0 == *key {
            return Some(i);
        }
        i = i + 1;
    }
    None
}

/// With unique keys, the entry found for a key is the one the map reads.
proof fn lemma_map_at(v: Seq<(String, bool)>, i: int)
    requires
        keys_unique(v),
        0 <= i < v.len(),
    ensures
        entries_map(v).contains_key(v[i].0@),
        entries_map(v)[v[i].0@] == v[i].1,
{
    let k = v[i].0@;
    assert(has_key(v, k));
    let c = choose|j: int| 0 <= j < v.len() && (#[trigger] v[j]).0@ == k;
    if c != i {
        if c < i {
            assert(v[c].0@ != v[i].0@);
        } else {
            assert(v[i].0@ != v[c].0@);
        }
    }
}

/// Writing a flag for a code, in place of its entry or at the end where it
/// has none, keeps the codes unique and updates the map at that code only.
proof fn lemma_map_store(before: Seq<(String, bool)>, after: Seq<(String, bool)>, key: Seq<char>, val: bool)
    requires
        keys_unique(before),
        after.len() >= 1,
        after.last().0@ == key || (exists|i: int| 0 <= i < before.len() && before[i].0@ == key),
        (exists|i: int|
            #![trigger before[i]]
            0 <= i < before.len() && before[i].0@ == key && after == before.update(
                i,
                after[i],
            ) && after[i].0@ == key && after[i].1 == val) || (!has_key(before, key) && after
            == before.push(after.last()) && after.last().0@ == key && after.last().1 == val),
    ensures
        keys_unique(after),
        entries_map(after) == entries_map(before).insert(key, val),
{
    // the position that holds the key afterwards
    let idx: int = if has_key(before, key) {
        choose|i: int|
            #![trigger before[i]]
            0 <= i < before.len() && before[i].0@ == key && after == before.update(i, after[i])
                && after[i].0@ == key && after[i].1 == val
    } else {
        before.len() as int
    };
    if has_key(before, key) {
        let w = choose|i: int| 0 <= i < before.len() && (#[trigger] before[i]).0@ == key;
        if !(exists|i: int|
            #![trigger before[i]]
            0 <= i < before.len() && before[i].0@ == key && after == before.update(i, after[i])
                && after[i].0@ == key && after[i].1 == val) {
            assert(false);
        }
    }
    assert(0 <= idx < after.len());
    assert(after[idx].0@ == key && after[idx].1 == val);
    assert forall|j: int| 0 <= j < after.len() && j != idx implies #[trigger] after[j] == before[j] by {
    }
    assert forall|j: int| 0 <= j < after.len() && j != idx implies (#[trigger] after[j]).0@ != key by {
        assert(after[j] == before[j]);
        if idx < before.len() {
            if j < idx {
                assert(before[j].0@ != before[idx].0@);
            } else {
                assert(before[idx].0@ != before[j].0@);
            }
        } else {
            assert(!has_key(before, key));
            assert(before[j].0@ != key);
        }
    }
    assert forall|a: int, b: int| 0 <= a < b < after.len() implies (#[trigger] after[a]).0@
        != (#[trigger] after[b]).0@ by {
        if a == idx {
            assert(after[b].0@ != key);
        } else if b == idx {
            assert(after[a].0@ != key);
        } else {
            assert(after[a] == before[a]);
            assert(after[b] == before[b]);
        }
    }
    let m = entries_map(after);
    let want = entries_map(before).insert(key, val);
    assert forall|k: Seq<char>| #[trigger] m.contains_key(k) <==> want.contains_key(k) by {
        if k == key {
            assert(after[idx].0@ == k);
        } else {
            if has_key(before, k) {
                let j = choose|j: int| 0 <= j < before.len() && (#[trigger] before[j]).0@ == k;
                assert(j != idx);
                assert(after[j] == before[j]);
            }
            if has_key(after, k) {
                let j = choose|j: int| 0 <= j < after.len() && (#[trigger] after[j]).0@ == k;
                assert(j != idx);
                assert(before[j] == after[j]);
            }
        }
    }
    assert forall|k: Seq<char>| m.contains_key(k) implies #[trigger] m[k] == want[k] by {
        let j = choose|j: int| 0 <= j < after.len() && (#[trigger] after[j]).0@ == k;
        lemma_map_at(after, j);
        if k != key {
            assert(j != idx);
            assert(before[j] == after[j]);
            lemma_map_at(before, j);
        } else {
            lemma_map_at(after, idx);
        }
    }
    assert(m =~= want);
}

/// Taking out an entry keeps the codes unique and takes its code out of the map.
proof fn lemma_map_remove(before: Seq<(String, bool)>, i: int)
    requires
        keys_unique(before),
        0 <= i < before.len(),
    ensures
        keys_unique(before.remove(i)),
        entries_map(before.remove(i)) == entries_map(before).remove(before[i].0@),
{
    let after = before.remove(i);
    let key = before[i].0@;
    assert forall|j: int| 0 <= j < after.len() implies #[trigger] after[j] == before[if j < i {
        j
    } else {
        j + 1
    }] by {}
    assert forall|a: int, b: int| 0 <= a < b < after.len() implies (#[trigger] after[a]).0@
        != (#[trigger] after[b]).0@ by {
        let a2 = if a < i { a } else { a + 1 };
        let b2 = if b < i { b } else { b + 1 };
        assert(after[a] == before[a2]);
        assert(after[b] == before[b2]);
    }
    let m = entries_map(after);
    let want = entries_map(before).remove(key);
    assert forall|k: Seq<char>| #[trigger] m.contains_key(k) <==> want.contains_key(k) by {
        if has_key(after, k) {
            let j = choose|j: int| 0 <= j < after.len() && (#[trigger] after[j]).0@ == k;
            let j2 = if j < i { j } else { j + 1 };
            assert(after[j] == before[j2]);
            if j2 < i {
                assert(before[j2].0@ != before[i].0@);
            } else {
                assert(before[i].0@ != before[j2].0@);
            }
        }
        if want.contains_key(k) {
            let j = choose|j: int| 0 <= j < before.len() && (#[trigger] before[j]).0@ == k;
            assert(j != i);
            let j2 = if j < i { j } else { j - 1 };
            assert(after[j2] == before[j]);
        }
    }
    assert forall|k: Seq<char>| m.contains_key(k) implies #[trigger] m[k] == want[k] by {
        let j = choose|j: int| 0 <= j < after.len() && (#[trigger] after[j]).0@ == k;
        let j2 = if j < i { j } else { j + 1 };
        assert(after[j] == before[j2]);
        lemma_map_at(after, j);
        lemma_map_at(before, j2);
    }
    assert(m =~= want);
}

impl SyncStore {
    #[verifier::type_invariant]
    spec fn inv(self) -> bool {
        keys_unique(self.checked@)
    }

    /// A store that has seen nothing.
    pub fn new() -> (r: SyncStore)
        ensures
            r@.checked == Map::<Seq<char>, bool>::empty(),
            r@.seen == Seq::<(Seq<char>, u8)>::empty(),
    {
        let r = SyncStore { checked: Vec::new(), seen: Vec::new() };
        assert(r@.checked =~= Map::<Seq<char>, bool>::empty());
        assert(r@.seen =~= Seq::<(Seq<char>, u8)>::empty());
        r
    }

    /// Whether the code is checked (hidden on the receiver): false for a code
    /// never recorded.
    pub fn is_checked(&self, code: &str) -> (r: bool)
        ensures
            r == checked_of(self@.checked, code@),
    {
        proof {
            use_type_invariant(&*self);
        }
        let key = code.to_owned();
        match find_key(&self.checked, &key) {
            Some(i) => {
                proof {
                    lemma_map_at(self.checked@, i as int);
                }
                self.checked[i].1
            },
            None => false,
        }
    }

    /// Records the checked state of a code, replacing any earlier one.
    pub fn set_checked(&mut self, code: &str, checked: bool)
        ensures
            final(self)@.checked == old(self)@.checked.insert(code@, checked),
            final(self)@.seen == old(self)@.seen,
    {
        proof {
            use_type_invariant(&*self);
        }
        let key = code.to_owned();
        let mut entries: Vec<(String, bool)> = Vec::new();
        std::mem::swap(&mut entries, &mut self.checked);
        let ghost before = entries@;
        match find_key(&entries, &key) {
            Some(i) => {
                let ghost kv = key@;
                entries.remove(i);
                entries.insert(i, (key, checked));
                assert(entries@ =~= before.update(i as int, entries@[i as int]));
                assert(entries@[i as int].0@ == kv);
            },
            None => {
                entries.push((key, checked));
            },
        }
        proof {
            lemma_map_store(before, entries@, code@, checked);
        }
        self.checked = entries;
    }

    /// Forgets a deleted scan: its code's checked state, and the first scan
    /// seen with its code.
    pub fn forget(&mut self, code: &str)
        ensures
            final(self)@.checked == old(self)@.checked.remove(code@),
            final(self)@.seen == forget_first(old(self)@.seen, code@),
    {
        proof {
            use_type_invariant(&*self);
        }
        let key = code.to_owned();
        let mut seen: Vec<(String, u8)> = Vec::new();
        std::mem::swap(&mut seen, &mut self.seen);
        let ghost sv = seen_view(seen@);
        let mut i: usize = 0;
        while i < seen.len()
            invariant
                sv == seen_view(seen@),
                i <= seen@.len(),
                forall|j: int| 0 <= j < i ==> (#[trigger] sv[j]).0 != key@,
            ensures
                i <= seen@.len(),
                forall|j: int| 0 <= j < i ==> (#[trigger] sv[j]).0 != key@,
                i < seen@.len() ==> sv[i as int].0 == key@,
            decreases seen@.len() - i,
        {
            if seen[i].0 == key {
                break;
            }
            i = i + 1;
        }
        let found = i < seen.len();
        proof {
            if found {
                assert(sv[i as int].0 == key@);
                let c = choose|c: int|
                    0 <= c < sv.len() && (#[trigger] sv[c]).0 == key@ && forall|j: int|
                        0 <= j < c ==> (#[trigger] sv[j]).0 != key@;
                if c < i {
                } else if c > i {
                    assert(sv[i as int].0 != key@);
                }
                assert(first_seen(sv, key@) == Some(i as int));
            } else {
                assert(first_seen(sv, key@) == None::<int>);
            }
        }
        if found {
            seen.remove(i);
            assert(seen_view(seen@) =~= sv.remove(i as int));
        }
        self.seen = seen;
        let mut entries: Vec<(String, bool)> = Vec::new();
        std::mem::swap(&mut entries, &mut self.checked);
        let ghost before = entries@;
        match find_key(&entries, &key) {
            Some(j) => {
                entries.remove(j);
                proof {
                    lemma_map_remove(before, j as int);
                }
            },
            None => {
                assert(entries_map(before).remove(key@) =~= entries_map(before));
            },
        }
        self.checked = entries;
    }

    /// Receiver side: answers a poll request (routing byte excluded) with each
    /// polled code and its checked state, in the order polled.
    pub fn answer_sync_poll(&self, body: &[u8]) -> (r: Result<Vec<u8>, ProtoError>)
        ensures
            match spec_decode_poll_request(body@) {
                Ok(codes) => r matches Ok(b) && b@ == poll_reply_frame(
                    poll_answer(self@.checked, codes),
                ),
                Err(e) => r == Err::<Vec<u8>, ProtoError>(e),
            },
    {
        let codes = match decode_sync_poll_request(body) {
            Ok(c) => c,
            Err(e) => return Err(e),
        };
        let ghost cv = strings_view(codes@);
        let mut entries: Vec<(String, bool)> = Vec::new();
        let mut i: usize = 0;
        while i < codes.len()
            invariant
                cv == strings_view(codes@),
                i <= codes@.len(),
                poll_entries_view(entries@) == poll_answer(self@.checked, cv.take(i as int)),
            decreases codes@.len() - i,
        {
            let checked = self.is_checked(codes[i].as_str());
            let ghost before = entries@;
            entries.push((codes[i].clone(), checked));
            assert(cv.take(i + 1) =~= cv.take(i as int).push(cv[i as int]));
            assert(poll_entries_view(entries@) =~= poll_entries_view(before).push(
                (cv[i as int], checked),
            ));
            assert(poll_answer(self@.checked, cv.take(i + 1)) =~= poll_answer(
                self@.checked,
                cv.take(i as int),
            ).push((cv[i as int], checked)));
            i = i + 1;
        }
        assert(cv.take(codes@.len() as int) =~= cv);
        Ok(encode_sync_poll_reply(entries.as_slice()))
    }

    /// Receiver side: answers a sync-all request with every scan seen, in
    /// arrival order, with its kind byte and checked state.
    pub fn answer_sync_all(&self) -> (r: Vec<u8>)
        ensures
            r@ == all_reply_frame(all_answer(self@.checked, self@.seen)),
    {
        let ghost sv = self@.seen;
        let mut entries: Vec<(String, u8, bool)> = Vec::new();
        let mut i: usize = 0;
        while i < self.seen.len()
            invariant
                sv == self@.seen,
                sv == seen_view(self.seen@),
                i <= self.seen@.len(),
                all_entries_view(entries@) == all_answer(self@.checked, sv.take(i as int)),
            decreases self.seen@.len() - i,
        {
            let checked = self.is_checked(self.seen[i].0.as_str());
            let ghost before = entries@;
            entries.push((self.seen[i].0.clone(), self.seen[i].1, checked));
            assert(sv.take(i + 1) =~= sv.take(i as int).push(sv[i as int]));
            assert(all_entries_view(entries@) =~= all_entries_view(before).push(
                (sv[i as int].0, sv[i as int].1, checked),
            ));
            assert(all_answer(self@.checked, sv.take(i + 1)) =~= all_answer(
                self@.checked,
                sv.take(i as int),
            ).push((sv[i as int].0, sv[i as int].1, checked)));
            i = i + 1;
        }
        assert(sv.take(self.seen@.len() as int) =~= sv);
        encode_sync_all_reply(entries.as_slice())
    }

    /// Records a scan received, at the end of the scans in arrival order.
    pub fn record_scan(&mut self, code: &str, kind_byte: u8)
        ensures
            final(self)@.seen == old(self)@.seen.push((code@, kind_byte)),
            final(self)@.checked == old(self)@.checked,
    {
        proof {
            use_type_invariant(&*self);
        }
        let mut seen: Vec<(String, u8)> = Vec::new();
        std::mem::swap(&mut seen, &mut self.seen);
        let ghost before = seen@;
        seen.push((code.to_owned(), kind_byte));
        assert(seen_view(seen@) =~= seen_view(before).push((code@, kind_byte)));
        self.seen = seen;
    }
}

} // verus!
