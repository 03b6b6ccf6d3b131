//! The sync streams, through which the phone learns what the receiver holds.
//!
//! Poll: the phone sends `0x10 | n(u32 BE) | [code_len(u32 BE) | code]*` and the
//! receiver replies `n(u32 BE) | [code_len(u32 BE) | code | checked(u8)]*`.
//! All: the phone sends `0x12` and the receiver replies
//! `n(u32 BE) | [code_len(u32 BE) | code | kind(u8) | checked(u8)]*`.

use vstd::prelude::*;
use vstd::utf8::*;
use crate::error::ProtoError;
use crate::kind::CodeKind;
use crate::kind::spec_kind_of;
use crate::wire::{
    lemma_len_prefix_small, lemma_read_code_field, lemma_read_u32_prefix, MAX_CODE_LEN,
    be_bytes, code_field, get_byte, get_code, get_u32_be, len_prefix, push_code, push_len_prefix,
    read_byte, read_code, read_u32, MAX_ENTRIES,
};

verus! {

/// The application protocol name under which phone and receiver connect,
/// `barcodescan/0`.
pub open spec fn spec_alpn() -> Seq<u8> {
    seq![98, 97, 114, 99, 111, 100, 101, 115, 99, 97, 110, 47, 48]
}

/// The bytes of the application protocol name, `barcodescan/0`.
pub fn alpn() -> (r: Vec<u8>)
    ensures
        r@ == spec_alpn(),
{
    let r: Vec<u8> = vec![98, 97, 114, 99, 111, 100, 101, 115, 99, 97, 110, 47, 48];
    assert(r@ =~= spec_alpn());
    r
}

/// Routing byte of a sync poll stream.
pub const SYNC_POLL: u8 = 0x10;

/// Routing byte of a sync-all stream.
pub const SYNC_ALL: u8 = 0x12;

/// What a receiver does with a stream, by its first byte.
#[derive(Debug, Clone, Copy, PartialEq, Eq, Structural)]
pub enum StreamRoute {
    /// Answer a sync poll.
    SyncPoll,
    /// Answer a sync-all request.
    SyncAll,
    /// Read a scan whose kind byte is the one given.
    Scan(u8),
}

/// The route of a stream that starts with `b`.
pub open spec fn spec_route(b: u8) -> StreamRoute {
    if b == SYNC_POLL {
        StreamRoute::SyncPoll
    } else if b == SYNC_ALL {
        StreamRoute::SyncAll
    } else {
        StreamRoute::Scan(b)
    }
}

/// Receiver side: where a stream goes, by its first byte.
pub fn route_stream(b: u8) -> (r: StreamRoute)
    ensures
        r == spec_route(b),
{
    if b == SYNC_POLL {
        StreamRoute::SyncPoll
    } else if b == SYNC_ALL {
        StreamRoute::SyncAll
    } else {
        StreamRoute::Scan(b)
    }
}

/// The byte written for a checked flag.
pub open spec fn flag_byte(b: bool) -> u8 {
    if b {
        1
    } else {
        0
    }
}

/// `count` items read one after another from `start`, each by `item`: the items
/// and the position after the last, or the first refusal.
pub open spec fn read_list<T>(
    buf: Seq<u8>,
    start: int,
    count: nat,
    item: spec_fn(Seq<u8>, int) -> Result<(T, int), ProtoError>,
) -> Result<(Seq<T>, int), ProtoError>
    decreases count,
{
    if count == 0 {
        Ok((Seq::empty(), start))
    } else {
        match read_list(buf, start, (count - 1) as nat, item) {
            Err(e) => Err(e),
            Ok((xs, p)) => match item(buf, p) {
                Err(e) => Err(e),
                Ok((x, q)) => Ok((xs.push(x), q)),
            },
        }
    }
}

/// Once a list refuses, reading more items refuses the same way.
pub proof fn lemma_read_list_err<T>(
    buf: Seq<u8>,
    start: int,
    i: nat,
    n: nat,
    item: spec_fn(Seq<u8>, int) -> Result<(T, int), ProtoError>,
)
    requires
        i <= n,
        read_list(buf, start, i, item) is Err,
    ensures
        read_list(buf, start, n, item) == read_list(buf, start, i, item),
    decreases n,
{
    if n > i {
        lemma_read_list_err(buf, start, i, (n - 1) as nat, item);
    }
}

/// The pieces up to `i + 1`, laid end to end, are those up to `i` followed by piece `i`.
pub proof fn lemma_flatten_take_push<A>(parts: Seq<Seq<A>>, i: int)
    requires
        0 <= i < parts.len(),
    ensures
        parts.take(i + 1).flatten() == parts.take(i).flatten() + parts[i],
{
    assert(parts.take(i + 1) =~= parts.take(i).push(parts[i]));
    parts.take(i).lemma_flatten_push(parts[i]);
}

/// All pieces laid end to end start with the first `i` of them laid end to end.
pub proof fn lemma_flatten_split<A>(parts: Seq<Seq<A>>, i: int)
    requires
        0 <= i <= parts.len(),
    ensures
        parts.flatten() == parts.take(i).flatten() + parts.skip(i).flatten(),
{
    assert(parts =~= parts.take(i) + parts.skip(i));
    vstd::seq_lib::lemma_flatten_concat(parts.take(i), parts.skip(i));
}

/// A piece of a piece of `buf` is a piece of `buf`.
pub proof fn lemma_subrange_within(buf: Seq<u8>, start: int, whole: Seq<u8>, off: int, piece: Seq<u8>)
    requires
        0 <= start,
        start + whole.len() <= buf.len(),
        buf.subrange(start, start + whole.len()) == whole,
        0 <= off,
        off + piece.len() <= whole.len(),
        whole.subrange(off, off + piece.len()) == piece,
    ensures
        buf.subrange(start + off, start + off + piece.len()) == piece,
{
    assert forall|j: int| 0 <= j < piece.len() implies #[trigger] buf.subrange(
        start + off,
        start + off + piece.len(),
    )[j] == piece[j] by {
        assert(whole.subrange(off, off + piece.len())[j] == whole[off + j]);
        assert(buf.subrange(start, start + whole.len())[off + j] == buf[start + off + j]);
    }
    assert(buf.subrange(start + off, start + off + piece.len()) =~= piece);
}

/// Items laid down one after another, each of which reads back as itself,
/// read back as a list: after `i` of them, the first `i` items and the position
/// after their bytes.
pub proof fn lemma_read_list_encoded<T>(
    buf: Seq<u8>,
    start: int,
    xs: Seq<T>,
    parts: Seq<Seq<u8>>,
    item: spec_fn(Seq<u8>, int) -> Result<(T, int), ProtoError>,
    i: nat,
)
    requires
        xs.len() == parts.len(),
        i <= xs.len(),
        0 <= start,
        start + parts.flatten().len() <= buf.len(),
        buf.subrange(start, start + parts.flatten().len()) == parts.flatten(),
        forall|b: Seq<u8>, p: int, k: int|
            #![trigger item(b, p), parts[k]]
            0 <= k < parts.len() && 0 <= p && p + parts[k].len() <= b.len() && b.subrange(
                p,
                p + parts[k].len(),
            ) == parts[k] ==> item(b, p) == Ok::<(T, int), ProtoError>(
                (xs[k], p + parts[k].len()),
            ),
    ensures
        read_list(buf, start, i, item) == Ok::<(Seq<T>, int), ProtoError>(
            (xs.take(i as int), start + parts.take(i as int).flatten().len()),
        ),
    decreases i,
{
    if i == 0 {
        assert(xs.take(0) =~= Seq::<T>::empty());
        assert(parts.take(0) =~= Seq::<Seq<u8>>::empty());
    } else {
        let k = (i - 1) as int;
        lemma_read_list_encoded(buf, start, xs, parts, item, (i - 1) as nat);
        let pre = parts.take(k).flatten();
        let p = start + pre.len();
        lemma_flatten_take_push(parts, k);
        lemma_flatten_split(parts, i as int);
        let flat = parts.flatten();
        assert(flat == pre + parts[k] + parts.skip(i as int).flatten());
        assert(flat.subrange(pre.len() as int, (pre.len() + parts[k].len()) as int) =~= parts[k]);
        lemma_subrange_within(buf, start, flat, pre.len() as int, parts[k]);
        assert(item(buf, p) == Ok::<(T, int), ProtoError>((xs[k], p + parts[k].len())));
        assert(xs.take(i as int) =~= xs.take(k).push(xs[k]));
    }
}

/// A counted list: a big-endian count within the limit, then that many items.
pub open spec fn read_counted<T>(
    buf: Seq<u8>,
    item: spec_fn(Seq<u8>, int) -> Result<(T, int), ProtoError>,
) -> Result<Seq<T>, ProtoError> {
    match read_u32(buf, 0) {
        None => Err(ProtoError::Truncated),
        Some(n) => if n > MAX_ENTRIES {
            Err(ProtoError::TooManyEntries(n))
        } else {
            match read_list(buf, 4, n as nat, item) {
                Ok((xs, _)) => Ok(xs),
                Err(e) => Err(e),
            }
        },
    }
}

/// An entry of a poll reply: a code and its checked byte (any byte but 0 is checked).
pub open spec fn read_poll_entry(buf: Seq<u8>, pos: int) -> Result<((Seq<char>, bool), int), ProtoError> {
    match read_code(buf, pos) {
        Err(e) => Err(e),
        Ok((code, p)) => match read_byte(buf, p) {
            None => Err(ProtoError::Truncated),
            Some(b) => Ok(((code, b != 0), p + 1)),
        },
    }
}

/// An entry of a sync-all reply: a code, its kind byte and its checked byte.
pub open spec fn read_all_entry(buf: Seq<u8>, pos: int) -> Result<((Seq<char>, CodeKind, bool), int), ProtoError> {
    match read_code(buf, pos) {
        Err(e) => Err(e),
        Ok((code, p)) => match read_byte(buf, p) {
            None => Err(ProtoError::Truncated),
            Some(k) => match spec_kind_of(k) {
                None => Err(ProtoError::UnknownCodeKind(k)),
                Some(kind) => match read_byte(buf, p + 1) {
                    None => Err(ProtoError::Truncated),
                    Some(b) => Ok(((code, kind, b != 0), p + 2)),
                },
            },
        },
    }
}

/// Reading one code, as a list item.
pub open spec fn code_item() -> spec_fn(Seq<u8>, int) -> Result<(Seq<char>, int), ProtoError> {
    |b: Seq<u8>, p: int| read_code(b, p)
}

/// Reading one poll reply entry, as a list item.
pub open spec fn poll_item() -> spec_fn(Seq<u8>, int) -> Result<((Seq<char>, bool), int), ProtoError> {
    |b: Seq<u8>, p: int| read_poll_entry(b, p)
}

/// Reading one sync-all reply entry, as a list item.
pub open spec fn all_item() -> spec_fn(Seq<u8>, int) -> Result<((Seq<char>, CodeKind, bool), int), ProtoError> {
    |b: Seq<u8>, p: int| read_all_entry(b, p)
}

/// What a receiver makes of a poll request, routing byte excluded.
pub open spec fn spec_decode_poll_request(buf: Seq<u8>) -> Result<Seq<Seq<char>>, ProtoError> {
    read_counted(buf, code_item())
}

/// What a phone makes of a poll reply.
pub open spec fn spec_decode_poll_reply(buf: Seq<u8>) -> Result<Seq<(Seq<char>, bool)>, ProtoError> {
    read_counted(buf, poll_item())
}

/// What a phone makes of a sync-all reply.
pub open spec fn spec_decode_all_reply(buf: Seq<u8>) -> Result<Seq<(Seq<char>, CodeKind, bool)>, ProtoError> {
    read_counted(buf, all_item())
}

/// The code fields of a list of codes, one after another.
pub open spec fn codes_bytes(codes: Seq<Seq<char>>) -> Seq<u8> {
    codes.map_values(|c: Seq<char>| code_field(c)).flatten()
}

/// The bytes of a poll reply entry.
pub open spec fn poll_entry_bytes(e: (Seq<char>, bool)) -> Seq<u8> {
    code_field(e.0) + seq![flag_byte(e.1)]
}

/// The bytes of a sync-all reply entry.
pub open spec fn all_entry_bytes(e: (Seq<char>, u8, bool)) -> Seq<u8> {
    code_field(e.0) + seq![e.1, flag_byte(e.2)]
}

/// The bytes a phone writes for a poll request, routing byte included.
pub open spec fn poll_request_frame(codes: Seq<Seq<char>>) -> Seq<u8> {
    seq![SYNC_POLL] + be_bytes(len_prefix(codes.len())) + codes_bytes(codes)
}

/// The bytes a receiver writes for a poll reply.
pub open spec fn poll_reply_frame(entries: Seq<(Seq<char>, bool)>) -> Seq<u8> {
    be_bytes(len_prefix(entries.len())) + entries.map_values(
        |e: (Seq<char>, bool)| poll_entry_bytes(e),
    ).flatten()
}

/// The bytes a receiver writes for a sync-all reply.
pub open spec fn all_reply_frame(entries: Seq<(Seq<char>, u8, bool)>) -> Seq<u8> {
    be_bytes(len_prefix(entries.len())) + entries.map_values(
        |e: (Seq<char>, u8, bool)| all_entry_bytes(e),
    ).flatten()
}

/// The characters of each string.
pub open spec fn strings_view(v: Seq<String>) -> Seq<Seq<char>> {
    v.map_values(|s: String| s@)
}

/// Poll entries as plain values.
pub open spec fn poll_entries_view(v: Seq<(String, bool)>) -> Seq<(Seq<char>, bool)> {
    v.map_values(|e: (String, bool)| (e.0@, e.1))
}

/// Sync-all reply entries, as written, as plain values.
pub open spec fn all_entries_view(v: Seq<(String, u8, bool)>) -> Seq<(Seq<char>, u8, bool)> {
    v.map_values(|e: (String, u8, bool)| (e.0@, e.1, e.2))
}

/// Sync-all entries, as read, as plain values.
pub open spec fn all_results_view(v: Seq<(String, CodeKind, bool)>) -> Seq<(Seq<char>, CodeKind, bool)> {
    v.map_values(|e: (String, CodeKind, bool)| (e.0@, e.1, e.2))
}

/// Phone side: the bytes of a poll request for `codes`, routing byte included.
/// Counts and lengths are written cut to 32 bits.
pub fn encode_sync_poll_request(codes: &[String]) -> (r: Vec<u8>)
    ensures
        r@ == poll_request_frame(strings_view(codes@)),
{
    let mut out: Vec<u8> = Vec::new();
    out.push(SYNC_POLL);
    push_len_prefix(&mut out, codes.len());
    let ghost head = out@;
    let mut i: usize = 0;
    while i < codes.len()
        invariant
            i <= codes@.len(),
            out@ == head + codes_bytes(strings_view(codes@.take(i as int))),
        decreases codes@.len() - i,
    {
        push_code(&mut out, codes[i].as_str());
        proof {
            let before = strings_view(codes@.take(i as int));
            assert(strings_view(codes@.take(i + 1)) =~= before.push(codes@[i as int]@));
            let fields = before.map_values(|c: Seq<char>| code_field(c));
            assert(before.push(codes@[i as int]@).map_values(|c: Seq<char>| code_field(c))
                =~= fields.push(code_field(codes@[i as int]@)));
            fields.lemma_flatten_push(code_field(codes@[i as int]@));
        }
        i = i + 1;
    }
    assert(codes@.take(codes@.len() as int) =~= codes@);
    assert(out@ =~= poll_request_frame(strings_view(codes@)));
    out
}

/// Receiver side: reads the codes of a poll request, routing byte excluded.
pub fn decode_sync_poll_request(body: &[u8]) -> (r: Result<Vec<String>, ProtoError>)
    ensures
        match r {
            Ok(v) => spec_decode_poll_request(body@) == Ok::<Seq<Seq<char>>, ProtoError>(
                strings_view(v@),
            ),
            Err(e) => spec_decode_poll_request(body@) == Err::<Seq<Seq<char>>, ProtoError>(e),
        },
{
    let ghost item = code_item();
    let n = match get_u32_be(body, 0) {
        None => return Err(ProtoError::Truncated),
        Some(n) => n,
    };
    if n > MAX_ENTRIES {
        return Err(ProtoError::TooManyEntries(n));
    }
    let mut codes: Vec<String> = Vec::new();
    let mut pos: usize = 4;
    let mut i: u32 = 0;
    assert(strings_view(codes@) =~= Seq::<Seq<char>>::empty());
    while i < n
        invariant
            item == code_item(),
            read_u32(body@, 0) == Some(n),
            n <= MAX_ENTRIES,
            i <= n,
            read_list(body@, 4, i as nat, item) == Ok::<(Seq<Seq<char>>, int), ProtoError>(
                (strings_view(codes@), pos as int),
            ),
        decreases n - i,
    {
        match get_code(body, pos) {
            Err(e) => {
                proof {
                    assert(item(body@, pos as int) == read_code(body@, pos as int));
                    assert(read_list(body@, 4, (i + 1) as nat, item) == Err::<
                        (Seq<Seq<char>>, int),
                        ProtoError,
                    >(e));
                    lemma_read_list_err(body@, 4, (i + 1) as nat, n as nat, item);
                }
                return Err(e);
            },
            Ok((s, p)) => {
                let ghost before = codes@;
                codes.push(s);
                pos = p;
                i = i + 1;
                assert(strings_view(codes@) =~= strings_view(before).push(s@));
            },
        }
    }
    Ok(codes)
}

/// Reads one poll reply entry at `pos`.
fn get_poll_entry(buf: &[u8], pos: usize) -> (r: Result<((String, bool), usize), ProtoError>)
    ensures
        match r {
            Ok((e, p)) => read_poll_entry(buf@, pos as int) == Ok::<
                ((Seq<char>, bool), int),
                ProtoError,
            >(((e.0@, e.1), p as int)),
            Err(e) => read_poll_entry(buf@, pos as int) == Err::<
                ((Seq<char>, bool), int),
                ProtoError,
            >(e),
        },
{
    let (code, p) = match get_code(buf, pos) {
        Ok(x) => x,
        Err(e) => return Err(e),
    };
    match get_byte(buf, p) {
        None => Err(ProtoError::Truncated),
        Some(b) => {
            let blen = buf.len();
            assert(p < blen);
            Ok(((code, b != 0), p + 1))
        },
    }
}

/// Reads one sync-all reply entry at `pos`.
fn get_all_entry(buf: &[u8], pos: usize) -> (r: Result<((String, CodeKind, bool), usize), ProtoError>)
    ensures
        match r {
            Ok((e, p)) => read_all_entry(buf@, pos as int) == Ok::<
                ((Seq<char>, CodeKind, bool), int),
                ProtoError,
            >(((e.0@, e.1, e.2), p as int)),
            Err(e) => read_all_entry(buf@, pos as int) == Err::<
                ((Seq<char>, CodeKind, bool), int),
                ProtoError,
            >(e),
        },
{
    let (code, p) = match get_code(buf, pos) {
        Ok(x) => x,
        Err(e) => return Err(e),
    };
    let k = match get_byte(buf, p) {
        None => return Err(ProtoError::Truncated),
        Some(k) => k,
    };
    let blen = buf.len();
    assert(p < blen);
    let kind = match CodeKind::from_u8(k) {
        Ok(kind) => kind,
        Err(e) => return Err(e),
    };
    match get_byte(buf, p + 1) {
        None => Err(ProtoError::Truncated),
        Some(b) => {
            assert(p + 1 < blen);
            Ok(((code, kind, b != 0), p + 2))
        },
    }
}

/// Receiver side: the bytes of a poll reply, one entry per polled code with
/// its checked state. The count and lengths are written cut to 32 bits.
pub fn encode_sync_poll_reply(entries: &[(String, bool)]) -> (r: Vec<u8>)
    ensures
        r@ == poll_reply_frame(poll_entries_view(entries@)),
{
    let mut out: Vec<u8> = Vec::new();
    push_len_prefix(&mut out, entries.len());
    let ghost head = out@;
    let ghost f = |e: (Seq<char>, bool)| poll_entry_bytes(e);
    let mut i: usize = 0;
    while i < entries.len()
        invariant
            f == (|e: (Seq<char>, bool)| poll_entry_bytes(e)),
            i <= entries@.len(),
            out@ == head + poll_entries_view(entries@.take(i as int)).map_values(f).flatten(),
        decreases entries@.len() - i,
    {
        let (code, checked) = (&entries[i].0, entries[i].1);
        push_code(&mut out, code.as_str());
        out.push(if checked { 1u8 } else { 0u8 });
        proof {
            let before = poll_entries_view(entries@.take(i as int));
            let e = (entries@[i as int].0@, entries@[i as int].1);
            assert(poll_entries_view(entries@.take(i + 1)) =~= before.push(e));
            assert(before.push(e).map_values(f) =~= before.map_values(f).push(poll_entry_bytes(e)));
            before.map_values(f).lemma_flatten_push(poll_entry_bytes(e));
        }
        i = i + 1;
    }
    assert(entries@.take(entries@.len() as int) =~= entries@);
    assert(out@ =~= poll_reply_frame(poll_entries_view(entries@)));
    out
}

/// Phone side: reads the receiver's poll reply: each code with its checked state.
pub fn decode_sync_poll_reply(stream: &[u8]) -> (r: Result<Vec<(String, bool)>, ProtoError>)
    ensures
        match r {
            Ok(v) => spec_decode_poll_reply(stream@) == Ok::<Seq<(Seq<char>, bool)>, ProtoError>(
                poll_entries_view(v@),
            ),
            Err(e) => spec_decode_poll_reply(stream@) == Err::<Seq<(Seq<char>, bool)>, ProtoError>(
                e,
            ),
        },
{
    let ghost item = poll_item();
    let n = match get_u32_be(stream, 0) {
        None => return Err(ProtoError::Truncated),
        Some(n) => n,
    };
    if n > MAX_ENTRIES {
        return Err(ProtoError::TooManyEntries(n));
    }
    let mut out: Vec<(String, bool)> = Vec::new();
    let mut pos: usize = 4;
    let mut i: u32 = 0;
    assert(poll_entries_view(out@) =~= Seq::<(Seq<char>, bool)>::empty());
    while i < n
        invariant
            item == poll_item(),
            read_u32(stream@, 0) == Some(n),
            n <= MAX_ENTRIES,
            i <= n,
            read_list(stream@, 4, i as nat, item) == Ok::<(Seq<(Seq<char>, bool)>, int), ProtoError>(
                (poll_entries_view(out@), pos as int),
            ),
        decreases n - i,
    {
        match get_poll_entry(stream, pos) {
            Err(e) => {
                proof {
                    assert(item(stream@, pos as int) == read_poll_entry(stream@, pos as int));
                    lemma_read_list_err(stream@, 4, (i + 1) as nat, n as nat, item);
                }
                return Err(e);
            },
            Ok((entry, p)) => {
                let ghost before = out@;
                let ghost ev = (entry.0@, entry.1);
                out.push(entry);
                pos = p;
                i = i + 1;
                assert(poll_entries_view(out@) =~= poll_entries_view(before).push(ev));
            },
        }
    }
    Ok(out)
}

/// Phone side: the bytes of a sync-all request.
pub fn encode_sync_all_request() -> (r: Vec<u8>)
    ensures
        r@ == seq![SYNC_ALL],
{
    let mut out: Vec<u8> = Vec::new();
    out.push(SYNC_ALL);
    assert(out@ =~= seq![SYNC_ALL]);
    out
}

/// Receiver side: the bytes of a sync-all reply, one entry per scan seen with
/// its kind byte and checked state. The count and lengths are written cut to 32 bits.
pub fn encode_sync_all_reply(entries: &[(String, u8, bool)]) -> (r: Vec<u8>)
    ensures
        r@ == all_reply_frame(all_entries_view(entries@)),
{
    let mut out: Vec<u8> = Vec::new();
    push_len_prefix(&mut out, entries.len());
    let ghost head = out@;
    let ghost f = |e: (Seq<char>, u8, bool)| all_entry_bytes(e);
    let mut i: usize = 0;
    while i < entries.len()
        invariant
            f == (|e: (Seq<char>, u8, bool)| all_entry_bytes(e)),
            i <= entries@.len(),
            out@ == head + all_entries_view(entries@.take(i as int)).map_values(f).flatten(),
        decreases entries@.len() - i,
    {
        let (code, kind_byte, checked) = (&entries[i].0, entries[i].1, entries[i].2);
        push_code(&mut out, code.as_str());
        out.push(kind_byte);
        out.push(if checked { 1u8 } else { 0u8 });
        proof {
            let before = all_entries_view(entries@.take(i as int));
            let e = (entries@[i as int].0@, entries@[i as int].1, entries@[i as int].2);
            assert(all_entries_view(entries@.take(i + 1)) =~= before.push(e));
            assert(before.push(e).map_values(f) =~= before.map_values(f).push(all_entry_bytes(e)));
            before.map_values(f).lemma_flatten_push(all_entry_bytes(e));
        }
        i = i + 1;
    }
    assert(entries@.take(entries@.len() as int) =~= entries@);
    assert(out@ =~= all_reply_frame(all_entries_view(entries@)));
    out
}

/// Phone side: reads the receiver's sync-all reply: each code with its kind and checked state.
pub fn decode_sync_all_reply(stream: &[u8]) -> (r: Result<Vec<(String, CodeKind, bool)>, ProtoError>)
    ensures
        match r {
            Ok(v) => spec_decode_all_reply(stream@) == Ok::<
                Seq<(Seq<char>, CodeKind, bool)>,
                ProtoError,
            >(all_results_view(v@)),
            Err(e) => spec_decode_all_reply(stream@) == Err::<
                Seq<(Seq<char>, CodeKind, bool)>,
                ProtoError,
            >(e),
        },
{
    let ghost item = all_item();
    let n = match get_u32_be(stream, 0) {
        None => return Err(ProtoError::Truncated),
        Some(n) => n,
    };
    if n > MAX_ENTRIES {
        return Err(ProtoError::TooManyEntries(n));
    }
    let mut out: Vec<(String, CodeKind, bool)> = Vec::new();
    let mut pos: usize = 4;
    let mut i: u32 = 0;
    assert(all_results_view(out@) =~= Seq::<(Seq<char>, CodeKind, bool)>::empty());
    while i < n
        invariant
            item == all_item(),
            read_u32(stream@, 0) == Some(n),
            n <= MAX_ENTRIES,
            i <= n,
            read_list(stream@, 4, i as nat, item) == Ok::<
                (Seq<(Seq<char>, CodeKind, bool)>, int),
                ProtoError,
            >((all_results_view(out@), pos as int)),
        decreases n - i,
    {
        match get_all_entry(stream, pos) {
            Err(e) => {
                proof {
                    assert(item(stream@, pos as int) == read_all_entry(stream@, pos as int));
                    lemma_read_list_err(stream@, 4, (i + 1) as nat, n as nat, item);
                }
                return Err(e);
            },
            Ok((entry, p)) => {
                let ghost before = out@;
                let ghost ev = (entry.0@, entry.1, entry.2);
                out.push(entry);
                pos = p;
                i = i + 1;
                assert(all_results_view(out@) =~= all_results_view(before).push(ev));
            },
        }
    }
    Ok(out)
}

/// Every code is within the length limit once encoded.
pub open spec fn codes_within_limit(codes: Seq<Seq<char>>) -> bool {
    forall|i: int| 0 <= i < codes.len() ==> encode_utf8(#[trigger] codes[i]).len() <= MAX_CODE_LEN
}

/// A counted list whose count prefix is `n` and whose items follow.
proof fn lemma_counted_frame<T>(
    body: Seq<u8>,
    xs: Seq<T>,
    parts: Seq<Seq<u8>>,
    item: spec_fn(Seq<u8>, int) -> Result<(T, int), ProtoError>,
)
    requires
        xs.len() == parts.len(),
        xs.len() <= MAX_ENTRIES,
        body == be_bytes(len_prefix(xs.len())) + parts.flatten(),
        forall|b: Seq<u8>, p: int, k: int|
            #![trigger item(b, p), parts[k]]
            0 <= k < parts.len() && 0 <= p && p + parts[k].len() <= b.len() && b.subrange(
                p,
                p + parts[k].len(),
            ) == parts[k] ==> item(b, p) == Ok::<(T, int), ProtoError>(
                (xs[k], p + parts[k].len()),
            ),
    ensures
        read_counted(body, item) == Ok::<Seq<T>, ProtoError>(xs),
{
    let n = xs.len();
    let flat = parts.flatten();
    lemma_len_prefix_small(n);
    assert(body.subrange(0, 4) =~= be_bytes(n as u32));
    lemma_read_u32_prefix(n as u32, body, 0);
    assert(body.subrange(4, (4 + flat.len()) as int) =~= flat);
    lemma_read_list_encoded(body, 4, xs, parts, item, n);
    assert(xs.take(n as int) =~= xs);
}

/// The codes a phone polls for are the codes the receiver reads, in the same
/// order, whenever there are at most `MAX_ENTRIES` of them and each is within
/// the length limit.
pub proof fn law_poll_request_roundtrip(codes: Seq<Seq<char>>)
    requires
        codes.len() <= MAX_ENTRIES,
        codes_within_limit(codes),
    ensures
        spec_decode_poll_request(poll_request_frame(codes).skip(1)) == Ok::<
            Seq<Seq<char>>,
            ProtoError,
        >(codes),
{
    let parts = codes.map_values(|c: Seq<char>| code_field(c));
    let body = poll_request_frame(codes).skip(1);
    assert(body =~= be_bytes(len_prefix(codes.len())) + parts.flatten());
    assert forall|b: Seq<u8>, p: int, k: int|
        #![trigger code_item()(b, p), parts[k]]
        0 <= k < parts.len() && 0 <= p && p + parts[k].len() <= b.len() && b.subrange(
            p,
            p + parts[k].len(),
        ) == parts[k] implies code_item()(b, p) == Ok::<(Seq<char>, int), ProtoError>(
        (codes[k], p + parts[k].len()),
    ) by {
        lemma_read_code_field(codes[k], b, p);
    }
    lemma_counted_frame(body, codes, parts, code_item());
}

/// A poll reply entry laid down at `p` reads back as itself.
proof fn lemma_read_poll_entry(e: (Seq<char>, bool), b: Seq<u8>, p: int)
    requires
        encode_utf8(e.0).len() <= MAX_CODE_LEN,
        0 <= p,
        p + poll_entry_bytes(e).len() <= b.len(),
        b.subrange(p, p + poll_entry_bytes(e).len()) == poll_entry_bytes(e),
    ensures
        read_poll_entry(b, p) == Ok::<((Seq<char>, bool), int), ProtoError>(
            (e, p + poll_entry_bytes(e).len()),
        ),
{
    let whole = poll_entry_bytes(e);
    let f = code_field(e.0);
    assert(whole.subrange(0, f.len() as int) =~= f);
    lemma_subrange_within(b, p, whole, 0, f);
    lemma_read_code_field(e.0, b, p);
    assert(b[p + f.len()] == b.subrange(p, p + whole.len())[f.len() as int]);
}

/// The entries a receiver writes in a poll reply are the entries the phone
/// reads, whenever there are at most `MAX_ENTRIES` and each code is within the
/// length limit.
pub proof fn law_poll_reply_roundtrip(entries: Seq<(Seq<char>, bool)>)
    requires
        entries.len() <= MAX_ENTRIES,
        forall|i: int| 0 <= i < entries.len() ==> encode_utf8(#[trigger] entries[i].0).len() <= MAX_CODE_LEN,
    ensures
        spec_decode_poll_reply(poll_reply_frame(entries)) == Ok::<
            Seq<(Seq<char>, bool)>,
            ProtoError,
        >(entries),
{
    let parts = entries.map_values(|e: (Seq<char>, bool)| poll_entry_bytes(e));
    assert forall|b: Seq<u8>, p: int, k: int|
        #![trigger poll_item()(b, p), parts[k]]
        0 <= k < parts.len() && 0 <= p && p + parts[k].len() <= b.len() && b.subrange(
            p,
            p + parts[k].len(),
        ) == parts[k] implies poll_item()(b, p) == Ok::<((Seq<char>, bool), int), ProtoError>(
        (entries[k], p + parts[k].len()),
    ) by {
        lemma_read_poll_entry(entries[k], b, p);
    }
    lemma_counted_frame(poll_reply_frame(entries), entries, parts, poll_item());
}

/// The entry that a phone reads for an entry written with a known kind byte.
pub open spec fn read_back_all_entry(e: (Seq<char>, u8, bool)) -> (Seq<char>, CodeKind, bool) {
    (e.0, if e.1 == 0 { CodeKind::Barcode } else { CodeKind::QrCode }, e.2)
}

/// A sync-all reply entry laid down at `p` reads back with its kind.
proof fn lemma_read_all_entry(e: (Seq<char>, u8, bool), b: Seq<u8>, p: int)
    requires
        encode_utf8(e.0).len() <= MAX_CODE_LEN,
        e.1 <= 1,
        0 <= p,
        p + all_entry_bytes(e).len() <= b.len(),
        b.subrange(p, p + all_entry_bytes(e).len()) == all_entry_bytes(e),
    ensures
        read_all_entry(b, p) == Ok::<((Seq<char>, CodeKind, bool), int), ProtoError>(
            (read_back_all_entry(e), p + all_entry_bytes(e).len()),
        ),
{
    let whole = all_entry_bytes(e);
    let f = code_field(e.0);
    assert(whole.subrange(0, f.len() as int) =~= f);
    lemma_subrange_within(b, p, whole, 0, f);
    lemma_read_code_field(e.0, b, p);
    assert(b[p + f.len()] == b.subrange(p, p + whole.len())[f.len() as int]);
    assert(b[p + f.len() + 1] == b.subrange(p, p + whole.len())[(f.len() + 1) as int]);
}

/// The entries a receiver writes in a sync-all reply are the entries the phone
/// reads, each kind byte read as its kind, whenever there are at most
/// `MAX_ENTRIES`, each code is within the length limit and each kind byte is 0 or 1.
pub proof fn law_all_reply_roundtrip(entries: Seq<(Seq<char>, u8, bool)>)
    requires
        entries.len() <= MAX_ENTRIES,
        forall|i: int| 0 <= i < entries.len() ==> encode_utf8(#[trigger] entries[i].0).len() <= MAX_CODE_LEN,
        forall|i: int| 0 <= i < entries.len() ==> #[trigger] entries[i].1 <= 1,
    ensures
        spec_decode_all_reply(all_reply_frame(entries)) == Ok::<
            Seq<(Seq<char>, CodeKind, bool)>,
            ProtoError,
        >(entries.map_values(|e: (Seq<char>, u8, bool)| read_back_all_entry(e))),
{
    let parts = entries.map_values(|e: (Seq<char>, u8, bool)| all_entry_bytes(e));
    let xs = entries.map_values(|e: (Seq<char>, u8, bool)| read_back_all_entry(e));
    assert forall|b: Seq<u8>, p: int, k: int|
        #![trigger all_item()(b, p), parts[k]]
        0 <= k < parts.len() && 0 <= p && p + parts[k].len() <= b.len() && b.subrange(
            p,
            p + parts[k].len(),
        ) == parts[k] implies all_item()(b, p) == Ok::<
        ((Seq<char>, CodeKind, bool), int),
        ProtoError,
    >((xs[k], p + parts[k].len())) by {
        lemma_read_all_entry(entries[k], b, p);
    }
    lemma_counted_frame(all_reply_frame(entries), xs, parts, all_item());
}

} // verus!
