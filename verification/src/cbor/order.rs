//! The order of a record's entries does not matter, and neither do entries under keys that the
//! record does not know: two maps that say the same under the keys that count are read alike.
//!
//! The maps are taken as they stand in the bytes. Of every entry the value has to be a complete item,
//! so that it is plain where the next entry begins.

use vstd::prelude::*;

use crate::cbor::codec::skip_outcome;
use crate::cbor::error::ErrorView;
use crate::cbor::float::double_at;
use crate::cbor::frame::lora_frame_in;
use crate::cbor::item::{
    argument, argument_bounds, bytes_at, chunk_end, chunks_end, count_at, float_width, item_end,
    items_end, row_end, text_at, uint_at,
};
use crate::cbor::key::{key_of, Key};
use crate::cbor::schema::{
    doubles_from, field, fields_from, kind_of, kind_rank, merge, octets_from, rank_of,
    record_at, value_at, words_from, Fields, Kind, Schema, Value,
};
use crate::cbor::subscribe::subscribe_in;
use crate::cbor::tx::{lora_tx_ack_in, lora_tx_in};
use crate::double::Double;

verus! {

// ---------------------------------------------------------------------------------------------
// Items at another place
// ---------------------------------------------------------------------------------------------
/// The `len` bytes at `p` of `b` are those at `q` of `c`.
pub open spec fn agree(b: Seq<u8>, p: int, c: Seq<u8>, q: int, len: int) -> bool {
    &&& 0 <= len
    &&& 0 <= p && p + len <= b.len()
    &&& 0 <= q && q + len <= c.len()
    &&& b.subrange(p, p + len) == c.subrange(q, q + len)
}

proof fn part_agrees(b: Seq<u8>, p: int, c: Seq<u8>, q: int, len: int, from: int, n: int)
    requires
        agree(b, p, c, q, len),
        0 <= from,
        0 <= n,
        from + n <= len,
    ensures
        agree(b, p + from, c, q + from, n),
        n > 0 ==> b[p + from] == c[q + from],
{
    let x = b.subrange(p, p + len);
    let y = c.subrange(q, q + len);
    assert(b.subrange(p + from, p + from + n) =~= x.subrange(from, from + n));
    assert(c.subrange(q + from, q + from + n) =~= y.subrange(from, from + n));
    if n > 0 {
        assert(x[from] == y[from]);
    }
}

proof fn argument_moves(b: Seq<u8>, p: int, c: Seq<u8>, q: int, len: int)
    requires
        agree(b, p, c, q, len),
        0 < len,
        argument(b, p) matches Some((n, e)) && e <= p + len,
    ensures
        b[p] == c[q],
        argument(b, p) matches Some((n, e)) && argument(c, q) == Some((n, q + e - p)),
{
    part_agrees(b, p, c, q, len, 0, len);
    argument_bounds(b, p);
    let e = argument(b, p)->Some_0.1;
    part_agrees(b, p, c, q, len, 1, e - p - 1);
}

proof fn text_moves(b: Seq<u8>, p: int, c: Seq<u8>, q: int, len: int)
    requires
        agree(b, p, c, q, len),
        text_at(b, p) matches Some((s, e)) && e <= p + len,
    ensures
        text_at(b, p) matches Some((s, e)) && text_at(c, q) == Some((s, q + e - p)),
{
    argument_bounds(b, p);
    let (n, h) = argument(b, p)->Some_0;
    argument_moves(b, p, c, q, len);
    part_agrees(b, p, c, q, len, h - p, n);
}

proof fn bytes_move(b: Seq<u8>, p: int, c: Seq<u8>, q: int, len: int)
    requires
        agree(b, p, c, q, len),
        bytes_at(b, p) matches Some((s, e)) && e <= p + len,
    ensures
        bytes_at(b, p) matches Some((s, e)) && bytes_at(c, q) == Some((s, q + e - p)),
{
    argument_bounds(b, p);
    let (n, h) = argument(b, p)->Some_0;
    argument_moves(b, p, c, q, len);
    part_agrees(b, p, c, q, len, h - p, n);
}

proof fn double_moves(b: Seq<u8>, p: int, c: Seq<u8>, q: int, len: int)
    requires
        agree(b, p, c, q, len),
        double_at(b, p) matches Ok((v, e)) && e <= p + len,
    ensures
        double_at(b, p) matches Ok((v, e)) && double_at(c, q) == Ok::<(Double, int), Seq<char>>(
            (v, q + e - p),
        ),
{
    let width = float_width(b, p)->Some_0;
    part_agrees(b, p, c, q, len, 0, len);
    part_agrees(b, p, c, q, len, 1, width);
}

proof fn chunk_end_bounds(b: Seq<u8>, p: int, major: int)
    ensures
        chunk_end(b, p, major) matches Some(e) ==> 0 <= p < e <= b.len(),
{
    if 0 <= p < b.len() {
        argument_bounds(b, p);
    }
}

proof fn chunks_end_bounds(b: Seq<u8>, p: int, major: int)
    ensures
        chunks_end(b, p, major) matches Some(e) ==> 0 <= p < e <= b.len(),
    decreases b.len() - p,
{
    chunk_end_bounds(b, p, major);
    if let Some(q) = chunk_end(b, p, major) {
        chunks_end_bounds(b, q, major);
    }
}

proof fn chunk_end_moves(b: Seq<u8>, p: int, major: int, c: Seq<u8>, q: int)
    requires
        chunk_end(b, p, major) matches Some(e) && agree(b, p, c, q, e - p),
    ensures
        chunk_end(b, p, major) matches Some(e) && chunk_end(c, q, major) == Some(q + e - p),
{
    let len = chunk_end(b, p, major)->Some_0 - p;
    if major == 2 {
        bytes_move(b, p, c, q, len);
    } else {
        text_moves(b, p, c, q, len);
    }
}

proof fn chunks_end_move(b: Seq<u8>, p: int, major: int, c: Seq<u8>, q: int)
    requires
        chunks_end(b, p, major) matches Some(e) && agree(b, p, c, q, e - p),
    ensures
        chunks_end(b, p, major) matches Some(e) && chunks_end(c, q, major) == Some(q + e - p),
    decreases b.len() - p,
{
    let e = chunks_end(b, p, major)->Some_0;
    chunks_end_bounds(b, p, major);
    part_agrees(b, p, c, q, e - p, 0, e - p);
    if b[p] != 0xff {
        let h = chunk_end(b, p, major)->Some_0;
        chunk_end_bounds(b, p, major);
        chunks_end_bounds(b, h, major);
        part_agrees(b, p, c, q, e - p, 0, h - p);
        part_agrees(b, p, c, q, e - p, h - p, e - h);
        chunk_end_moves(b, p, major, c, q);
        chunks_end_move(b, h, major, c, q + h - p);
    }
}

/// An item ends behind its beginning and within the bytes.
proof fn item_end_bounds(b: Seq<u8>, p: int)
    ensures
        item_end(b, p) matches Some(e) ==> 0 <= p < e <= b.len(),
    decreases b.len() - p, 0int,
{
    if 0 <= p < b.len() {
        argument_bounds(b, p);
        let major = b[p] as int / 32;
        chunk_end_bounds(b, p, major);
        chunks_end_bounds(b, p + 1, major);
        row_end_bounds(b, p + 1);
        if let Some((n, q)) = argument(b, p) {
            items_end_bounds(b, q, n);
            items_end_bounds(b, q, 2 * n);
            item_end_bounds(b, q);
        }
    }
}

proof fn items_end_bounds(b: Seq<u8>, p: int, n: int)
    requires
        0 <= p <= b.len(),
    ensures
        items_end(b, p, n) matches Some(e) ==> p <= e <= b.len(),
    decreases b.len() - p, 1int,
{
    if n > 0 {
        item_end_bounds(b, p);
        if let Some(q) = item_end(b, p) {
            items_end_bounds(b, q, n - 1);
        }
    }
}

proof fn row_end_bounds(b: Seq<u8>, p: int)
    ensures
        row_end(b, p) matches Some(e) ==> 0 <= p < e <= b.len(),
    decreases b.len() - p, 1int,
{
    if 0 <= p < b.len() {
        item_end_bounds(b, p);
        if let Some(q) = item_end(b, p) {
            row_end_bounds(b, q);
        }
    }
}

proof fn item_end_moves(b: Seq<u8>, p: int, c: Seq<u8>, q: int)
    requires
        item_end(b, p) matches Some(e) && agree(b, p, c, q, e - p),
    ensures
        item_end(b, p) matches Some(e) && item_end(c, q) == Some(q + e - p),
    decreases b.len() - p, 0int,
{
    let e = item_end(b, p)->Some_0;
    let len = e - p;
    let major = b[p] as int / 32;
    item_end_bounds(b, p);
    part_agrees(b, p, c, q, len, 0, len);
    if b[p] as int % 32 == 31 {
        part_agrees(b, p, c, q, len, 1, len - 1);
        if major == 2 || major == 3 {
            chunks_end_move(b, p + 1, major, c, q + 1);
        } else {
            row_end_moves(b, p + 1, c, q + 1);
        }
    } else if major == 2 || major == 3 {
        argument_bounds(b, p);
        argument_moves(b, p, c, q, len);
        chunk_end_moves(b, p, major, c, q);
    } else {
        let (n, h) = argument(b, p)->Some_0;
        argument_bounds(b, p);
        items_end_bounds(b, h, n);
        items_end_bounds(b, h, 2 * n);
        item_end_bounds(b, h);
        argument_moves(b, p, c, q, len);
        part_agrees(b, p, c, q, len, h - p, e - h);
        if major == 4 {
            items_end_move(b, h, n, c, q + h - p);
        } else if major == 5 {
            items_end_move(b, h, 2 * n, c, q + h - p);
        } else if major == 6 {
            item_end_moves(b, h, c, q + h - p);
        }
    }
}

proof fn row_end_moves(b: Seq<u8>, p: int, c: Seq<u8>, q: int)
    requires
        row_end(b, p) matches Some(e) && agree(b, p, c, q, e - p),
    ensures
        row_end(b, p) matches Some(e) && row_end(c, q) == Some(q + e - p),
    decreases b.len() - p, 1int,
{
    let e = row_end(b, p)->Some_0;
    row_end_bounds(b, p);
    part_agrees(b, p, c, q, e - p, 0, e - p);
    if b[p] != 0xff {
        let h = item_end(b, p)->Some_0;
        row_end_bounds(b, h);
        part_agrees(b, p, c, q, e - p, 0, h - p);
        part_agrees(b, p, c, q, e - p, h - p, e - h);
        item_end_moves(b, p, c, q);
        row_end_moves(b, h, c, q + h - p);
    }
}

proof fn items_end_move(b: Seq<u8>, p: int, n: int, c: Seq<u8>, q: int)
    requires
        items_end(b, p, n) matches Some(e) && agree(b, p, c, q, e - p),
    ensures
        items_end(b, p, n) matches Some(e) && items_end(c, q, n) == Some(q + e - p),
    decreases b.len() - p, 1int,
{
    if n > 0 {
        let e = items_end(b, p, n)->Some_0;
        let h = item_end(b, p)->Some_0;
        items_end_bounds(b, h, n - 1);
        part_agrees(b, p, c, q, e - p, 0, h - p);
        part_agrees(b, p, c, q, e - p, h - p, e - h);
        item_end_moves(b, p, c, q);
        items_end_move(b, h, n - 1, c, q + h - p);
    }
}

proof fn words_move(b: Seq<u8>, p: int, n: int, c: Seq<u8>, q: int, done: Seq<u16>)
    requires
        items_end(b, p, n) matches Some(e) && agree(b, p, c, q, e - p),
        words_from(b, p, n, done) is Ok,
    ensures
        items_end(b, p, n) matches Some(e) && words_from(b, p, n, done) matches Ok((w, r)) && r == e
            && words_from(c, q, n, done) == Ok::<(Seq<u16>, int), ErrorView>((w, q + e - p)),
    decreases n,
{
    if n > 0 {
        let e = items_end(b, p, n)->Some_0;
        let (v, h) = uint_at(b, p, u16::MAX as int)->Some_0;
        argument_bounds(b, p);
        assert(item_end(b, p) == Some(h));
        items_end_bounds(b, h, n - 1);
        argument_moves(b, p, c, q, e - p);
        part_agrees(b, p, c, q, e - p, h - p, e - h);
        words_move(b, h, n - 1, c, q + h - p, done.push(v as u16));
    }
}

proof fn octets_move(b: Seq<u8>, p: int, n: int, c: Seq<u8>, q: int, done: Seq<u8>)
    requires
        items_end(b, p, n) matches Some(e) && agree(b, p, c, q, e - p),
        octets_from(b, p, n, done) is Ok,
    ensures
        items_end(b, p, n) matches Some(e) && octets_from(b, p, n, done) matches Ok((w, r)) && r
            == e && octets_from(c, q, n, done) == Ok::<(Seq<u8>, int), ErrorView>((w, q + e - p)),
    decreases n,
{
    if n > 0 {
        let e = items_end(b, p, n)->Some_0;
        let (v, h) = uint_at(b, p, u8::MAX as int)->Some_0;
        argument_bounds(b, p);
        assert(item_end(b, p) == Some(h));
        items_end_bounds(b, h, n - 1);
        argument_moves(b, p, c, q, e - p);
        part_agrees(b, p, c, q, e - p, h - p, e - h);
        octets_move(b, h, n - 1, c, q + h - p, done.push(v as u8));
    }
}

/// A floating-point number ends where the item ends that it is.
proof fn double_end(b: Seq<u8>, p: int)
    requires
        double_at(b, p) is Ok,
    ensures
        double_at(b, p) matches Ok((v, e)) && item_end(b, p) == Some(e),
{
}

proof fn doubles_move(b: Seq<u8>, p: int, n: int, c: Seq<u8>, q: int, done: Seq<Double>)
    requires
        items_end(b, p, n) matches Some(e) && agree(b, p, c, q, e - p),
        doubles_from(b, p, n, done) is Ok,
    ensures
        items_end(b, p, n) matches Some(e) && doubles_from(b, p, n, done) matches Ok((w, r)) && r
            == e && doubles_from(c, q, n, done) == Ok::<(Seq<Double>, int), ErrorView>(
            (w, q + e - p),
        ),
    decreases n,
{
    if n > 0 {
        let e = items_end(b, p, n)->Some_0;
        let (v, h) = double_at(b, p)->Ok_0;
        double_end(b, p);
        items_end_bounds(b, h, n - 1);
        double_moves(b, p, c, q, e - p);
        part_agrees(b, p, c, q, e - p, h - p, e - h);
        doubles_move(b, h, n - 1, c, q + h - p, done.push(v));
    }
}

/// Records nest only so deep.
proof fn kind_is_below(s: Schema, k: Key)
    ensures
        kind_rank(kind_of(s, k)) < rank_of(s),
{
}

/// A value that is a complete item is read the same wherever the item stands, up to its end.
#[verifier::rlimit(50)]
proof fn value_moves(k: Kind, b: Seq<u8>, p: int, c: Seq<u8>, q: int)
    requires
        item_end(b, p) matches Some(e) && agree(b, p, c, q, e - p),
        value_at(k, b, p) is Ok,
    ensures
        item_end(b, p) matches Some(e) && value_at(k, b, p) matches Ok((v, r)) && r == e
            && value_at(k, c, q) == Ok::<(Value, int), ErrorView>((v, q + e - p)),
    decreases kind_rank(k), 1int, 0int,
{
    let e = item_end(b, p)->Some_0;
    let len = e - p;
    item_end_bounds(b, p);
    argument_bounds(b, p);
    let (n, h) = argument(b, p)->Some_0;
    match k {
        Kind::Text => {
            text_moves(b, p, c, q, len);
        },
        Kind::Bytes => {
            bytes_move(b, p, c, q, len);
        },
        Kind::Double => {
            double_end(b, p);
            double_moves(b, p, c, q, len);
        },
        Kind::Words => {
            items_end_bounds(b, h, n);
            argument_moves(b, p, c, q, len);
            part_agrees(b, p, c, q, len, h - p, e - h);
            words_move(b, h, n, c, q + h - p, Seq::empty());
        },
        Kind::Octets => {
            items_end_bounds(b, h, n);
            argument_moves(b, p, c, q, len);
            part_agrees(b, p, c, q, len, h - p, e - h);
            octets_move(b, h, n, c, q + h - p, Seq::empty());
        },
        Kind::Doubles => {
            items_end_bounds(b, h, n);
            argument_moves(b, p, c, q, len);
            part_agrees(b, p, c, q, len, h - p, e - h);
            doubles_move(b, h, n, c, q + h - p, Seq::empty());
        },
        Kind::Record(s) => {
            items_end_bounds(b, h, 2 * n);
            argument_moves(b, p, c, q, len);
            part_agrees(b, p, c, q, len, h - p, e - h);
            fields_move(s, b, h, n, c, q + h - p, Map::empty());
        },
        Kind::Unknown => {
            reveal(skip_outcome);
            item_end_moves(b, p, c, q);
        },
        _ => {
            argument_moves(b, p, c, q, len);
        },
    }
}

/// The first two of a row of items are the key and the value of an entry.
proof fn first_pair(b: Seq<u8>, p: int, n: int)
    requires
        n > 0,
        text_at(b, p) is Some,
        items_end(b, p, 2 * n) is Some,
    ensures
        ({
            let h = text_at(b, p)->Some_0.1;
            let e = items_end(b, p, 2 * n)->Some_0;
            &&& item_end(b, h) is Some
            &&& 0 <= p < h < item_end(b, h)->Some_0 <= e <= b.len()
            &&& items_end(b, item_end(b, h)->Some_0, 2 * (n - 1)) == Some(e)
        }),
{
    let h = text_at(b, p)->Some_0.1;
    assert(item_end(b, p) == Some(h));
    assert(items_end(b, p, 2 * n) == items_end(b, h, 2 * n - 1));
    let t = item_end(b, h)->Some_0;
    item_end_bounds(b, p);
    item_end_bounds(b, h);
    assert(items_end(b, h, 2 * n - 1) == items_end(b, t, 2 * (n - 1)));
    items_end_bounds(b, t, 2 * (n - 1));
}

#[verifier::rlimit(50)]
#[verifier::spinoff_prover]
proof fn fields_move(
    s: Schema,
    b: Seq<u8>,
    p: int,
    n: int,
    c: Seq<u8>,
    q: int,
    done: Fields,
)
    requires
        items_end(b, p, 2 * n) matches Some(e) && agree(b, p, c, q, e - p),
        fields_from(s, b, p, n, done) is Ok,
    ensures
        items_end(b, p, 2 * n) matches Some(e) && fields_from(s, b, p, n, done) matches Ok((f, r))
            && r == e && fields_from(s, c, q, n, done) == Ok::<(Fields, int), ErrorView>(
            (f, q + e - p),
        ),
    decreases rank_of(s), 0int, n,
{
    if n > 0 {
        let e = items_end(b, p, 2 * n)->Some_0;
        let len = e - p;
        let (name, h) = text_at(b, p)->Some_0;
        let key = key_of(name);
        let kind = kind_of(s, key);
        kind_is_below(s, key);
        first_pair(b, p, n);
        let t = item_end(b, h)->Some_0;
        text_moves(b, p, c, q, len);
        part_agrees(b, p, c, q, len, h - p, t - h);
        part_agrees(b, p, c, q, len, t - p, e - t);
        value_moves(kind, b, h, c, q + h - p);
        let v = value_at(kind, b, h)->Ok_0.0;
        fields_move(s, b, t, n - 1, c, q + t - p, merge(s, done, key, v));
    }
}

// ---------------------------------------------------------------------------------------------
// Maps that say the same
// ---------------------------------------------------------------------------------------------
/// An entry of a map: its key, and where its value stands.
pub struct Member {
    pub key: Key,
    pub at: int,
}

/// The next `n` entries of a map, which stand from `p` on, if each is a text and a complete item.
pub open spec fn members_from(b: Seq<u8>, p: int, n: int) -> Option<Seq<Member>>
    decreases n,
{
    if n <= 0 {
        Some(Seq::empty())
    } else {
        match text_at(b, p) {
            Some((name, q)) => match item_end(b, q) {
                Some(r) => match members_from(b, r, n - 1) {
                    Some(rest) => Some(seq![Member { key: key_of(name), at: q }] + rest),
                    None => None,
                },
                None => None,
            },
            None => None,
        }
    }
}

/// The entries of the map of definite length at `p`.
pub open spec fn members(b: Seq<u8>, p: int) -> Option<Seq<Member>> {
    match count_at(b, p, 5) {
        Some((Some(n), q)) => members_from(b, q, n),
        _ => None,
    }
}

/// The record knows the key.
pub open spec fn known(s: Schema, k: Key) -> bool {
    !(kind_of(s, k) is Unknown)
}

/// No key that the record knows occurs twice.
pub open spec fn keys_once(s: Schema, ms: Seq<Member>) -> bool {
    forall|i: int, j: int|
        #![trigger ms[i], ms[j]]
        0 <= i < j < ms.len() && known(s, ms[i].key) ==> ms[i].key != ms[j].key
}

/// Where the value of key `k` stands, if there is one.
pub open spec fn value_place(ms: Seq<Member>, k: Key) -> Option<int>
    decreases ms.len(),
{
    if ms.len() == 0 {
        None
    } else if ms[0].key == k {
        Some(ms[0].at)
    } else {
        value_place(ms.drop_first(), k)
    }
}

/// The item at `p` of `b` is, byte for byte, the item at `q` of `c`.
pub open spec fn same_item(b: Seq<u8>, p: int, c: Seq<u8>, q: int) -> bool {
    item_end(b, p) matches Some(e) && agree(b, p, c, q, e - p)
}

/// The values of kind `k` at `p` of `b` and at `q` of `c` say the same: they are the same item, or
/// records that say the same.
pub open spec fn alike(k: Kind, b: Seq<u8>, p: int, c: Seq<u8>, q: int) -> bool
    decreases kind_rank(k), 1int,
{
    same_item(b, p, c, q) || (k matches Kind::Record(s) && alike_maps(s, b, p, c, q))
}

/// The maps at `p` of `b` and at `q` of `c` say the same as records: the keys that the record knows
/// occur in both or in neither, once, and with values that say the same. In which order the entries
/// stand is left open, and so is what stands under other keys.
pub open spec fn alike_maps(s: Schema, b: Seq<u8>, p: int, c: Seq<u8>, q: int) -> bool
    decreases rank_of(s), 0int,
{
    match (members(b, p), members(c, q)) {
        (Some(x), Some(y)) => {
            &&& keys_once(s, x)
            &&& keys_once(s, y)
            &&& forall|k: Key|
                #![trigger kind_of(s, k)]
                known(s, k) ==> match (value_place(x, k), value_place(y, k)) {
                    (Some(i), Some(j)) => alike(kind_of(s, k), b, i, c, j),
                    (None, None) => true,
                    _ => false,
                }
        },
        _ => false,
    }
}

/// What is read for key `k` from a row of entries: its value, or what was read before.
pub open spec fn entry_said(s: Schema, b: Seq<u8>, ms: Seq<Member>, k: Key, done: Fields) -> Option<Value> {
    match value_place(ms, k) {
        Some(at) => if known(s, k) {
            Some(value_at(kind_of(s, k), b, at)->Ok_0.0)
        } else {
            field(done, k)
        },
        None => field(done, k),
    }
}

/// The values of the keys that the record knows can all be read.
pub open spec fn all_readable(s: Schema, b: Seq<u8>, ms: Seq<Member>) -> bool {
    forall|k: Key|
        #![trigger value_place(ms, k)]
        known(s, k) && value_place(ms, k) is Some ==> value_at(
            kind_of(s, k),
            b,
            value_place(ms, k)->Some_0,
        ) is Ok
}

/// A key that no entry has has no place.
proof fn no_place(ms: Seq<Member>, k: Key)
    requires
        forall|i: int| 0 <= i < ms.len() ==> (#[trigger] ms[i]).key != k,
    ensures
        value_place(ms, k) is None,
    decreases ms.len(),
{
    if ms.len() > 0 {
        let rest = ms.drop_first();
        assert forall|i: int| 0 <= i < rest.len() implies (#[trigger] rest[i]).key != k by {
            assert(rest[i] == ms[i + 1]);
        }
        no_place(rest, k);
    }
}

/// What a value reads as tells whether it was passed over.
proof fn only_unknown_is_skipped(k: Kind, b: Seq<u8>, p: int)
    requires
        value_at(k, b, p) is Ok,
    ensures
        value_at(k, b, p)->Ok_0.0 is Skipped <==> k is Unknown,
{
}

/// Where no known key occurs twice, the fields of a record are those that its entries say.
#[verifier::rlimit(50)]
pub proof fn members_read(s: Schema, b: Seq<u8>, p: int, n: int, done: Fields)
    requires
        members_from(b, p, n) matches Some(ms) && keys_once(s, ms) && forall|i: int|
            0 <= i < ms.len() && known(s, (#[trigger] ms[i]).key) ==> !done.contains_key(ms[i].key),
    ensures
        members_from(b, p, n) matches Some(ms) ==> {
            &&& fields_from(s, b, p, n, done) is Ok <==> all_readable(s, b, ms)
            &&& fields_from(s, b, p, n, done) matches Ok((f, r)) ==> forall|k: Key|
                #[trigger] field(f, k) == entry_said(s, b, ms, k, done)
        },
    decreases n,
{
    let ms = members_from(b, p, n)->Some_0;
    if n > 0 {
        let (name, at) = text_at(b, p)->Some_0;
        let key = key_of(name);
        let kind = kind_of(s, key);
        let next = item_end(b, at)->Some_0;
        let rest = members_from(b, next, n - 1)->Some_0;
        assert(ms[0] == Member { key, at });
        assert(ms.drop_first() =~= rest);
        assert forall|i: int| 0 <= i < rest.len() implies #[trigger] rest[i] == ms[i + 1] by {}
        item_end_bounds(b, at);
        if value_at(kind, b, at) is Ok {
            value_moves(kind, b, at, b, at);
            only_unknown_is_skipped(kind, b, at);
            let v = value_at(kind, b, at)->Ok_0.0;
            let more = merge(s, done, key, v);
            assert(fields_from(s, b, p, n, done) == fields_from(s, b, next, n - 1, more));
            assert forall|i: int|
                0 <= i < rest.len() && known(s, (#[trigger] rest[i]).key) implies !more.contains_key(
                rest[i].key,
            ) by {
                assert(rest[i] == ms[i + 1]);
                assert(!done.contains_key(ms[i + 1].key));
                assert(known(s, key) ==> ms[0].key != ms[i + 1].key);
            }
            assert(keys_once(s, rest)) by {
                assert forall|i: int, j: int|
                    #![trigger rest[i], rest[j]]
                    0 <= i < j < rest.len() && known(s, rest[i].key) implies rest[i].key
                    != rest[j].key by {
                    assert(rest[i] == ms[i + 1] && rest[j] == ms[j + 1]);
                }
            }
            members_read(s, b, next, n - 1, more);
            if known(s, key) {
                assert forall|i: int| 0 <= i < rest.len() implies (#[trigger] rest[i]).key != key by {
                    assert(rest[i] == ms[i + 1]);
                }
                no_place(rest, key);
            }
            assert(all_readable(s, b, ms) <==> all_readable(s, b, rest)) by {
                assert forall|k: Key| known(s, k) && k != key implies #[trigger] value_place(ms, k)
                    == value_place(rest, k) by {}
                assert(value_place(ms, key) == Some(at));
                if all_readable(s, b, ms) {
                    assert forall|k: Key|
                        #![trigger value_place(rest, k)]
                        known(s, k) && value_place(rest, k) is Some implies value_at(
                        kind_of(s, k),
                        b,
                        value_place(rest, k)->Some_0,
                    ) is Ok by {
                        assert(value_place(ms, k) == value_place(rest, k));
                    }
                }
                if all_readable(s, b, rest) {
                    assert forall|k: Key|
                        #![trigger value_place(ms, k)]
                        known(s, k) && value_place(ms, k) is Some implies value_at(
                        kind_of(s, k),
                        b,
                        value_place(ms, k)->Some_0,
                    ) is Ok by {
                        if k != key {
                            assert(value_place(ms, k) == value_place(rest, k));
                        }
                    }
                }
            }
            if let Ok((f, r)) = fields_from(s, b, p, n, done) {
                assert forall|k: Key| #[trigger] field(f, k) == entry_said(s, b, ms, k, done) by {
                    assert(field(f, k) == entry_said(s, b, rest, k, more));
                    if k == key {
                        assert(value_place(ms, k) == Some(at));
                    } else {
                        assert(value_place(ms, k) == value_place(rest, k));
                    }
                }
            }
        } else {
            reveal(skip_outcome);
            assert(known(s, key));
            assert(value_place(ms, key) == Some(at));
        }
    }
}

/// Two outcomes of reading say the same, or both say that there is nothing to read.
pub open spec fn both_or_neither<T>(x: Result<T, ErrorView>, y: Result<T, ErrorView>) -> bool {
    match (x, y) {
        (Ok(v), Ok(w)) => v == w,
        (Err(_), Err(_)) => true,
        _ => false,
    }
}

/// What was read, without where it ends.
pub open spec fn without_end<T>(x: Result<(T, int), ErrorView>) -> Result<T, ErrorView> {
    match x {
        Ok((v, _)) => Ok(v),
        Err(e) => Err(e),
    }
}

proof fn alike_values(k: Kind, b: Seq<u8>, p: int, c: Seq<u8>, q: int)
    requires
        alike(k, b, p, c, q),
    ensures
        both_or_neither(without_end(value_at(k, b, p)), without_end(value_at(k, c, q))),
    decreases kind_rank(k), 1int,
{
    if same_item(b, p, c, q) {
        item_end_moves(b, p, c, q);
        if value_at(k, b, p) is Ok {
            value_moves(k, b, p, c, q);
        } else if value_at(k, c, q) is Ok {
            value_moves(k, c, q, b, p);
        }
    } else if let Kind::Record(s) = k {
        alike_records(s, b, p, c, q);
    }
}

/// Two maps that say the same as records are read as the same record, or neither can be read: the
/// order of the entries does not matter, at this level and below, and neither do entries under keys
/// that the record does not know.
#[verifier::rlimit(50)]
pub proof fn alike_records(s: Schema, b: Seq<u8>, p: int, c: Seq<u8>, q: int)
    requires
        alike_maps(s, b, p, c, q),
    ensures
        both_or_neither(without_end(record_at(s, b, p)), without_end(record_at(s, c, q))),
    decreases rank_of(s), 0int,
{
    let x = members(b, p)->Some_0;
    let y = members(c, q)->Some_0;
    let (m, i) = (count_at(b, p, 5)->Some_0.0->Some_0, count_at(b, p, 5)->Some_0.1);
    let (n, j) = (count_at(c, q, 5)->Some_0.0->Some_0, count_at(c, q, 5)->Some_0.1);
    members_read(s, b, i, m, Map::empty());
    members_read(s, c, j, n, Map::empty());
    assert forall|k: Key| known(s, k) && value_place(x, k) is Some implies both_or_neither(
        without_end(value_at(#[trigger] kind_of(s, k), b, value_place(x, k)->Some_0)),
        without_end(value_at(kind_of(s, k), c, value_place(y, k)->Some_0)),
    ) by {
        kind_is_below(s, k);
        alike_values(
            kind_of(s, k),
            b,
            value_place(x, k)->Some_0,
            c,
            value_place(y, k)->Some_0,
        );
    }
    assert forall|k: Key| known(s, k) implies value_place(x, k) is Some == #[trigger] value_place(
        y,
        k,
    ) is Some by {
        assert(known(s, k) == !(kind_of(s, k) is Unknown));
    }
    assert(all_readable(s, b, x) <==> all_readable(s, c, y)) by {
        if all_readable(s, b, x) {
            assert forall|k: Key|
                #![trigger value_place(y, k)]
                known(s, k) && value_place(y, k) is Some implies value_at(
                kind_of(s, k),
                c,
                value_place(y, k)->Some_0,
            ) is Ok by {
                assert(value_place(x, k) is Some);
            }
        }
        if all_readable(s, c, y) {
            assert forall|k: Key|
                #![trigger value_place(x, k)]
                known(s, k) && value_place(x, k) is Some implies value_at(
                kind_of(s, k),
                b,
                value_place(x, k)->Some_0,
            ) is Ok by {
                assert(value_place(y, k) is Some);
            }
        }
    }
    if let Ok((f, _)) = fields_from(s, b, i, m, Map::empty()) {
        let g = fields_from(s, c, j, n, Map::empty())->Ok_0.0;
        let none: Fields = Map::empty();
        assert forall|k: Key| #[trigger] field(f, k) == field(g, k) by {
            assert(field(f, k) == entry_said(s, b, x, k, none));
            assert(field(g, k) == entry_said(s, c, y, k, none));
            if known(s, k) && value_place(x, k) is Some {
                assert(value_place(y, k) is Some);
                assert(value_at(kind_of(s, k), b, value_place(x, k)->Some_0) is Ok);
            } else if known(s, k) {
                assert(value_place(y, k) is None);
            }
        }
        assert(f =~= g) by {
            assert forall|k: Key| f.contains_key(k) == g.contains_key(k) by {
                assert(field(f, k) == field(g, k));
            }
            assert forall|k: Key| f.contains_key(k) implies f[k] == g[k] by {
                assert(field(f, k) == field(g, k));
            }
        }
    }
}

// ---------------------------------------------------------------------------------------------
// Laws
// ---------------------------------------------------------------------------------------------
/// A frame's entries may stand in any order, and so may those of its `phy`, `diversity` and `carrier`
/// maps; entries under other keys may stand among them at every level. What is read stays the same.
pub proof fn lora_frame_order_free(b: Seq<u8>, c: Seq<u8>)
    requires
        alike_maps(Schema::LoraFrame, b, 0, c, 0),
    ensures
        both_or_neither(lora_frame_in(b), lora_frame_in(c)),
{
    alike_records(Schema::LoraFrame, b, 0, c, 0);
}

/// A subscription's entries may stand in any order, and others among them.
pub proof fn subscribe_order_free(b: Seq<u8>, c: Seq<u8>)
    requires
        alike_maps(Schema::Subscribe, b, 0, c, 0),
    ensures
        both_or_neither(subscribe_in(b), subscribe_in(c)),
{
    alike_records(Schema::Subscribe, b, 0, c, 0);
}

/// A request's entries may stand in any order, and others among them.
pub proof fn lora_tx_order_free(b: Seq<u8>, c: Seq<u8>)
    requires
        alike_maps(Schema::LoraTx, b, 0, c, 0),
    ensures
        both_or_neither(lora_tx_in(b), lora_tx_in(c)),
{
    alike_records(Schema::LoraTx, b, 0, c, 0);
}

/// An answer's entries may stand in any order, and others among them.
pub proof fn lora_tx_ack_order_free(b: Seq<u8>, c: Seq<u8>)
    requires
        alike_maps(Schema::LoraTxAck, b, 0, c, 0),
    ensures
        both_or_neither(lora_tx_ack_in(b), lora_tx_ack_in(c)),
{
    alike_records(Schema::LoraTxAck, b, 0, c, 0);
}

} // verus!
