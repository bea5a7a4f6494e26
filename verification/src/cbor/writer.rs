//! Records as they are written, and why what is written reads back.

use vstd::prelude::*;
use vstd::utf8::encode_utf8;

use crate::cbor::error::ErrorView;
use crate::cbor::float::{double_item, double_reads_back};
use crate::cbor::item::{
    bool_item, bool_reads_back, bytes_item, bytes_read_back, count_reads_back, head, stands_at,
    stands_at_parts, text_item, text_reads_back, uint_reads_back,
};
use crate::cbor::key::{encoded_len, key_of_name, name_of, name_short, Key};
use crate::cbor::schema::{
    doubles_from, field, fields_from, kind_of, merge, octets_from, record_at, refusal, type_of, value_at,
    words_from, Fields, Kind, Schema, Value,
};
use crate::double::Double;

verus! {

// ---------------------------------------------------------------------------------------------
// What is written
// ---------------------------------------------------------------------------------------------
/// The items of a list, one behind the other.
pub open spec fn words_items(s: Seq<u16>) -> Seq<u8>
    decreases s.len(),
{
    if s.len() == 0 {
        Seq::empty()
    } else {
        words_items(s.drop_last()) + head(0, s.last() as int)
    }
}

/// The items of a list, one behind the other.
pub open spec fn octets_items(s: Seq<u8>) -> Seq<u8>
    decreases s.len(),
{
    if s.len() == 0 {
        Seq::empty()
    } else {
        octets_items(s.drop_last()) + head(0, s.last() as int)
    }
}

/// The items of a list, one behind the other.
pub open spec fn doubles_items(s: Seq<Double>) -> Seq<u8>
    decreases s.len(),
{
    if s.len() == 0 {
        Seq::empty()
    } else {
        doubles_items(s.drop_last()) + double_item(s.last())
    }
}

/// The item of a value that is no record.
pub open spec fn item_of(v: Value) -> Seq<u8> {
    match v {
        Value::Text(s) => text_item(s),
        Value::Uint(n) => head(0, n),
        Value::Bool(t) => bool_item(t),
        Value::Bytes(s) => bytes_item(s),
        Value::Double(d) => double_item(d),
        Value::Words(s) => head(4, s.len() as int) + words_items(s),
        Value::Octets(s) => head(4, s.len() as int) + octets_items(s),
        Value::Doubles(s) => head(4, s.len() as int) + doubles_items(s),
        _ => Seq::empty(),
    }
}

/// An entry of a record: the key, the value, and the item that is written for the value.
pub struct Entry {
    pub key: Key,
    pub value: Value,
    pub item: Seq<u8>,
}

/// An entry whose value is no record.
pub open spec fn plain(key: Key, value: Value) -> Entry {
    Entry { key, value, item: item_of(value) }
}

/// An entry whose value is the record `s` with the entries `es`.
pub open spec fn nested(key: Key, s: Schema, es: Seq<Entry>) -> Option<Entry> {
    Some(Entry { key, value: Value::Record(collect(s, es)), item: record_item(es) })
}

/// An entry that is always there.
pub open spec fn required(key: Key, value: Value) -> Option<Entry> {
    Some(plain(key, value))
}

/// An entry that is there if its value is.
pub open spec fn optional(key: Key, value: Option<Value>) -> Option<Entry> {
    match value {
        Some(v) => Some(plain(key, v)),
        None => None,
    }
}

/// `es` and, if there is one, `e`.
#[verifier::opaque]
pub open spec fn with(es: Seq<Entry>, e: Option<Entry>) -> Seq<Entry> {
    match e {
        Some(e) => es.push(e),
        None => es,
    }
}

/// An entry: the key, then the value.
#[verifier::opaque]
pub open spec fn entry_item(e: Entry) -> Seq<u8> {
    text_item(name_of(e.key)) + e.item
}

/// Entries one behind the other.
#[verifier::opaque]
pub open spec fn entries_item(es: Seq<Entry>) -> Seq<u8>
    decreases es.len(),
{
    if es.len() == 0 {
        Seq::empty()
    } else {
        entries_item(es.drop_last()) + entry_item(es.last())
    }
}

/// A record: a map of definite length.
pub open spec fn record_item(es: Seq<Entry>) -> Seq<u8> {
    head(5, es.len() as int) + entries_item(es)
}

/// The fields that the entries of a record make up.
#[verifier::opaque]
pub open spec fn collect(s: Schema, es: Seq<Entry>) -> Fields
    decreases es.len(),
{
    if es.len() == 0 {
        Map::empty()
    } else {
        merge(s, collect(s, es.drop_last()), es.last().key, es.last().value)
    }
}

pub proof fn entries_item_push(es: Seq<Entry>, e: Entry)
    ensures
        entries_item(es.push(e)) == entries_item(es) + entry_item(e),
{
    reveal(entries_item);
    assert(es.push(e).drop_last() =~= es);
}

/// Entries start with the first of them.
pub proof fn first_entry(es: Seq<Entry>) -> (rest: Seq<u8>)
    requires
        es.len() > 0,
    ensures
        entries_item(es) == entry_item(es[0]) + rest,
    decreases es.len(),
{
    reveal(entries_item);
    let front = es.drop_last();
    if front.len() == 0 {
        assert(entries_item(front) =~= Seq::empty());
        assert(entries_item(es) =~= entry_item(es[0]) + Seq::<u8>::empty());
        Seq::empty()
    } else {
        let rest = first_entry(front);
        assert(entries_item(es) =~= entry_item(es[0]) + (rest + entry_item(es.last())));
        rest + entry_item(es.last())
    }
}

pub proof fn collect_push(s: Schema, es: Seq<Entry>, e: Entry)
    ensures
        collect(s, es.push(e)) == merge(s, collect(s, es), e.key, e.value),
{
    reveal(collect);
    assert(es.push(e).drop_last() =~= es);
}

// ---------------------------------------------------------------------------------------------
// Why it reads back
// ---------------------------------------------------------------------------------------------
/// Wherever `item` stands, it reads as `value`.
#[verifier::opaque]
pub open spec fn reads_as(k: Kind, item: Seq<u8>, value: Value) -> bool {
    forall|b: Seq<u8>, p: int| #[trigger]
        stands_at(item, b, p) ==> value_at(k, b, p) == Ok::<(Value, int), ErrorView>(
            (value, p + item.len()),
        )
}

/// An entry that a record knows and that reads as the value it was written for.
pub open spec fn entry_reads(s: Schema, e: Entry) -> bool {
    e.key != Key::Other && reads_as(kind_of(s, e.key), e.item, e.value)
}

/// All entries read as the values they were written for.
#[verifier::opaque]
pub open spec fn all_read(s: Schema, es: Seq<Entry>) -> bool {
    forall|i: int| 0 <= i < es.len() ==> entry_reads(s, #[trigger] es[i])
}

/// A value that can be written as one of kind `k`.
pub open spec fn fits(k: Kind, v: Value) -> bool {
    match (k, v) {
        (Kind::Text, Value::Text(s)) => encode_utf8(s).len() <= u64::MAX,
        (Kind::U8, Value::Uint(n)) => 0 <= n <= u8::MAX,
        (Kind::U16, Value::Uint(n)) => 0 <= n <= u16::MAX,
        (Kind::U32, Value::Uint(n)) => 0 <= n <= u32::MAX,
        (Kind::U64, Value::Uint(n)) => 0 <= n <= u64::MAX,
        (Kind::Bool, Value::Bool(_)) => true,
        (Kind::Bytes, Value::Bytes(s)) => s.len() <= u64::MAX,
        (Kind::Double, Value::Double(_)) => true,
        (Kind::Words, Value::Words(s)) => s.len() <= u64::MAX,
        (Kind::Octets, Value::Octets(s)) => s.len() <= u64::MAX,
        (Kind::Doubles, Value::Doubles(s)) => s.len() <= u64::MAX,
        _ => false,
    }
}

proof fn words_read_back(s: Seq<u16>, n: int, b: Seq<u8>, p: int)
    requires
        s.len() <= n,
        stands_at(words_items(s), b, p),
    ensures
        words_from(b, p, n, Seq::empty()) == words_from(
            b,
            p + words_items(s).len(),
            n - s.len(),
            s,
        ),
    decreases s.len(),
{
    if s.len() == 0 {
        assert(s =~= Seq::empty());
    } else {
        let front = s.drop_last();
        let q = p + words_items(front).len();
        stands_at_parts(words_items(front), head(0, s.last() as int), b, p);
        words_read_back(front, n, b, p);
        uint_reads_back(s.last() as int, u16::MAX as int, b, q);
        assert(front.push(s.last()) =~= s);
    }
}

proof fn octets_read_back(s: Seq<u8>, n: int, b: Seq<u8>, p: int)
    requires
        s.len() <= n,
        stands_at(octets_items(s), b, p),
    ensures
        octets_from(b, p, n, Seq::empty()) == octets_from(
            b,
            p + octets_items(s).len(),
            n - s.len(),
            s,
        ),
    decreases s.len(),
{
    if s.len() == 0 {
        assert(s =~= Seq::empty());
    } else {
        let front = s.drop_last();
        let q = p + octets_items(front).len();
        stands_at_parts(octets_items(front), head(0, s.last() as int), b, p);
        octets_read_back(front, n, b, p);
        uint_reads_back(s.last() as int, u8::MAX as int, b, q);
        assert(front.push(s.last()) =~= s);
    }
}

proof fn doubles_read_back(s: Seq<Double>, n: int, b: Seq<u8>, p: int)
    requires
        s.len() <= n,
        stands_at(doubles_items(s), b, p),
    ensures
        doubles_from(b, p, n, Seq::empty()) == doubles_from(
            b,
            p + doubles_items(s).len(),
            n - s.len(),
            s,
        ),
    decreases s.len(),
{
    if s.len() == 0 {
        assert(s =~= Seq::empty());
    } else {
        let front = s.drop_last();
        let q = p + doubles_items(front).len();
        stands_at_parts(doubles_items(front), double_item(s.last()), b, p);
        doubles_read_back(front, n, b, p);
        double_reads_back(s.last(), b, q);
        assert(front.push(s.last()) =~= s);
    }
}

/// A value that can be written reads back.
pub proof fn plain_reads(k: Kind, v: Value)
    requires
        fits(k, v),
    ensures
        reads_as(k, item_of(v), v),
{
    reveal(reads_as);
    let item = item_of(v);
    assert forall|b: Seq<u8>, p: int| #[trigger] stands_at(item, b, p) implies value_at(k, b, p)
        == Ok::<(Value, int), ErrorView>((v, p + item.len())) by {
        match v {
            Value::Text(s) => text_reads_back(s, b, p),
            Value::Uint(n) => {
                let max = match k {
                    Kind::U8 => u8::MAX as int,
                    Kind::U16 => u16::MAX as int,
                    Kind::U32 => u32::MAX as int,
                    _ => u64::MAX as int,
                };
                uint_reads_back(n, max, b, p);
            },
            Value::Bool(t) => bool_reads_back(t, b, p),
            Value::Bytes(s) => bytes_read_back(s, b, p),
            Value::Double(d) => double_reads_back(d, b, p),
            Value::Words(s) => {
                let h = head(4, s.len() as int);
                stands_at_parts(h, words_items(s), b, p);
                count_reads_back(4, s.len() as int, b, p);
                words_read_back(s, s.len() as int, b, p + h.len());
            },
            Value::Octets(s) => {
                let h = head(4, s.len() as int);
                stands_at_parts(h, octets_items(s), b, p);
                count_reads_back(4, s.len() as int, b, p);
                octets_read_back(s, s.len() as int, b, p + h.len());
            },
            Value::Doubles(s) => {
                let h = head(4, s.len() as int);
                stands_at_parts(h, doubles_items(s), b, p);
                count_reads_back(4, s.len() as int, b, p);
                doubles_read_back(s, s.len() as int, b, p + h.len());
            },
            _ => {},
        }
    }
}

/// Entries that read back one by one read back together.
pub proof fn entries_read_back(s: Schema, es: Seq<Entry>, n: int, b: Seq<u8>, p: int)
    requires
        all_read(s, es),
        es.len() <= n,
        stands_at(entries_item(es), b, p),
    ensures
        fields_from(s, b, p, n, Map::empty()) == fields_from(
            s,
            b,
            p + entries_item(es).len(),
            n - es.len(),
            collect(s, es),
        ),
    decreases es.len(),
{
    reveal(entries_item);
    reveal(entry_item);
    reveal(collect);
    reveal(all_read);
    if es.len() > 0 {
        let front = es.drop_last();
        let e = es.last();
        let q = p + entries_item(front).len();
        stands_at_parts(entries_item(front), entry_item(e), b, p);
        assert(all_read(s, front)) by {
            assert forall|i: int| 0 <= i < front.len() implies entry_reads(
                s,
                #[trigger] front[i],
            ) by {
                assert(front[i] == es[i]);
            }
        }
        entries_read_back(s, front, n, b, p);
        assert(entry_reads(s, es[es.len() - 1]));
        stands_at_parts(text_item(name_of(e.key)), e.item, b, q);
        name_short(e.key);
        text_reads_back(name_of(e.key), b, q);
        key_of_name(e.key);
        reveal(reads_as);
    }
}

/// A record whose entries read back, and which lacks nothing, reads back.
pub proof fn record_reads(s: Schema, es: Seq<Entry>)
    requires
        all_read(s, es),
        es.len() <= u64::MAX,
        refusal(s, collect(s, es)) is None,
    ensures
        reads_as(Kind::Record(s), record_item(es), Value::Record(collect(s, es))),
        forall|b: Seq<u8>, p: int| #[trigger]
            stands_at(record_item(es), b, p) ==> record_at(s, b, p) == Ok::<
                (Fields, int),
                ErrorView,
            >((collect(s, es), p + record_item(es).len())),
{
    reveal(reads_as);
    assert forall|b: Seq<u8>, p: int| #[trigger] stands_at(record_item(es), b, p) implies record_at(
        s,
        b,
        p,
    ) == Ok::<(Fields, int), ErrorView>((collect(s, es), p + record_item(es).len())) by {
        let h = head(5, es.len() as int);
        stands_at_parts(h, entries_item(es), b, p);
        count_reads_back(5, es.len() as int, b, p);
        entries_read_back(s, es, es.len() as int, b, p + h.len());
    }
}

/// A record whose entries read back, but which lacks something, is refused for that.
pub proof fn record_refused(s: Schema, es: Seq<Entry>, b: Seq<u8>, p: int)
    requires
        all_read(s, es),
        es.len() <= u64::MAX,
        refusal(s, collect(s, es)) is Some,
        stands_at(record_item(es), b, p),
    ensures
        record_at(s, b, p) == Err::<(Fields, int), ErrorView>(refusal(s, collect(s, es))->0),
{
    let h = head(5, es.len() as int);
    stands_at_parts(h, entries_item(es), b, p);
    count_reads_back(5, es.len() as int, b, p);
    entries_read_back(s, es, es.len() as int, b, p + h.len());
}

/// One more entry that reads back.
pub proof fn all_read_push(s: Schema, es: Seq<Entry>, e: Entry)
    requires
        all_read(s, es),
        entry_reads(s, e),
    ensures
        all_read(s, es.push(e)),
{
    reveal(all_read);
    assert forall|i: int| 0 <= i < es.push(e).len() implies entry_reads(
        s,
        #[trigger] es.push(e)[i],
    ) by {
        if i < es.len() {
            assert(es.push(e)[i] == es[i]);
        }
    }
}

/// A value that fits its key makes an entry that reads back.
pub proof fn plain_fits(s: Schema, key: Key, v: Option<Value>)
    requires
        key != Key::Other,
        v matches Some(x) ==> fits(kind_of(s, key), x),
    ensures
        v matches Some(x) ==> entry_reads(s, plain(key, x)),
{
    if v is Some {
        plain_reads(kind_of(s, key), v->0);
    }
}

/// No entries at all.
pub proof fn no_entries(s: Schema) -> (es: Seq<Entry>)
    ensures
        es == Seq::<Entry>::empty(),
        all_read(s, es),
        entries_item(es) == Seq::<u8>::empty(),
        forall|k: Key| #[trigger] field(collect(s, es), k) is None,
{
    reveal(all_read);
    reveal(collect);
    reveal(entries_item);
    Seq::empty()
}

/// Entries with one more that reads back, if there is one more.
pub proof fn entry_added(s: Schema, es: Seq<Entry>, e: Option<Entry>) -> (next: Seq<Entry>)
    requires
        all_read(s, es),
        e matches Some(x) ==> entry_reads(s, x) && !(x.value is Skipped),
        e matches Some(x) ==> x.value is Words ==> field(collect(s, es), x.key) is None,
    ensures
        next == with(es, e),
        all_read(s, next),
        next.len() <= es.len() + 1,
        forall|k: Key| #[trigger]
            field(collect(s, next), k) == (if e is Some && e->0.key == k {
                Some(e->0.value)
            } else {
                field(collect(s, es), k)
            }),
{
    reveal(with);
    match e {
        Some(x) => {
            all_read_push(s, es, x);
            collect_push(s, es, x);
        },
        None => {},
    }
    with(es, e)
}

/// Records with the same value for every key are the same.
pub proof fn same_fields(f: Fields, g: Fields)
    requires
        forall|k: Key| #[trigger] field(f, k) == field(g, k),
    ensures
        f == g,
{
    assert forall|k: Key| #[trigger] f.dom().contains(k) == g.dom().contains(k) by {
        assert(field(f, k) == field(g, k));
    }
    assert forall|k: Key| f.dom().contains(k) implies #[trigger] f[k] == g[k] by {
        assert(field(f, k) == field(g, k));
    }
    assert(f =~= g);
}

/// The `type` texts are short.
pub proof fn type_short(s: Schema)
    ensures
        encode_utf8(type_of(s)).len() <= u64::MAX,
{
    reveal_strlit("lora_frame");
    reveal_strlit("subscribe");
    reveal_strlit("lora_tx");
    reveal_strlit("lora_tx_ack");
    reveal_strlit("");
    encoded_len(type_of(s));
}

} // verus!
