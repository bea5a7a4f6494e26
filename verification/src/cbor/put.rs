//! Appending the entries of a record.

use vstd::prelude::*;

use crate::cbor::codec::{put_array, put_bool, put_bytes, put_text, put_u16, put_u32, put_u64, put_u8};
use crate::cbor::float::put_double;
use crate::cbor::key::{name_of, Key};
use crate::cbor::item::{head, text_item};
use crate::cbor::schema::{Schema, Value};
use crate::cbor::writer::{
    doubles_items, entries_item, entries_item_push, entry_item, item_of, no_entries, octets_items,
    optional, plain, record_item, with, words_items, Entry,
};
use crate::double::Double;
use crate::text::text_view;

verus! {

/// The bytes of an entry that may be left out.
pub open spec fn some_item(e: Option<Entry>) -> Seq<u8> {
    match e {
        Some(e) => entry_item(e),
        None => Seq::empty(),
    }
}

pub open spec fn text_value(o: Option<Seq<char>>) -> Option<Value> {
    match o {
        Some(s) => Some(Value::Text(s)),
        None => None,
    }
}

pub open spec fn bytes_value(o: Option<Seq<u8>>) -> Option<Value> {
    match o {
        Some(s) => Some(Value::Bytes(s)),
        None => None,
    }
}

pub open spec fn bool_value(o: Option<bool>) -> Option<Value> {
    match o {
        Some(v) => Some(Value::Bool(v)),
        None => None,
    }
}

pub open spec fn double_value(o: Option<Double>) -> Option<Value> {
    match o {
        Some(v) => Some(Value::Double(v)),
        None => None,
    }
}

pub open spec fn u8_value(o: Option<u8>) -> Option<Value> {
    match o {
        Some(v) => Some(Value::Uint(v as int)),
        None => None,
    }
}

pub open spec fn u16_value(o: Option<u16>) -> Option<Value> {
    match o {
        Some(v) => Some(Value::Uint(v as int)),
        None => None,
    }
}

pub open spec fn u32_value(o: Option<u32>) -> Option<Value> {
    match o {
        Some(v) => Some(Value::Uint(v as int)),
        None => None,
    }
}

pub open spec fn u64_value(o: Option<u64>) -> Option<Value> {
    match o {
        Some(v) => Some(Value::Uint(v as int)),
        None => None,
    }
}

/// A list of small integers that may be absent, as a value.
pub open spec fn octets_value(o: Option<Vec<u8>>) -> Option<Value> {
    match o {
        Some(s) => Some(Value::Octets(s@)),
        None => None,
    }
}

/// A list of numbers that may be absent, as a value.
pub open spec fn doubles_value(o: Option<Vec<Double>>) -> Option<Value> {
    match o {
        Some(s) => Some(Value::Doubles(s@)),
        None => None,
    }
}

/// The bytes of a byte string that may be absent.
pub open spec fn bytes_view(o: Option<Vec<u8>>) -> Option<Seq<u8>> {
    match o {
        Some(s) => Some(s@),
        None => None,
    }
}

/// Nothing has been appended to `start` yet.
pub proof fn started(start: Seq<u8>) -> (es: Seq<Entry>)
    ensures
        es == Seq::<Entry>::empty(),
        start + entries_item(es) == start,
{
    let es = no_entries(Schema::LoraFrame);
    assert(start + entries_item(es) =~= start);
    es
}

/// One entry if there is a value, none otherwise.
#[verifier::opaque]
pub open spec fn count_some(o: Option<Double>) -> int {
    if o is Some {
        1
    } else {
        0
    }
}

/// How many entries a value that may be absent takes.
pub(crate) fn count_double(o: Option<Double>) -> (r: u64)
    ensures
        r == count_some(o),
        r <= 1,
{
    reveal(count_some);
    if o.is_some() {
        1
    } else {
        0
    }
}

/// A head and as many entries as it counts are a record.
pub proof fn record_done(before: Seq<u8>, n: u64, es: Seq<Entry>)
    requires
        n == es.len(),
    ensures
        (before + head(5, n as int)) + entries_item(es) == before + record_item(es),
{
    assert((before + head(5, n as int)) + entries_item(es) =~= before + record_item(es));
}

/// What was appended to `start` behind the entries `es` is one more entry.
pub proof fn grown(start: Seq<u8>, es: Seq<Entry>, e: Option<Entry>) -> (next: Seq<Entry>)
    ensures
        next == with(es, e),
        next.len() == es.len() + (if e is Some {
            1int
        } else {
            0int
        }),
        (start + entries_item(es)) + some_item(e) == start + entries_item(next),
{
    reveal(with);
    match e {
        Some(x) => {
            entries_item_push(es, x);
            assert((start + entries_item(es)) + entry_item(x) =~= start + (entries_item(es)
                + entry_item(x)));
        },
        None => {
            assert((start + entries_item(es)) + Seq::<u8>::empty() =~= start + entries_item(es));
        },
    }
    with(es, e)
}

/// As [`grown`], of a number that may be absent.
pub proof fn grown_double(start: Seq<u8>, es: Seq<Entry>, key: Key, o: Option<Double>) -> (next: Seq<
    Entry,
>)
    ensures
        next == with(es, optional(key, double_value(o))),
        next.len() == es.len() + count_some(o),
        (start + entries_item(es)) + some_item(optional(key, double_value(o))) == start
            + entries_item(next),
{
    reveal(count_some);
    grown(start, es, optional(key, double_value(o)))
}

pub(crate) fn put_text_entry(out: &mut Vec<u8>, key: Key, v: &str)
    ensures
        final(out)@ == old(out)@ + entry_item(plain(key, Value::Text(v@))),
{
    put_text(out, key.name());
    put_text(out, v);
    reveal(entry_item);
    assert(out@ =~= old(out)@ + (text_item(name_of(key)) + item_of(Value::Text(v@))));
}

pub(crate) fn put_u8_entry(out: &mut Vec<u8>, key: Key, v: u8)
    ensures
        final(out)@ == old(out)@ + entry_item(plain(key, Value::Uint(v as int))),
{
    put_text(out, key.name());
    put_u8(out, v);
    reveal(entry_item);
    assert(out@ =~= old(out)@ + (text_item(name_of(key)) + item_of(Value::Uint(v as int))));
}

pub(crate) fn put_u16_entry(out: &mut Vec<u8>, key: Key, v: u16)
    ensures
        final(out)@ == old(out)@ + entry_item(plain(key, Value::Uint(v as int))),
{
    put_text(out, key.name());
    put_u16(out, v);
    reveal(entry_item);
    assert(out@ =~= old(out)@ + (text_item(name_of(key)) + item_of(Value::Uint(v as int))));
}

pub(crate) fn put_u32_entry(out: &mut Vec<u8>, key: Key, v: u32)
    ensures
        final(out)@ == old(out)@ + entry_item(plain(key, Value::Uint(v as int))),
{
    put_text(out, key.name());
    put_u32(out, v);
    reveal(entry_item);
    assert(out@ =~= old(out)@ + (text_item(name_of(key)) + item_of(Value::Uint(v as int))));
}

pub(crate) fn put_u64_entry(out: &mut Vec<u8>, key: Key, v: u64)
    ensures
        final(out)@ == old(out)@ + entry_item(plain(key, Value::Uint(v as int))),
{
    put_text(out, key.name());
    put_u64(out, v);
    reveal(entry_item);
    assert(out@ =~= old(out)@ + (text_item(name_of(key)) + item_of(Value::Uint(v as int))));
}

pub(crate) fn put_bool_entry(out: &mut Vec<u8>, key: Key, v: bool)
    ensures
        final(out)@ == old(out)@ + entry_item(plain(key, Value::Bool(v))),
{
    put_text(out, key.name());
    put_bool(out, v);
    reveal(entry_item);
    assert(out@ =~= old(out)@ + (text_item(name_of(key)) + item_of(Value::Bool(v))));
}

pub(crate) fn put_bytes_entry(out: &mut Vec<u8>, key: Key, v: &[u8])
    ensures
        final(out)@ == old(out)@ + entry_item(plain(key, Value::Bytes(v@))),
{
    put_text(out, key.name());
    put_bytes(out, v);
    reveal(entry_item);
    assert(out@ =~= old(out)@ + (text_item(name_of(key)) + item_of(Value::Bytes(v@))));
}

pub(crate) fn put_double_entry(out: &mut Vec<u8>, key: Key, v: Double)
    ensures
        final(out)@ == old(out)@ + entry_item(plain(key, Value::Double(v))),
{
    put_text(out, key.name());
    put_double(out, v);
    reveal(entry_item);
    assert(out@ =~= old(out)@ + (text_item(name_of(key)) + item_of(Value::Double(v))));
}

pub(crate) fn put_words_entry(out: &mut Vec<u8>, key: Key, v: &[u16])
    ensures
        final(out)@ == old(out)@ + entry_item(plain(key, Value::Words(v@))),
{
    put_text(out, key.name());
    put_array(out, v.len() as u64);
    let ghost start = out@;
    let mut i: usize = 0;
    assert(v@.take(0) =~= Seq::empty());
    assert(out@ =~= start + words_items(v@.take(0)));
    while i < v.len()
        invariant
            i <= v.len(),
            out@ == start + words_items(v@.take(i as int)),
        decreases v.len() - i,
    {
        put_u16(out, v[i]);
        proof {
            let next = v@.take(i + 1);
            assert(next.drop_last() =~= v@.take(i as int));
            assert(out@ =~= start + words_items(next));
        }
        i = i + 1;
    }
    assert(v@.take(v@.len() as int) =~= v@);
    reveal(entry_item);
    assert(out@ =~= old(out)@ + (text_item(name_of(key)) + item_of(Value::Words(v@))));
}

pub(crate) fn put_octets_entry(out: &mut Vec<u8>, key: Key, v: &[u8])
    ensures
        final(out)@ == old(out)@ + entry_item(plain(key, Value::Octets(v@))),
{
    put_text(out, key.name());
    put_array(out, v.len() as u64);
    let ghost start = out@;
    let mut i: usize = 0;
    assert(v@.take(0) =~= Seq::empty());
    assert(out@ =~= start + octets_items(v@.take(0)));
    while i < v.len()
        invariant
            i <= v.len(),
            out@ == start + octets_items(v@.take(i as int)),
        decreases v.len() - i,
    {
        put_u8(out, v[i]);
        proof {
            let next = v@.take(i + 1);
            assert(next.drop_last() =~= v@.take(i as int));
            assert(out@ =~= start + octets_items(next));
        }
        i = i + 1;
    }
    assert(v@.take(v@.len() as int) =~= v@);
    reveal(entry_item);
    assert(out@ =~= old(out)@ + (text_item(name_of(key)) + item_of(Value::Octets(v@))));
}

pub(crate) fn put_doubles_entry(out: &mut Vec<u8>, key: Key, v: &[Double])
    ensures
        final(out)@ == old(out)@ + entry_item(plain(key, Value::Doubles(v@))),
{
    put_text(out, key.name());
    put_array(out, v.len() as u64);
    let ghost start = out@;
    let mut i: usize = 0;
    assert(v@.take(0) =~= Seq::empty());
    assert(out@ =~= start + doubles_items(v@.take(0)));
    while i < v.len()
        invariant
            i <= v.len(),
            out@ == start + doubles_items(v@.take(i as int)),
        decreases v.len() - i,
    {
        put_double(out, v[i]);
        proof {
            let next = v@.take(i + 1);
            assert(next.drop_last() =~= v@.take(i as int));
            assert(out@ =~= start + doubles_items(next));
        }
        i = i + 1;
    }
    assert(v@.take(v@.len() as int) =~= v@);
    reveal(entry_item);
    assert(out@ =~= old(out)@ + (text_item(name_of(key)) + item_of(Value::Doubles(v@))));
}

pub(crate) fn put_u8_if_some(out: &mut Vec<u8>, key: Key, v: Option<u8>)
    ensures
        final(out)@ == old(out)@ + some_item(optional(key, u8_value(v))),
{
    match v {
        Some(x) => put_u8_entry(out, key, x),
        None => {
            assert(out@ + Seq::<u8>::empty() =~= out@);
        },
    }
}

pub(crate) fn put_u16_if_some(out: &mut Vec<u8>, key: Key, v: Option<u16>)
    ensures
        final(out)@ == old(out)@ + some_item(optional(key, u16_value(v))),
{
    match v {
        Some(x) => put_u16_entry(out, key, x),
        None => {
            assert(out@ + Seq::<u8>::empty() =~= out@);
        },
    }
}

pub(crate) fn put_u32_if_some(out: &mut Vec<u8>, key: Key, v: Option<u32>)
    ensures
        final(out)@ == old(out)@ + some_item(optional(key, u32_value(v))),
{
    match v {
        Some(x) => put_u32_entry(out, key, x),
        None => {
            assert(out@ + Seq::<u8>::empty() =~= out@);
        },
    }
}

pub(crate) fn put_u64_if_some(out: &mut Vec<u8>, key: Key, v: Option<u64>)
    ensures
        final(out)@ == old(out)@ + some_item(optional(key, u64_value(v))),
{
    match v {
        Some(x) => put_u64_entry(out, key, x),
        None => {
            assert(out@ + Seq::<u8>::empty() =~= out@);
        },
    }
}

pub(crate) fn put_double_if_some(out: &mut Vec<u8>, key: Key, v: Option<Double>)
    ensures
        final(out)@ == old(out)@ + some_item(optional(key, double_value(v))),
{
    match v {
        Some(x) => put_double_entry(out, key, x),
        None => {
            assert(out@ + Seq::<u8>::empty() =~= out@);
        },
    }
}

pub(crate) fn put_text_if_some(out: &mut Vec<u8>, key: Key, v: &Option<String>)
    ensures
        final(out)@ == old(out)@ + some_item(optional(key, text_value(text_view(*v)))),
{
    match v {
        Some(x) => put_text_entry(out, key, x.as_str()),
        None => {
            assert(out@ + Seq::<u8>::empty() =~= out@);
        },
    }
}

} // verus!
