//! The wire protocol: CBOR maps with text keys, each with a `type` that tells what kind of frame it
//! is.

use vstd::prelude::*;
use vstd::utf8::encode_utf8;

pub mod codec;
pub mod error;
pub mod float;
pub mod frame;
pub mod item;
pub mod key;
pub mod names;
pub mod order;
pub mod put;
pub mod reader;
pub mod schema;
pub mod subscribe;
pub mod tx;
pub mod writer;

pub use crate::cbor::error::Error;
pub use crate::cbor::frame::{Carrier, Diversity, LoraFrame, Phy};
pub use crate::cbor::subscribe::Subscribe;
pub use crate::cbor::tx::{LoraTx, LoraTxAck};

use crate::cbor::codec::{map_fault, read_map, read_text, skip_item, skip_outcome, text_fault};
use crate::cbor::error::ErrorView;
use crate::cbor::frame::{
    lora_frame_entries, lora_frame_fits, lora_frame_wire, lora_frame_written, LoraFrameView,
};
use crate::cbor::item::{
    argument_bounds, count_at, count_reads_back, head, stands_at, stands_at_parts, text_at,
    text_item, text_reads_back,
};
use crate::cbor::key::{key_of, name_of, name_short, Key};
use crate::cbor::schema::{field, fields_from, frame_in, kind_of, type_of, value_at, Fields, Kind, Schema, Value};
use crate::cbor::subscribe::{
    subscribe_entries, subscribe_fits, subscribe_wire, subscribe_written,
};
use crate::cbor::tx::{
    lora_tx_ack_entries, lora_tx_ack_fits, lora_tx_ack_wire, lora_tx_ack_written, lora_tx_entries,
    lora_tx_fits, lora_tx_wire, lora_tx_written, LoraTxAckView, LoraTxView,
};
use crate::cbor::writer::{
    entries_item, entry_item, first_entry, plain, record_item, type_short, with, Entry,
};
use crate::text::same_text;

verus! {

/// A frame of the wire protocol.
pub trait Frame {
    /// The text of the frame's `type` field.
    const TYPE: &'static str;

    /// The bytes of the frame.
    spec fn wire(&self) -> Seq<u8>;

    /// Appends the frame, its `type` field included.
    fn encode_into(&self, out: &mut Vec<u8>)
        ensures
            final(out)@ == old(out)@ + self.wire(),
    ;
}

/// Encodes a frame, ready to be sent.
pub fn to_vec<T: Frame>(frame: &T) -> (r: Result<Vec<u8>, Error>)
    ensures
        r matches Ok(v) && v@ == frame.wire(),
{
    let mut out: Vec<u8> = Vec::with_capacity(256);
    frame.encode_into(&mut out);
    assert(out@ =~= frame.wire());
    Ok(out)
}

/// The `type` text among the next `n` entries of a map, which stand from `p` on. The first `type`
/// counts; what stands before it is passed over.
pub open spec fn type_from(b: Seq<u8>, p: int, n: int) -> Result<Seq<char>, ErrorView>
    decreases n,
{
    if n <= 0 {
        Err(ErrorView::MissingField("type"@))
    } else {
        match text_at(b, p) {
            None => Err(ErrorView::Decode(text_fault(b, p))),
            Some((name, q)) => if name == "type"@ {
                match text_at(b, q) {
                    Some((t, r)) => Ok(t),
                    None => Err(ErrorView::Decode(text_fault(b, q))),
                }
            } else {
                match skip_outcome(b, q) {
                    Ok(r) => type_from(b, r, n - 1),
                    Err(t) => Err(ErrorView::Decode(t)),
                }
            },
        }
    }
}

/// The `type` text of the map that a datagram holds.
pub open spec fn type_in(b: Seq<u8>) -> Result<Seq<char>, ErrorView> {
    match count_at(b, 0, 5) {
        Some((Some(n), q)) => type_from(b, q, n),
        Some((None, q)) => Err(ErrorView::Decode("not a CBOR map"@)),
        None => Err(ErrorView::Decode(map_fault(b, 0))),
    }
}

/// Tells what kind of frame a datagram holds without decoding the rest of it.
pub fn peek_type(bytes: &[u8]) -> (r: Result<String, Error>)
    ensures
        match r {
            Ok(t) => type_in(bytes@) == Ok::<Seq<char>, ErrorView>(t@),
            Err(e) => type_in(bytes@) == Err::<Seq<char>, ErrorView>(e@),
        },
{
    proof {
        assert(bytes@.len() == bytes.len());
        if bytes@.len() > 0 {
            argument_bounds(bytes@, 0);
        }
    }
    let (count, start) = match read_map(bytes, 0) {
        Ok((Some(count), start)) => (count, start),
        Ok((None, _)) => {
            return Err(Error::Decode("not a CBOR map".to_owned()));
        },
        Err(t) => {
            return Err(Error::Decode(t));
        },
    };
    let mut at: usize = start;
    let mut i: u64 = 0;
    while i < count
        invariant
            i <= count,
            bytes@.len() == bytes.len(),
            type_in(bytes@) == type_from(bytes@, at as int, count - i),
        decreases count - i,
    {
        let (name, value_pos) = match read_text(bytes, at) {
            Ok(found) => found,
            Err(t) => {
                return Err(Error::Decode(t));
            },
        };
        if same_text(name.as_str(), "type") {
            return match read_text(bytes, value_pos) {
                Ok((t, _)) => Ok(t),
                Err(t) => Err(Error::Decode(t)),
            };
        }
        reveal(skip_outcome);
        match skip_item(bytes, value_pos) {
            Ok(end) => {
                at = end;
            },
            Err(t) => {
                return Err(Error::Decode(t));
            },
        }
        i = i + 1;
    }
    Err(Error::MissingField("type"))
}

// ---------------------------------------------------------------------------------------------
// Laws
// ---------------------------------------------------------------------------------------------
/// A frame that says in its first entry what kind it is tells so at a peek.
proof fn record_tells_type(es: Seq<Entry>, t: Seq<char>, tail: Seq<u8>)
    requires
        0 < es.len() <= u64::MAX,
        es[0] == plain(Key::Type, Value::Text(t)),
        encode_utf8(t).len() <= u64::MAX,
    ensures
        type_in(record_item(es) + tail) == Ok::<Seq<char>, ErrorView>(t),
{
    let b = record_item(es) + tail;
    let h = head(5, es.len() as int);
    assert(b.subrange(0, record_item(es).len() as int) =~= record_item(es));
    assert(stands_at(record_item(es), b, 0));
    stands_at_parts(h, entries_item(es), b, 0);
    count_reads_back(5, es.len() as int, b, 0);
    let rest = first_entry(es);
    let p = h.len() as int;
    reveal(entry_item);
    stands_at_parts(entry_item(es[0]), rest, b, p);
    stands_at_parts(text_item(name_of(Key::Type)), text_item(t), b, p);
    name_short(Key::Type);
    text_reads_back(name_of(Key::Type), b, p);
    text_reads_back(t, b, p + text_item(name_of(Key::Type)).len());
}

/// Peeking at an encoded frame gives the `type` text of its kind.
pub proof fn peek_tells_lora_frame(v: LoraFrameView, tail: Seq<u8>)
    requires
        lora_frame_fits(v),
    ensures
        type_in(lora_frame_wire(v) + tail) == Ok::<Seq<char>, ErrorView>("lora_frame"@),
{
    lora_frame_written(v);
    type_short(Schema::LoraFrame);
    reveal(lora_frame_entries);
    reveal(with);
    record_tells_type(lora_frame_entries(v), "lora_frame"@, tail);
}

/// Peeking at an encoded subscription gives the `type` text of its kind.
pub proof fn peek_tells_subscribe(v: Seq<u16>, tail: Seq<u8>)
    requires
        subscribe_fits(v),
    ensures
        type_in(subscribe_wire(v) + tail) == Ok::<Seq<char>, ErrorView>("subscribe"@),
{
    subscribe_written(v);
    type_short(Schema::Subscribe);
    reveal(subscribe_entries);
    reveal(with);
    record_tells_type(subscribe_entries(v), "subscribe"@, tail);
}

/// Peeking at an encoded request gives the `type` text of its kind.
pub proof fn peek_tells_lora_tx(v: LoraTxView, tail: Seq<u8>)
    requires
        lora_tx_fits(v),
    ensures
        type_in(lora_tx_wire(v) + tail) == Ok::<Seq<char>, ErrorView>("lora_tx"@),
{
    lora_tx_written(v);
    type_short(Schema::LoraTx);
    reveal(lora_tx_entries);
    reveal(with);
    record_tells_type(lora_tx_entries(v), "lora_tx"@, tail);
}

/// Peeking at an encoded answer gives the `type` text of its kind.
pub proof fn peek_tells_lora_tx_ack(v: LoraTxAckView, tail: Seq<u8>)
    requires
        lora_tx_ack_fits(v),
    ensures
        type_in(lora_tx_ack_wire(v) + tail) == Ok::<Seq<char>, ErrorView>("lora_tx_ack"@),
{
    lora_tx_ack_written(v);
    type_short(Schema::LoraTxAck);
    reveal(lora_tx_ack_entries);
    reveal(with);
    record_tells_type(lora_tx_ack_entries(v), "lora_tx_ack"@, tail);
}

/// A map that can be read as a frame of kind `s` but says it is of another type is refused, with
/// both types in the error.
pub proof fn other_type_refused(s: Schema, b: Seq<u8>, n: int, q: int, f: Fields, end: int)
    requires
        s is LoraFrame || s is Subscribe || s is LoraTx || s is LoraTxAck,
        count_at(b, 0, 5) == Some((Some(n), q)),
        fields_from(s, b, q, n, Map::empty()) == Ok::<(Fields, int), ErrorView>((f, end)),
        field(f, Key::Type) matches Some(Value::Text(t)) && t != type_of(s),
    ensures
        frame_in(s, b) == Err::<Fields, ErrorView>(
            ErrorView::UnexpectedType { got: f[Key::Type]->Text_0, expected: type_of(s) },
        ),
{
}

/// An entry whose key the record does not know changes nothing: reading goes on behind its value.
pub proof fn unknown_key_passed_over(
    s: Schema,
    b: Seq<u8>,
    p: int,
    n: int,
    done: Fields,
    name: Seq<char>,
    q: int,
    r: int,
)
    requires
        n > 0,
        text_at(b, p) == Some((name, q)),
        kind_of(s, key_of(name)) is Unknown,
        skip_outcome(b, q) == Ok::<int, Seq<char>>(r),
    ensures
        fields_from(s, b, p, n, done) == fields_from(s, b, r, n - 1, done),
{
    let k = kind_of(s, key_of(name));
    assert(value_at(k, b, q) == Ok::<(Value, int), ErrorView>((Value::Skipped, r))) by {
        assert(value_at(Kind::Unknown, b, q) == Ok::<(Value, int), ErrorView>((Value::Skipped, r)));
    }
}

} // verus!
