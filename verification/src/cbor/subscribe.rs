//! The `subscribe` record: a client asks to be sent frames.

use vstd::prelude::*;

use crate::cbor::codec::put_map;
use crate::cbor::error::{Error, ErrorView};
use crate::cbor::item::stands_at;
use crate::cbor::key::Key;
use crate::cbor::put::{
    grown, put_text_entry, put_words_entry, record_done, started, text_value,
};
use crate::cbor::reader::{read_parts, take_text, take_unknown, take_words, Parts};
use crate::cbor::schema::{
    field, frame_in, kind_of, merge, refusal, type_of, value_at, Fields, Schema, Value,
};
use crate::cbor::writer::{
    all_read, collect, entry_added, no_entries, plain_fits, record_item, record_reads, required,
    type_short, with, Entry,
};
use crate::cbor::Frame;
use crate::text::{same_text, text_view};

verus! {

/// A subscription. An empty list of sync words asks for all frames.
#[derive(Clone, Debug, PartialEq, Eq)]
pub struct Subscribe {
    pub sync_words: Vec<u16>,
}

impl View for Subscribe {
    type V = Seq<u16>;

    open spec fn view(&self) -> Seq<u16> {
        self.sync_words@
    }
}

impl Default for Subscribe {
    /// A subscription to all frames.
    fn default() -> (r: Subscribe)
        ensures
            r@ == Seq::<u16>::empty(),
    {
        Subscribe { sync_words: Vec::new() }
    }
}

/// The sync words that the fields of a subscription list; none where the list is left out.
pub open spec fn subscribe_of(f: Fields) -> Seq<u16> {
    match field(f, Key::SyncWord) {
        Some(Value::Words(w)) => w,
        _ => Seq::empty(),
    }
}

/// The list is left out when it is empty.
pub open spec fn sync_words_entry(v: Seq<u16>) -> Option<Entry> {
    if v.len() > 0 {
        required(Key::SyncWord, Value::Words(v))
    } else {
        None
    }
}

/// The entries that are written for the sync words `v`, in their order.
#[verifier::opaque]
pub open spec fn subscribe_entries(v: Seq<u16>) -> Seq<Entry> {
    let es = Seq::empty();
    let es = with(es, required(Key::Type, Value::Text(type_of(Schema::Subscribe))));
    with(es, sync_words_entry(v))
}

/// The bytes of a subscription on the wire.
pub open spec fn subscribe_wire(v: Seq<u16>) -> Seq<u8> {
    record_item(subscribe_entries(v))
}

impl Frame for Subscribe {
    const TYPE: &'static str = "subscribe";

    open spec fn wire(&self) -> Seq<u8> {
        subscribe_wire(self@)
    }

    fn encode_into(&self, out: &mut Vec<u8>) {
        let n: u64 = if self.sync_words.len() == 0 {
            1
        } else {
            2
        };
        put_map(out, n);
        let ghost start = out@;
        let ghost mut es = started(start);
        put_text_entry(out, Key::Type, Self::TYPE);
        proof {
            es = grown(start, es, required(Key::Type, Value::Text(type_of(Schema::Subscribe))));
        }
        if self.sync_words.len() > 0 {
            put_words_entry(out, Key::SyncWord, self.sync_words.as_slice());
        } else {
            assert(out@ + Seq::<u8>::empty() =~= out@);
        }
        proof {
            es = grown(start, es, sync_words_entry(self@));
            reveal(subscribe_entries);
            record_done(old(out)@, n, es);
        }
    }
}

/// What has been read of a [`Subscribe`].
struct SubscribeParts {
    ty: Option<String>,
    sync_words: Option<Vec<u16>>,
}

impl SubscribeParts {
    spec fn get(self, k: Key) -> Option<Value> {
        match k {
            Key::Type => text_value(text_view(self.ty)),
            Key::SyncWord => match self.sync_words {
                Some(w) => Some(Value::Words(w@)),
                None => None,
            },
            _ => None,
        }
    }
}

impl Parts for SubscribeParts {
    open spec fn schema() -> Schema {
        Schema::Subscribe
    }

    closed spec fn fields(self) -> Fields {
        Map::new(|k: Key| self.get(k) is Some, |k: Key| self.get(k)->0)
    }

    fn none() -> (r: Self) {
        let r = SubscribeParts { ty: None, sync_words: None };
        assert(r.fields() =~= Map::<Key, Value>::empty());
        r
    }

    fn take(&mut self, key: Key, bytes: &[u8], pos: usize) -> (r: Result<usize, Error>) {
        let end: usize = match key {
            Key::Type => match take_text(bytes, pos) {
                Ok((v, end)) => {
                    self.ty = Some(v);
                    end
                },
                Err(e) => {
                    return Err(e);
                },
            },
            Key::SyncWord => match take_words(bytes, pos) {
                Ok((v, end)) => {
                    let mut more = v;
                    let mut words = match self.sync_words.take() {
                        Some(w) => w,
                        None => Vec::new(),
                    };
                    let ghost before = words@;
                    words.append(&mut more);
                    assert(words@ == before + v@);
                    assert(before.len() == 0 ==> words@ =~= v@);
                    self.sync_words = Some(words);
                    end
                },
                Err(e) => {
                    return Err(e);
                },
            },
            _ => match take_unknown(bytes, pos) {
                Ok(end) => end,
                Err(e) => {
                    return Err(e);
                },
            },
        };
        proof {
            let v = value_at(kind_of(Self::schema(), key), bytes@, pos as int)->Ok_0.0;
            assert(self.fields() =~= merge(Self::schema(), old(self).fields(), key, v));
        }
        Ok(end)
    }
}

impl SubscribeParts {
    /// The subscription, unless the frame is of another type.
    fn finish(self) -> (r: Result<Subscribe, Error>)
        ensures
            match refusal(Schema::Subscribe, self.fields()) {
                None => r matches Ok(x) && x@ == subscribe_of(self.fields()),
                Some(e) => r matches Err(x) && x@ == e,
            },
    {
        let ty = match self.ty {
            Some(v) => v,
            None => {
                return Err(Error::MissingField("type"));
            },
        };
        if !same_text(ty.as_str(), Subscribe::TYPE) {
            return Err(Error::UnexpectedType { got: ty, expected: Subscribe::TYPE });
        }
        match self.sync_words {
            Some(w) => Ok(Subscribe { sync_words: w }),
            None => Ok(Subscribe { sync_words: Vec::new() }),
        }
    }
}

/// The subscription that a datagram holds, or why it holds none.
pub open spec fn subscribe_in(b: Seq<u8>) -> Result<Seq<u16>, ErrorView> {
    match frame_in(Schema::Subscribe, b) {
        Ok(f) => Ok(subscribe_of(f)),
        Err(e) => Err(e),
    }
}

impl Subscribe {
    /// Reads a subscription.
    pub fn from_slice(bytes: &[u8]) -> (r: Result<Subscribe, Error>)
        ensures
            match r {
                Ok(x) => subscribe_in(bytes@) == Ok::<Seq<u16>, ErrorView>(x@),
                Err(e) => subscribe_in(bytes@) == Err::<Seq<u16>, ErrorView>(e@),
            },
    {
        match read_parts::<SubscribeParts>(bytes, 0, "expected map") {
            Ok((parts, _)) => parts.finish(),
            Err(e) => Err(e),
        }
    }
}

/// The list has a length that can be written.
pub open spec fn subscribe_fits(v: Seq<u16>) -> bool {
    v.len() <= u64::MAX
}

/// What is written for `v` reads back as a subscription that lacks nothing and says `v`.
pub proof fn subscribe_written(v: Seq<u16>)
    requires
        subscribe_fits(v),
    ensures
        all_read(Schema::Subscribe, subscribe_entries(v)),
        subscribe_entries(v).len() <= 2,
        refusal(Schema::Subscribe, collect(Schema::Subscribe, subscribe_entries(v))) is None,
        subscribe_of(collect(Schema::Subscribe, subscribe_entries(v))) == v,
{
    let s = Schema::Subscribe;
    let es = no_entries(s);
    type_short(s);
    plain_fits(s, Key::Type, Some(Value::Text(type_of(s))));
    let es = entry_added(s, es, required(Key::Type, Value::Text(type_of(s))));
    plain_fits(s, Key::SyncWord, Some(Value::Words(v)));
    let es = entry_added(s, es, sync_words_entry(v));
    reveal(subscribe_entries);
    assert(field(collect(s, es), Key::Type) == Some(Value::Text(type_of(s))));
    assert(subscribe_of(collect(s, es)) =~= v);
}

/// A subscription that is written and read again is the same, whatever stands behind it in the
/// datagram.
pub proof fn subscribe_round_trip(v: Seq<u16>, tail: Seq<u8>)
    requires
        subscribe_fits(v),
    ensures
        subscribe_in(subscribe_wire(v) + tail) == Ok::<Seq<u16>, ErrorView>(v),
        subscribe_in(subscribe_wire(v)) == Ok::<Seq<u16>, ErrorView>(v),
{
    subscribe_written(v);
    let wire = subscribe_wire(v);
    record_reads(Schema::Subscribe, subscribe_entries(v));
    assert((wire + tail).subrange(0, wire.len() as int) =~= wire);
    assert(stands_at(wire, wire + tail, 0));
    assert(wire.subrange(0, wire.len() as int) =~= wire);
    assert(stands_at(wire, wire, 0));
}

} // verus!
