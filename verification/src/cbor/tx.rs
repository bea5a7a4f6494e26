//! The `lora_tx` record, which asks for a transmission, and the `lora_tx_ack` record, which answers
//! it.

use vstd::prelude::*;
use vstd::utf8::encode_utf8;

use crate::cbor::codec::put_map;
use crate::cbor::error::{Error, ErrorView};
use crate::cbor::item::stands_at;
use crate::cbor::key::Key;
use crate::cbor::put::{
    bool_value, bytes_value, bytes_view, grown, put_bool_entry, put_bytes_entry, put_text_entry,
    put_text_if_some, put_u16_if_some, put_u32_if_some, put_u64_entry, put_u64_if_some,
    put_u8_if_some, record_done, started, text_value, u16_value, u32_value,
    u64_value, u8_value,
};
use crate::cbor::reader::{
    read_parts, take_bool, take_bytes, take_text, take_u16, take_u32, take_u64, take_u8,
    take_unknown, Parts,
};
use crate::cbor::schema::{
    bool_in, bytes_in, field, frame_in, kind_of, merge, optional_text, optional_u16, optional_u32,
    optional_u64, optional_u8, refusal, type_of, uint_in, value_at, Fields, Schema, Value,
};
use crate::cbor::writer::{
    all_read, collect, entry_added, no_entries, optional, plain_fits, record_item,
    record_reads, record_refused, required, same_fields, type_short, with, Entry,
};
use crate::cbor::Frame;
use crate::text::{same_text, text_view};

verus! {

// ---------------------------------------------------------------------------------------------
// The request
// ---------------------------------------------------------------------------------------------
/// A request to transmit. What is left out, the daemon takes from its configuration.
#[derive(Clone, Debug, PartialEq, Eq)]
pub struct LoraTx {
    pub payload: Vec<u8>,
    pub seq: Option<u64>,
    pub cr: Option<u8>,
    pub sync_word: Option<u16>,
    pub preamble_len: Option<u32>,
    pub repeat: Option<u32>,
    pub gap_ms: Option<u32>,
    /// Acknowledge without transmitting.
    pub dry_run: bool,
}

/// A [`LoraTx`] by its contents.
#[verifier::ext_equal]
pub struct LoraTxView {
    pub payload: Seq<u8>,
    pub seq: Option<u64>,
    pub cr: Option<u8>,
    pub sync_word: Option<u16>,
    pub preamble_len: Option<u32>,
    pub repeat: Option<u32>,
    pub gap_ms: Option<u32>,
    pub dry_run: bool,
}

impl View for LoraTx {
    type V = LoraTxView;

    open spec fn view(&self) -> LoraTxView {
        LoraTxView {
            payload: self.payload@,
            seq: self.seq,
            cr: self.cr,
            sync_word: self.sync_word,
            preamble_len: self.preamble_len,
            repeat: self.repeat,
            gap_ms: self.gap_ms,
            dry_run: self.dry_run,
        }
    }
}

impl Default for LoraTx {
    /// No payload, nothing overridden, no dry run.
    fn default() -> (r: LoraTx)
        ensures
            r.payload@.len() == 0,
            r.seq is None,
            r.cr is None,
            r.sync_word is None,
            r.preamble_len is None,
            r.repeat is None,
            r.gap_ms is None,
            !r.dry_run,
    {
        LoraTx {
            payload: Vec::new(),
            seq: None,
            cr: None,
            sync_word: None,
            preamble_len: None,
            repeat: None,
            gap_ms: None,
            dry_run: false,
        }
    }
}

/// The value of key `k` in the record of `v`.
pub open spec fn lora_tx_field(v: LoraTxView, k: Key) -> Option<Value> {
    match k {
        Key::Type => Some(Value::Text(type_of(Schema::LoraTx))),
        Key::Payload => Some(Value::Bytes(v.payload)),
        Key::Sequence => u64_value(v.seq),
        Key::Cr => u8_value(v.cr),
        Key::SyncWord => u16_value(v.sync_word),
        Key::PreambleLen => u32_value(v.preamble_len),
        Key::Repeat => u32_value(v.repeat),
        Key::GapMs => u32_value(v.gap_ms),
        Key::DryRun => if v.dry_run {
            Some(Value::Bool(true))
        } else {
            None
        },
        _ => None,
    }
}

/// The record of `v`, by key.
pub open spec fn lora_tx_fields(v: LoraTxView) -> Fields {
    Map::new(|k: Key| lora_tx_field(v, k) is Some, |k: Key| lora_tx_field(v, k)->0)
}

/// What the fields of a complete record say.
pub open spec fn lora_tx_of(f: Fields) -> LoraTxView {
    LoraTxView {
        payload: bytes_in(f, Key::Payload),
        seq: optional_u64(f, Key::Sequence),
        cr: optional_u8(f, Key::Cr),
        sync_word: optional_u16(f, Key::SyncWord),
        preamble_len: optional_u32(f, Key::PreambleLen),
        repeat: optional_u32(f, Key::Repeat),
        gap_ms: optional_u32(f, Key::GapMs),
        dry_run: field(f, Key::DryRun) == Some(Value::Bool(true)),
    }
}

/// A dry run is said only when it is wanted.
pub open spec fn dry_run_entry(dry_run: bool) -> Option<Entry> {
    if dry_run {
        required(Key::DryRun, Value::Bool(true))
    } else {
        None
    }
}

/// The entries that are written for `v`, in their order.
#[verifier::opaque]
pub open spec fn lora_tx_entries(v: LoraTxView) -> Seq<Entry> {
    let es = Seq::empty();
    let es = with(es, required(Key::Type, Value::Text(type_of(Schema::LoraTx))));
    let es = with(es, required(Key::Payload, Value::Bytes(v.payload)));
    let es = with(es, optional(Key::Sequence, u64_value(v.seq)));
    let es = with(es, optional(Key::Cr, u8_value(v.cr)));
    let es = with(es, optional(Key::SyncWord, u16_value(v.sync_word)));
    let es = with(es, optional(Key::PreambleLen, u32_value(v.preamble_len)));
    let es = with(es, optional(Key::Repeat, u32_value(v.repeat)));
    let es = with(es, optional(Key::GapMs, u32_value(v.gap_ms)));
    with(es, dry_run_entry(v.dry_run))
}

/// The bytes of a request on the wire.
pub open spec fn lora_tx_wire(v: LoraTxView) -> Seq<u8> {
    record_item(lora_tx_entries(v))
}

impl Frame for LoraTx {
    const TYPE: &'static str = "lora_tx";

    open spec fn wire(&self) -> Seq<u8> {
        lora_tx_wire(self@)
    }

    fn encode_into(&self, out: &mut Vec<u8>) {
        let mut n: u64 = 2;
        if self.seq.is_some() {
            n = n + 1;
        }
        if self.cr.is_some() {
            n = n + 1;
        }
        if self.sync_word.is_some() {
            n = n + 1;
        }
        if self.preamble_len.is_some() {
            n = n + 1;
        }
        if self.repeat.is_some() {
            n = n + 1;
        }
        if self.gap_ms.is_some() {
            n = n + 1;
        }
        if self.dry_run {
            n = n + 1;
        }
        put_map(out, n);
        let ghost start = out@;
        let ghost mut es = started(start);
        put_text_entry(out, Key::Type, Self::TYPE);
        proof {
            es = grown(start, es, required(Key::Type, Value::Text(type_of(Schema::LoraTx))));
        }
        put_bytes_entry(out, Key::Payload, self.payload.as_slice());
        proof {
            es = grown(start, es, required(Key::Payload, Value::Bytes(self@.payload)));
        }
        put_u64_if_some(out, Key::Sequence, self.seq);
        proof {
            es = grown(start, es, optional(Key::Sequence, u64_value(self@.seq)));
        }
        put_u8_if_some(out, Key::Cr, self.cr);
        proof {
            es = grown(start, es, optional(Key::Cr, u8_value(self@.cr)));
        }
        put_u16_if_some(out, Key::SyncWord, self.sync_word);
        proof {
            es = grown(start, es, optional(Key::SyncWord, u16_value(self@.sync_word)));
        }
        put_u32_if_some(out, Key::PreambleLen, self.preamble_len);
        proof {
            es = grown(start, es, optional(Key::PreambleLen, u32_value(self@.preamble_len)));
        }
        put_u32_if_some(out, Key::Repeat, self.repeat);
        proof {
            es = grown(start, es, optional(Key::Repeat, u32_value(self@.repeat)));
        }
        put_u32_if_some(out, Key::GapMs, self.gap_ms);
        proof {
            es = grown(start, es, optional(Key::GapMs, u32_value(self@.gap_ms)));
        }
        if self.dry_run {
            put_bool_entry(out, Key::DryRun, true);
        } else {
            assert(out@ + Seq::<u8>::empty() =~= out@);
        }
        proof {
            es = grown(start, es, dry_run_entry(self.dry_run));
        }
        proof {
            reveal(lora_tx_entries);
            record_done(old(out)@, n, es);
        }
    }
}

/// What has been read of a [`LoraTx`].
struct LoraTxParts {
    ty: Option<String>,
    payload: Option<Vec<u8>>,
    seq: Option<u64>,
    cr: Option<u8>,
    sync_word: Option<u16>,
    preamble_len: Option<u32>,
    repeat: Option<u32>,
    gap_ms: Option<u32>,
    dry_run: Option<bool>,
}

impl LoraTxParts {
    spec fn get(self, k: Key) -> Option<Value> {
        match k {
            Key::Type => text_value(text_view(self.ty)),
            Key::Payload => bytes_value(bytes_view(self.payload)),
            Key::Sequence => u64_value(self.seq),
            Key::Cr => u8_value(self.cr),
            Key::SyncWord => u16_value(self.sync_word),
            Key::PreambleLen => u32_value(self.preamble_len),
            Key::Repeat => u32_value(self.repeat),
            Key::GapMs => u32_value(self.gap_ms),
            Key::DryRun => bool_value(self.dry_run),
            _ => None,
        }
    }
}

impl Parts for LoraTxParts {
    open spec fn schema() -> Schema {
        Schema::LoraTx
    }

    closed spec fn fields(self) -> Fields {
        Map::new(|k: Key| self.get(k) is Some, |k: Key| self.get(k)->0)
    }

    fn none() -> (r: Self) {
        let r = LoraTxParts {
            ty: None,
            payload: None,
            seq: None,
            cr: None,
            sync_word: None,
            preamble_len: None,
            repeat: None,
            gap_ms: None,
            dry_run: None,
        };
        assert(r.fields() =~= Map::<Key, Value>::empty());
        r
    }

    fn take(&mut self, key: Key, bytes: &[u8], pos: usize) -> (r: Result<usize, Error>) {
        let end: usize = match key {
            Key::Type => match take_text(bytes, pos) {
                Ok((v, end)) => {
                    self.ty = Some(v);
                    end
                },
                Err(e) => {
                    return Err(e);
                },
            },
            Key::Payload => match take_bytes(bytes, pos) {
                Ok((v, end)) => {
                    self.payload = Some(v);
                    end
                },
                Err(e) => {
                    return Err(e);
                },
            },
            Key::Sequence => match take_u64(bytes, pos) {
                Ok((v, end)) => {
                    self.seq = Some(v);
                    end
                },
                Err(e) => {
                    return Err(e);
                },
            },
            Key::Cr => match take_u8(bytes, pos) {
                Ok((v, end)) => {
                    self.cr = Some(v);
                    end
                },
                Err(e) => {
                    return Err(e);
                },
            },
            Key::SyncWord => match take_u16(bytes, pos) {
                Ok((v, end)) => {
                    self.sync_word = Some(v);
                    end
                },
                Err(e) => {
                    return Err(e);
                },
            },
            Key::PreambleLen => match take_u32(bytes, pos) {
                Ok((v, end)) => {
                    self.preamble_len = Some(v);
                    end
                },
                Err(e) => {
                    return Err(e);
                },
            },
            Key::Repeat => match take_u32(bytes, pos) {
                Ok((v, end)) => {
                    self.repeat = Some(v);
                    end
                },
                Err(e) => {
                    return Err(e);
                },
            },
            Key::GapMs => match take_u32(bytes, pos) {
                Ok((v, end)) => {
                    self.gap_ms = Some(v);
                    end
                },
                Err(e) => {
                    return Err(e);
                },
            },
            Key::DryRun => match take_bool(bytes, pos) {
                Ok((v, end)) => {
                    self.dry_run = Some(v);
                    end
                },
                Err(e) => {
                    return Err(e);
                },
            },
            _ => match take_unknown(bytes, pos) {
                Ok(end) => end,
                Err(e) => {
                    return Err(e);
                },
            },
        };
        proof {
            let v = value_at(kind_of(Self::schema(), key), bytes@, pos as int)->Ok_0.0;
            assert(self.fields() =~= merge(Self::schema(), old(self).fields(), key, v));
        }
        Ok(end)
    }
}

impl LoraTxParts {
    /// The request, unless it is of another type or has no payload.
    fn finish(self) -> (r: Result<LoraTx, Error>)
        ensures
            match refusal(Schema::LoraTx, self.fields()) {
                None => r matches Ok(x) && x@ == lora_tx_of(self.fields()),
                Some(e) => r matches Err(x) && x@ == e,
            },
    {
        let ty = match self.ty {
            Some(v) => v,
            None => {
                return Err(Error::MissingField("type"));
            },
        };
        if !same_text(ty.as_str(), LoraTx::TYPE) {
            return Err(Error::UnexpectedType { got: ty, expected: LoraTx::TYPE });
        }
        let payload = match self.payload {
            Some(v) => v,
            None => {
                return Err(Error::MissingField("payload"));
            },
        };
        if payload.len() == 0 {
            return Err(Error::MissingField("payload"));
        }
        let r = LoraTx {
            payload,
            seq: self.seq,
            cr: self.cr,
            sync_word: self.sync_word,
            preamble_len: self.preamble_len,
            repeat: self.repeat,
            gap_ms: self.gap_ms,
            dry_run: match self.dry_run {
                Some(v) => v,
                None => false,
            },
        };
        assert(r@ =~= lora_tx_of(self.fields()));
        Ok(r)
    }
}

/// The request that a datagram holds, or why it holds none.
pub open spec fn lora_tx_in(b: Seq<u8>) -> Result<LoraTxView, ErrorView> {
    match frame_in(Schema::LoraTx, b) {
        Ok(f) => Ok(lora_tx_of(f)),
        Err(e) => Err(e),
    }
}

impl LoraTx {
    /// Reads a request. One without a payload is refused.
    pub fn from_slice(bytes: &[u8]) -> (r: Result<LoraTx, Error>)
        ensures
            match r {
                Ok(x) => lora_tx_in(bytes@) == Ok::<LoraTxView, ErrorView>(x@),
                Err(e) => lora_tx_in(bytes@) == Err::<LoraTxView, ErrorView>(e@),
            },
    {
        match read_parts::<LoraTxParts>(bytes, 0, "expected map") {
            Ok((parts, _)) => parts.finish(),
            Err(e) => Err(e),
        }
    }
}

/// The payload has a length that can be written.
pub open spec fn lora_tx_fits(v: LoraTxView) -> bool {
    v.payload.len() <= u64::MAX
}

/// What is written for `v` reads back as the record of `v`, which says `v` and lacks nothing, unless
/// the payload is empty.
pub proof fn lora_tx_written(v: LoraTxView)
    requires
        lora_tx_fits(v),
    ensures
        all_read(Schema::LoraTx, lora_tx_entries(v)),
        lora_tx_entries(v).len() <= 32,
        collect(Schema::LoraTx, lora_tx_entries(v)) == lora_tx_fields(v),
        v.payload.len() > 0 ==> refusal(Schema::LoraTx, lora_tx_fields(v)) is None,
        v.payload.len() == 0 ==> refusal(Schema::LoraTx, lora_tx_fields(v)) == Some(
            ErrorView::MissingField("payload"@),
        ),
        lora_tx_of(lora_tx_fields(v)) == v,
{
    let s = Schema::LoraTx;
    let es = no_entries(s);
    type_short(s);
    plain_fits(s, Key::Type, Some(Value::Text(type_of(s))));
    let es = entry_added(s, es, optional(Key::Type, Some(Value::Text(type_of(s)))));
    plain_fits(s, Key::Payload, Some(Value::Bytes(v.payload)));
    let es = entry_added(s, es, optional(Key::Payload, Some(Value::Bytes(v.payload))));
    plain_fits(s, Key::Sequence, u64_value(v.seq));
    let es = entry_added(s, es, optional(Key::Sequence, u64_value(v.seq)));
    plain_fits(s, Key::Cr, u8_value(v.cr));
    let es = entry_added(s, es, optional(Key::Cr, u8_value(v.cr)));
    plain_fits(s, Key::SyncWord, u16_value(v.sync_word));
    let es = entry_added(s, es, optional(Key::SyncWord, u16_value(v.sync_word)));
    plain_fits(s, Key::PreambleLen, u32_value(v.preamble_len));
    let es = entry_added(s, es, optional(Key::PreambleLen, u32_value(v.preamble_len)));
    plain_fits(s, Key::Repeat, u32_value(v.repeat));
    let es = entry_added(s, es, optional(Key::Repeat, u32_value(v.repeat)));
    plain_fits(s, Key::GapMs, u32_value(v.gap_ms));
    let es = entry_added(s, es, optional(Key::GapMs, u32_value(v.gap_ms)));
    plain_fits(s, Key::DryRun, Some(Value::Bool(true)));
    let es = entry_added(s, es, dry_run_entry(v.dry_run));
    reveal(lora_tx_entries);
    assert forall|k: Key| #[trigger] field(collect(s, es), k) == field(lora_tx_fields(v), k) by {}
    same_fields(collect(s, es), lora_tx_fields(v));
    assert(lora_tx_of(lora_tx_fields(v)) =~= v);
}

/// A request that has a payload and is written and read again is the same, whatever stands behind it
/// in the datagram.
pub proof fn lora_tx_round_trip(v: LoraTxView, tail: Seq<u8>)
    requires
        lora_tx_fits(v),
        v.payload.len() > 0,
    ensures
        lora_tx_in(lora_tx_wire(v) + tail) == Ok::<LoraTxView, ErrorView>(v),
        lora_tx_in(lora_tx_wire(v)) == Ok::<LoraTxView, ErrorView>(v),
{
    lora_tx_written(v);
    let wire = lora_tx_wire(v);
    record_reads(Schema::LoraTx, lora_tx_entries(v));
    assert((wire + tail).subrange(0, wire.len() as int) =~= wire);
    assert(stands_at(wire, wire + tail, 0));
    assert(wire.subrange(0, wire.len() as int) =~= wire);
    assert(stands_at(wire, wire, 0));
}

/// A request with an empty payload can be written, but is refused when it is read.
pub proof fn empty_payload_refused(v: LoraTxView, tail: Seq<u8>)
    requires
        v.payload.len() == 0,
    ensures
        lora_tx_in(lora_tx_wire(v) + tail) == Err::<LoraTxView, ErrorView>(
            ErrorView::MissingField("payload"@),
        ),
{
    lora_tx_written(v);
    let wire = lora_tx_wire(v);
    assert((wire + tail).subrange(0, wire.len() as int) =~= wire);
    record_refused(Schema::LoraTx, lora_tx_entries(v), wire + tail, 0);
}

// ---------------------------------------------------------------------------------------------
// The answer
// ---------------------------------------------------------------------------------------------
/// The answer to a request: whether it was carried out, and if not, why.
#[derive(Clone, Debug, PartialEq, Eq)]
pub struct LoraTxAck {
    /// The number of the request.
    pub seq: u64,
    pub ok: bool,
    pub error: Option<String>,
}

/// A [`LoraTxAck`] by its contents.
#[verifier::ext_equal]
pub struct LoraTxAckView {
    pub seq: u64,
    pub ok: bool,
    pub error: Option<Seq<char>>,
}

impl View for LoraTxAck {
    type V = LoraTxAckView;

    open spec fn view(&self) -> LoraTxAckView {
        LoraTxAckView {
            seq: self.seq,
            ok: self.ok,
            error: text_view(self.error),
        }
    }
}

/// The value of key `k` in the record of `v`.
pub open spec fn lora_tx_ack_field(v: LoraTxAckView, k: Key) -> Option<Value> {
    match k {
        Key::Type => Some(Value::Text(type_of(Schema::LoraTxAck))),
        Key::Sequence => Some(Value::Uint(v.seq as int)),
        Key::Okay => Some(Value::Bool(v.ok)),
        Key::Fault => text_value(v.error),
        _ => None,
    }
}

/// The record of `v`, by key.
pub open spec fn lora_tx_ack_fields(v: LoraTxAckView) -> Fields {
    Map::new(|k: Key| lora_tx_ack_field(v, k) is Some, |k: Key| lora_tx_ack_field(v, k)->0)
}

/// What the fields of a complete record say.
pub open spec fn lora_tx_ack_of(f: Fields) -> LoraTxAckView {
    LoraTxAckView {
        seq: uint_in(f, Key::Sequence) as u64,
        ok: bool_in(f, Key::Okay),
        error: optional_text(f, Key::Fault),
    }
}

/// The entries that are written for `v`, in their order.
#[verifier::opaque]
pub open spec fn lora_tx_ack_entries(v: LoraTxAckView) -> Seq<Entry> {
    let es = Seq::empty();
    let es = with(es, required(Key::Type, Value::Text(type_of(Schema::LoraTxAck))));
    let es = with(es, required(Key::Sequence, Value::Uint(v.seq as int)));
    let es = with(es, required(Key::Okay, Value::Bool(v.ok)));
    with(es, optional(Key::Fault, text_value(v.error)))
}

/// The bytes of an answer on the wire.
pub open spec fn lora_tx_ack_wire(v: LoraTxAckView) -> Seq<u8> {
    record_item(lora_tx_ack_entries(v))
}

impl Frame for LoraTxAck {
    const TYPE: &'static str = "lora_tx_ack";

    open spec fn wire(&self) -> Seq<u8> {
        lora_tx_ack_wire(self@)
    }

    fn encode_into(&self, out: &mut Vec<u8>) {
        let mut n: u64 = 3;
        if self.error.is_some() {
            n = n + 1;
        }
        put_map(out, n);
        let ghost start = out@;
        let ghost mut es = started(start);
        put_text_entry(out, Key::Type, Self::TYPE);
        proof {
            es = grown(start, es, required(Key::Type, Value::Text(type_of(Schema::LoraTxAck))));
        }
        put_u64_entry(out, Key::Sequence, self.seq);
        proof {
            es = grown(start, es, required(Key::Sequence, Value::Uint(self@.seq as int)));
        }
        put_bool_entry(out, Key::Okay, self.ok);
        proof {
            es = grown(start, es, required(Key::Okay, Value::Bool(self@.ok)));
        }
        put_text_if_some(out, Key::Fault, &self.error);
        proof {
            es = grown(start, es, optional(Key::Fault, text_value(self@.error)));
        }
        proof {
            reveal(lora_tx_ack_entries);
            record_done(old(out)@, n, es);
        }
    }
}

/// What has been read of a [`LoraTxAck`].
struct LoraTxAckParts {
    ty: Option<String>,
    seq: Option<u64>,
    ok: Option<bool>,
    error: Option<String>,
}

impl LoraTxAckParts {
    spec fn get(self, k: Key) -> Option<Value> {
        match k {
            Key::Type => text_value(text_view(self.ty)),
            Key::Sequence => u64_value(self.seq),
            Key::Okay => bool_value(self.ok),
            Key::Fault => text_value(text_view(self.error)),
            _ => None,
        }
    }
}

impl Parts for LoraTxAckParts {
    open spec fn schema() -> Schema {
        Schema::LoraTxAck
    }

    closed spec fn fields(self) -> Fields {
        Map::new(|k: Key| self.get(k) is Some, |k: Key| self.get(k)->0)
    }

    fn none() -> (r: Self) {
        let r = LoraTxAckParts {
            ty: None,
            seq: None,
            ok: None,
            error: None,
        };
        assert(r.fields() =~= Map::<Key, Value>::empty());
        r
    }

    fn take(&mut self, key: Key, bytes: &[u8], pos: usize) -> (r: Result<usize, Error>) {
        let end: usize = match key {
            Key::Type => match take_text(bytes, pos) {
                Ok((v, end)) => {
                    self.ty = Some(v);
                    end
                },
                Err(e) => {
                    return Err(e);
                },
            },
            Key::Sequence => match take_u64(bytes, pos) {
                Ok((v, end)) => {
                    self.seq = Some(v);
                    end
                },
                Err(e) => {
                    return Err(e);
                },
            },
            Key::Okay => match take_bool(bytes, pos) {
                Ok((v, end)) => {
                    self.ok = Some(v);
                    end
                },
                Err(e) => {
                    return Err(e);
                },
            },
            Key::Fault => match take_text(bytes, pos) {
                Ok((v, end)) => {
                    self.error = Some(v);
                    end
                },
                Err(e) => {
                    return Err(e);
                },
            },
            _ => match take_unknown(bytes, pos) {
                Ok(end) => end,
                Err(e) => {
                    return Err(e);
                },
            },
        };
        proof {
            let v = value_at(kind_of(Self::schema(), key), bytes@, pos as int)->Ok_0.0;
            assert(self.fields() =~= merge(Self::schema(), old(self).fields(), key, v));
        }
        Ok(end)
    }
}

impl LoraTxAckParts {
    /// The record, unless something is missing.
    fn finish(self) -> (r: Result<LoraTxAck, Error>)
        ensures
            match refusal(Schema::LoraTxAck, self.fields()) {
                None => r matches Ok(x) && self.fields() == lora_tx_ack_fields(x@),
                Some(e) => r matches Err(x) && x@ == e,
            },
    {
        let ty = match self.ty {
            Some(v) => v,
            None => {
                return Err(Error::MissingField("type"));
            },
        };
        if !same_text(ty.as_str(), LoraTxAck::TYPE) {
            return Err(Error::UnexpectedType { got: ty, expected: LoraTxAck::TYPE });
        }
        let seq: u64 = match self.seq {
            Some(v) => v,
            None => {
                return Err(Error::MissingField("seq"));
            },
        };
        let ok = match self.ok {
            Some(v) => v,
            None => {
                return Err(Error::MissingField("ok"));
            },
        };
        let r = LoraTxAck {
            seq,
            ok,
            error: self.error,
        };
        assert(self.fields() =~= lora_tx_ack_fields(r@));
        Ok(r)
    }
}

/// The answer that a datagram holds, or why it holds none.
pub open spec fn lora_tx_ack_in(b: Seq<u8>) -> Result<LoraTxAckView, ErrorView> {
    match frame_in(Schema::LoraTxAck, b) {
        Ok(f) => Ok(lora_tx_ack_of(f)),
        Err(e) => Err(e),
    }
}

impl LoraTxAck {
    /// The request was carried out.
    pub fn ok(seq: u64) -> (r: LoraTxAck)
        ensures
            r@ == (LoraTxAckView { seq, ok: true, error: None }),
    {
        LoraTxAck { seq, ok: true, error: None }
    }

    /// The request failed.
    pub fn err(seq: u64, error: &str) -> (r: LoraTxAck)
        ensures
            r@ == (LoraTxAckView { seq, ok: false, error: Some(error@) }),
    {
        LoraTxAck { seq, ok: false, error: Some(error.to_owned()) }
    }

    /// Reads an answer.
    pub fn from_slice(bytes: &[u8]) -> (r: Result<LoraTxAck, Error>)
        ensures
            match r {
                Ok(x) => lora_tx_ack_in(bytes@) == Ok::<LoraTxAckView, ErrorView>(x@),
                Err(e) => lora_tx_ack_in(bytes@) == Err::<LoraTxAckView, ErrorView>(e@),
            },
    {
        match read_parts::<LoraTxAckParts>(bytes, 0, "expected map") {
            Ok((parts, _)) => match parts.finish() {
                Ok(x) => {
                    proof {
                        lora_tx_ack_said(x@);
                    }
                    Ok(x)
                },
                Err(e) => Err(e),
            },
            Err(e) => Err(e),
        }
    }
}

/// The record of `v` says `v`.
proof fn lora_tx_ack_said(v: LoraTxAckView)
    ensures
        lora_tx_ack_of(lora_tx_ack_fields(v)) == v,
{
    assert(lora_tx_ack_of(lora_tx_ack_fields(v)) =~= v);
}

/// The lengths of everything in `v` can be written.
pub open spec fn lora_tx_ack_fits(v: LoraTxAckView) -> bool {
    &&& v.error matches Some(x) ==> encode_utf8(x).len() <= u64::MAX
}

/// What is written for `v` reads back as the record of `v`, which lacks nothing and says `v`.
pub proof fn lora_tx_ack_written(v: LoraTxAckView)
    requires
        lora_tx_ack_fits(v),
    ensures
        all_read(Schema::LoraTxAck, lora_tx_ack_entries(v)),
        lora_tx_ack_entries(v).len() <= 32,
        collect(Schema::LoraTxAck, lora_tx_ack_entries(v)) == lora_tx_ack_fields(v),
        refusal(Schema::LoraTxAck, lora_tx_ack_fields(v)) is None,
        lora_tx_ack_of(lora_tx_ack_fields(v)) == v,
{
    let s = Schema::LoraTxAck;
    let es = no_entries(s);
    type_short(s);
    plain_fits(s, Key::Type, Some(Value::Text(type_of(s))));
    let es = entry_added(s, es, optional(Key::Type, Some(Value::Text(type_of(s)))));
    plain_fits(s, Key::Sequence, Some(Value::Uint(v.seq as int)));
    let es = entry_added(s, es, optional(Key::Sequence, Some(Value::Uint(v.seq as int))));
    plain_fits(s, Key::Okay, Some(Value::Bool(v.ok)));
    let es = entry_added(s, es, optional(Key::Okay, Some(Value::Bool(v.ok))));
    plain_fits(s, Key::Fault, text_value(v.error));
    let es = entry_added(s, es, optional(Key::Fault, text_value(v.error)));
    reveal(lora_tx_ack_entries);
    assert forall|k: Key| #[trigger] field(collect(s, es), k) == field(lora_tx_ack_fields(v), k) by {}
    same_fields(collect(s, es), lora_tx_ack_fields(v));
    assert(lora_tx_ack_of(lora_tx_ack_fields(v)) =~= v);
}

/// An answer that is written and read again is the same, whatever stands behind it in the
/// datagram.
pub proof fn lora_tx_ack_round_trip(v: LoraTxAckView, tail: Seq<u8>)
    requires
        lora_tx_ack_fits(v),
    ensures
        lora_tx_ack_in(lora_tx_ack_wire(v) + tail) == Ok::<LoraTxAckView, ErrorView>(v),
        lora_tx_ack_in(lora_tx_ack_wire(v)) == Ok::<LoraTxAckView, ErrorView>(v),
{
    lora_tx_ack_written(v);
    let wire = lora_tx_ack_wire(v);
    record_reads(Schema::LoraTxAck, lora_tx_ack_entries(v));
    assert((wire + tail).subrange(0, wire.len() as int) =~= wire);
    assert(stands_at(wire, wire + tail, 0));
    assert(wire.subrange(0, wire.len() as int) =~= wire);
    assert(stands_at(wire, wire, 0));
}

} // verus!
