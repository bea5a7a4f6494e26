//! What the protocol's maps hold, and what a sequence of bytes says as one of them.
//!
//! A record is a map of definite length with text keys. Each key that the record knows has a kind
//! of value; the values of other keys are passed over. A key that occurs again replaces what it
//! said before, except that the lists of a repeated `sync_word` of a subscription add up.

use vstd::prelude::*;

use crate::cbor::codec::{
    array_fault, bool_fault, bytes_fault, map_fault, skip_outcome, text_fault, u16_fault, u32_fault,
    u64_fault, u8_fault,
};
use crate::cbor::error::ErrorView;
use crate::cbor::float::double_at;
use crate::cbor::item::{bool_at, bytes_at, count_at, text_at, uint_at};
use crate::cbor::key::{key_of, Key};
use crate::double::Double;

verus! {

/// The records of the protocol. The first three are parts of others.
pub enum Schema {
    Diversity,
    Phy,
    Carrier,
    LoraFrame,
    Subscribe,
    LoraTx,
    LoraTxAck,
}

/// What a key's value is.
pub enum Kind {
    Text,
    U8,
    U16,
    U32,
    U64,
    Bool,
    Bytes,
    Double,
    Words,
    Octets,
    Doubles,
    Record(Schema),
    Unknown,
}

/// A value that was read.
pub enum Value {
    Text(Seq<char>),
    Uint(int),
    Bool(bool),
    Bytes(Seq<u8>),
    Double(Double),
    Words(Seq<u16>),
    Octets(Seq<u8>),
    Doubles(Seq<Double>),
    Record(Map<Key, Value>),
    Skipped,
}

/// The fields of a record that were read.
pub type Fields = Map<Key, Value>;

/// The value of a field, if the record has it.
pub open spec fn field(f: Fields, k: Key) -> Option<Value> {
    if f.contains_key(k) {
        Some(f[k])
    } else {
        None
    }
}

/// The kind of value that key `k` has in a record.
pub open spec fn kind_of(s: Schema, k: Key) -> Kind {
    match s {
        Schema::Diversity => match k {
            Key::Antennas => Kind::Octets,
            Key::SnrDbMax => Kind::Double,
            Key::SnrDbPerAnt => Kind::Doubles,
            _ => Kind::Unknown,
        },
        Schema::Phy => match k {
            Key::Sf => Kind::U8,
            Key::Bw => Kind::U32,
            Key::Cr => Kind::U8,
            Key::CrcValid => Kind::Bool,
            Key::SyncWord => Kind::U16,
            Key::SnrDb => Kind::Double,
            Key::NoiseFloorDb => Kind::Double,
            Key::PeakDb => Kind::Double,
            Key::SnrDbTd => Kind::Double,
            Key::ChannelFreq => Kind::Double,
            Key::DecodeBw => Kind::Double,
            Key::CfoInt => Kind::Double,
            Key::CfoFrac => Kind::Double,
            Key::SfoHat => Kind::Double,
            Key::SampleRate => Kind::Double,
            Key::FrequencyCorrected => Kind::Double,
            Key::PpmError => Kind::Double,
            Key::Diversity => Kind::Record(Schema::Diversity),
            _ => Kind::Unknown,
        },
        Schema::Carrier => match k {
            Key::SyncWord => Kind::U16,
            Key::Sf => Kind::U8,
            Key::Bw => Kind::U32,
            Key::Cr => Kind::U8,
            Key::LdroCfg => Kind::Bool,
            _ => Kind::Unknown,
        },
        Schema::LoraFrame => match k {
            Key::Type => Kind::Text,
            Key::Ts => Kind::Text,
            Key::Sequence => Kind::U64,
            Key::Phy => Kind::Record(Schema::Phy),
            Key::Carrier => Kind::Record(Schema::Carrier),
            Key::Payload => Kind::Bytes,
            Key::PayloadLen => Kind::U32,
            Key::CrcValid => Kind::Bool,
            Key::Cr => Kind::U8,
            Key::IsDownchirp => Kind::Bool,
            Key::Id => Kind::Text,
            Key::PayloadHash => Kind::U64,
            Key::RxChannel => Kind::U32,
            Key::DecodeLabel => Kind::Text,
            Key::Device => Kind::Text,
            _ => Kind::Unknown,
        },
        Schema::Subscribe => match k {
            Key::Type => Kind::Text,
            Key::SyncWord => Kind::Words,
            _ => Kind::Unknown,
        },
        Schema::LoraTx => match k {
            Key::Type => Kind::Text,
            Key::Payload => Kind::Bytes,
            Key::Sequence => Kind::U64,
            Key::Cr => Kind::U8,
            Key::SyncWord => Kind::U16,
            Key::PreambleLen => Kind::U32,
            Key::Repeat => Kind::U32,
            Key::GapMs => Kind::U32,
            Key::DryRun => Kind::Bool,
            _ => Kind::Unknown,
        },
        Schema::LoraTxAck => match k {
            Key::Type => Kind::Text,
            Key::Sequence => Kind::U64,
            Key::Okay => Kind::Bool,
            Key::Fault => Kind::Text,
            _ => Kind::Unknown,
        },
    }
}

/// The `type` text of a frame.
pub open spec fn type_of(s: Schema) -> Seq<char> {
    match s {
        Schema::LoraFrame => "lora_frame"@,
        Schema::Subscribe => "subscribe"@,
        Schema::LoraTx => "lora_tx"@,
        Schema::LoraTxAck => "lora_tx_ack"@,
        _ => ""@,
    }
}

/// What is said of a map of indefinite length where the record should be.
pub open spec fn indefinite_text(s: Schema) -> Seq<char> {
    match s {
        Schema::Diversity => "diversity expected map"@,
        Schema::Phy => "phy expected map"@,
        Schema::Carrier => "carrier expected map"@,
        _ => "expected map"@,
    }
}

/// The fields after one more value was read for key `k`.
pub open spec fn merge(s: Schema, f: Fields, k: Key, v: Value) -> Fields {
    match v {
        Value::Skipped => f,
        Value::Words(w) => if s is Subscribe && f.contains_key(k) {
            f.insert(k, Value::Words(f[k]->Words_0 + w))
        } else {
            f.insert(k, v)
        },
        _ => f.insert(k, v),
    }
}

/// Why a frame with these fields is not one of kind `s`, as far as its `type` tells.
pub open spec fn wrong_type(s: Schema, f: Fields) -> Option<ErrorView> {
    match field(f, Key::Type) {
        Some(Value::Text(got)) => if got == type_of(s) {
            None
        } else {
            Some(ErrorView::UnexpectedType { got, expected: type_of(s) })
        },
        _ => Some(ErrorView::MissingField("type"@)),
    }
}

/// Why these fields do not make up a record, if they do not: the first reason counts.
pub open spec fn refusal(s: Schema, f: Fields) -> Option<ErrorView> {
    match s {
        Schema::Diversity => {
            if !f.contains_key(Key::Antennas) {
                Some(ErrorView::MissingField("phy.diversity.antennas"@))
            } else if !f.contains_key(Key::SnrDbMax) {
                Some(ErrorView::MissingField("phy.diversity.snr_db_max"@))
            } else if !f.contains_key(Key::SnrDbPerAnt) {
                Some(ErrorView::MissingField("phy.diversity.snr_db_per_ant"@))
            } else {
                None
            }
        },
        Schema::Phy => {
            if !f.contains_key(Key::Sf) {
                Some(ErrorView::MissingField("phy.sf"@))
            } else if !f.contains_key(Key::Bw) {
                Some(ErrorView::MissingField("phy.bw"@))
            } else if !f.contains_key(Key::Cr) {
                Some(ErrorView::MissingField("phy.cr"@))
            } else if !f.contains_key(Key::CrcValid) {
                Some(ErrorView::MissingField("phy.crc_valid"@))
            } else if !f.contains_key(Key::SyncWord) {
                Some(ErrorView::MissingField("phy.sync_word"@))
            } else if !f.contains_key(Key::SnrDb) {
                Some(ErrorView::MissingField("phy.snr_db"@))
            } else {
                None
            }
        },
        Schema::Carrier => {
            if !f.contains_key(Key::SyncWord) {
                Some(ErrorView::MissingField("carrier.sync_word"@))
            } else if !f.contains_key(Key::Sf) {
                Some(ErrorView::MissingField("carrier.sf"@))
            } else if !f.contains_key(Key::Bw) {
                Some(ErrorView::MissingField("carrier.bw"@))
            } else if !f.contains_key(Key::Cr) {
                Some(ErrorView::MissingField("carrier.cr"@))
            } else if !f.contains_key(Key::LdroCfg) {
                Some(ErrorView::MissingField("carrier.ldro_cfg"@))
            } else {
                None
            }
        },
        Schema::LoraFrame => {
            if wrong_type(s, f) is Some {
                wrong_type(s, f)
            } else if !f.contains_key(Key::Ts) {
                Some(ErrorView::MissingField("ts"@))
            } else if !f.contains_key(Key::Sequence) {
                Some(ErrorView::MissingField("seq"@))
            } else if !f.contains_key(Key::Phy) {
                Some(ErrorView::MissingField("phy"@))
            } else if !f.contains_key(Key::Carrier) {
                Some(ErrorView::MissingField("carrier"@))
            } else if !f.contains_key(Key::Payload) {
                Some(ErrorView::MissingField("payload"@))
            } else if !f.contains_key(Key::PayloadLen) {
                Some(ErrorView::MissingField("payload_len"@))
            } else if !f.contains_key(Key::CrcValid) {
                Some(ErrorView::MissingField("crc_valid"@))
            } else if !f.contains_key(Key::Cr) {
                Some(ErrorView::MissingField("cr"@))
            } else if !f.contains_key(Key::IsDownchirp) {
                Some(ErrorView::MissingField("is_downchirp"@))
            } else if !f.contains_key(Key::Id) {
                Some(ErrorView::MissingField("id"@))
            } else if !f.contains_key(Key::PayloadHash) {
                Some(ErrorView::MissingField("payload_hash"@))
            } else {
                None
            }
        },
        Schema::Subscribe => wrong_type(s, f),
        Schema::LoraTx => {
            if wrong_type(s, f) is Some {
                wrong_type(s, f)
            } else if !(field(f, Key::Payload) matches Some(Value::Bytes(p)) && p.len() > 0) {
                Some(ErrorView::MissingField("payload"@))
            } else {
                None
            }
        },
        Schema::LoraTxAck => {
            if wrong_type(s, f) is Some {
                wrong_type(s, f)
            } else if !f.contains_key(Key::Sequence) {
                Some(ErrorView::MissingField("seq"@))
            } else if !f.contains_key(Key::Okay) {
                Some(ErrorView::MissingField("ok"@))
            } else {
                None
            }
        },
    }
}

// ---------------------------------------------------------------------------------------------
// Fields by type
// ---------------------------------------------------------------------------------------------
pub open spec fn text_in(f: Fields, k: Key) -> Seq<char> {
    f[k]->Text_0
}

pub open spec fn uint_in(f: Fields, k: Key) -> int {
    f[k]->Uint_0
}

pub open spec fn bool_in(f: Fields, k: Key) -> bool {
    f[k]->Bool_0
}

pub open spec fn bytes_in(f: Fields, k: Key) -> Seq<u8> {
    f[k]->Bytes_0
}

pub open spec fn double_in(f: Fields, k: Key) -> Double {
    f[k]->Double_0
}

pub open spec fn octets_in(f: Fields, k: Key) -> Seq<u8> {
    f[k]->Octets_0
}

pub open spec fn doubles_in(f: Fields, k: Key) -> Seq<Double> {
    f[k]->Doubles_0
}

pub open spec fn optional_text(f: Fields, k: Key) -> Option<Seq<char>> {
    match field(f, k) {
        Some(Value::Text(v)) => Some(v),
        _ => None,
    }
}

pub open spec fn optional_double(f: Fields, k: Key) -> Option<Double> {
    match field(f, k) {
        Some(Value::Double(v)) => Some(v),
        _ => None,
    }
}

pub open spec fn optional_u8(f: Fields, k: Key) -> Option<u8> {
    match field(f, k) {
        Some(Value::Uint(v)) => Some(v as u8),
        _ => None,
    }
}

pub open spec fn optional_u16(f: Fields, k: Key) -> Option<u16> {
    match field(f, k) {
        Some(Value::Uint(v)) => Some(v as u16),
        _ => None,
    }
}

pub open spec fn optional_u32(f: Fields, k: Key) -> Option<u32> {
    match field(f, k) {
        Some(Value::Uint(v)) => Some(v as u32),
        _ => None,
    }
}

pub open spec fn optional_u64(f: Fields, k: Key) -> Option<u64> {
    match field(f, k) {
        Some(Value::Uint(v)) => Some(v as u64),
        _ => None,
    }
}

// ---------------------------------------------------------------------------------------------
// Lists
// ---------------------------------------------------------------------------------------------
/// The next `n` integers of at most sixteen bits from `p` on, behind those already read.
pub open spec fn words_from(b: Seq<u8>, p: int, n: int, done: Seq<u16>) -> Result<
    (Seq<u16>, int),
    ErrorView,
>
    decreases n,
{
    if n <= 0 {
        Ok((done, p))
    } else {
        match uint_at(b, p, u16::MAX as int) {
            Some((v, q)) => words_from(b, q, n - 1, done.push(v as u16)),
            None => Err(ErrorView::Decode(u16_fault(b, p))),
        }
    }
}

/// The next `n` integers of at most eight bits from `p` on, behind those already read.
pub open spec fn octets_from(b: Seq<u8>, p: int, n: int, done: Seq<u8>) -> Result<
    (Seq<u8>, int),
    ErrorView,
>
    decreases n,
{
    if n <= 0 {
        Ok((done, p))
    } else {
        match uint_at(b, p, u8::MAX as int) {
            Some((v, q)) => octets_from(b, q, n - 1, done.push(v as u8)),
            None => Err(ErrorView::Decode(u8_fault(b, p))),
        }
    }
}

/// The next `n` floating-point numbers from `p` on, behind those already read.
pub open spec fn doubles_from(b: Seq<u8>, p: int, n: int, done: Seq<Double>) -> Result<
    (Seq<Double>, int),
    ErrorView,
>
    decreases n,
{
    if n <= 0 {
        Ok((done, p))
    } else {
        match double_at(b, p) {
            Ok((v, q)) => doubles_from(b, q, n - 1, done.push(v)),
            Err(t) => Err(ErrorView::Decode(t)),
        }
    }
}

/// The count of the list at `p` and where its first element stands; a list of indefinite length is
/// refused with `complaint`.
pub open spec fn list_at(b: Seq<u8>, p: int, complaint: Seq<char>) -> Result<(int, int), ErrorView> {
    match count_at(b, p, 4) {
        Some((Some(n), q)) => Ok((n, q)),
        Some((None, q)) => Err(ErrorView::Decode(complaint)),
        None => Err(ErrorView::Decode(array_fault(b, p))),
    }
}

// ---------------------------------------------------------------------------------------------
// Values, fields and records
// ---------------------------------------------------------------------------------------------
/// How deep records nest inside a record, from one on; a value that is no record has rank zero.
pub open spec fn rank_of(s: Schema) -> nat {
    match s {
        Schema::Diversity => 1,
        Schema::Phy => 2,
        Schema::Carrier => 2,
        _ => 3,
    }
}

pub open spec fn kind_rank(k: Kind) -> nat {
    match k {
        Kind::Record(s) => rank_of(s),
        _ => 0,
    }
}

pub open spec fn uint_value(
    found: Option<(int, int)>,
    fault: Seq<char>,
) -> Result<(Value, int), ErrorView> {
    match found {
        Some((n, q)) => Ok((Value::Uint(n), q)),
        None => Err(ErrorView::Decode(fault)),
    }
}

/// The value of kind `k` at `p` and the position behind it.
pub open spec fn value_at(k: Kind, b: Seq<u8>, p: int) -> Result<(Value, int), ErrorView>
    decreases kind_rank(k), 3int, 0int,
{
    match k {
        Kind::Text => match text_at(b, p) {
            Some((s, q)) => Ok((Value::Text(s), q)),
            None => Err(ErrorView::Decode(text_fault(b, p))),
        },
        Kind::U8 => uint_value(uint_at(b, p, u8::MAX as int), u8_fault(b, p)),
        Kind::U16 => uint_value(uint_at(b, p, u16::MAX as int), u16_fault(b, p)),
        Kind::U32 => uint_value(uint_at(b, p, u32::MAX as int), u32_fault(b, p)),
        Kind::U64 => uint_value(uint_at(b, p, u64::MAX as int), u64_fault(b, p)),
        Kind::Bool => match bool_at(b, p) {
            Some((v, q)) => Ok((Value::Bool(v), q)),
            None => Err(ErrorView::Decode(bool_fault(b, p))),
        },
        Kind::Bytes => match bytes_at(b, p) {
            Some((s, q)) => Ok((Value::Bytes(s), q)),
            None => Err(ErrorView::Decode(bytes_fault(b, p))),
        },
        Kind::Double => match double_at(b, p) {
            Ok((v, q)) => Ok((Value::Double(v), q)),
            Err(t) => Err(ErrorView::Decode(t)),
        },
        Kind::Words => match list_at(b, p, "sync_word expected array"@) {
            Ok((n, q)) => match words_from(b, q, n, Seq::empty()) {
                Ok((s, r)) => Ok((Value::Words(s), r)),
                Err(e) => Err(e),
            },
            Err(e) => Err(e),
        },
        Kind::Octets => match list_at(b, p, "antennas expected array"@) {
            Ok((n, q)) => match octets_from(b, q, n, Seq::empty()) {
                Ok((s, r)) => Ok((Value::Octets(s), r)),
                Err(e) => Err(e),
            },
            Err(e) => Err(e),
        },
        Kind::Doubles => match list_at(b, p, "snr_db_per_ant expected array"@) {
            Ok((n, q)) => match doubles_from(b, q, n, Seq::empty()) {
                Ok((s, r)) => Ok((Value::Doubles(s), r)),
                Err(e) => Err(e),
            },
            Err(e) => Err(e),
        },
        Kind::Record(s) => match record_at(s, b, p) {
            Ok((f, q)) => Ok((Value::Record(f), q)),
            Err(e) => Err(e),
        },
        Kind::Unknown => match skip_outcome(b, p) {
            Ok(q) => Ok((Value::Skipped, q)),
            Err(t) => Err(ErrorView::Decode(t)),
        },
    }
}

/// The fields of a record after its next `n` entries, which stand from `p` on, and the position
/// behind them; `done` are the fields of the entries before.
pub open spec fn fields_from(s: Schema, b: Seq<u8>, p: int, n: int, done: Fields) -> Result<
    (Fields, int),
    ErrorView,
>
    decreases rank_of(s), 1int, n,
{
    if n <= 0 {
        Ok((done, p))
    } else {
        match text_at(b, p) {
            Some((name, q)) => match value_at(kind_of(s, key_of(name)), b, q) {
                Ok((v, r)) => fields_from(s, b, r, n - 1, merge(s, done, key_of(name), v)),
                Err(e) => Err(e),
            },
            None => Err(ErrorView::Decode(text_fault(b, p))),
        }
    }
}

/// The record at `p` and the position behind it.
pub open spec fn record_at(s: Schema, b: Seq<u8>, p: int) -> Result<(Fields, int), ErrorView>
    decreases rank_of(s), 2int, 0int,
{
    match count_at(b, p, 5) {
        Some((Some(n), q)) => match fields_from(s, b, q, n, Map::empty()) {
            Ok((f, r)) => match refusal(s, f) {
                None => Ok((f, r)),
                Some(e) => Err(e),
            },
            Err(e) => Err(e),
        },
        Some((None, q)) => Err(ErrorView::Decode(indefinite_text(s))),
        None => Err(ErrorView::Decode(map_fault(b, p))),
    }
}

/// The frame that a datagram holds. What stands behind the frame is not looked at.
pub open spec fn frame_in(s: Schema, b: Seq<u8>) -> Result<Fields, ErrorView> {
    match record_at(s, b, 0) {
        Ok((f, q)) => Ok(f),
        Err(e) => Err(e),
    }
}

/// The entries of a record are read in turn: some of them first, and the others on top of what these said.
pub proof fn entries_in_turn(s: Schema, b: Seq<u8>, p: int, n: int, m: int, done: Fields)
    requires
        n >= 0,
        m >= 0,
    ensures
        fields_from(s, b, p, n + m, done) == (match fields_from(s, b, p, n, done) {
            Ok((f, q)) => fields_from(s, b, q, m, f),
            Err(e) => Err(e),
        }),
    decreases n,
{
    if n > 0 {
        if let Some((name, q)) = text_at(b, p) {
            if let Ok((v, r)) = value_at(kind_of(s, key_of(name)), b, q) {
                entries_in_turn(s, b, r, n - 1, m, merge(s, done, key_of(name), v));
            }
        }
    }
}

/// The text at `p`.
pub open spec fn text_of(b: Seq<u8>, p: int) -> Seq<char> {
    let (s, q) = text_at(b, p)->0;
    s
}

/// The position behind the text at `p`.
pub open spec fn behind_text(b: Seq<u8>, p: int) -> int {
    let (s, q) = text_at(b, p)->0;
    q
}

/// An entry that is read on top of others counts for its key, whatever that said before, unless it is a
/// list of a subscription; no other key is touched.
pub proof fn last_entry_counts(s: Schema, b: Seq<u8>, p: int, done: Fields, k: Key)
    requires
        text_at(b, p) is Some,
        value_at(kind_of(s, key_of(text_of(b, p))), b, behind_text(b, p)) is Ok,
        !(kind_of(s, key_of(text_of(b, p))) is Unknown),
        !(kind_of(s, key_of(text_of(b, p))) is Words),
    ensures
        ({
            let (name, q) = text_at(b, p)->0;
            let (v, r) = value_at(kind_of(s, key_of(name)), b, q)->Ok_0;
            &&& fields_from(s, b, p, 1, done) matches Ok((f, end)) && end == r && field(f, k) == (if k
                == key_of(name) {
                Some(v)
            } else {
                field(done, k)
            })
        }),
{
    let (name, q) = text_at(b, p)->0;
    let (v, r) = value_at(kind_of(s, key_of(name)), b, q)->Ok_0;
    assert(fields_from(s, b, r, 0, merge(s, done, key_of(name), v)) == Ok::<
        (Fields, int),
        ErrorView,
    >((merge(s, done, key_of(name), v), r)));
    assert(!(v is Skipped) && !(v is Words));
}

/// A key that occurs again replaces what it said before; in a subscription the words of a list join those
/// before them. What is passed over changes nothing, and no key touches another.
pub proof fn last_occurrence_counts(s: Schema, f: Fields, k: Key, v: Value, other: Key)
    ensures
        v is Skipped ==> merge(s, f, k, v) == f,
        !(v is Skipped) && !(v is Words) ==> field(merge(s, f, k, v), k) == Some(v),
        v is Words && (!(s is Subscribe) || field(f, k) is None) ==> field(merge(s, f, k, v), k)
            == Some(v),
        s is Subscribe ==> (field(f, k) matches Some(Value::Words(before)) ==> (v matches Value::Words(
            w,
        ) ==> field(merge(s, f, k, v), k) == Some(Value::Words(before + w)))),
        other != k ==> field(merge(s, f, k, v), other) == field(f, other),
{
}

} // verus!
