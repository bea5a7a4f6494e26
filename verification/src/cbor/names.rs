//! The wire by its texts: under which names the records say what, told by the bytes themselves.

use vstd::prelude::*;

use crate::cbor::codec::skip_outcome;
use crate::cbor::error::ErrorView;
use crate::cbor::float::{double_at, double_item};
use crate::cbor::frame::{
    carrier_entries, carrier_of, diversity_entries, diversity_entry, diversity_of,
    lora_frame_entries, lora_frame_in, phy_entries, phy_of, Carrier, Diversity, LoraFrame,
    LoraFrameView, Phy,
};
use crate::cbor::item::{
    bool_at, bool_item, bytes_at, bytes_item, count_at, head, head_at, head_at_bounds, item_end,
    text_at, text_item,
};
use crate::cbor::key::{key_of, key_of_name, name_of, Key};
use crate::cbor::order::{
    entry_said, keys_once, known, members_from, members_read, value_place, Member,
};
use crate::cbor::put::{
    double_value, text_value, u16_value, u32_value, u64_value, u8_value,
};
use crate::cbor::schema::{
    doubles_from, field, kind_of, octets_from, record_at, type_of, value_at, words_from, Fields,
    Schema, Value,
};
use crate::cbor::subscribe::{subscribe_entries, subscribe_in, sync_words_entry, Subscribe};
use crate::cbor::tx::{
    dry_run_entry, lora_tx_ack_entries, lora_tx_ack_in, lora_tx_entries, lora_tx_in, LoraTx,
    LoraTxAck, LoraTxAckView, LoraTxView,
};
use crate::cbor::{type_from, type_in, Frame};
use crate::cbor::writer::{
    doubles_items, entries_item, entry_item, nested, octets_items, optional, record_item, required,
    with, words_items, Entry,
};
use crate::double::Double;
use crate::text::text_view;

verus! {

// ---------------------------------------------------------------------------------------------
// What is written
// ---------------------------------------------------------------------------------------------
/// The bytes of an entry that may be left out: its name as a text, then its item.
#[verifier::opaque]
pub open spec fn said(name: Seq<char>, item: Option<Seq<u8>>) -> Seq<u8> {
    match item {
        Some(i) => text_item(name) + i,
        None => Seq::empty(),
    }
}

/// One, or none.
#[verifier::opaque]
pub open spec fn one_if(b: bool) -> int {
    if b {
        1
    } else {
        0
    }
}

/// The item of a number that may be absent.
pub open spec fn u8_if(o: Option<u8>) -> Option<Seq<u8>> {
    match o {
        Some(n) => Some(head(0, n as int)),
        None => None,
    }
}

/// A number that may be absent.
pub open spec fn u8_number(o: Option<u8>) -> Option<int> {
    match o {
        Some(n) => Some(n as int),
        None => None,
    }
}

/// The item of a number that may be absent.
pub open spec fn u16_if(o: Option<u16>) -> Option<Seq<u8>> {
    match o {
        Some(n) => Some(head(0, n as int)),
        None => None,
    }
}

/// A number that may be absent.
pub open spec fn u16_number(o: Option<u16>) -> Option<int> {
    match o {
        Some(n) => Some(n as int),
        None => None,
    }
}

/// The item of a number that may be absent.
pub open spec fn u32_if(o: Option<u32>) -> Option<Seq<u8>> {
    match o {
        Some(n) => Some(head(0, n as int)),
        None => None,
    }
}

/// A number that may be absent.
pub open spec fn u32_number(o: Option<u32>) -> Option<int> {
    match o {
        Some(n) => Some(n as int),
        None => None,
    }
}

/// The item of a number that may be absent.
pub open spec fn u64_if(o: Option<u64>) -> Option<Seq<u8>> {
    match o {
        Some(n) => Some(head(0, n as int)),
        None => None,
    }
}

/// A number that may be absent.
pub open spec fn u64_number(o: Option<u64>) -> Option<int> {
    match o {
        Some(n) => Some(n as int),
        None => None,
    }
}

/// The item of a text that may be absent.
pub open spec fn text_if(o: Option<Seq<char>>) -> Option<Seq<u8>> {
    match o {
        Some(s) => Some(text_item(s)),
        None => None,
    }
}

/// The item of a floating-point number that may be absent.
pub open spec fn double_if(o: Option<Double>) -> Option<Seq<u8>> {
    match o {
        Some(v) => Some(double_item(v)),
        None => None,
    }
}

proof fn nothing_said() -> (es: Seq<Entry>)
    ensures
        es == Seq::<Entry>::empty(),
        entries_item(es) == Seq::<u8>::empty(),
        forall|s: Seq<u8>| #[trigger] (entries_item(es) + s) == s,
{
    reveal(entries_item);
    let es = Seq::<Entry>::empty();
    assert forall|s: Seq<u8>| #[trigger] (entries_item(es) + s) == s by {
        assert(entries_item(es) + s =~= s);
    }
    es
}

proof fn one_said(
    es: Seq<Entry>,
    e: Option<Entry>,
    name: Seq<char>,
    item: Option<Seq<u8>>,
    present: bool,
) -> (next: Seq<Entry>)
    requires
        present == (e is Some),
        present == (item is Some),
        present ==> name_of(e->0.key) == name && e->0.item == item->0,
    ensures
        next == with(es, e),
        next.len() == es.len() + one_if(present),
        entries_item(next) == entries_item(es) + said(name, item),
{
    reveal(entries_item);
    reveal(entry_item);
    reveal(with);
    reveal(said);
    reveal(one_if);
    match e {
        Some(x) => {
            assert(es.push(x).drop_last() =~= es);
        },
        None => {
            assert(entries_item(es) + Seq::<u8>::empty() =~= entries_item(es));
        },
    }
    with(es, e)
}

/// A request on the wire, spelled out: which text stands before which of its parts.
#[verifier::rlimit(50)]
pub proof fn lora_tx_spelled(x: LoraTx)
    ensures
        x.wire() == head(5, 2 + one_if(x.seq is Some) + one_if(x.cr is Some) + one_if(x.sync_word is Some) + one_if(x.preamble_len is Some) + one_if(x.repeat is Some) + one_if(x.gap_ms is Some) + one_if(x.dry_run)) + (
            said(
        "type"@,
        Some(text_item("lora_tx"@)),
    ) + said(
        "payload"@,
        Some(bytes_item(x.payload@)),
    ) + said(
        "seq"@,
        u64_if(x.seq),
    ) + said(
        "cr"@,
        u8_if(x.cr),
    ) + said(
        "sync_word"@,
        u16_if(x.sync_word),
    ) + said(
        "preamble_len"@,
        u32_if(x.preamble_len),
    ) + said(
        "repeat"@,
        u32_if(x.repeat),
    ) + said(
        "gap_ms"@,
        u32_if(x.gap_ms),
    ) + said(
        "dry_run"@,
        if x.dry_run {
            Some(bool_item(true))
        } else {
            None
        },
    )),
{
    assert(one_if(true) == 1) by {
        reveal(one_if);
    }
    let es = nothing_said();
    let es = one_said(
        es,
        required(Key::Type, Value::Text(type_of(Schema::LoraTx))),
        "type"@,
        Some(text_item("lora_tx"@)),
        true,
    );
    let es = one_said(
        es,
        required(Key::Payload, Value::Bytes(x@.payload)),
        "payload"@,
        Some(bytes_item(x.payload@)),
        true,
    );
    let es = one_said(
        es,
        optional(Key::Sequence, u64_value(x@.seq)),
        "seq"@,
        u64_if(x.seq),
        x.seq is Some,
    );
    let es = one_said(
        es,
        optional(Key::Cr, u8_value(x@.cr)),
        "cr"@,
        u8_if(x.cr),
        x.cr is Some,
    );
    let es = one_said(
        es,
        optional(Key::SyncWord, u16_value(x@.sync_word)),
        "sync_word"@,
        u16_if(x.sync_word),
        x.sync_word is Some,
    );
    let es = one_said(
        es,
        optional(Key::PreambleLen, u32_value(x@.preamble_len)),
        "preamble_len"@,
        u32_if(x.preamble_len),
        x.preamble_len is Some,
    );
    let es = one_said(
        es,
        optional(Key::Repeat, u32_value(x@.repeat)),
        "repeat"@,
        u32_if(x.repeat),
        x.repeat is Some,
    );
    let es = one_said(
        es,
        optional(Key::GapMs, u32_value(x@.gap_ms)),
        "gap_ms"@,
        u32_if(x.gap_ms),
        x.gap_ms is Some,
    );
    let es = one_said(
        es,
        dry_run_entry(x@.dry_run),
        "dry_run"@,
        if x.dry_run {
            Some(bool_item(true))
        } else {
            None
        },
        x.dry_run,
    );
    reveal(lora_tx_entries);
}

/// An answer on the wire, spelled out.
#[verifier::rlimit(50)]
pub proof fn lora_tx_ack_spelled(x: LoraTxAck)
    ensures
        x.wire() == head(5, 3 + one_if(x.error is Some)) + (
            said(
        "type"@,
        Some(text_item("lora_tx_ack"@)),
    ) + said(
        "seq"@,
        Some(head(0, x.seq as int)),
    ) + said(
        "ok"@,
        Some(bool_item(x.ok)),
    ) + said(
        "error"@,
        text_if(text_view(x.error)),
    )),
{
    assert(one_if(true) == 1) by {
        reveal(one_if);
    }
    let es = nothing_said();
    let es = one_said(
        es,
        required(Key::Type, Value::Text(type_of(Schema::LoraTxAck))),
        "type"@,
        Some(text_item("lora_tx_ack"@)),
        true,
    );
    let es = one_said(
        es,
        required(Key::Sequence, Value::Uint(x@.seq as int)),
        "seq"@,
        Some(head(0, x.seq as int)),
        true,
    );
    let es = one_said(
        es,
        required(Key::Okay, Value::Bool(x@.ok)),
        "ok"@,
        Some(bool_item(x.ok)),
        true,
    );
    let es = one_said(
        es,
        optional(Key::Fault, text_value(x@.error)),
        "error"@,
        text_if(text_view(x.error)),
        x.error is Some,
    );
    reveal(lora_tx_ack_entries);
}

/// A subscription on the wire, spelled out.
#[verifier::rlimit(50)]
pub proof fn subscribe_spelled(x: Subscribe)
    ensures
        x.wire() == head(5, 1 + one_if(x.sync_words@.len() > 0)) + (
            said(
        "type"@,
        Some(text_item("subscribe"@)),
    ) + said(
        "sync_word"@,
        if x.sync_words@.len() > 0 {
            Some(head(4, x.sync_words@.len() as int) + words_items(x.sync_words@))
        } else {
            None
        },
    )),
{
    assert(one_if(true) == 1) by {
        reveal(one_if);
    }
    let es = nothing_said();
    let es = one_said(
        es,
        required(Key::Type, Value::Text(type_of(Schema::Subscribe))),
        "type"@,
        Some(text_item("subscribe"@)),
        true,
    );
    let es = one_said(
        es,
        sync_words_entry(x@),
        "sync_word"@,
        if x.sync_words@.len() > 0 {
            Some(head(4, x.sync_words@.len() as int) + words_items(x.sync_words@))
        } else {
            None
        },
        x.sync_words@.len() > 0,
    );
    reveal(subscribe_entries);
}

/// A diversity record on the wire, spelled out.
#[verifier::rlimit(50)]
pub proof fn diversity_spelled(x: Diversity)
    ensures
        record_item(diversity_entries(x@)) == head(5, 3) + (
            said(
        "antennas"@,
        Some(head(4, x.antennas@.len() as int) + octets_items(x.antennas@)),
    ) + said(
        "snr_db_max"@,
        Some(double_item(x.snr_db_max)),
    ) + said(
        "snr_db_per_ant"@,
        Some(head(4, x.snr_db_per_ant@.len() as int) + doubles_items(x.snr_db_per_ant@)),
    )),
{
    assert(one_if(true) == 1) by {
        reveal(one_if);
    }
    let es = nothing_said();
    let es = one_said(
        es,
        required(Key::Antennas, Value::Octets(x@.antennas)),
        "antennas"@,
        Some(head(4, x.antennas@.len() as int) + octets_items(x.antennas@)),
        true,
    );
    let es = one_said(
        es,
        required(Key::SnrDbMax, Value::Double(x@.snr_db_max)),
        "snr_db_max"@,
        Some(double_item(x.snr_db_max)),
        true,
    );
    let es = one_said(
        es,
        required(Key::SnrDbPerAnt, Value::Doubles(x@.snr_db_per_ant)),
        "snr_db_per_ant"@,
        Some(head(4, x.snr_db_per_ant@.len() as int) + doubles_items(x.snr_db_per_ant@)),
        true,
    );
    reveal(diversity_entries);
}

/// The measurements of a frame on the wire, spelled out.
#[verifier::rlimit(50)]
pub proof fn phy_spelled(x: Phy)
    ensures
        record_item(phy_entries(x@)) == head(5, 6 + one_if(x.noise_floor_db is Some) + one_if(x.peak_db is Some) + one_if(x.snr_db_td is Some) + one_if(x.channel_freq is Some) + one_if(x.decode_bw is Some) + one_if(x.cfo_int is Some) + one_if(x.cfo_frac is Some) + one_if(x.sfo_hat is Some) + one_if(x.sample_rate is Some) + one_if(x.frequency_corrected is Some) + one_if(x.ppm_error is Some) + one_if(x.diversity is Some)) + (
            said(
        "sf"@,
        Some(head(0, x.sf as int)),
    ) + said(
        "bw"@,
        Some(head(0, x.bw as int)),
    ) + said(
        "cr"@,
        Some(head(0, x.cr as int)),
    ) + said(
        "crc_valid"@,
        Some(bool_item(x.crc_valid)),
    ) + said(
        "sync_word"@,
        Some(head(0, x.sync_word as int)),
    ) + said(
        "snr_db"@,
        Some(double_item(x.snr_db)),
    ) + said(
        "noise_floor_db"@,
        double_if(x.noise_floor_db),
    ) + said(
        "peak_db"@,
        double_if(x.peak_db),
    ) + said(
        "snr_db_td"@,
        double_if(x.snr_db_td),
    ) + said(
        "channel_freq"@,
        double_if(x.channel_freq),
    ) + said(
        "decode_bw"@,
        double_if(x.decode_bw),
    ) + said(
        "cfo_int"@,
        double_if(x.cfo_int),
    ) + said(
        "cfo_frac"@,
        double_if(x.cfo_frac),
    ) + said(
        "sfo_hat"@,
        double_if(x.sfo_hat),
    ) + said(
        "sample_rate"@,
        double_if(x.sample_rate),
    ) + said(
        "frequency_corrected"@,
        double_if(x.frequency_corrected),
    ) + said(
        "ppm_error"@,
        double_if(x.ppm_error),
    ) + said(
        "diversity"@,
        match x.diversity {
            Some(d) => Some(record_item(diversity_entries(d@))),
            None => None,
        },
    )),
{
    assert(one_if(true) == 1) by {
        reveal(one_if);
    }
    let es = nothing_said();
    let es = one_said(
        es,
        required(Key::Sf, Value::Uint(x@.sf as int)),
        "sf"@,
        Some(head(0, x.sf as int)),
        true,
    );
    let es = one_said(
        es,
        required(Key::Bw, Value::Uint(x@.bw as int)),
        "bw"@,
        Some(head(0, x.bw as int)),
        true,
    );
    let es = one_said(
        es,
        required(Key::Cr, Value::Uint(x@.cr as int)),
        "cr"@,
        Some(head(0, x.cr as int)),
        true,
    );
    let es = one_said(
        es,
        required(Key::CrcValid, Value::Bool(x@.crc_valid)),
        "crc_valid"@,
        Some(bool_item(x.crc_valid)),
        true,
    );
    let es = one_said(
        es,
        required(Key::SyncWord, Value::Uint(x@.sync_word as int)),
        "sync_word"@,
        Some(head(0, x.sync_word as int)),
        true,
    );
    let es = one_said(
        es,
        required(Key::SnrDb, Value::Double(x@.snr_db)),
        "snr_db"@,
        Some(double_item(x.snr_db)),
        true,
    );
    let es = one_said(
        es,
        optional(Key::NoiseFloorDb, double_value(x@.noise_floor_db)),
        "noise_floor_db"@,
        double_if(x.noise_floor_db),
        x.noise_floor_db is Some,
    );
    let es = one_said(
        es,
        optional(Key::PeakDb, double_value(x@.peak_db)),
        "peak_db"@,
        double_if(x.peak_db),
        x.peak_db is Some,
    );
    let es = one_said(
        es,
        optional(Key::SnrDbTd, double_value(x@.snr_db_td)),
        "snr_db_td"@,
        double_if(x.snr_db_td),
        x.snr_db_td is Some,
    );
    let es = one_said(
        es,
        optional(Key::ChannelFreq, double_value(x@.channel_freq)),
        "channel_freq"@,
        double_if(x.channel_freq),
        x.channel_freq is Some,
    );
    let es = one_said(
        es,
        optional(Key::DecodeBw, double_value(x@.decode_bw)),
        "decode_bw"@,
        double_if(x.decode_bw),
        x.decode_bw is Some,
    );
    let es = one_said(
        es,
        optional(Key::CfoInt, double_value(x@.cfo_int)),
        "cfo_int"@,
        double_if(x.cfo_int),
        x.cfo_int is Some,
    );
    let es = one_said(
        es,
        optional(Key::CfoFrac, double_value(x@.cfo_frac)),
        "cfo_frac"@,
        double_if(x.cfo_frac),
        x.cfo_frac is Some,
    );
    let es = one_said(
        es,
        optional(Key::SfoHat, double_value(x@.sfo_hat)),
        "sfo_hat"@,
        double_if(x.sfo_hat),
        x.sfo_hat is Some,
    );
    let es = one_said(
        es,
        optional(Key::SampleRate, double_value(x@.sample_rate)),
        "sample_rate"@,
        double_if(x.sample_rate),
        x.sample_rate is Some,
    );
    let es = one_said(
        es,
        optional(Key::FrequencyCorrected, double_value(x@.frequency_corrected)),
        "frequency_corrected"@,
        double_if(x.frequency_corrected),
        x.frequency_corrected is Some,
    );
    let es = one_said(
        es,
        optional(Key::PpmError, double_value(x@.ppm_error)),
        "ppm_error"@,
        double_if(x.ppm_error),
        x.ppm_error is Some,
    );
    let es = one_said(
        es,
        diversity_entry(x@.diversity),
        "diversity"@,
        match x.diversity {
            Some(d) => Some(record_item(diversity_entries(d@))),
            None => None,
        },
        x.diversity is Some,
    );
    reveal(phy_entries);
}

/// The carrier of a frame on the wire, spelled out.
#[verifier::rlimit(50)]
pub proof fn carrier_spelled(x: Carrier)
    ensures
        record_item(carrier_entries(x)) == head(5, 5) + (
            said(
        "sync_word"@,
        Some(head(0, x.sync_word as int)),
    ) + said(
        "sf"@,
        Some(head(0, x.sf as int)),
    ) + said(
        "bw"@,
        Some(head(0, x.bw as int)),
    ) + said(
        "cr"@,
        Some(head(0, x.cr as int)),
    ) + said(
        "ldro_cfg"@,
        Some(bool_item(x.ldro_cfg)),
    )),
{
    assert(one_if(true) == 1) by {
        reveal(one_if);
    }
    let es = nothing_said();
    let es = one_said(
        es,
        required(Key::SyncWord, Value::Uint(x.sync_word as int)),
        "sync_word"@,
        Some(head(0, x.sync_word as int)),
        true,
    );
    let es = one_said(
        es,
        required(Key::Sf, Value::Uint(x.sf as int)),
        "sf"@,
        Some(head(0, x.sf as int)),
        true,
    );
    let es = one_said(
        es,
        required(Key::Bw, Value::Uint(x.bw as int)),
        "bw"@,
        Some(head(0, x.bw as int)),
        true,
    );
    let es = one_said(
        es,
        required(Key::Cr, Value::Uint(x.cr as int)),
        "cr"@,
        Some(head(0, x.cr as int)),
        true,
    );
    let es = one_said(
        es,
        required(Key::LdroCfg, Value::Bool(x.ldro_cfg)),
        "ldro_cfg"@,
        Some(bool_item(x.ldro_cfg)),
        true,
    );
    reveal(carrier_entries);
}

/// A frame on the wire, spelled out.
#[verifier::rlimit(50)]
pub proof fn lora_frame_spelled(x: LoraFrame)
    ensures
        x.wire() == head(5, 12 + one_if(x.rx_channel is Some) + one_if(x.decode_label is Some) + one_if(x.device is Some)) + (
            said(
        "type"@,
        Some(text_item("lora_frame"@)),
    ) + said(
        "ts"@,
        Some(text_item(x.ts@)),
    ) + said(
        "seq"@,
        Some(head(0, x.seq as int)),
    ) + said(
        "phy"@,
        Some(record_item(phy_entries(x.phy@))),
    ) + said(
        "carrier"@,
        Some(record_item(carrier_entries(x.carrier))),
    ) + said(
        "payload"@,
        Some(bytes_item(x.payload@)),
    ) + said(
        "payload_len"@,
        Some(head(0, x.payload_len as int)),
    ) + said(
        "crc_valid"@,
        Some(bool_item(x.crc_valid)),
    ) + said(
        "cr"@,
        Some(head(0, x.cr as int)),
    ) + said(
        "is_downchirp"@,
        Some(bool_item(x.is_downchirp)),
    ) + said(
        "id"@,
        Some(text_item(x.id@)),
    ) + said(
        "payload_hash"@,
        Some(head(0, x.payload_hash as int)),
    ) + said(
        "rx_channel"@,
        u32_if(x.rx_channel),
    ) + said(
        "decode_label"@,
        text_if(text_view(x.decode_label)),
    ) + said(
        "device"@,
        text_if(text_view(x.device)),
    )),
{
    assert(one_if(true) == 1) by {
        reveal(one_if);
    }
    let es = nothing_said();
    let es = one_said(
        es,
        required(Key::Type, Value::Text(type_of(Schema::LoraFrame))),
        "type"@,
        Some(text_item("lora_frame"@)),
        true,
    );
    let es = one_said(
        es,
        required(Key::Ts, Value::Text(x@.ts)),
        "ts"@,
        Some(text_item(x.ts@)),
        true,
    );
    let es = one_said(
        es,
        required(Key::Sequence, Value::Uint(x@.seq as int)),
        "seq"@,
        Some(head(0, x.seq as int)),
        true,
    );
    let es = one_said(
        es,
        nested(Key::Phy, Schema::Phy, phy_entries(x@.phy)),
        "phy"@,
        Some(record_item(phy_entries(x.phy@))),
        true,
    );
    let es = one_said(
        es,
        nested(Key::Carrier, Schema::Carrier, carrier_entries(x@.carrier)),
        "carrier"@,
        Some(record_item(carrier_entries(x.carrier))),
        true,
    );
    let es = one_said(
        es,
        required(Key::Payload, Value::Bytes(x@.payload)),
        "payload"@,
        Some(bytes_item(x.payload@)),
        true,
    );
    let es = one_said(
        es,
        required(Key::PayloadLen, Value::Uint(x@.payload_len as int)),
        "payload_len"@,
        Some(head(0, x.payload_len as int)),
        true,
    );
    let es = one_said(
        es,
        required(Key::CrcValid, Value::Bool(x@.crc_valid)),
        "crc_valid"@,
        Some(bool_item(x.crc_valid)),
        true,
    );
    let es = one_said(
        es,
        required(Key::Cr, Value::Uint(x@.cr as int)),
        "cr"@,
        Some(head(0, x.cr as int)),
        true,
    );
    let es = one_said(
        es,
        required(Key::IsDownchirp, Value::Bool(x@.is_downchirp)),
        "is_downchirp"@,
        Some(bool_item(x.is_downchirp)),
        true,
    );
    let es = one_said(
        es,
        required(Key::Id, Value::Text(x@.id)),
        "id"@,
        Some(text_item(x.id@)),
        true,
    );
    let es = one_said(
        es,
        required(Key::PayloadHash, Value::Uint(x@.payload_hash as int)),
        "payload_hash"@,
        Some(head(0, x.payload_hash as int)),
        true,
    );
    let es = one_said(
        es,
        optional(Key::RxChannel, u32_value(x@.rx_channel)),
        "rx_channel"@,
        u32_if(x.rx_channel),
        x.rx_channel is Some,
    );
    let es = one_said(
        es,
        optional(Key::DecodeLabel, text_value(x@.decode_label)),
        "decode_label"@,
        text_if(text_view(x.decode_label)),
        x.decode_label is Some,
    );
    let es = one_said(
        es,
        optional(Key::Device, text_value(x@.device)),
        "device"@,
        text_if(text_view(x.device)),
        x.device is Some,
    );
    reveal(lora_frame_entries);
}

/// The items of a list stand in the order of the list, each a number.
pub proof fn lists_in_order(w: Seq<u16>, x: u16, o: Seq<u8>, y: u8, d: Seq<Double>, z: Double)
    ensures
        words_items(w.push(x)) == words_items(w) + head(0, x as int),
        octets_items(o.push(y)) == octets_items(o) + head(0, y as int),
        doubles_items(d.push(z)) == doubles_items(d) + double_item(z),
        words_items(Seq::empty()) == Seq::<u8>::empty(),
        octets_items(Seq::empty()) == Seq::<u8>::empty(),
        doubles_items(Seq::empty()) == Seq::<u8>::empty(),
{
    assert(w.push(x).drop_last() =~= w);
    assert(o.push(y).drop_last() =~= o);
    assert(d.push(z).drop_last() =~= d);
}

// ---------------------------------------------------------------------------------------------
// What is read
// ---------------------------------------------------------------------------------------------
/// An entry of a map: its text, and where its value stands.
pub struct Named {
    pub name: Seq<char>,
    pub at: int,
}

/// The next `n` entries of a map, which stand from `p` on, if each is a text and a complete item.
pub open spec fn named_from(b: Seq<u8>, p: int, n: int) -> Option<Seq<Named>>
    decreases n,
{
    if n <= 0 {
        Some(Seq::empty())
    } else {
        match text_at(b, p) {
            Some((name, q)) => match item_end(b, q) {
                Some(r) => match named_from(b, r, n - 1) {
                    Some(rest) => Some(seq![Named { name, at: q }] + rest),
                    None => None,
                },
                None => None,
            },
            None => None,
        }
    }
}

/// The entries of the map of definite length at `p`.
pub open spec fn named_entries(b: Seq<u8>, p: int) -> Option<Seq<Named>> {
    match count_at(b, p, 5) {
        Some((Some(n), q)) => named_from(b, q, n),
        _ => None,
    }
}

/// There is a map of definite length at `p`, and no text occurs twice in it.
pub open spec fn names_once(b: Seq<u8>, p: int) -> bool {
    named_entries(b, p) matches Some(es) && forall|i: int, j: int|
        #![trigger es[i], es[j]]
        0 <= i < j < es.len() ==> es[i].name != es[j].name
}

/// Where the value under `name` stands, the first if there are several.
pub open spec fn place_in(es: Seq<Named>, name: Seq<char>) -> Option<int>
    decreases es.len(),
{
    if es.len() == 0 {
        None
    } else if es[0].name == name {
        Some(es[0].at)
    } else {
        place_in(es.drop_first(), name)
    }
}

/// Where the value under `name` stands in the map at `p`, if there is one.
pub open spec fn place_of(b: Seq<u8>, p: int, name: Seq<char>) -> Option<int> {
    match named_entries(b, p) {
        Some(es) => place_in(es, name),
        None => None,
    }
}

/// The unsigned integer under `name`.
pub open spec fn uint_named(b: Seq<u8>, p: int, name: Seq<char>) -> Option<int> {
    match place_of(b, p, name) {
        Some(at) => match head_at(b, at, 0) {
            Some((n, _)) => Some(n),
            None => None,
        },
        None => None,
    }
}

/// The text under `name`.
pub open spec fn text_named(b: Seq<u8>, p: int, name: Seq<char>) -> Option<Seq<char>> {
    match place_of(b, p, name) {
        Some(at) => match text_at(b, at) {
            Some((s, _)) => Some(s),
            None => None,
        },
        None => None,
    }
}

/// The byte string under `name`.
pub open spec fn bytes_named(b: Seq<u8>, p: int, name: Seq<char>) -> Option<Seq<u8>> {
    match place_of(b, p, name) {
        Some(at) => match bytes_at(b, at) {
            Some((s, _)) => Some(s),
            None => None,
        },
        None => None,
    }
}

/// The truth value under `name`.
pub open spec fn bool_named(b: Seq<u8>, p: int, name: Seq<char>) -> Option<bool> {
    match place_of(b, p, name) {
        Some(at) => match bool_at(b, at) {
            Some((v, _)) => Some(v),
            None => None,
        },
        None => None,
    }
}

/// The floating-point number under `name`.
pub open spec fn double_named(b: Seq<u8>, p: int, name: Seq<char>) -> Option<Double> {
    match place_of(b, p, name) {
        Some(at) => match double_at(b, at) {
            Ok((v, _)) => Some(v),
            Err(_) => None,
        },
        None => None,
    }
}

/// The list of integers of at most sixteen bits under `name`.
pub open spec fn words_named(b: Seq<u8>, p: int, name: Seq<char>) -> Option<Seq<u16>> {
    match place_of(b, p, name) {
        Some(at) => match count_at(b, at, 4) {
            Some((Some(n), q)) => match words_from(b, q, n, Seq::empty()) {
                Ok((w, _)) => Some(w),
                Err(_) => None,
            },
            _ => None,
        },
        None => None,
    }
}

/// The list of integers of at most eight bits under `name`.
pub open spec fn octets_named(b: Seq<u8>, p: int, name: Seq<char>) -> Option<Seq<u8>> {
    match place_of(b, p, name) {
        Some(at) => match count_at(b, at, 4) {
            Some((Some(n), q)) => match octets_from(b, q, n, Seq::empty()) {
                Ok((w, _)) => Some(w),
                Err(_) => None,
            },
            _ => None,
        },
        None => None,
    }
}

/// The list of floating-point numbers under `name`.
pub open spec fn doubles_named(b: Seq<u8>, p: int, name: Seq<char>) -> Option<Seq<Double>> {
    match place_of(b, p, name) {
        Some(at) => match count_at(b, at, 4) {
            Some((Some(n), q)) => match doubles_from(b, q, n, Seq::empty()) {
                Ok((w, _)) => Some(w),
                Err(_) => None,
            },
            _ => None,
        },
        None => None,
    }
}

/// The record under `name`.
pub open spec fn record_named(b: Seq<u8>, p: int, name: Seq<char>, s: Schema) -> Option<Fields> {
    match place_of(b, p, name) {
        Some(at) => match record_at(s, b, at) {
            Ok((f, _)) => Some(f),
            Err(_) => None,
        },
        None => None,
    }
}

/// No two texts stand for the same key.
proof fn key_of_injective(a: Seq<char>, k: Key)
    requires
        k != Key::Other,
    ensures
        key_of(a) == k <==> a == name_of(k),
{
    key_of_name(k);
}

/// Entries by their texts are entries by their keys.
proof fn named_are_members(b: Seq<u8>, p: int, n: int)
    requires
        named_from(b, p, n) is Some,
    ensures
        members_from(b, p, n) is Some,
        ({
            let es = named_from(b, p, n)->0;
            let ms = members_from(b, p, n)->0;
            &&& es.len() == ms.len()
            &&& forall|i: int|
                #![trigger es[i]]
                #![trigger ms[i]]
                0 <= i < es.len() ==> ms[i] == (Member { key: key_of(es[i].name), at: es[i].at })
        }),
    decreases n,
{
    if n > 0 {
        let (name, q) = text_at(b, p)->0;
        let r = item_end(b, q)->0;
        named_are_members(b, r, n - 1);
        let rest = named_from(b, r, n - 1)->0;
        let more = members_from(b, r, n - 1)->0;
        let es = named_from(b, p, n)->0;
        let ms = members_from(b, p, n)->0;
        assert forall|i: int|
            #![trigger es[i]]
            #![trigger ms[i]]
            0 <= i < es.len() implies ms[i] == (Member { key: key_of(es[i].name), at: es[i].at }) by {
            if i > 0 {
                assert(es[i] == rest[i - 1]);
                assert(ms[i] == more[i - 1]);
            }
        }
    }
}

/// The place of a text is the place of its key.
proof fn same_place(es: Seq<Named>, ms: Seq<Member>, k: Key)
    requires
        k != Key::Other,
        es.len() == ms.len(),
        forall|i: int|
            #![trigger es[i]]
            #![trigger ms[i]]
            0 <= i < es.len() ==> ms[i] == (Member { key: key_of(es[i].name), at: es[i].at }),
    ensures
        place_in(es, name_of(k)) == value_place(ms, k),
    decreases es.len(),
{
    if es.len() > 0 {
        key_of_injective(es[0].name, k);
        assert(ms[0] == (Member { key: key_of(es[0].name), at: es[0].at }));
        let x = es.drop_first();
        let y = ms.drop_first();
        assert forall|i: int|
            #![trigger x[i]]
            #![trigger y[i]]
            0 <= i < x.len() implies y[i] == (Member { key: key_of(x[i].name), at: x[i].at }) by {
            assert(x[i] == es[i + 1]);
            assert(y[i] == ms[i + 1]);
        }
        same_place(x, y, k);
    }
}

/// What a record has read for a key is the value that stands under the key's text.
proof fn field_by_name(s: Schema, b: Seq<u8>, p: int, k: Key)
    requires
        names_once(b, p),
        record_at(s, b, p) is Ok,
        known(s, k),
    ensures
        match place_of(b, p, name_of(k)) {
            Some(at) => value_at(kind_of(s, k), b, at) matches Ok((v, r)) && field(
                record_at(s, b, p)->Ok_0.0,
                k,
            ) == Some(v) && (v matches Value::Uint(n) ==> 0 <= n),
            None => field(record_at(s, b, p)->Ok_0.0, k) is None,
        },
{
    let (count, q) = count_at(b, p, 5)->0;
    let n = count->0;
    let es = named_from(b, q, n)->0;
    named_are_members(b, q, n);
    let ms = members_from(b, q, n)->0;
    let none: Fields = Map::empty();
    assert(k != Key::Other);
    assert(keys_once(s, ms)) by {
        assert forall|i: int, j: int|
            #![trigger ms[i], ms[j]]
            0 <= i < j < ms.len() && known(s, ms[i].key) implies ms[i].key != ms[j].key by {
            assert(es[i].name != es[j].name);
            key_of_injective(es[i].name, ms[i].key);
            key_of_injective(es[j].name, ms[i].key);
        }
    }
    members_read(s, b, q, n, none);
    same_place(es, ms, k);
    let f = record_at(s, b, p)->Ok_0.0;
    assert(field(f, k) == entry_said(s, b, ms, k, none));
    if let Some(at) = place_of(b, p, name_of(k)) {
        assert(value_place(ms, k) == Some(at));
        assert(value_at(kind_of(s, k), b, at) is Ok);
        head_at_bounds(b, at, 0);
    }
}

/// A request that is read from a datagram holds what stands there under the texts of its parts, and
/// nothing for the texts that are not there.
#[verifier::rlimit(50)]
pub proof fn lora_tx_by_name(b: Seq<u8>, x: LoraTx)
    requires
        names_once(b, 0),
        lora_tx_in(b) == Ok::<LoraTxView, ErrorView>(x@),
    ensures
        text_named(b, 0, "type"@) == Some("lora_tx"@),
        bytes_named(b, 0, "payload"@) == Some(x.payload@),
        uint_named(b, 0, "seq"@) == u64_number(x.seq),
        uint_named(b, 0, "cr"@) == u8_number(x.cr),
        uint_named(b, 0, "sync_word"@) == u16_number(x.sync_word),
        uint_named(b, 0, "preamble_len"@) == u32_number(x.preamble_len),
        uint_named(b, 0, "repeat"@) == u32_number(x.repeat),
        uint_named(b, 0, "gap_ms"@) == u32_number(x.gap_ms),
        (bool_named(b, 0, "dry_run"@) == Some(true)) == x.dry_run,
{
    let s = Schema::LoraTx;
    let f = record_at(s, b, 0)->Ok_0.0;
    field_by_name(s, b, 0, Key::Type);
    field_by_name(s, b, 0, Key::Payload);
    field_by_name(s, b, 0, Key::Sequence);
    field_by_name(s, b, 0, Key::Cr);
    field_by_name(s, b, 0, Key::SyncWord);
    field_by_name(s, b, 0, Key::PreambleLen);
    field_by_name(s, b, 0, Key::Repeat);
    field_by_name(s, b, 0, Key::GapMs);
    field_by_name(s, b, 0, Key::DryRun);
}

/// An answer that is read from a datagram holds what stands there under the texts of its parts.
#[verifier::rlimit(50)]
pub proof fn lora_tx_ack_by_name(b: Seq<u8>, x: LoraTxAck)
    requires
        names_once(b, 0),
        lora_tx_ack_in(b) == Ok::<LoraTxAckView, ErrorView>(x@),
    ensures
        text_named(b, 0, "type"@) == Some("lora_tx_ack"@),
        uint_named(b, 0, "seq"@) == Some(x.seq as int),
        bool_named(b, 0, "ok"@) == Some(x.ok),
        text_named(b, 0, "error"@) == text_view(x.error),
{
    let s = Schema::LoraTxAck;
    let f = record_at(s, b, 0)->Ok_0.0;
    field_by_name(s, b, 0, Key::Type);
    field_by_name(s, b, 0, Key::Sequence);
    field_by_name(s, b, 0, Key::Okay);
    field_by_name(s, b, 0, Key::Fault);
}

/// A subscription that is read from a datagram lists what stands there under `sync_word`.
#[verifier::rlimit(50)]
pub proof fn subscribe_by_name(b: Seq<u8>, x: Subscribe)
    requires
        names_once(b, 0),
        subscribe_in(b) == Ok::<Seq<u16>, ErrorView>(x@),
    ensures
        text_named(b, 0, "type"@) == Some("subscribe"@),
        match words_named(b, 0, "sync_word"@) {
            Some(w) => w == x.sync_words@,
            None => x.sync_words@.len() == 0 && place_of(b, 0, "sync_word"@) is None,
        },
{
    let s = Schema::Subscribe;
    let f = record_at(s, b, 0)->Ok_0.0;
    field_by_name(s, b, 0, Key::Type);
    field_by_name(s, b, 0, Key::SyncWord);
}

/// A frame that is read from a datagram holds what stands there under the texts of its parts.
#[verifier::rlimit(50)]
pub proof fn lora_frame_by_name(b: Seq<u8>, x: LoraFrame)
    requires
        names_once(b, 0),
        lora_frame_in(b) == Ok::<LoraFrameView, ErrorView>(x@),
    ensures
        text_named(b, 0, "type"@) == Some("lora_frame"@),
        text_named(b, 0, "ts"@) == Some(x.ts@),
        uint_named(b, 0, "seq"@) == Some(x.seq as int),
        record_named(b, 0, "phy"@, Schema::Phy) matches Some(f) && phy_of(f) == x.phy@,
        record_named(b, 0, "carrier"@, Schema::Carrier) matches Some(f) && carrier_of(f) == x.carrier,
        bytes_named(b, 0, "payload"@) == Some(x.payload@),
        uint_named(b, 0, "payload_len"@) == Some(x.payload_len as int),
        bool_named(b, 0, "crc_valid"@) == Some(x.crc_valid),
        uint_named(b, 0, "cr"@) == Some(x.cr as int),
        bool_named(b, 0, "is_downchirp"@) == Some(x.is_downchirp),
        text_named(b, 0, "id"@) == Some(x.id@),
        uint_named(b, 0, "payload_hash"@) == Some(x.payload_hash as int),
        uint_named(b, 0, "rx_channel"@) == u32_number(x.rx_channel),
        text_named(b, 0, "decode_label"@) == text_view(x.decode_label),
        text_named(b, 0, "device"@) == text_view(x.device),
{
    let s = Schema::LoraFrame;
    let f = record_at(s, b, 0)->Ok_0.0;
    field_by_name(s, b, 0, Key::Type);
    field_by_name(s, b, 0, Key::Ts);
    field_by_name(s, b, 0, Key::Sequence);
    field_by_name(s, b, 0, Key::Phy);
    field_by_name(s, b, 0, Key::Carrier);
    field_by_name(s, b, 0, Key::Payload);
    field_by_name(s, b, 0, Key::PayloadLen);
    field_by_name(s, b, 0, Key::CrcValid);
    field_by_name(s, b, 0, Key::Cr);
    field_by_name(s, b, 0, Key::IsDownchirp);
    field_by_name(s, b, 0, Key::Id);
    field_by_name(s, b, 0, Key::PayloadHash);
    field_by_name(s, b, 0, Key::RxChannel);
    field_by_name(s, b, 0, Key::DecodeLabel);
    field_by_name(s, b, 0, Key::Device);
}

/// The measurements that are read at `p` are what stands there under their texts.
#[verifier::rlimit(50)]
pub proof fn phy_by_name(b: Seq<u8>, p: int, x: Phy)
    requires
        names_once(b, p),
        record_at(Schema::Phy, b, p) matches Ok((f, r)) && phy_of(f) == x@,
    ensures
        uint_named(b, p, "sf"@) == Some(x.sf as int),
        uint_named(b, p, "bw"@) == Some(x.bw as int),
        uint_named(b, p, "cr"@) == Some(x.cr as int),
        bool_named(b, p, "crc_valid"@) == Some(x.crc_valid),
        uint_named(b, p, "sync_word"@) == Some(x.sync_word as int),
        double_named(b, p, "snr_db"@) == Some(x.snr_db),
        double_named(b, p, "noise_floor_db"@) == x.noise_floor_db,
        double_named(b, p, "peak_db"@) == x.peak_db,
        double_named(b, p, "snr_db_td"@) == x.snr_db_td,
        double_named(b, p, "channel_freq"@) == x.channel_freq,
        double_named(b, p, "decode_bw"@) == x.decode_bw,
        double_named(b, p, "cfo_int"@) == x.cfo_int,
        double_named(b, p, "cfo_frac"@) == x.cfo_frac,
        double_named(b, p, "sfo_hat"@) == x.sfo_hat,
        double_named(b, p, "sample_rate"@) == x.sample_rate,
        double_named(b, p, "frequency_corrected"@) == x.frequency_corrected,
        double_named(b, p, "ppm_error"@) == x.ppm_error,
        match record_named(b, p, "diversity"@, Schema::Diversity) {
            Some(f) => x.diversity is Some && diversity_of(f) == x.diversity->0@,
            None => x.diversity is None,
        },
{
    let s = Schema::Phy;
    let f = record_at(s, b, p)->Ok_0.0;
    field_by_name(s, b, p, Key::Sf);
    field_by_name(s, b, p, Key::Bw);
    field_by_name(s, b, p, Key::Cr);
    field_by_name(s, b, p, Key::CrcValid);
    field_by_name(s, b, p, Key::SyncWord);
    field_by_name(s, b, p, Key::SnrDb);
    field_by_name(s, b, p, Key::NoiseFloorDb);
    field_by_name(s, b, p, Key::PeakDb);
    field_by_name(s, b, p, Key::SnrDbTd);
    field_by_name(s, b, p, Key::ChannelFreq);
    field_by_name(s, b, p, Key::DecodeBw);
    field_by_name(s, b, p, Key::CfoInt);
    field_by_name(s, b, p, Key::CfoFrac);
    field_by_name(s, b, p, Key::SfoHat);
    field_by_name(s, b, p, Key::SampleRate);
    field_by_name(s, b, p, Key::FrequencyCorrected);
    field_by_name(s, b, p, Key::PpmError);
    field_by_name(s, b, p, Key::Diversity);
}

/// The carrier that is read at `p` is what stands there under its texts.
#[verifier::rlimit(50)]
pub proof fn carrier_by_name(b: Seq<u8>, p: int, x: Carrier)
    requires
        names_once(b, p),
        record_at(Schema::Carrier, b, p) matches Ok((f, r)) && carrier_of(f) == x,
    ensures
        uint_named(b, p, "sync_word"@) == Some(x.sync_word as int),
        uint_named(b, p, "sf"@) == Some(x.sf as int),
        uint_named(b, p, "bw"@) == Some(x.bw as int),
        uint_named(b, p, "cr"@) == Some(x.cr as int),
        bool_named(b, p, "ldro_cfg"@) == Some(x.ldro_cfg),
{
    let s = Schema::Carrier;
    let f = record_at(s, b, p)->Ok_0.0;
    field_by_name(s, b, p, Key::SyncWord);
    field_by_name(s, b, p, Key::Sf);
    field_by_name(s, b, p, Key::Bw);
    field_by_name(s, b, p, Key::Cr);
    field_by_name(s, b, p, Key::LdroCfg);
}

/// The diversity record that is read at `p` is what stands there under its texts.
#[verifier::rlimit(50)]
pub proof fn diversity_by_name(b: Seq<u8>, p: int, x: Diversity)
    requires
        names_once(b, p),
        record_at(Schema::Diversity, b, p) matches Ok((f, r)) && diversity_of(f) == x@,
    ensures
        octets_named(b, p, "antennas"@) == Some(x.antennas@),
        double_named(b, p, "snr_db_max"@) == Some(x.snr_db_max),
        doubles_named(b, p, "snr_db_per_ant"@) == Some(x.snr_db_per_ant@),
{
    let s = Schema::Diversity;
    let f = record_at(s, b, p)->Ok_0.0;
    field_by_name(s, b, p, Key::Antennas);
    field_by_name(s, b, p, Key::SnrDbMax);
    field_by_name(s, b, p, Key::SnrDbPerAnt);
}

/// Peeking tells the first text that stands under `type`; where nothing does, that is the error.
pub proof fn peek_by_name(b: Seq<u8>)
    requires
        named_entries(b, 0) is Some,
    ensures
        match place_of(b, 0, "type"@) {
            Some(at) => match text_at(b, at) {
                Some((t, _)) => type_in(b) == Ok::<Seq<char>, ErrorView>(t),
                None => type_in(b) is Err,
            },
            None => type_in(b) == Err::<Seq<char>, ErrorView>(ErrorView::MissingField("type"@)),
        },
{
    let (count, q) = count_at(b, 0, 5)->0;
    peek_from(b, q, count->0);
}

proof fn peek_from(b: Seq<u8>, p: int, n: int)
    requires
        named_from(b, p, n) is Some,
    ensures
        match place_in(named_from(b, p, n)->0, "type"@) {
            Some(at) => match text_at(b, at) {
                Some((t, _)) => type_from(b, p, n) == Ok::<Seq<char>, ErrorView>(t),
                None => type_from(b, p, n) is Err,
            },
            None => type_from(b, p, n) == Err::<Seq<char>, ErrorView>(
                ErrorView::MissingField("type"@),
            ),
        },
    decreases n,
{
    if n > 0 {
        reveal(skip_outcome);
        let (name, q) = text_at(b, p)->0;
        let r = item_end(b, q)->0;
        peek_from(b, r, n - 1);
        let es = named_from(b, p, n)->0;
        assert(es.drop_first() =~= named_from(b, r, n - 1)->0);
    }
}

} // verus!
