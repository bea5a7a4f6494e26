//! The `lora_frame` record: one decoded packet.

use vstd::prelude::*;
use vstd::utf8::encode_utf8;

use crate::cbor::codec::{put_map, put_text};
use crate::cbor::error::{Error, ErrorView};
use crate::cbor::item::stands_at;
use crate::cbor::key::Key;
use crate::cbor::put::{
    bool_value, bytes_value, bytes_view, count_double, double_value, doubles_value, grown,
    grown_double, octets_value, put_bool_entry, put_bytes_entry, put_double_entry,
    put_double_if_some, put_doubles_entry, put_octets_entry, put_text_entry, put_text_if_some,
    put_u16_entry, put_u32_entry, put_u32_if_some, put_u64_entry, put_u8_entry, record_done,
    some_item, started, text_value, u16_value, u32_value, u64_value, u8_value,
};
use crate::cbor::reader::{
    read_parts, take_bool, take_bytes, take_double, take_doubles, take_octets, take_text, take_u16,
    take_u32, take_u64, take_u8, take_unknown, Parts,
};
use crate::cbor::schema::{
    bool_in, bytes_in, double_in, doubles_in, field, frame_in, kind_of, merge, octets_in,
    optional_double, optional_text, optional_u32, record_at, refusal, text_in, type_of, uint_in,
    value_at, Fields, Schema, Value,
};
use crate::cbor::writer::{
    all_read, collect, entry_added, entry_item, nested, no_entries, optional,
    plain_fits, record_item, record_reads, required, same_fields, type_short, with, Entry,
};
use crate::cbor::Frame;
use crate::double::Double;
use crate::text::{same_text, text_view};

verus! {

// ---------------------------------------------------------------------------------------------
// The records
// ---------------------------------------------------------------------------------------------
/// What several receive chains said of one packet.
#[derive(Clone, Debug, PartialEq, Eq)]
pub struct Diversity {
    /// The chains that decoded the packet, in the order of arrival.
    pub antennas: Vec<u8>,
    /// The best signal-to-noise ratio among them.
    pub snr_db_max: Double,
    /// The signal-to-noise ratio of each.
    pub snr_db_per_ant: Vec<Double>,
}

/// Measurements of the physical layer. The first six are always there.
#[derive(Clone, Debug, PartialEq, Eq)]
pub struct Phy {
    pub sf: u8,
    pub bw: u32,
    pub cr: u8,
    pub crc_valid: bool,
    pub sync_word: u16,
    pub snr_db: Double,
    pub noise_floor_db: Option<Double>,
    pub peak_db: Option<Double>,
    pub snr_db_td: Option<Double>,
    pub channel_freq: Option<Double>,
    pub decode_bw: Option<Double>,
    pub cfo_int: Option<Double>,
    pub cfo_frac: Option<Double>,
    pub sfo_hat: Option<Double>,
    pub sample_rate: Option<Double>,
    pub frequency_corrected: Option<Double>,
    pub ppm_error: Option<Double>,
    pub diversity: Option<Diversity>,
}

/// The configuration that the decoder used.
#[derive(Clone, Copy, Debug, PartialEq, Eq, Structural)]
pub struct Carrier {
    pub sync_word: u16,
    pub sf: u8,
    pub bw: u32,
    pub cr: u8,
    pub ldro_cfg: bool,
}

/// A decoded packet.
#[derive(Clone, Debug, PartialEq, Eq)]
pub struct LoraFrame {
    pub ts: String,
    pub seq: u64,
    pub phy: Phy,
    pub carrier: Carrier,
    pub payload: Vec<u8>,
    pub payload_len: u32,
    pub crc_valid: bool,
    pub cr: u8,
    pub is_downchirp: bool,
    pub id: String,
    pub payload_hash: u64,
    pub rx_channel: Option<u32>,
    pub decode_label: Option<String>,
    pub device: Option<String>,
}

/// A [`Diversity`] by its contents.
#[verifier::ext_equal]
pub struct DiversityView {
    pub antennas: Seq<u8>,
    pub snr_db_max: Double,
    pub snr_db_per_ant: Seq<Double>,
}

impl View for Diversity {
    type V = DiversityView;

    open spec fn view(&self) -> DiversityView {
        DiversityView {
            antennas: self.antennas@,
            snr_db_max: self.snr_db_max,
            snr_db_per_ant: self.snr_db_per_ant@,
        }
    }
}

/// A diversity record that may be absent, by its contents.
pub open spec fn diversity_view(o: Option<Diversity>) -> Option<DiversityView> {
    match o {
        Some(v) => Some(v@),
        None => None,
    }
}

/// A [`Phy`] by its contents.
#[verifier::ext_equal]
pub struct PhyView {
    pub sf: u8,
    pub bw: u32,
    pub cr: u8,
    pub crc_valid: bool,
    pub sync_word: u16,
    pub snr_db: Double,
    pub noise_floor_db: Option<Double>,
    pub peak_db: Option<Double>,
    pub snr_db_td: Option<Double>,
    pub channel_freq: Option<Double>,
    pub decode_bw: Option<Double>,
    pub cfo_int: Option<Double>,
    pub cfo_frac: Option<Double>,
    pub sfo_hat: Option<Double>,
    pub sample_rate: Option<Double>,
    pub frequency_corrected: Option<Double>,
    pub ppm_error: Option<Double>,
    pub diversity: Option<DiversityView>,
}

impl View for Phy {
    type V = PhyView;

    open spec fn view(&self) -> PhyView {
        PhyView {
            sf: self.sf,
            bw: self.bw,
            cr: self.cr,
            crc_valid: self.crc_valid,
            sync_word: self.sync_word,
            snr_db: self.snr_db,
            noise_floor_db: self.noise_floor_db,
            peak_db: self.peak_db,
            snr_db_td: self.snr_db_td,
            channel_freq: self.channel_freq,
            decode_bw: self.decode_bw,
            cfo_int: self.cfo_int,
            cfo_frac: self.cfo_frac,
            sfo_hat: self.sfo_hat,
            sample_rate: self.sample_rate,
            frequency_corrected: self.frequency_corrected,
            ppm_error: self.ppm_error,
            diversity: diversity_view(self.diversity),
        }
    }
}

/// A [`LoraFrame`] by its contents.
#[verifier::ext_equal]
pub struct LoraFrameView {
    pub ts: Seq<char>,
    pub seq: u64,
    pub phy: PhyView,
    pub carrier: Carrier,
    pub payload: Seq<u8>,
    pub payload_len: u32,
    pub crc_valid: bool,
    pub cr: u8,
    pub is_downchirp: bool,
    pub id: Seq<char>,
    pub payload_hash: u64,
    pub rx_channel: Option<u32>,
    pub decode_label: Option<Seq<char>>,
    pub device: Option<Seq<char>>,
}

impl View for LoraFrame {
    type V = LoraFrameView;

    open spec fn view(&self) -> LoraFrameView {
        LoraFrameView {
            ts: self.ts@,
            seq: self.seq,
            phy: self.phy@,
            carrier: self.carrier,
            payload: self.payload@,
            payload_len: self.payload_len,
            crc_valid: self.crc_valid,
            cr: self.cr,
            is_downchirp: self.is_downchirp,
            id: self.id@,
            payload_hash: self.payload_hash,
            rx_channel: self.rx_channel,
            decode_label: text_view(self.decode_label),
            device: text_view(self.device),
        }
    }
}

// ---------------------------------------------------------------------------------------------
// The records by key
// ---------------------------------------------------------------------------------------------
/// The value of key `k` in the record of `v`.
pub open spec fn diversity_field(v: DiversityView, k: Key) -> Option<Value> {
    match k {
        Key::Antennas => Some(Value::Octets(v.antennas)),
        Key::SnrDbMax => Some(Value::Double(v.snr_db_max)),
        Key::SnrDbPerAnt => Some(Value::Doubles(v.snr_db_per_ant)),
        _ => None,
    }
}

/// The record of `v`, by key.
pub open spec fn diversity_fields(v: DiversityView) -> Fields {
    Map::new(|k: Key| diversity_field(v, k) is Some, |k: Key| diversity_field(v, k)->0)
}

/// What the fields of a complete record say.
pub open spec fn diversity_of(f: Fields) -> DiversityView {
    DiversityView {
        antennas: octets_in(f, Key::Antennas),
        snr_db_max: double_in(f, Key::SnrDbMax),
        snr_db_per_ant: doubles_in(f, Key::SnrDbPerAnt),
    }
}

/// The value of key `k` in the record of `v`.
pub open spec fn phy_field(v: PhyView, k: Key) -> Option<Value> {
    match k {
        Key::Sf => Some(Value::Uint(v.sf as int)),
        Key::Bw => Some(Value::Uint(v.bw as int)),
        Key::Cr => Some(Value::Uint(v.cr as int)),
        Key::CrcValid => Some(Value::Bool(v.crc_valid)),
        Key::SyncWord => Some(Value::Uint(v.sync_word as int)),
        Key::SnrDb => Some(Value::Double(v.snr_db)),
        Key::NoiseFloorDb => double_value(v.noise_floor_db),
        Key::PeakDb => double_value(v.peak_db),
        Key::SnrDbTd => double_value(v.snr_db_td),
        Key::ChannelFreq => double_value(v.channel_freq),
        Key::DecodeBw => double_value(v.decode_bw),
        Key::CfoInt => double_value(v.cfo_int),
        Key::CfoFrac => double_value(v.cfo_frac),
        Key::SfoHat => double_value(v.sfo_hat),
        Key::SampleRate => double_value(v.sample_rate),
        Key::FrequencyCorrected => double_value(v.frequency_corrected),
        Key::PpmError => double_value(v.ppm_error),
        Key::Diversity => match v.diversity {
            Some(x) => Some(Value::Record(diversity_fields(x))),
            None => None,
        },
        _ => None,
    }
}

/// The record of `v`, by key.
pub open spec fn phy_fields(v: PhyView) -> Fields {
    Map::new(|k: Key| phy_field(v, k) is Some, |k: Key| phy_field(v, k)->0)
}

/// What the fields of a complete record say.
pub open spec fn phy_of(f: Fields) -> PhyView {
    PhyView {
        sf: uint_in(f, Key::Sf) as u8,
        bw: uint_in(f, Key::Bw) as u32,
        cr: uint_in(f, Key::Cr) as u8,
        crc_valid: bool_in(f, Key::CrcValid),
        sync_word: uint_in(f, Key::SyncWord) as u16,
        snr_db: double_in(f, Key::SnrDb),
        noise_floor_db: optional_double(f, Key::NoiseFloorDb),
        peak_db: optional_double(f, Key::PeakDb),
        snr_db_td: optional_double(f, Key::SnrDbTd),
        channel_freq: optional_double(f, Key::ChannelFreq),
        decode_bw: optional_double(f, Key::DecodeBw),
        cfo_int: optional_double(f, Key::CfoInt),
        cfo_frac: optional_double(f, Key::CfoFrac),
        sfo_hat: optional_double(f, Key::SfoHat),
        sample_rate: optional_double(f, Key::SampleRate),
        frequency_corrected: optional_double(f, Key::FrequencyCorrected),
        ppm_error: optional_double(f, Key::PpmError),
        diversity: match field(f, Key::Diversity) {
            Some(Value::Record(g)) => Some(diversity_of(g)),
            _ => None,
        },
    }
}

/// The value of key `k` in the record of `v`.
pub open spec fn carrier_field(v: Carrier, k: Key) -> Option<Value> {
    match k {
        Key::SyncWord => Some(Value::Uint(v.sync_word as int)),
        Key::Sf => Some(Value::Uint(v.sf as int)),
        Key::Bw => Some(Value::Uint(v.bw as int)),
        Key::Cr => Some(Value::Uint(v.cr as int)),
        Key::LdroCfg => Some(Value::Bool(v.ldro_cfg)),
        _ => None,
    }
}

/// The record of `v`, by key.
pub open spec fn carrier_fields(v: Carrier) -> Fields {
    Map::new(|k: Key| carrier_field(v, k) is Some, |k: Key| carrier_field(v, k)->0)
}

/// What the fields of a complete record say.
pub open spec fn carrier_of(f: Fields) -> Carrier {
    Carrier {
        sync_word: uint_in(f, Key::SyncWord) as u16,
        sf: uint_in(f, Key::Sf) as u8,
        bw: uint_in(f, Key::Bw) as u32,
        cr: uint_in(f, Key::Cr) as u8,
        ldro_cfg: bool_in(f, Key::LdroCfg),
    }
}

/// The value of key `k` in the record of `v`.
pub open spec fn lora_frame_field(v: LoraFrameView, k: Key) -> Option<Value> {
    match k {
        Key::Type => Some(Value::Text(type_of(Schema::LoraFrame))),
        Key::Ts => Some(Value::Text(v.ts)),
        Key::Sequence => Some(Value::Uint(v.seq as int)),
        Key::Phy => Some(Value::Record(phy_fields(v.phy))),
        Key::Carrier => Some(Value::Record(carrier_fields(v.carrier))),
        Key::Payload => Some(Value::Bytes(v.payload)),
        Key::PayloadLen => Some(Value::Uint(v.payload_len as int)),
        Key::CrcValid => Some(Value::Bool(v.crc_valid)),
        Key::Cr => Some(Value::Uint(v.cr as int)),
        Key::IsDownchirp => Some(Value::Bool(v.is_downchirp)),
        Key::Id => Some(Value::Text(v.id)),
        Key::PayloadHash => Some(Value::Uint(v.payload_hash as int)),
        Key::RxChannel => u32_value(v.rx_channel),
        Key::DecodeLabel => text_value(v.decode_label),
        Key::Device => text_value(v.device),
        _ => None,
    }
}

/// The record of `v`, by key.
pub open spec fn lora_frame_fields(v: LoraFrameView) -> Fields {
    Map::new(|k: Key| lora_frame_field(v, k) is Some, |k: Key| lora_frame_field(v, k)->0)
}

/// What the fields of a complete record say.
pub open spec fn lora_frame_of(f: Fields) -> LoraFrameView {
    LoraFrameView {
        ts: text_in(f, Key::Ts),
        seq: uint_in(f, Key::Sequence) as u64,
        phy: phy_of(f[Key::Phy]->Record_0),
        carrier: carrier_of(f[Key::Carrier]->Record_0),
        payload: bytes_in(f, Key::Payload),
        payload_len: uint_in(f, Key::PayloadLen) as u32,
        crc_valid: bool_in(f, Key::CrcValid),
        cr: uint_in(f, Key::Cr) as u8,
        is_downchirp: bool_in(f, Key::IsDownchirp),
        id: text_in(f, Key::Id),
        payload_hash: uint_in(f, Key::PayloadHash) as u64,
        rx_channel: optional_u32(f, Key::RxChannel),
        decode_label: optional_text(f, Key::DecodeLabel),
        device: optional_text(f, Key::Device),
    }
}

// ---------------------------------------------------------------------------------------------
// Writing
// ---------------------------------------------------------------------------------------------
/// The entries that are written for `v`, in their order.
#[verifier::opaque]
pub open spec fn diversity_entries(v: DiversityView) -> Seq<Entry> {
    let es = Seq::empty();
    let es = with(es, required(Key::Antennas, Value::Octets(v.antennas)));
    let es = with(es, required(Key::SnrDbMax, Value::Double(v.snr_db_max)));
    with(es, required(Key::SnrDbPerAnt, Value::Doubles(v.snr_db_per_ant)))
}

/// The entry of the diversity record, if there is one.
pub open spec fn diversity_entry(v: Option<DiversityView>) -> Option<Entry> {
    match v {
        Some(x) => nested(Key::Diversity, Schema::Diversity, diversity_entries(x)),
        None => None,
    }
}

/// The entries that are written for `v`, in their order.
#[verifier::opaque]
pub open spec fn phy_entries(v: PhyView) -> Seq<Entry> {
    let es = Seq::empty();
    let es = with(es, required(Key::Sf, Value::Uint(v.sf as int)));
    let es = with(es, required(Key::Bw, Value::Uint(v.bw as int)));
    let es = with(es, required(Key::Cr, Value::Uint(v.cr as int)));
    let es = with(es, required(Key::CrcValid, Value::Bool(v.crc_valid)));
    let es = with(es, required(Key::SyncWord, Value::Uint(v.sync_word as int)));
    let es = with(es, required(Key::SnrDb, Value::Double(v.snr_db)));
    let es = with(es, optional(Key::NoiseFloorDb, double_value(v.noise_floor_db)));
    let es = with(es, optional(Key::PeakDb, double_value(v.peak_db)));
    let es = with(es, optional(Key::SnrDbTd, double_value(v.snr_db_td)));
    let es = with(es, optional(Key::ChannelFreq, double_value(v.channel_freq)));
    let es = with(es, optional(Key::DecodeBw, double_value(v.decode_bw)));
    let es = with(es, optional(Key::CfoInt, double_value(v.cfo_int)));
    let es = with(es, optional(Key::CfoFrac, double_value(v.cfo_frac)));
    let es = with(es, optional(Key::SfoHat, double_value(v.sfo_hat)));
    let es = with(es, optional(Key::SampleRate, double_value(v.sample_rate)));
    let es = with(es, optional(Key::FrequencyCorrected, double_value(v.frequency_corrected)));
    let es = with(es, optional(Key::PpmError, double_value(v.ppm_error)));
    with(es, diversity_entry(v.diversity))
}

/// The entries that are written for `v`, in their order.
#[verifier::opaque]
pub open spec fn carrier_entries(v: Carrier) -> Seq<Entry> {
    let es = Seq::empty();
    let es = with(es, required(Key::SyncWord, Value::Uint(v.sync_word as int)));
    let es = with(es, required(Key::Sf, Value::Uint(v.sf as int)));
    let es = with(es, required(Key::Bw, Value::Uint(v.bw as int)));
    let es = with(es, required(Key::Cr, Value::Uint(v.cr as int)));
    with(es, required(Key::LdroCfg, Value::Bool(v.ldro_cfg)))
}

/// The entries that are written for `v`, in their order.
#[verifier::opaque]
pub open spec fn lora_frame_entries(v: LoraFrameView) -> Seq<Entry> {
    let es = Seq::empty();
    let es = with(es, required(Key::Type, Value::Text(type_of(Schema::LoraFrame))));
    let es = with(es, required(Key::Ts, Value::Text(v.ts)));
    let es = with(es, required(Key::Sequence, Value::Uint(v.seq as int)));
    let es = with(es, nested(Key::Phy, Schema::Phy, phy_entries(v.phy)));
    let es = with(es, nested(Key::Carrier, Schema::Carrier, carrier_entries(v.carrier)));
    let es = with(es, required(Key::Payload, Value::Bytes(v.payload)));
    let es = with(es, required(Key::PayloadLen, Value::Uint(v.payload_len as int)));
    let es = with(es, required(Key::CrcValid, Value::Bool(v.crc_valid)));
    let es = with(es, required(Key::Cr, Value::Uint(v.cr as int)));
    let es = with(es, required(Key::IsDownchirp, Value::Bool(v.is_downchirp)));
    let es = with(es, required(Key::Id, Value::Text(v.id)));
    let es = with(es, required(Key::PayloadHash, Value::Uint(v.payload_hash as int)));
    let es = with(es, optional(Key::RxChannel, u32_value(v.rx_channel)));
    let es = with(es, optional(Key::DecodeLabel, text_value(v.decode_label)));
    with(es, optional(Key::Device, text_value(v.device)))
}

/// Appends the record of `p`.
fn encode_diversity(out: &mut Vec<u8>, p: &Diversity)
    ensures
        final(out)@ == old(out)@ + record_item(diversity_entries(p@)),
{
    let n: u64 = 3;
    put_map(out, n);
    let ghost start = out@;
    let ghost mut es = started(start);
    put_octets_entry(out, Key::Antennas, p.antennas.as_slice());
    proof {
        es = grown(start, es, required(Key::Antennas, Value::Octets(p@.antennas)));
    }
    put_double_entry(out, Key::SnrDbMax, p.snr_db_max);
    proof {
        es = grown(start, es, required(Key::SnrDbMax, Value::Double(p@.snr_db_max)));
    }
    put_doubles_entry(out, Key::SnrDbPerAnt, p.snr_db_per_ant.as_slice());
    proof {
        es = grown(start, es, required(Key::SnrDbPerAnt, Value::Doubles(p@.snr_db_per_ant)));
    }
    proof {
        reveal(diversity_entries);
        record_done(old(out)@, n, es);
    }
}

/// Appends the entry of the diversity record, if there is one.
fn put_diversity_if_some(out: &mut Vec<u8>, p: &Option<Diversity>)
    ensures
        final(out)@ == old(out)@ + some_item(diversity_entry(diversity_view(*p))),
{
    match p {
        Some(x) => {
            put_text(out, Key::Diversity.name());
            encode_diversity(out, x);
            reveal(entry_item);
            assert(out@ =~= old(out)@ + some_item(diversity_entry(Some(x@))));
        },
        None => {
            assert(out@ + Seq::<u8>::empty() =~= out@);
        },
    }
}

/// Appends the record of `p`.
#[verifier::rlimit(50)]
fn encode_phy(out: &mut Vec<u8>, p: &Phy)
    ensures
        final(out)@ == old(out)@ + record_item(phy_entries(p@)),
{
    let mut n: u64 = 6
        + count_double(p.noise_floor_db)
        + count_double(p.peak_db)
        + count_double(p.snr_db_td)
        + count_double(p.channel_freq)
        + count_double(p.decode_bw)
        + count_double(p.cfo_int)
        + count_double(p.cfo_frac)
        + count_double(p.sfo_hat)
        + count_double(p.sample_rate)
        + count_double(p.frequency_corrected)
        + count_double(p.ppm_error);
    if p.diversity.is_some() {
        n = n + 1;
    }
    put_map(out, n);
    let ghost start = out@;
    let ghost mut es = started(start);
    put_u8_entry(out, Key::Sf, p.sf);
    proof {
        es = grown(start, es, required(Key::Sf, Value::Uint(p@.sf as int)));
    }
    put_u32_entry(out, Key::Bw, p.bw);
    proof {
        es = grown(start, es, required(Key::Bw, Value::Uint(p@.bw as int)));
    }
    put_u8_entry(out, Key::Cr, p.cr);
    proof {
        es = grown(start, es, required(Key::Cr, Value::Uint(p@.cr as int)));
    }
    put_bool_entry(out, Key::CrcValid, p.crc_valid);
    proof {
        es = grown(start, es, required(Key::CrcValid, Value::Bool(p@.crc_valid)));
    }
    put_u16_entry(out, Key::SyncWord, p.sync_word);
    proof {
        es = grown(start, es, required(Key::SyncWord, Value::Uint(p@.sync_word as int)));
    }
    put_double_entry(out, Key::SnrDb, p.snr_db);
    proof {
        es = grown(start, es, required(Key::SnrDb, Value::Double(p@.snr_db)));
    }
    put_double_if_some(out, Key::NoiseFloorDb, p.noise_floor_db);
    proof {
        es = grown_double(start, es, Key::NoiseFloorDb, p@.noise_floor_db);
    }
    put_double_if_some(out, Key::PeakDb, p.peak_db);
    proof {
        es = grown_double(start, es, Key::PeakDb, p@.peak_db);
    }
    put_double_if_some(out, Key::SnrDbTd, p.snr_db_td);
    proof {
        es = grown_double(start, es, Key::SnrDbTd, p@.snr_db_td);
    }
    put_double_if_some(out, Key::ChannelFreq, p.channel_freq);
    proof {
        es = grown_double(start, es, Key::ChannelFreq, p@.channel_freq);
    }
    put_double_if_some(out, Key::DecodeBw, p.decode_bw);
    proof {
        es = grown_double(start, es, Key::DecodeBw, p@.decode_bw);
    }
    put_double_if_some(out, Key::CfoInt, p.cfo_int);
    proof {
        es = grown_double(start, es, Key::CfoInt, p@.cfo_int);
    }
    put_double_if_some(out, Key::CfoFrac, p.cfo_frac);
    proof {
        es = grown_double(start, es, Key::CfoFrac, p@.cfo_frac);
    }
    put_double_if_some(out, Key::SfoHat, p.sfo_hat);
    proof {
        es = grown_double(start, es, Key::SfoHat, p@.sfo_hat);
    }
    put_double_if_some(out, Key::SampleRate, p.sample_rate);
    proof {
        es = grown_double(start, es, Key::SampleRate, p@.sample_rate);
    }
    put_double_if_some(out, Key::FrequencyCorrected, p.frequency_corrected);
    proof {
        es = grown_double(start, es, Key::FrequencyCorrected, p@.frequency_corrected);
    }
    put_double_if_some(out, Key::PpmError, p.ppm_error);
    proof {
        es = grown_double(start, es, Key::PpmError, p@.ppm_error);
    }
    put_diversity_if_some(out, &p.diversity);
    proof {
        es = grown(start, es, diversity_entry(p@.diversity));
    }
    proof {
        reveal(phy_entries);
        record_done(old(out)@, n, es);
    }
}

/// Appends the entry of the record of `p`.
fn put_phy_entry(out: &mut Vec<u8>, p: &Phy)
    ensures
        final(out)@ == old(out)@ + some_item(
            nested(Key::Phy, Schema::Phy, phy_entries(p@)),
        ),
{
    put_text(out, Key::Phy.name());
    encode_phy(out, p);
    reveal(entry_item);
    assert(out@ =~= old(out)@ + some_item(nested(Key::Phy, Schema::Phy, phy_entries(p@))));
}

/// Appends the record of `p`.
fn encode_carrier(out: &mut Vec<u8>, p: &Carrier)
    ensures
        final(out)@ == old(out)@ + record_item(carrier_entries(*p)),
{
    let n: u64 = 5;
    put_map(out, n);
    let ghost start = out@;
    let ghost mut es = started(start);
    put_u16_entry(out, Key::SyncWord, p.sync_word);
    proof {
        es = grown(start, es, required(Key::SyncWord, Value::Uint(p.sync_word as int)));
    }
    put_u8_entry(out, Key::Sf, p.sf);
    proof {
        es = grown(start, es, required(Key::Sf, Value::Uint(p.sf as int)));
    }
    put_u32_entry(out, Key::Bw, p.bw);
    proof {
        es = grown(start, es, required(Key::Bw, Value::Uint(p.bw as int)));
    }
    put_u8_entry(out, Key::Cr, p.cr);
    proof {
        es = grown(start, es, required(Key::Cr, Value::Uint(p.cr as int)));
    }
    put_bool_entry(out, Key::LdroCfg, p.ldro_cfg);
    proof {
        es = grown(start, es, required(Key::LdroCfg, Value::Bool(p.ldro_cfg)));
    }
    proof {
        reveal(carrier_entries);
        record_done(old(out)@, n, es);
    }
}

/// Appends the entry of the record of `p`.
fn put_carrier_entry(out: &mut Vec<u8>, p: &Carrier)
    ensures
        final(out)@ == old(out)@ + some_item(
            nested(Key::Carrier, Schema::Carrier, carrier_entries(*p)),
        ),
{
    put_text(out, Key::Carrier.name());
    encode_carrier(out, p);
    reveal(entry_item);
    assert(out@ =~= old(out)@ + some_item(nested(Key::Carrier, Schema::Carrier, carrier_entries(*p))));
}

/// The bytes of a frame on the wire.
pub open spec fn lora_frame_wire(v: LoraFrameView) -> Seq<u8> {
    record_item(lora_frame_entries(v))
}

impl Frame for LoraFrame {
    const TYPE: &'static str = "lora_frame";

    open spec fn wire(&self) -> Seq<u8> {
        lora_frame_wire(self@)
    }

    #[verifier::rlimit(50)]
    fn encode_into(&self, out: &mut Vec<u8>) {
        let mut n: u64 = 12;
        if self.rx_channel.is_some() {
            n = n + 1;
        }
        if self.decode_label.is_some() {
            n = n + 1;
        }
        if self.device.is_some() {
            n = n + 1;
        }
        put_map(out, n);
        let ghost start = out@;
        let ghost mut es = started(start);
        put_text_entry(out, Key::Type, Self::TYPE);
        proof {
            es = grown(start, es, required(Key::Type, Value::Text(type_of(Schema::LoraFrame))));
        }
        put_text_entry(out, Key::Ts, self.ts.as_str());
        proof {
            es = grown(start, es, required(Key::Ts, Value::Text(self@.ts)));
        }
        put_u64_entry(out, Key::Sequence, self.seq);
        proof {
            es = grown(start, es, required(Key::Sequence, Value::Uint(self@.seq as int)));
        }
        put_phy_entry(out, &self.phy);
        proof {
            es = grown(start, es, nested(Key::Phy, Schema::Phy, phy_entries(self@.phy)));
        }
        put_carrier_entry(out, &self.carrier);
        proof {
            es = grown(start, es, nested(Key::Carrier, Schema::Carrier, carrier_entries(self@.carrier)));
        }
        put_bytes_entry(out, Key::Payload, self.payload.as_slice());
        proof {
            es = grown(start, es, required(Key::Payload, Value::Bytes(self@.payload)));
        }
        put_u32_entry(out, Key::PayloadLen, self.payload_len);
        proof {
            es = grown(start, es, required(Key::PayloadLen, Value::Uint(self@.payload_len as int)));
        }
        put_bool_entry(out, Key::CrcValid, self.crc_valid);
        proof {
            es = grown(start, es, required(Key::CrcValid, Value::Bool(self@.crc_valid)));
        }
        put_u8_entry(out, Key::Cr, self.cr);
        proof {
            es = grown(start, es, required(Key::Cr, Value::Uint(self@.cr as int)));
        }
        put_bool_entry(out, Key::IsDownchirp, self.is_downchirp);
        proof {
            es = grown(start, es, required(Key::IsDownchirp, Value::Bool(self@.is_downchirp)));
        }
        put_text_entry(out, Key::Id, self.id.as_str());
        proof {
            es = grown(start, es, required(Key::Id, Value::Text(self@.id)));
        }
        put_u64_entry(out, Key::PayloadHash, self.payload_hash);
        proof {
            es = grown(start, es, required(Key::PayloadHash, Value::Uint(self@.payload_hash as int)));
        }
        put_u32_if_some(out, Key::RxChannel, self.rx_channel);
        proof {
            es = grown(start, es, optional(Key::RxChannel, u32_value(self@.rx_channel)));
        }
        put_text_if_some(out, Key::DecodeLabel, &self.decode_label);
        proof {
            es = grown(start, es, optional(Key::DecodeLabel, text_value(self@.decode_label)));
        }
        put_text_if_some(out, Key::Device, &self.device);
        proof {
            es = grown(start, es, optional(Key::Device, text_value(self@.device)));
        }
        proof {
            reveal(lora_frame_entries);
            record_done(old(out)@, n, es);
        }
    }
}

// ---------------------------------------------------------------------------------------------
// Reading
// ---------------------------------------------------------------------------------------------
/// What has been read of a [`Diversity`].
struct DiversityParts {
    antennas: Option<Vec<u8>>,
    snr_db_max: Option<Double>,
    snr_db_per_ant: Option<Vec<Double>>,
}

impl DiversityParts {
    spec fn get(self, k: Key) -> Option<Value> {
        match k {
            Key::Antennas => octets_value(self.antennas),
            Key::SnrDbMax => double_value(self.snr_db_max),
            Key::SnrDbPerAnt => doubles_value(self.snr_db_per_ant),
            _ => None,
        }
    }
}

impl Parts for DiversityParts {
    open spec fn schema() -> Schema {
        Schema::Diversity
    }

    closed spec fn fields(self) -> Fields {
        Map::new(|k: Key| self.get(k) is Some, |k: Key| self.get(k)->0)
    }

    fn none() -> (r: Self) {
        let r = DiversityParts {
            antennas: None,
            snr_db_max: None,
            snr_db_per_ant: None,
        };
        assert(r.fields() =~= Map::<Key, Value>::empty());
        r
    }

    fn take(&mut self, key: Key, bytes: &[u8], pos: usize) -> (r: Result<usize, Error>) {
        let end: usize = match key {
            Key::Antennas => match take_octets(bytes, pos) {
                Ok((v, end)) => {
                    self.antennas = Some(v);
                    end
                },
                Err(e) => {
                    return Err(e);
                },
            },
            Key::SnrDbMax => match take_double(bytes, pos) {
                Ok((v, end)) => {
                    self.snr_db_max = Some(v);
                    end
                },
                Err(e) => {
                    return Err(e);
                },
            },
            Key::SnrDbPerAnt => match take_doubles(bytes, pos) {
                Ok((v, end)) => {
                    self.snr_db_per_ant = Some(v);
                    end
                },
                Err(e) => {
                    return Err(e);
                },
            },
            _ => match take_unknown(bytes, pos) {
                Ok(end) => end,
                Err(e) => {
                    return Err(e);
                },
            },
        };
        proof {
            let v = value_at(kind_of(Self::schema(), key), bytes@, pos as int)->Ok_0.0;
            assert(self.fields() =~= merge(Self::schema(), old(self).fields(), key, v));
        }
        Ok(end)
    }
}

impl DiversityParts {
    /// The record, unless something is missing.
    fn finish(self) -> (r: Result<Diversity, Error>)
        ensures
            match refusal(Schema::Diversity, self.fields()) {
                None => r matches Ok(x) && self.fields() == diversity_fields(x@),
                Some(e) => r matches Err(x) && x@ == e,
            },
    {
        let antennas = match self.antennas {
            Some(v) => v,
            None => {
                return Err(Error::MissingField("phy.diversity.antennas"));
            },
        };
        let snr_db_max = match self.snr_db_max {
            Some(v) => v,
            None => {
                return Err(Error::MissingField("phy.diversity.snr_db_max"));
            },
        };
        let snr_db_per_ant = match self.snr_db_per_ant {
            Some(v) => v,
            None => {
                return Err(Error::MissingField("phy.diversity.snr_db_per_ant"));
            },
        };
        let r = Diversity {
            antennas,
            snr_db_max,
            snr_db_per_ant,
        };
        assert(self.fields() =~= diversity_fields(r@));
        Ok(r)
    }
}

/// Reads the record at `pos`.
fn decode_diversity(bytes: &[u8], pos: usize) -> (r: Result<(Diversity, usize), Error>)
    ensures
        match record_at(Schema::Diversity, bytes@, pos as int) {
            Ok((f, q)) => r matches Ok((x, end)) && f == diversity_fields(x@) && end == q,
            Err(e) => r matches Err(x) && x@ == e,
        },
{
    match read_parts::<DiversityParts>(bytes, pos, "diversity expected map") {
        Ok((parts, end)) => match parts.finish() {
            Ok(x) => Ok((x, end)),
            Err(e) => Err(e),
        },
        Err(e) => Err(e),
    }
}

/// What has been read of a [`Phy`].
struct PhyParts {
    sf: Option<u8>,
    bw: Option<u32>,
    cr: Option<u8>,
    crc_valid: Option<bool>,
    sync_word: Option<u16>,
    snr_db: Option<Double>,
    noise_floor_db: Option<Double>,
    peak_db: Option<Double>,
    snr_db_td: Option<Double>,
    channel_freq: Option<Double>,
    decode_bw: Option<Double>,
    cfo_int: Option<Double>,
    cfo_frac: Option<Double>,
    sfo_hat: Option<Double>,
    sample_rate: Option<Double>,
    frequency_corrected: Option<Double>,
    ppm_error: Option<Double>,
    diversity: Option<Diversity>,
}

impl PhyParts {
    spec fn get(self, k: Key) -> Option<Value> {
        match k {
            Key::Sf => u8_value(self.sf),
            Key::Bw => u32_value(self.bw),
            Key::Cr => u8_value(self.cr),
            Key::CrcValid => bool_value(self.crc_valid),
            Key::SyncWord => u16_value(self.sync_word),
            Key::SnrDb => double_value(self.snr_db),
            Key::NoiseFloorDb => double_value(self.noise_floor_db),
            Key::PeakDb => double_value(self.peak_db),
            Key::SnrDbTd => double_value(self.snr_db_td),
            Key::ChannelFreq => double_value(self.channel_freq),
            Key::DecodeBw => double_value(self.decode_bw),
            Key::CfoInt => double_value(self.cfo_int),
            Key::CfoFrac => double_value(self.cfo_frac),
            Key::SfoHat => double_value(self.sfo_hat),
            Key::SampleRate => double_value(self.sample_rate),
            Key::FrequencyCorrected => double_value(self.frequency_corrected),
            Key::PpmError => double_value(self.ppm_error),
            Key::Diversity => match self.diversity {
                Some(v) => Some(Value::Record(diversity_fields(v@))),
                None => None,
            },
            _ => None,
        }
    }
}

impl Parts for PhyParts {
    open spec fn schema() -> Schema {
        Schema::Phy
    }

    closed spec fn fields(self) -> Fields {
        Map::new(|k: Key| self.get(k) is Some, |k: Key| self.get(k)->0)
    }

    fn none() -> (r: Self) {
        let r = PhyParts {
            sf: None,
            bw: None,
            cr: None,
            crc_valid: None,
            sync_word: None,
            snr_db: None,
            noise_floor_db: None,
            peak_db: None,
            snr_db_td: None,
            channel_freq: None,
            decode_bw: None,
            cfo_int: None,
            cfo_frac: None,
            sfo_hat: None,
            sample_rate: None,
            frequency_corrected: None,
            ppm_error: None,
            diversity: None,
        };
        assert(r.fields() =~= Map::<Key, Value>::empty());
        r
    }

    #[verifier::rlimit(50)]
    fn take(&mut self, key: Key, bytes: &[u8], pos: usize) -> (r: Result<usize, Error>) {
        let end: usize = match key {
            Key::Sf => match take_u8(bytes, pos) {
                Ok((v, end)) => {
                    self.sf = Some(v);
                    end
                },
                Err(e) => {
                    return Err(e);
                },
            },
            Key::Bw => match take_u32(bytes, pos) {
                Ok((v, end)) => {
                    self.bw = Some(v);
                    end
                },
                Err(e) => {
                    return Err(e);
                },
            },
            Key::Cr => match take_u8(bytes, pos) {
                Ok((v, end)) => {
                    self.cr = Some(v);
                    end
                },
                Err(e) => {
                    return Err(e);
                },
            },
            Key::CrcValid => match take_bool(bytes, pos) {
                Ok((v, end)) => {
                    self.crc_valid = Some(v);
                    end
                },
                Err(e) => {
                    return Err(e);
                },
            },
            Key::SyncWord => match take_u16(bytes, pos) {
                Ok((v, end)) => {
                    self.sync_word = Some(v);
                    end
                },
                Err(e) => {
                    return Err(e);
                },
            },
            Key::SnrDb => match take_double(bytes, pos) {
                Ok((v, end)) => {
                    self.snr_db = Some(v);
                    end
                },
                Err(e) => {
                    return Err(e);
                },
            },
            Key::NoiseFloorDb => match take_double(bytes, pos) {
                Ok((v, end)) => {
                    self.noise_floor_db = Some(v);
                    end
                },
                Err(e) => {
                    return Err(e);
                },
            },
            Key::PeakDb => match take_double(bytes, pos) {
                Ok((v, end)) => {
                    self.peak_db = Some(v);
                    end
                },
                Err(e) => {
                    return Err(e);
                },
            },
            Key::SnrDbTd => match take_double(bytes, pos) {
                Ok((v, end)) => {
                    self.snr_db_td = Some(v);
                    end
                },
                Err(e) => {
                    return Err(e);
                },
            },
            Key::ChannelFreq => match take_double(bytes, pos) {
                Ok((v, end)) => {
                    self.channel_freq = Some(v);
                    end
                },
                Err(e) => {
                    return Err(e);
                },
            },
            Key::DecodeBw => match take_double(bytes, pos) {
                Ok((v, end)) => {
                    self.decode_bw = Some(v);
                    end
                },
                Err(e) => {
                    return Err(e);
                },
            },
            Key::CfoInt => match take_double(bytes, pos) {
                Ok((v, end)) => {
                    self.cfo_int = Some(v);
                    end
                },
                Err(e) => {
                    return Err(e);
                },
            },
            Key::CfoFrac => match take_double(bytes, pos) {
                Ok((v, end)) => {
                    self.cfo_frac = Some(v);
                    end
                },
                Err(e) => {
                    return Err(e);
                },
            },
            Key::SfoHat => match take_double(bytes, pos) {
                Ok((v, end)) => {
                    self.sfo_hat = Some(v);
                    end
                },
                Err(e) => {
                    return Err(e);
                },
            },
            Key::SampleRate => match take_double(bytes, pos) {
                Ok((v, end)) => {
                    self.sample_rate = Some(v);
                    end
                },
                Err(e) => {
                    return Err(e);
                },
            },
            Key::FrequencyCorrected => match take_double(bytes, pos) {
                Ok((v, end)) => {
                    self.frequency_corrected = Some(v);
                    end
                },
                Err(e) => {
                    return Err(e);
                },
            },
            Key::PpmError => match take_double(bytes, pos) {
                Ok((v, end)) => {
                    self.ppm_error = Some(v);
                    end
                },
                Err(e) => {
                    return Err(e);
                },
            },
            Key::Diversity => match decode_diversity(bytes, pos) {
                Ok((v, end)) => {
                    self.diversity = Some(v);
                    end
                },
                Err(e) => {
                    return Err(e);
                },
            },
            _ => match take_unknown(bytes, pos) {
                Ok(end) => end,
                Err(e) => {
                    return Err(e);
                },
            },
        };
        proof {
            let v = value_at(kind_of(Self::schema(), key), bytes@, pos as int)->Ok_0.0;
            assert(self.fields() =~= merge(Self::schema(), old(self).fields(), key, v));
        }
        Ok(end)
    }
}

impl PhyParts {
    /// The record, unless something is missing.
    fn finish(self) -> (r: Result<Phy, Error>)
        ensures
            match refusal(Schema::Phy, self.fields()) {
                None => r matches Ok(x) && self.fields() == phy_fields(x@),
                Some(e) => r matches Err(x) && x@ == e,
            },
    {
        let sf: u8 = match self.sf {
            Some(v) => v,
            None => {
                return Err(Error::MissingField("phy.sf"));
            },
        };
        let bw: u32 = match self.bw {
            Some(v) => v,
            None => {
                return Err(Error::MissingField("phy.bw"));
            },
        };
        let cr: u8 = match self.cr {
            Some(v) => v,
            None => {
                return Err(Error::MissingField("phy.cr"));
            },
        };
        let crc_valid = match self.crc_valid {
            Some(v) => v,
            None => {
                return Err(Error::MissingField("phy.crc_valid"));
            },
        };
        let sync_word: u16 = match self.sync_word {
            Some(v) => v,
            None => {
                return Err(Error::MissingField("phy.sync_word"));
            },
        };
        let snr_db = match self.snr_db {
            Some(v) => v,
            None => {
                return Err(Error::MissingField("phy.snr_db"));
            },
        };
        let r = Phy {
            sf,
            bw,
            cr,
            crc_valid,
            sync_word,
            snr_db,
            noise_floor_db: self.noise_floor_db,
            peak_db: self.peak_db,
            snr_db_td: self.snr_db_td,
            channel_freq: self.channel_freq,
            decode_bw: self.decode_bw,
            cfo_int: self.cfo_int,
            cfo_frac: self.cfo_frac,
            sfo_hat: self.sfo_hat,
            sample_rate: self.sample_rate,
            frequency_corrected: self.frequency_corrected,
            ppm_error: self.ppm_error,
            diversity: self.diversity,
        };
        assert(self.fields() =~= phy_fields(r@));
        Ok(r)
    }
}

/// Reads the record at `pos`.
fn decode_phy(bytes: &[u8], pos: usize) -> (r: Result<(Phy, usize), Error>)
    ensures
        match record_at(Schema::Phy, bytes@, pos as int) {
            Ok((f, q)) => r matches Ok((x, end)) && f == phy_fields(x@) && end == q,
            Err(e) => r matches Err(x) && x@ == e,
        },
{
    match read_parts::<PhyParts>(bytes, pos, "phy expected map") {
        Ok((parts, end)) => match parts.finish() {
            Ok(x) => Ok((x, end)),
            Err(e) => Err(e),
        },
        Err(e) => Err(e),
    }
}

/// What has been read of a [`Carrier`].
struct CarrierParts {
    sync_word: Option<u16>,
    sf: Option<u8>,
    bw: Option<u32>,
    cr: Option<u8>,
    ldro_cfg: Option<bool>,
}

impl CarrierParts {
    spec fn get(self, k: Key) -> Option<Value> {
        match k {
            Key::SyncWord => u16_value(self.sync_word),
            Key::Sf => u8_value(self.sf),
            Key::Bw => u32_value(self.bw),
            Key::Cr => u8_value(self.cr),
            Key::LdroCfg => bool_value(self.ldro_cfg),
            _ => None,
        }
    }
}

impl Parts for CarrierParts {
    open spec fn schema() -> Schema {
        Schema::Carrier
    }

    closed spec fn fields(self) -> Fields {
        Map::new(|k: Key| self.get(k) is Some, |k: Key| self.get(k)->0)
    }

    fn none() -> (r: Self) {
        let r = CarrierParts {
            sync_word: None,
            sf: None,
            bw: None,
            cr: None,
            ldro_cfg: None,
        };
        assert(r.fields() =~= Map::<Key, Value>::empty());
        r
    }

    fn take(&mut self, key: Key, bytes: &[u8], pos: usize) -> (r: Result<usize, Error>) {
        let end: usize = match key {
            Key::SyncWord => match take_u16(bytes, pos) {
                Ok((v, end)) => {
                    self.sync_word = Some(v);
                    end
                },
                Err(e) => {
                    return Err(e);
                },
            },
            Key::Sf => match take_u8(bytes, pos) {
                Ok((v, end)) => {
                    self.sf = Some(v);
                    end
                },
                Err(e) => {
                    return Err(e);
                },
            },
            Key::Bw => match take_u32(bytes, pos) {
                Ok((v, end)) => {
                    self.bw = Some(v);
                    end
                },
                Err(e) => {
                    return Err(e);
                },
            },
            Key::Cr => match take_u8(bytes, pos) {
                Ok((v, end)) => {
                    self.cr = Some(v);
                    end
                },
                Err(e) => {
                    return Err(e);
                },
            },
            Key::LdroCfg => match take_bool(bytes, pos) {
                Ok((v, end)) => {
                    self.ldro_cfg = Some(v);
                    end
                },
                Err(e) => {
                    return Err(e);
                },
            },
            _ => match take_unknown(bytes, pos) {
                Ok(end) => end,
                Err(e) => {
                    return Err(e);
                },
            },
        };
        proof {
            let v = value_at(kind_of(Self::schema(), key), bytes@, pos as int)->Ok_0.0;
            assert(self.fields() =~= merge(Self::schema(), old(self).fields(), key, v));
        }
        Ok(end)
    }
}

impl CarrierParts {
    /// The record, unless something is missing.
    fn finish(self) -> (r: Result<Carrier, Error>)
        ensures
            match refusal(Schema::Carrier, self.fields()) {
                None => r matches Ok(x) && self.fields() == carrier_fields(x),
                Some(e) => r matches Err(x) && x@ == e,
            },
    {
        let sync_word: u16 = match self.sync_word {
            Some(v) => v,
            None => {
                return Err(Error::MissingField("carrier.sync_word"));
            },
        };
        let sf: u8 = match self.sf {
            Some(v) => v,
            None => {
                return Err(Error::MissingField("carrier.sf"));
            },
        };
        let bw: u32 = match self.bw {
            Some(v) => v,
            None => {
                return Err(Error::MissingField("carrier.bw"));
            },
        };
        let cr: u8 = match self.cr {
            Some(v) => v,
            None => {
                return Err(Error::MissingField("carrier.cr"));
            },
        };
        let ldro_cfg = match self.ldro_cfg {
            Some(v) => v,
            None => {
                return Err(Error::MissingField("carrier.ldro_cfg"));
            },
        };
        let r = Carrier {
            sync_word,
            sf,
            bw,
            cr,
            ldro_cfg,
        };
        assert(self.fields() =~= carrier_fields(r));
        Ok(r)
    }
}

/// Reads the record at `pos`.
fn decode_carrier(bytes: &[u8], pos: usize) -> (r: Result<(Carrier, usize), Error>)
    ensures
        match record_at(Schema::Carrier, bytes@, pos as int) {
            Ok((f, q)) => r matches Ok((x, end)) && f == carrier_fields(x) && end == q,
            Err(e) => r matches Err(x) && x@ == e,
        },
{
    match read_parts::<CarrierParts>(bytes, pos, "carrier expected map") {
        Ok((parts, end)) => match parts.finish() {
            Ok(x) => Ok((x, end)),
            Err(e) => Err(e),
        },
        Err(e) => Err(e),
    }
}

/// What has been read of a [`LoraFrame`].
struct LoraFrameParts {
    ty: Option<String>,
    ts: Option<String>,
    seq: Option<u64>,
    phy: Option<Phy>,
    carrier: Option<Carrier>,
    payload: Option<Vec<u8>>,
    payload_len: Option<u32>,
    crc_valid: Option<bool>,
    cr: Option<u8>,
    is_downchirp: Option<bool>,
    id: Option<String>,
    payload_hash: Option<u64>,
    rx_channel: Option<u32>,
    decode_label: Option<String>,
    device: Option<String>,
}

impl LoraFrameParts {
    spec fn get(self, k: Key) -> Option<Value> {
        match k {
            Key::Type => text_value(text_view(self.ty)),
            Key::Ts => text_value(text_view(self.ts)),
            Key::Sequence => u64_value(self.seq),
            Key::Phy => match self.phy {
                Some(v) => Some(Value::Record(phy_fields(v@))),
                None => None,
            },
            Key::Carrier => match self.carrier {
                Some(v) => Some(Value::Record(carrier_fields(v))),
                None => None,
            },
            Key::Payload => bytes_value(bytes_view(self.payload)),
            Key::PayloadLen => u32_value(self.payload_len),
            Key::CrcValid => bool_value(self.crc_valid),
            Key::Cr => u8_value(self.cr),
            Key::IsDownchirp => bool_value(self.is_downchirp),
            Key::Id => text_value(text_view(self.id)),
            Key::PayloadHash => u64_value(self.payload_hash),
            Key::RxChannel => u32_value(self.rx_channel),
            Key::DecodeLabel => text_value(text_view(self.decode_label)),
            Key::Device => text_value(text_view(self.device)),
            _ => None,
        }
    }
}

impl Parts for LoraFrameParts {
    open spec fn schema() -> Schema {
        Schema::LoraFrame
    }

    closed spec fn fields(self) -> Fields {
        Map::new(|k: Key| self.get(k) is Some, |k: Key| self.get(k)->0)
    }

    fn none() -> (r: Self) {
        let r = LoraFrameParts {
            ty: None,
            ts: None,
            seq: None,
            phy: None,
            carrier: None,
            payload: None,
            payload_len: None,
            crc_valid: None,
            cr: None,
            is_downchirp: None,
            id: None,
            payload_hash: None,
            rx_channel: None,
            decode_label: None,
            device: None,
        };
        assert(r.fields() =~= Map::<Key, Value>::empty());
        r
    }

    #[verifier::rlimit(50)]
    fn take(&mut self, key: Key, bytes: &[u8], pos: usize) -> (r: Result<usize, Error>) {
        let end: usize = match key {
            Key::Type => match take_text(bytes, pos) {
                Ok((v, end)) => {
                    self.ty = Some(v);
                    end
                },
                Err(e) => {
                    return Err(e);
                },
            },
            Key::Ts => match take_text(bytes, pos) {
                Ok((v, end)) => {
                    self.ts = Some(v);
                    end
                },
                Err(e) => {
                    return Err(e);
                },
            },
            Key::Sequence => match take_u64(bytes, pos) {
                Ok((v, end)) => {
                    self.seq = Some(v);
                    end
                },
                Err(e) => {
                    return Err(e);
                },
            },
            Key::Phy => match decode_phy(bytes, pos) {
                Ok((v, end)) => {
                    self.phy = Some(v);
                    end
                },
                Err(e) => {
                    return Err(e);
                },
            },
            Key::Carrier => match decode_carrier(bytes, pos) {
                Ok((v, end)) => {
                    self.carrier = Some(v);
                    end
                },
                Err(e) => {
                    return Err(e);
                },
            },
            Key::Payload => match take_bytes(bytes, pos) {
                Ok((v, end)) => {
                    self.payload = Some(v);
                    end
                },
                Err(e) => {
                    return Err(e);
                },
            },
            Key::PayloadLen => match take_u32(bytes, pos) {
                Ok((v, end)) => {
                    self.payload_len = Some(v);
                    end
                },
                Err(e) => {
                    return Err(e);
                },
            },
            Key::CrcValid => match take_bool(bytes, pos) {
                Ok((v, end)) => {
                    self.crc_valid = Some(v);
                    end
                },
                Err(e) => {
                    return Err(e);
                },
            },
            Key::Cr => match take_u8(bytes, pos) {
                Ok((v, end)) => {
                    self.cr = Some(v);
                    end
                },
                Err(e) => {
                    return Err(e);
                },
            },
            Key::IsDownchirp => match take_bool(bytes, pos) {
                Ok((v, end)) => {
                    self.is_downchirp = Some(v);
                    end
                },
                Err(e) => {
                    return Err(e);
                },
            },
            Key::Id => match take_text(bytes, pos) {
                Ok((v, end)) => {
                    self.id = Some(v);
                    end
                },
                Err(e) => {
                    return Err(e);
                },
            },
            Key::PayloadHash => match take_u64(bytes, pos) {
                Ok((v, end)) => {
                    self.payload_hash = Some(v);
                    end
                },
                Err(e) => {
                    return Err(e);
                },
            },
            Key::RxChannel => match take_u32(bytes, pos) {
                Ok((v, end)) => {
                    self.rx_channel = Some(v);
                    end
                },
                Err(e) => {
                    return Err(e);
                },
            },
            Key::DecodeLabel => match take_text(bytes, pos) {
                Ok((v, end)) => {
                    self.decode_label = Some(v);
                    end
                },
                Err(e) => {
                    return Err(e);
                },
            },
            Key::Device => match take_text(bytes, pos) {
                Ok((v, end)) => {
                    self.device = Some(v);
                    end
                },
                Err(e) => {
                    return Err(e);
                },
            },
            _ => match take_unknown(bytes, pos) {
                Ok(end) => end,
                Err(e) => {
                    return Err(e);
                },
            },
        };
        proof {
            let v = value_at(kind_of(Self::schema(), key), bytes@, pos as int)->Ok_0.0;
            assert(self.fields() =~= merge(Self::schema(), old(self).fields(), key, v));
        }
        Ok(end)
    }
}

impl LoraFrameParts {
    /// The record, unless something is missing.
    fn finish(self) -> (r: Result<LoraFrame, Error>)
        ensures
            match refusal(Schema::LoraFrame, self.fields()) {
                None => r matches Ok(x) && self.fields() == lora_frame_fields(x@),
                Some(e) => r matches Err(x) && x@ == e,
            },
    {
        let ty = match self.ty {
            Some(v) => v,
            None => {
                return Err(Error::MissingField("type"));
            },
        };
        if !same_text(ty.as_str(), LoraFrame::TYPE) {
            return Err(Error::UnexpectedType { got: ty, expected: LoraFrame::TYPE });
        }
        let ts = match self.ts {
            Some(v) => v,
            None => {
                return Err(Error::MissingField("ts"));
            },
        };
        let seq: u64 = match self.seq {
            Some(v) => v,
            None => {
                return Err(Error::MissingField("seq"));
            },
        };
        let phy = match self.phy {
            Some(v) => v,
            None => {
                return Err(Error::MissingField("phy"));
            },
        };
        let carrier = match self.carrier {
            Some(v) => v,
            None => {
                return Err(Error::MissingField("carrier"));
            },
        };
        let payload = match self.payload {
            Some(v) => v,
            None => {
                return Err(Error::MissingField("payload"));
            },
        };
        let payload_len: u32 = match self.payload_len {
            Some(v) => v,
            None => {
                return Err(Error::MissingField("payload_len"));
            },
        };
        let crc_valid = match self.crc_valid {
            Some(v) => v,
            None => {
                return Err(Error::MissingField("crc_valid"));
            },
        };
        let cr: u8 = match self.cr {
            Some(v) => v,
            None => {
                return Err(Error::MissingField("cr"));
            },
        };
        let is_downchirp = match self.is_downchirp {
            Some(v) => v,
            None => {
                return Err(Error::MissingField("is_downchirp"));
            },
        };
        let id = match self.id {
            Some(v) => v,
            None => {
                return Err(Error::MissingField("id"));
            },
        };
        let payload_hash: u64 = match self.payload_hash {
            Some(v) => v,
            None => {
                return Err(Error::MissingField("payload_hash"));
            },
        };
        let r = LoraFrame {
            ts,
            seq,
            phy,
            carrier,
            payload,
            payload_len,
            crc_valid,
            cr,
            is_downchirp,
            id,
            payload_hash,
            rx_channel: self.rx_channel,
            decode_label: self.decode_label,
            device: self.device,
        };
        assert(self.fields() =~= lora_frame_fields(r@));
        Ok(r)
    }
}

/// The frame that a datagram holds, or why it holds none.
pub open spec fn lora_frame_in(b: Seq<u8>) -> Result<LoraFrameView, ErrorView> {
    match frame_in(Schema::LoraFrame, b) {
        Ok(f) => Ok(lora_frame_of(f)),
        Err(e) => Err(e),
    }
}

impl LoraFrame {
    /// Reads a frame. Unknown keys are passed over.
    pub fn from_slice(bytes: &[u8]) -> (r: Result<LoraFrame, Error>)
        ensures
            match r {
                Ok(f) => lora_frame_in(bytes@) == Ok::<LoraFrameView, ErrorView>(f@),
                Err(e) => lora_frame_in(bytes@) == Err::<LoraFrameView, ErrorView>(e@),
            },
    {
        match read_parts::<LoraFrameParts>(bytes, 0, "expected map") {
            Ok((parts, _)) => match parts.finish() {
                Ok(f) => {
                    proof {
                        lora_frame_said(f@);
                    }
                    Ok(f)
                },
                Err(e) => Err(e),
            },
            Err(e) => Err(e),
        }
    }
}

/// The record of `v` says `v`.
proof fn diversity_said(v: DiversityView)
    ensures
        diversity_of(diversity_fields(v)) == v,
{
    assert(diversity_of(diversity_fields(v)) =~= v);
}

/// The record of `v` says `v`.
proof fn phy_said(v: PhyView)
    ensures
        phy_of(phy_fields(v)) == v,
{
    match v.diversity {
        Some(x) => diversity_said(x),
        None => {},
    }
    assert(phy_of(phy_fields(v)) =~= v);
}

/// The record of `v` says `v`.
proof fn carrier_said(v: Carrier)
    ensures
        carrier_of(carrier_fields(v)) == v,
{
    assert(carrier_of(carrier_fields(v)) =~= v);
}

/// The record of `v` says `v`.
proof fn lora_frame_said(v: LoraFrameView)
    ensures
        lora_frame_of(lora_frame_fields(v)) == v,
{
    phy_said(v.phy);
    carrier_said(v.carrier);
    assert(lora_frame_of(lora_frame_fields(v)) =~= v);
}

// ---------------------------------------------------------------------------------------------
// What is written reads back
// ---------------------------------------------------------------------------------------------
/// The lengths of everything in `v` can be written.
pub open spec fn diversity_fits(v: DiversityView) -> bool {
    &&& v.antennas.len() <= u64::MAX
    &&& v.snr_db_per_ant.len() <= u64::MAX
}

/// What is written for `v` reads back as the record of `v`, which lacks nothing.
pub proof fn diversity_written(v: DiversityView)
    requires
        diversity_fits(v),
    ensures
        all_read(Schema::Diversity, diversity_entries(v)),
        diversity_entries(v).len() <= 32,
        collect(Schema::Diversity, diversity_entries(v)) == diversity_fields(v),
        refusal(Schema::Diversity, diversity_fields(v)) is None,
{
    let s = Schema::Diversity;
    let es = no_entries(s);
    plain_fits(s, Key::Antennas, Some(Value::Octets(v.antennas)));
    let es = entry_added(s, es, optional(Key::Antennas, Some(Value::Octets(v.antennas))));
    plain_fits(s, Key::SnrDbMax, Some(Value::Double(v.snr_db_max)));
    let es = entry_added(s, es, optional(Key::SnrDbMax, Some(Value::Double(v.snr_db_max))));
    plain_fits(s, Key::SnrDbPerAnt, Some(Value::Doubles(v.snr_db_per_ant)));
    let es = entry_added(s, es, optional(Key::SnrDbPerAnt, Some(Value::Doubles(v.snr_db_per_ant))));
    reveal(diversity_entries);
    assert forall|k: Key| #[trigger] field(collect(s, es), k) == field(diversity_fields(v), k) by {}
    same_fields(collect(s, es), diversity_fields(v));
}

/// The lengths of everything in `v` can be written.
pub open spec fn phy_fits(v: PhyView) -> bool {
    &&& v.diversity matches Some(x) ==> diversity_fits(x)
}

/// What is written for `v` reads back as the record of `v`, which lacks nothing.
#[verifier::rlimit(50)]
pub proof fn phy_written(v: PhyView)
    requires
        phy_fits(v),
    ensures
        all_read(Schema::Phy, phy_entries(v)),
        phy_entries(v).len() <= 32,
        collect(Schema::Phy, phy_entries(v)) == phy_fields(v),
        refusal(Schema::Phy, phy_fields(v)) is None,
{
    let s = Schema::Phy;
    let es = no_entries(s);
    plain_fits(s, Key::Sf, Some(Value::Uint(v.sf as int)));
    let es = entry_added(s, es, optional(Key::Sf, Some(Value::Uint(v.sf as int))));
    plain_fits(s, Key::Bw, Some(Value::Uint(v.bw as int)));
    let es = entry_added(s, es, optional(Key::Bw, Some(Value::Uint(v.bw as int))));
    plain_fits(s, Key::Cr, Some(Value::Uint(v.cr as int)));
    let es = entry_added(s, es, optional(Key::Cr, Some(Value::Uint(v.cr as int))));
    plain_fits(s, Key::CrcValid, Some(Value::Bool(v.crc_valid)));
    let es = entry_added(s, es, optional(Key::CrcValid, Some(Value::Bool(v.crc_valid))));
    plain_fits(s, Key::SyncWord, Some(Value::Uint(v.sync_word as int)));
    let es = entry_added(s, es, optional(Key::SyncWord, Some(Value::Uint(v.sync_word as int))));
    plain_fits(s, Key::SnrDb, Some(Value::Double(v.snr_db)));
    let es = entry_added(s, es, optional(Key::SnrDb, Some(Value::Double(v.snr_db))));
    plain_fits(s, Key::NoiseFloorDb, double_value(v.noise_floor_db));
    let es = entry_added(s, es, optional(Key::NoiseFloorDb, double_value(v.noise_floor_db)));
    plain_fits(s, Key::PeakDb, double_value(v.peak_db));
    let es = entry_added(s, es, optional(Key::PeakDb, double_value(v.peak_db)));
    plain_fits(s, Key::SnrDbTd, double_value(v.snr_db_td));
    let es = entry_added(s, es, optional(Key::SnrDbTd, double_value(v.snr_db_td)));
    plain_fits(s, Key::ChannelFreq, double_value(v.channel_freq));
    let es = entry_added(s, es, optional(Key::ChannelFreq, double_value(v.channel_freq)));
    plain_fits(s, Key::DecodeBw, double_value(v.decode_bw));
    let es = entry_added(s, es, optional(Key::DecodeBw, double_value(v.decode_bw)));
    plain_fits(s, Key::CfoInt, double_value(v.cfo_int));
    let es = entry_added(s, es, optional(Key::CfoInt, double_value(v.cfo_int)));
    plain_fits(s, Key::CfoFrac, double_value(v.cfo_frac));
    let es = entry_added(s, es, optional(Key::CfoFrac, double_value(v.cfo_frac)));
    plain_fits(s, Key::SfoHat, double_value(v.sfo_hat));
    let es = entry_added(s, es, optional(Key::SfoHat, double_value(v.sfo_hat)));
    plain_fits(s, Key::SampleRate, double_value(v.sample_rate));
    let es = entry_added(s, es, optional(Key::SampleRate, double_value(v.sample_rate)));
    plain_fits(s, Key::FrequencyCorrected, double_value(v.frequency_corrected));
    let es = entry_added(s, es, optional(Key::FrequencyCorrected, double_value(v.frequency_corrected)));
    plain_fits(s, Key::PpmError, double_value(v.ppm_error));
    let es = entry_added(s, es, optional(Key::PpmError, double_value(v.ppm_error)));
    match v.diversity {
        Some(x) => {
            diversity_written(x);
            record_reads(Schema::Diversity, diversity_entries(x));
        },
        None => {},
    }
    let es = entry_added(s, es, diversity_entry(v.diversity));
    reveal(phy_entries);
    assert forall|k: Key| #[trigger] field(collect(s, es), k) == field(phy_fields(v), k) by {}
    same_fields(collect(s, es), phy_fields(v));
}

/// What is written for `v` reads back as the record of `v`, which lacks nothing.
pub proof fn carrier_written(v: Carrier)
    ensures
        all_read(Schema::Carrier, carrier_entries(v)),
        carrier_entries(v).len() <= 32,
        collect(Schema::Carrier, carrier_entries(v)) == carrier_fields(v),
        refusal(Schema::Carrier, carrier_fields(v)) is None,
{
    let s = Schema::Carrier;
    let es = no_entries(s);
    plain_fits(s, Key::SyncWord, Some(Value::Uint(v.sync_word as int)));
    let es = entry_added(s, es, optional(Key::SyncWord, Some(Value::Uint(v.sync_word as int))));
    plain_fits(s, Key::Sf, Some(Value::Uint(v.sf as int)));
    let es = entry_added(s, es, optional(Key::Sf, Some(Value::Uint(v.sf as int))));
    plain_fits(s, Key::Bw, Some(Value::Uint(v.bw as int)));
    let es = entry_added(s, es, optional(Key::Bw, Some(Value::Uint(v.bw as int))));
    plain_fits(s, Key::Cr, Some(Value::Uint(v.cr as int)));
    let es = entry_added(s, es, optional(Key::Cr, Some(Value::Uint(v.cr as int))));
    plain_fits(s, Key::LdroCfg, Some(Value::Bool(v.ldro_cfg)));
    let es = entry_added(s, es, optional(Key::LdroCfg, Some(Value::Bool(v.ldro_cfg))));
    reveal(carrier_entries);
    assert forall|k: Key| #[trigger] field(collect(s, es), k) == field(carrier_fields(v), k) by {}
    same_fields(collect(s, es), carrier_fields(v));
}

/// The lengths of everything in `v` can be written.
pub open spec fn lora_frame_fits(v: LoraFrameView) -> bool {
    &&& encode_utf8(v.ts).len() <= u64::MAX
    &&& phy_fits(v.phy)
    &&& v.payload.len() <= u64::MAX
    &&& encode_utf8(v.id).len() <= u64::MAX
    &&& v.decode_label matches Some(x) ==> encode_utf8(x).len() <= u64::MAX
    &&& v.device matches Some(x) ==> encode_utf8(x).len() <= u64::MAX
}

/// What is written for `v` reads back as the record of `v`, which lacks nothing.
#[verifier::rlimit(50)]
pub proof fn lora_frame_written(v: LoraFrameView)
    requires
        lora_frame_fits(v),
    ensures
        all_read(Schema::LoraFrame, lora_frame_entries(v)),
        lora_frame_entries(v).len() <= 32,
        collect(Schema::LoraFrame, lora_frame_entries(v)) == lora_frame_fields(v),
        refusal(Schema::LoraFrame, lora_frame_fields(v)) is None,
{
    let s = Schema::LoraFrame;
    let es = no_entries(s);
    type_short(s);
    plain_fits(s, Key::Type, Some(Value::Text(type_of(s))));
    let es = entry_added(s, es, optional(Key::Type, Some(Value::Text(type_of(s)))));
    plain_fits(s, Key::Ts, Some(Value::Text(v.ts)));
    let es = entry_added(s, es, optional(Key::Ts, Some(Value::Text(v.ts))));
    plain_fits(s, Key::Sequence, Some(Value::Uint(v.seq as int)));
    let es = entry_added(s, es, optional(Key::Sequence, Some(Value::Uint(v.seq as int))));
    phy_written(v.phy);
    record_reads(Schema::Phy, phy_entries(v.phy));
    let es = entry_added(
        s,
        es,
        nested(Key::Phy, Schema::Phy, phy_entries(v.phy)),
    );
    carrier_written(v.carrier);
    record_reads(Schema::Carrier, carrier_entries(v.carrier));
    let es = entry_added(
        s,
        es,
        nested(Key::Carrier, Schema::Carrier, carrier_entries(v.carrier)),
    );
    plain_fits(s, Key::Payload, Some(Value::Bytes(v.payload)));
    let es = entry_added(s, es, optional(Key::Payload, Some(Value::Bytes(v.payload))));
    plain_fits(s, Key::PayloadLen, Some(Value::Uint(v.payload_len as int)));
    let es = entry_added(s, es, optional(Key::PayloadLen, Some(Value::Uint(v.payload_len as int))));
    plain_fits(s, Key::CrcValid, Some(Value::Bool(v.crc_valid)));
    let es = entry_added(s, es, optional(Key::CrcValid, Some(Value::Bool(v.crc_valid))));
    plain_fits(s, Key::Cr, Some(Value::Uint(v.cr as int)));
    let es = entry_added(s, es, optional(Key::Cr, Some(Value::Uint(v.cr as int))));
    plain_fits(s, Key::IsDownchirp, Some(Value::Bool(v.is_downchirp)));
    let es = entry_added(s, es, optional(Key::IsDownchirp, Some(Value::Bool(v.is_downchirp))));
    plain_fits(s, Key::Id, Some(Value::Text(v.id)));
    let es = entry_added(s, es, optional(Key::Id, Some(Value::Text(v.id))));
    plain_fits(s, Key::PayloadHash, Some(Value::Uint(v.payload_hash as int)));
    let es = entry_added(s, es, optional(Key::PayloadHash, Some(Value::Uint(v.payload_hash as int))));
    plain_fits(s, Key::RxChannel, u32_value(v.rx_channel));
    let es = entry_added(s, es, optional(Key::RxChannel, u32_value(v.rx_channel)));
    plain_fits(s, Key::DecodeLabel, text_value(v.decode_label));
    let es = entry_added(s, es, optional(Key::DecodeLabel, text_value(v.decode_label)));
    plain_fits(s, Key::Device, text_value(v.device));
    let es = entry_added(s, es, optional(Key::Device, text_value(v.device)));
    reveal(lora_frame_entries);
    assert forall|k: Key| #[trigger] field(collect(s, es), k) == field(lora_frame_fields(v), k) by {}
    same_fields(collect(s, es), lora_frame_fields(v));
}

/// A frame that is written and read again is the same frame, whatever stands behind it in the
/// datagram; written once more, it gives the same bytes.
pub proof fn lora_frame_round_trip(v: LoraFrameView, tail: Seq<u8>)
    requires
        lora_frame_fits(v),
    ensures
        lora_frame_in(lora_frame_wire(v) + tail) == Ok::<LoraFrameView, ErrorView>(v),
        lora_frame_in(lora_frame_wire(v)) == Ok::<LoraFrameView, ErrorView>(v),
        lora_frame_in(lora_frame_wire(v)) matches Ok(w) ==> lora_frame_wire(w) == lora_frame_wire(v),
{
    lora_frame_written(v);
    lora_frame_said(v);
    let wire = lora_frame_wire(v);
    record_reads(Schema::LoraFrame, lora_frame_entries(v));
    assert((wire + tail).subrange(0, wire.len() as int) =~= wire);
    assert(stands_at(wire, wire + tail, 0));
    assert(wire.subrange(0, wire.len() as int) =~= wire);
    assert(stands_at(wire, wire, 0));
}

} // verus!
