//! The end of the receive path: a decoded payload and its annotations become a frame.

use vstd::prelude::*;

use crate::cbor::frame::{Carrier, LoraFrame, LoraFrameView, Phy, PhyView};
use crate::double::{
    from_i64, from_u64, nearest_bits, nearest_fits, nearest_is_nearest, single_fits,
    single_keeps_specials, single_keeps_value, widen_single, widened_bits, Double, Narrow, SIGN_UNIT,
};
use crate::text::{
    copy_text, distinct_names, find_name, names_have_no_order, put_name, text_view, value_named,
};

verus! {

// ---------------------------------------------------------------------------------------------
// Annotations
// ---------------------------------------------------------------------------------------------
/// A value that the decoder attaches to a payload. Single-precision numbers are held by their bit
/// patterns.
#[derive(Debug, PartialEq, Eq)]
pub enum Datum {
    Blob(Vec<u8>),
    Bool(bool),
    Single(u32),
    Double(Double),
    Unsigned(u64),
    Signed(i64),
    Other,
}

/// The values attached to a payload, by name. A name occurs once ([`Annotations::wf`]).
#[derive(Debug, PartialEq, Eq)]
pub struct Annotations {
    pub entries: Vec<(String, Datum)>,
}

impl Annotations {
    /// No name occurs twice.
    pub open spec fn wf(&self) -> bool {
        distinct_names(self.entries@)
    }

    /// The value of `name`.
    pub open spec fn value_of(&self, name: Seq<char>) -> Option<Datum> {
        value_named(self.entries@, name)
    }

    /// No annotations.
    pub fn new() -> (r: Annotations)
        ensures
            r.wf(),
            forall|name: Seq<char>| #[trigger] r.value_of(name) is None,
    {
        Annotations { entries: Vec::new() }
    }

    /// Attaches a value under `name`, in place of the one that stood there.
    pub fn insert(&mut self, name: String, value: Datum)
        requires
            old(self).wf(),
        ensures
            final(self).wf(),
            forall|n: Seq<char>| #[trigger]
                final(self).value_of(n) == (if n == name@ {
                    Some(value)
                } else {
                    old(self).value_of(n)
                }),
    {
        put_name(&mut self.entries, name, value);
    }

    /// The value of `name`, if it has one: wherever it stands, as no name occurs twice.
    pub fn get(&self, name: &str) -> (r: Option<&Datum>)
        ensures
            match r {
                Some(d) => self.value_of(name@) == Some(*d),
                None => self.value_of(name@) is None,
            },
            self.wf() ==> forall|i: int|
                0 <= i < self.entries@.len() && (#[trigger] self.entries@[i]).0@ == name@ ==> r
                    == Some(&self.entries@[i].1),
    {
        proof {
            if self.wf() {
                assert forall|i: int|
                    0 <= i < self.entries@.len() && (#[trigger] self.entries@[i]).0@
                        == name@ implies value_named(self.entries@, name@) == Some(
                    self.entries@[i].1,
                ) by {
                    names_have_no_order(self.entries@, name@, i);
                }
            }
        }
        match find_name(&self.entries, name) {
            Some(i) => Some(&self.entries[i].1),
            None => None,
        }
    }
}

// ---------------------------------------------------------------------------------------------
// Telemetry
// ---------------------------------------------------------------------------------------------
/// Measurements of the physical layer, each of which may be absent.
#[derive(Clone, Copy, Debug, PartialEq, Eq, Structural)]
pub struct Telemetry {
    pub snr_db: Option<Double>,
    pub noise_floor_db: Option<Double>,
    pub peak_db: Option<Double>,
    pub snr_db_td: Option<Double>,
    pub channel_freq: Option<Double>,
    pub decode_bw: Option<Double>,
    pub cfo_int: Option<Double>,
    pub cfo_frac: Option<Double>,
    pub sfo_hat: Option<Double>,
    pub sample_rate: Option<Double>,
    pub frequency_corrected: Option<Double>,
    pub ppm_error: Option<Double>,
}

/// The number that an annotation is, if it is one.
pub open spec fn number_of(d: Datum) -> Option<Double> {
    match d {
        Datum::Single(bits) => Some(
            Double { bits: widened_bits(Narrow::Single, bits as int) as u64 },
        ),
        Datum::Double(v) => Some(v),
        Datum::Unsigned(n) => Some(
            Double {
                bits: if n == 0 {
                    0
                } else {
                    nearest_bits(n as int) as u64
                },
            },
        ),
        Datum::Signed(n) => Some(
            Double {
                bits: if n == 0 {
                    0
                } else if n > 0 {
                    nearest_bits(n as int) as u64
                } else {
                    (SIGN_UNIT + nearest_bits(-n)) as u64
                },
            },
        ),
        _ => None,
    }
}

/// The measurement called `name`: a number that is neither infinite nor a NaN.
pub open spec fn measurement(a: &Annotations, name: Seq<char>) -> Option<Double> {
    match a.value_of(name) {
        Some(d) => match number_of(d) {
            Some(v) => if v.finite() {
                Some(v)
            } else {
                None
            },
            None => None,
        },
        None => None,
    }
}

/// The first of two that is there.
pub open spec fn or_else(a: Option<Double>, b: Option<Double>) -> Option<Double> {
    if a is Some {
        a
    } else {
        b
    }
}

fn measure(a: &Annotations, name: &str) -> (r: Option<Double>)
    ensures
        r == measurement(a, name@),
{
    let value = match a.get(name) {
        None => {
            return None;
        },
        Some(Datum::Single(bits)) => widen_single(*bits),
        Some(Datum::Double(v)) => *v,
        Some(Datum::Unsigned(n)) => from_u64(*n),
        Some(Datum::Signed(n)) => from_i64(*n),
        Some(_) => {
            return None;
        },
    };
    if value.is_finite() {
        Some(value)
    } else {
        None
    }
}

fn first_of(a: Option<Double>, b: Option<Double>) -> (r: Option<Double>)
    ensures
        r == or_else(a, b),
{
    match a {
        Some(v) => Some(v),
        None => b,
    }
}

/// The measurements among the annotations. The two that the decoder gives without the unit in the
/// name are also known with it.
pub open spec fn telemetry_of(a: &Annotations) -> Telemetry {
    Telemetry {
        snr_db: or_else(measurement(a, "snr"@), measurement(a, "snr_db"@)),
        noise_floor_db: or_else(measurement(a, "noise_floor"@), measurement(a, "noise_floor_db"@)),
        peak_db: measurement(a, "peak_db"@),
        snr_db_td: measurement(a, "snr_db_td"@),
        channel_freq: measurement(a, "channel_freq"@),
        decode_bw: measurement(a, "decode_bw"@),
        cfo_int: measurement(a, "cfo_int"@),
        cfo_frac: measurement(a, "cfo_frac"@),
        sfo_hat: measurement(a, "sfo_hat"@),
        sample_rate: measurement(a, "sample_rate"@),
        frequency_corrected: measurement(a, "frequency_corrected"@),
        ppm_error: measurement(a, "ppm_error"@),
    }
}

/// No measurements at all.
pub open spec fn no_telemetry() -> Telemetry {
    Telemetry {
        snr_db: None,
        noise_floor_db: None,
        peak_db: None,
        snr_db_td: None,
        channel_freq: None,
        decode_bw: None,
        cfo_int: None,
        cfo_frac: None,
        sfo_hat: None,
        sample_rate: None,
        frequency_corrected: None,
        ppm_error: None,
    }
}

impl Default for Telemetry {
    fn default() -> (r: Telemetry)
        ensures
            r == no_telemetry(),
    {
        Telemetry {
            snr_db: None,
            noise_floor_db: None,
            peak_db: None,
            snr_db_td: None,
            channel_freq: None,
            decode_bw: None,
            cfo_int: None,
            cfo_frac: None,
            sfo_hat: None,
            sample_rate: None,
            frequency_corrected: None,
            ppm_error: None,
        }
    }
}

impl Telemetry {
    /// Picks the measurements out of the annotations.
    pub fn from_map(a: &Annotations) -> (r: Telemetry)
        ensures
            r == telemetry_of(a),
    {
        Telemetry {
            snr_db: first_of(measure(a, "snr"), measure(a, "snr_db")),
            noise_floor_db: first_of(measure(a, "noise_floor"), measure(a, "noise_floor_db")),
            peak_db: measure(a, "peak_db"),
            snr_db_td: measure(a, "snr_db_td"),
            channel_freq: measure(a, "channel_freq"),
            decode_bw: measure(a, "decode_bw"),
            cfo_int: measure(a, "cfo_int"),
            cfo_frac: measure(a, "cfo_frac"),
            sfo_hat: measure(a, "sfo_hat"),
            sample_rate: measure(a, "sample_rate"),
            frequency_corrected: measure(a, "frequency_corrected"),
            ppm_error: measure(a, "ppm_error"),
        }
    }
}

/// Whatever the annotations hold, no measurement that is taken from them is infinite or a NaN.
pub proof fn measurements_are_finite(a: &Annotations, name: Seq<char>)
    ensures
        measurement(a, name) matches Some(v) ==> v.finite(),
{
}

// ---------------------------------------------------------------------------------------------
// The payload hash
// ---------------------------------------------------------------------------------------------
/// The 64-bit FNV-1a hash.
pub open spec fn fnv1a(data: Seq<u8>) -> u64
    decreases data.len(),
{
    if data.len() == 0 {
        0xcbf29ce484222325
    } else {
        (fnv1a(data.drop_last()) ^ data.last() as u64).wrapping_mul(0x100000001b3)
    }
}

/// The 64-bit FNV-1a hash of a payload.
pub fn fnv1a_64(data: &[u8]) -> (r: u64)
    ensures
        r == fnv1a(data@),
{
    let mut h: u64 = 0xcbf29ce484222325;
    let mut i: usize = 0;
    assert(data@.take(0).len() == 0);
    while i < data.len()
        invariant
            i <= data.len(),
            h == fnv1a(data@.take(i as int)),
        decreases data.len() - i,
    {
        assert(data@.take(i + 1).drop_last() =~= data@.take(i as int));
        h = h ^ data[i] as u64;
        h = h.wrapping_mul(0x100000001b3);
        i = i + 1;
    }
    assert(data@.take(i as int) =~= data@);
    h
}

/// Every byte counts, however long the payload is: one more byte is mixed into the hash by an exclusive
/// or, and the outcome multiplied.
pub proof fn every_byte_is_hashed(data: Seq<u8>, byte: u8)
    ensures
        fnv1a(data.push(byte)) == (fnv1a(data) ^ byte as u64).wrapping_mul(0x100000001b3),
        fnv1a(Seq::empty()) == 0xcbf29ce484222325,
{
    assert(data.push(byte).drop_last() =~= data);
}

/// Multiplying by the odd factor loses nothing: its inverse undoes it.
proof fn factor_is_injective(a: u64, b: u64)
    requires
        a.wrapping_mul(0x100000001b3) == b.wrapping_mul(0x100000001b3),
    ensures
        a == b,
{
    let m: int = 0x1_0000_0000_0000_0000;
    let p: int = 0x100000001b3;
    let inverse: int = 0xce965057aff6957b;
    let x = a * p;
    let y = b * p;
    vstd::arithmetic::div_mod::lemma_fundamental_div_mod(x, m);
    vstd::arithmetic::div_mod::lemma_fundamental_div_mod(y, m);
    assert(x % m == y % m);
    let d = a - b;
    let q = x / m - y / m;
    assert(d * p == q * m) by (nonlinear_arith)
        requires
            d == a - b,
            x == a * p,
            y == b * p,
            q == x / m - y / m,
            x == m * (x / m) + x % m,
            y == m * (y / m) + y % m,
            x % m == y % m,
    ;
    let k = (p * inverse - 1) / m;
    assert(p * inverse == 1 + k * m) by (nonlinear_arith)
        requires
            p == 0x100000001b3,
            inverse == 0xce965057aff6957b,
            m == 0x1_0000_0000_0000_0000,
            k == (p * inverse - 1) / m,
    ;
    assert(d == (q * inverse - d * k) * m) by (nonlinear_arith)
        requires
            d * p == q * m,
            p * inverse == 1 + k * m,
    ;
    let t = q * inverse - d * k;
    assert(d == 0) by (nonlinear_arith)
        requires
            d == t * m,
            -m < d < m,
            m > 0,
    ;
}

/// What follows two payloads keeps their hashes apart, or together.
proof fn hashes_stay_apart(a: Seq<u8>, b: Seq<u8>, tail: Seq<u8>)
    ensures
        fnv1a(a + tail) == fnv1a(b + tail) <==> fnv1a(a) == fnv1a(b),
    decreases tail.len(),
{
    if tail.len() == 0 {
        assert(a + tail =~= a);
        assert(b + tail =~= b);
    } else {
        let front = tail.drop_last();
        let byte = tail.last();
        hashes_stay_apart(a, b, front);
        assert(a + tail =~= (a + front).push(byte));
        assert(b + tail =~= (b + front).push(byte));
        every_byte_is_hashed(a + front, byte);
        every_byte_is_hashed(b + front, byte);
        let x = fnv1a(a + front);
        let y = fnv1a(b + front);
        let c = byte as u64;
        if (x ^ c).wrapping_mul(0x100000001b3) == (y ^ c).wrapping_mul(0x100000001b3) {
            factor_is_injective(x ^ c, y ^ c);
            assert(x ^ c == y ^ c ==> x == y) by (bit_vector);
        }
    }
}

/// Two payloads that differ in exactly one byte, wherever it stands, have different hashes.
pub proof fn one_byte_changes_hash(before: Seq<u8>, x: u8, y: u8, after: Seq<u8>)
    requires
        x != y,
    ensures
        fnv1a(before.push(x) + after) != fnv1a(before.push(y) + after),
{
    every_byte_is_hashed(before, x);
    every_byte_is_hashed(before, y);
    let h = fnv1a(before);
    let c = x as u64;
    let d = y as u64;
    if fnv1a(before.push(x)) == fnv1a(before.push(y)) {
        factor_is_injective(h ^ c, h ^ d);
        assert(h ^ c == h ^ d ==> c == d) by (bit_vector);
    }
    hashes_stay_apart(before.push(x), before.push(y), after);
}

// ---------------------------------------------------------------------------------------------
// The sink
// ---------------------------------------------------------------------------------------------
/// What every frame of a sink has in common.
#[derive(Clone, Debug, PartialEq, Eq)]
pub struct FrameSinkConfig {
    pub sf: u8,
    pub bw: u32,
    pub cr: u8,
    pub sync_word: u16,
    pub device: Option<String>,
    pub decode_label: Option<String>,
    pub rx_channel: Option<u32>,
}

/// The frame of a payload: the configuration, the measurements (a signal-to-noise ratio that was
/// not measured is given as zero), a number, a time and an identifier.
pub open spec fn assembled(
    cfg: FrameSinkConfig,
    seq: u64,
    payload: Seq<u8>,
    t: Telemetry,
    ts: Seq<char>,
    id: Seq<char>,
) -> LoraFrameView {
    LoraFrameView {
        ts,
        seq,
        phy: PhyView {
            sf: cfg.sf,
            bw: cfg.bw,
            cr: cfg.cr,
            crc_valid: true,
            sync_word: cfg.sync_word,
            snr_db: match t.snr_db {
                Some(v) => v,
                None => Double { bits: 0 },
            },
            noise_floor_db: t.noise_floor_db,
            peak_db: t.peak_db,
            snr_db_td: t.snr_db_td,
            channel_freq: t.channel_freq,
            decode_bw: t.decode_bw,
            cfo_int: t.cfo_int,
            cfo_frac: t.cfo_frac,
            sfo_hat: t.sfo_hat,
            sample_rate: t.sample_rate,
            frequency_corrected: t.frequency_corrected,
            ppm_error: t.ppm_error,
            diversity: None,
        },
        carrier: Carrier {
            sync_word: cfg.sync_word,
            sf: cfg.sf,
            bw: cfg.bw,
            cr: cfg.cr,
            ldro_cfg: false,
        },
        payload,
        payload_len: (payload.len() % 0x1_0000_0000) as u32,
        crc_valid: true,
        cr: cfg.cr,
        is_downchirp: false,
        id,
        payload_hash: fnv1a(payload),
        rx_channel: cfg.rx_channel,
        decode_label: text_view(cfg.decode_label),
        device: text_view(cfg.device),
    }
}

/// Puts a frame together from its parts.
pub fn assemble(
    cfg: &FrameSinkConfig,
    seq: u64,
    payload: Vec<u8>,
    t: Telemetry,
    ts: String,
    id: String,
) -> (r: LoraFrame)
    ensures
        r@ == assembled(*cfg, seq, payload@, t, ts@, id@),
{
    let payload_hash: u64 = fnv1a_64(payload.as_slice());
    let payload_len: u32 = (payload.len() as u64 % 0x1_0000_0000) as u32;
    LoraFrame {
        ts,
        seq,
        phy: Phy {
            sf: cfg.sf,
            bw: cfg.bw,
            cr: cfg.cr,
            crc_valid: true,
            sync_word: cfg.sync_word,
            snr_db: match t.snr_db {
                Some(v) => v,
                None => Double::zero(),
            },
            noise_floor_db: t.noise_floor_db,
            peak_db: t.peak_db,
            snr_db_td: t.snr_db_td,
            channel_freq: t.channel_freq,
            decode_bw: t.decode_bw,
            cfo_int: t.cfo_int,
            cfo_frac: t.cfo_frac,
            sfo_hat: t.sfo_hat,
            sample_rate: t.sample_rate,
            frequency_corrected: t.frequency_corrected,
            ppm_error: t.ppm_error,
            diversity: None,
        },
        carrier: Carrier {
            sync_word: cfg.sync_word,
            sf: cfg.sf,
            bw: cfg.bw,
            cr: cfg.cr,
            ldro_cfg: false,
        },
        payload,
        payload_len,
        crc_valid: true,
        cr: cfg.cr,
        is_downchirp: false,
        id,
        payload_hash,
        rx_channel: cfg.rx_channel,
        decode_label: copy_text(&cfg.decode_label),
        device: copy_text(&cfg.device),
    }
}

/// A decimal digit.
pub open spec fn decimal_digit(c: char) -> bool {
    '0' <= c <= '9'
}

/// The text begins with a date and a time of day to the second, with a year of four digits.
pub open spec fn begins_with_time(s: Seq<char>) -> bool {
    forall|i: int|
        #![trigger s[i]]
        0 <= i < 19 ==> if i == 4 || i == 7 {
            s[i] == '-'
        } else if i == 10 {
            s[i] == 'T'
        } else if i == 13 || i == 16 {
            s[i] == ':'
        } else {
            decimal_digit(s[i])
        }
}

/// The text is a time in the zone of UTC, which is written out at its end. A year of four digits is
/// written without a sign; the time then has a fraction of three, six or nine digits, or none.
pub open spec fn utc_time_text(s: Seq<char>) -> bool {
    &&& s.len() >= 25
    &&& s.subrange(s.len() - 6, s.len() as int) == seq!['+', '0', '0', ':', '0', '0']
    &&& s[0] != '+' ==> begins_with_time(s)
    &&& s[0] != '+' ==> s.len() == 25 || s.len() == 29 || s.len() == 32 || s.len() == 35
    &&& s[0] != '+' && s.len() > 25 ==> s[19] == '.' && forall|i: int|
        #![trigger s[i]]
        20 <= i < s.len() - 6 ==> decimal_digit(s[i])
}

/// A lower-case hexadecimal digit.
pub open spec fn hex_digit(c: char) -> bool {
    '0' <= c <= '9' || 'a' <= c <= 'f'
}

/// The text form of a random identifier: 36 characters in five groups of hexadecimal digits, the
/// third of which begins with a four and the fourth with one of the upper digits below `c`.
pub open spec fn random_id_text(s: Seq<char>) -> bool {
    &&& s.len() == 36
    &&& s[14] == '4'
    &&& s[19] == '8' || s[19] == '9' || s[19] == 'a' || s[19] == 'b'
    &&& forall|i: int|
        #![trigger s[i]]
        0 <= i < 36 ==> if i == 8 || i == 13 || i == 18 || i == 23 {
            s[i] == '-'
        } else {
            hex_digit(s[i])
        }
}

/// Calls `chrono::Utc::now` and `chrono::DateTime::to_rfc3339` on what it gives: the time of the
/// call as an RFC 3339 text with the zone written out and as many digits of the second's fraction, in
/// threes, as it takes. A year beyond 9999 has a sign before it; of such a text only the zone is
/// stated. Which time it is, is not stated. A clock that stands before the year 1970 is not provided
/// for: the call panics.
#[verifier::external_body]
fn now_text() -> (r: String)
    ensures
        utc_time_text(r@),
{
    chrono::Utc::now().to_rfc3339()
}

/// Calls `uuid::Uuid::new_v4` and writes the identifier out in lower case with hyphens. Which
/// identifier it is, is left to chance. A system without a source of randomness is not provided for:
/// the call panics.
#[verifier::external_body]
fn random_id() -> (r: String)
    ensures
        random_id_text(r@),
{
    uuid::Uuid::new_v4().to_string()
}

/// What the decoder sends to the sink.
#[derive(Debug, PartialEq, Eq)]
pub enum Message {
    /// A payload without annotations.
    Blob(Vec<u8>),
    /// Annotations, the payload among them.
    Annotated(Annotations),
    /// There will be no more.
    Finished,
    /// Anything else.
    Other,
}

/// What a sink makes of a message.
#[derive(Debug, PartialEq, Eq)]
pub enum Handled {
    /// A frame, to be sent under the sync word of the configuration.
    Frame(LoraFrame),
    /// The message is not understood.
    Invalid,
    /// The sink is done.
    Finished,
}

/// The payload that an annotated message carries: its last two bytes are dropped where they are a
/// checksum.
pub open spec fn carried_payload(a: &Annotations) -> Option<Seq<u8>> {
    match a.value_of("payload"@) {
        Some(Datum::Blob(p)) => Some(
            if a.value_of("has_crc"@) == Some(Datum::Bool(true)) && p@.len() >= 2 {
                p@.subrange(0, p@.len() - 2)
            } else {
                p@
            },
        ),
        _ => None,
    }
}

/// The payload and the measurements of a message, if it has a payload.
pub open spec fn content_of(m: Message) -> Option<(Seq<u8>, Telemetry)> {
    match m {
        Message::Blob(p) => Some((p@, no_telemetry())),
        Message::Annotated(a) => match carried_payload(&a) {
            Some(p) => Some((p, telemetry_of(&a))),
            None => None,
        },
        _ => None,
    }
}

/// The number behind `n`.
pub open spec fn next_number(n: u64) -> u64 {
    n.wrapping_add(1)
}

/// The number of the last of `k` frames, when `n` was the number before them.
pub open spec fn number_after(n: u64, k: nat) -> u64
    decreases k,
{
    if k == 0 {
        n
    } else {
        next_number(number_after(n, (k - 1) as nat))
    }
}

/// Frames are numbered one by one, the first of a sink with one, and after the largest number with zero.
pub proof fn frames_are_numbered(k: nat)
    ensures
        number_after(0, k) == k % 0x1_0000_0000_0000_0000,
    decreases k,
{
    if k > 0 {
        frames_are_numbered((k - 1) as nat);
    }
}

/// The terminal block of a receive path.
pub struct FrameSink {
    cfg: FrameSinkConfig,
    seq: u64,
}

fn copy_bytes(bytes: &Vec<u8>, n: usize) -> (r: Vec<u8>)
    requires
        n <= bytes@.len(),
    ensures
        r@ == bytes@.subrange(0, n as int),
{
    let mut out: Vec<u8> = Vec::new();
    let mut i: usize = 0;
    while i < n
        invariant
            i <= n <= bytes@.len(),
            out@ == bytes@.subrange(0, i as int),
        decreases n - i,
    {
        out.push(bytes[i]);
        assert(out@ =~= bytes@.subrange(0, i + 1));
        i = i + 1;
    }
    out
}

impl FrameSink {
    /// The configuration.
    pub closed spec fn config(self) -> FrameSinkConfig {
        self.cfg
    }

    /// The number of the last frame; zero before the first.
    pub closed spec fn last_seq(self) -> u64 {
        self.seq
    }

    /// A sink that has seen nothing.
    pub fn new(cfg: FrameSinkConfig) -> (r: FrameSink)
        ensures
            r.config() == cfg,
            r.last_seq() == 0,
    {
        FrameSink { cfg, seq: 0 }
    }

    /// The frame of a payload under the current number, with the present time and a fresh
    /// identifier.
    pub fn build_frame(&self, payload: Vec<u8>, telemetry: Telemetry) -> (r: LoraFrame)
        ensures
            r@ == assembled(self.config(), self.last_seq(), payload@, telemetry, r.ts@, r.id@),
            utc_time_text(r.ts@),
            random_id_text(r.id@),
    {
        let ts = now_text();
        let id = random_id();
        assemble(&self.cfg, self.seq, payload, telemetry, ts, id)
    }

    /// Takes the next number, which wraps around, and builds the frame of a payload under it.
    pub fn emit(&mut self, payload: Vec<u8>, telemetry: Telemetry) -> (r: LoraFrame)
        ensures
            final(self).config() == old(self).config(),
            final(self).last_seq() == next_number(old(self).last_seq()),
            final(self).last_seq() == old(self).last_seq().wrapping_add(1),
            r.seq == next_number(old(self).last_seq()),
            r@ == assembled(
                old(self).config(),
                old(self).last_seq().wrapping_add(1),
                payload@,
                telemetry,
                r.ts@,
                r.id@,
            ),
            utc_time_text(r.ts@),
            random_id_text(r.id@),
    {
        self.seq = self.seq.wrapping_add(1);
        self.build_frame(payload, telemetry)
    }

    /// Takes a message. One with a payload takes the next number and becomes a frame; the others
    /// leave the sink as it was.
    pub fn handle(&mut self, message: Message) -> (r: Handled)
        ensures
            final(self).config() == old(self).config(),
            match content_of(message) {
                Some((payload, t)) => {
                    &&& final(self).last_seq() == next_number(old(self).last_seq())
                    &&& final(self).last_seq() == old(self).last_seq().wrapping_add(1)
                    &&& r matches Handled::Frame(f) && f@ == assembled(
                        old(self).config(),
                        old(self).last_seq().wrapping_add(1),
                        payload,
                        t,
                        f.ts@,
                        f.id@,
                    ) && utc_time_text(f.ts@) && random_id_text(f.id@)
                },
                None => {
                    &&& final(self).last_seq() == old(self).last_seq()
                    &&& r == (if message is Finished {
                        Handled::Finished
                    } else {
                        Handled::Invalid
                    })
                },
            },
    {
        match message {
            Message::Blob(payload) => Handled::Frame(self.emit(payload, Telemetry::default())),
            Message::Annotated(annotations) => {
                let has_crc = match annotations.get("has_crc") {
                    Some(Datum::Bool(b)) => *b,
                    _ => false,
                };
                let payload = match annotations.get("payload") {
                    Some(Datum::Blob(p)) => {
                        let n: usize = if has_crc && p.len() >= 2 {
                            p.len() - 2
                        } else {
                            p.len()
                        };
                        assert(p@.subrange(0, p@.len() as int) =~= p@);
                        copy_bytes(p, n)
                    },
                    _ => {
                        return Handled::Invalid;
                    },
                };
                let telemetry = Telemetry::from_map(&annotations);
                Handled::Frame(self.emit(payload, telemetry))
            },
            Message::Finished => Handled::Finished,
            Message::Other => Handled::Invalid,
        }
    }

    /// The sync word that the sink's frames are sent under.
    pub fn sync_word(&self) -> (r: u16)
        ensures
            r == self.config().sync_word,
    {
        self.cfg.sync_word
    }
}

// ---------------------------------------------------------------------------------------------
// Laws
// ---------------------------------------------------------------------------------------------
/// What is handed on of a message: a payload without annotations as it is; one with annotations without
/// the two bytes of its checksum where it is said to have one, and as it is otherwise. A message
/// without a payload hands nothing on.
pub proof fn checksum_is_dropped(a: Annotations, p: Seq<u8>, x: u8, y: u8)
    ensures
        ({
            let got = content_of(Message::Annotated(a));
            let flagged = a.value_of("has_crc"@) == Some(Datum::Bool(true));
            match a.value_of("payload"@) {
                Some(Datum::Blob(whole)) => {
                    &&& flagged && whole@ == p.push(x).push(y) ==> (got matches Some((q, _)) && q == p)
                    &&& flagged && whole@.len() < 2 ==> (got matches Some((q, _)) && q == whole@)
                    &&& !flagged ==> (got matches Some((q, _)) && q == whole@)
                },
                _ => got is None,
            }
        }),
        forall|blob: Vec<u8>|
            ((#[trigger] content_of(Message::Blob(blob))) matches Some((q, _)) && q == blob@),
        content_of(Message::Finished) is None,
        content_of(Message::Other) is None,
{
    assert(p.push(x).push(y).subrange(0, p.len() as int) =~= p);
}

/// Under which names the measurements are looked for. Two have two names, of which the shorter one
/// goes first.
pub proof fn measurements_by_name(a: Annotations)
    requires
        content_of(Message::Annotated(a)) is Some,
    ensures
        ({
            let (_, t) = content_of(Message::Annotated(a))->0;
            &&& measurement(&a, "snr"@) is Some ==> t.snr_db == measurement(&a, "snr"@)
            &&& measurement(&a, "snr"@) is None ==> t.snr_db == measurement(&a, "snr_db"@)
            &&& measurement(&a, "noise_floor"@) is Some ==> t.noise_floor_db == measurement(
                &a,
                "noise_floor"@,
            )
            &&& measurement(&a, "noise_floor"@) is None ==> t.noise_floor_db == measurement(
                &a,
                "noise_floor_db"@,
            )
            &&& t.peak_db == measurement(&a, "peak_db"@)
            &&& t.snr_db_td == measurement(&a, "snr_db_td"@)
            &&& t.channel_freq == measurement(&a, "channel_freq"@)
            &&& t.decode_bw == measurement(&a, "decode_bw"@)
            &&& t.cfo_int == measurement(&a, "cfo_int"@)
            &&& t.cfo_frac == measurement(&a, "cfo_frac"@)
            &&& t.sfo_hat == measurement(&a, "sfo_hat"@)
            &&& t.sample_rate == measurement(&a, "sample_rate"@)
            &&& t.frequency_corrected == measurement(&a, "frequency_corrected"@)
            &&& t.ppm_error == measurement(&a, "ppm_error"@)
        }),
{
}

/// A payload without annotations comes without measurements.
pub proof fn blob_has_no_measurements(blob: Vec<u8>)
    ensures
        ({
            let (_, t) = content_of(Message::Blob(blob))->0;
            &&& t.snr_db is None && t.noise_floor_db is None && t.peak_db is None
            &&& t.snr_db_td is None && t.channel_freq is None && t.decode_bw is None
            &&& t.cfo_int is None && t.cfo_frac is None && t.sfo_hat is None
            &&& t.sample_rate is None && t.frequency_corrected is None && t.ppm_error is None
        }),
{
}

/// What is measured under a name: a double-precision number if it is finite; a single-precision one,
/// if it is finite, without a loss; a whole number as the number nearest to it, of which a negative one
/// differs from its opposite in the sign alone; and nothing else.
pub proof fn measured_value(a: Annotations, name: Seq<char>)
    ensures
        ({
            let got = measurement(&a, name);
            match a.value_of(name) {
                Some(Datum::Double(v)) => got == (if v.finite() {
                    Some(v)
                } else {
                    None
                }),
                Some(Datum::Single(bits)) => if bits % 0x8000_0000 < 0x7f80_0000 {
                    got is Some && got->0.bits == widened_bits(Narrow::Single, bits as int)
                } else {
                    got is None
                },
                Some(Datum::Unsigned(n)) => got is Some && (if n == 0 {
                    got->0.bits == 0
                } else {
                    got->0.bits == nearest_bits(n as int)
                }),
                Some(Datum::Signed(n)) => {
                    &&& got is Some
                    &&& n == 0 ==> got->0.bits == 0
                    &&& n > 0 ==> got->0.bits == nearest_bits(n as int)
                    &&& n < 0 ==> got->0.negative() && got->0.magnitude() == nearest_bits(-n)
                },
                _ => got is None,
            }
        }),
{
    match a.value_of(name) {
        Some(Datum::Single(bits)) => {
            let r = Double { bits: widened_bits(Narrow::Single, bits as int) as u64 };
            single_fits(bits);
            if bits % 0x8000_0000 < 0x7f80_0000 {
                single_keeps_value(bits, r);
            } else {
                single_keeps_specials(bits, r);
            }
        },
        Some(Datum::Unsigned(n)) => {
            if n > 0 {
                nearest_fits(n as int);
                nearest_is_nearest(n as int, Double { bits: nearest_bits(n as int) as u64 });
            }
        },
        Some(Datum::Signed(n)) => {
            if n > 0 {
                nearest_fits(n as int);
                nearest_is_nearest(n as int, Double { bits: nearest_bits(n as int) as u64 });
            } else if n < 0 {
                nearest_fits(-n);
                nearest_is_nearest(-n, Double { bits: nearest_bits(-n) as u64 });
            }
        },
        _ => {},
    }
}

/// What a frame says of its payload, its sink and its measurements: the length and the hash are those
/// of the whole payload, both parts agree on the configuration, and every measurement stands in its
/// own place. A signal-to-noise ratio that was not measured is told as zero.
pub proof fn frame_tells(
    cfg: FrameSinkConfig,
    seq: u64,
    payload: Seq<u8>,
    t: Telemetry,
    ts: Seq<char>,
    id: Seq<char>,
)
    ensures
        ({
            let f = assembled(cfg, seq, payload, t, ts, id);
            &&& f.payload == payload
            &&& payload.len() <= u32::MAX ==> f.payload_len == payload.len()
            &&& f.payload_hash == fnv1a(payload)
            &&& f.seq == seq && f.ts == ts && f.id == id
            &&& f.phy.sf == cfg.sf && f.carrier.sf == cfg.sf
            &&& f.phy.bw == cfg.bw && f.carrier.bw == cfg.bw
            &&& f.phy.cr == cfg.cr && f.carrier.cr == cfg.cr && f.cr == cfg.cr
            &&& f.phy.sync_word == cfg.sync_word && f.carrier.sync_word == cfg.sync_word
            &&& f.crc_valid && f.phy.crc_valid && !f.is_downchirp && !f.carrier.ldro_cfg
            &&& f.rx_channel == cfg.rx_channel
            &&& match cfg.decode_label {
                Some(label) => f.decode_label == Some(label@),
                None => f.decode_label is None,
            }
            &&& match cfg.device {
                Some(device) => f.device == Some(device@),
                None => f.device is None,
            }
            &&& match t.snr_db {
                Some(v) => f.phy.snr_db == v,
                None => f.phy.snr_db.bits == 0,
            }
            &&& f.phy.noise_floor_db == t.noise_floor_db
            &&& f.phy.peak_db == t.peak_db
            &&& f.phy.snr_db_td == t.snr_db_td
            &&& f.phy.channel_freq == t.channel_freq
            &&& f.phy.decode_bw == t.decode_bw
            &&& f.phy.cfo_int == t.cfo_int
            &&& f.phy.cfo_frac == t.cfo_frac
            &&& f.phy.sfo_hat == t.sfo_hat
            &&& f.phy.sample_rate == t.sample_rate
            &&& f.phy.frequency_corrected == t.frequency_corrected
            &&& f.phy.ppm_error == t.ppm_error
            &&& f.phy.diversity is None
        }),
{
}

} // verus!
