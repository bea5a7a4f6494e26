//! The daemon's configuration tree, as the configuration file lays it out.

use vstd::prelude::*;

use crate::double::Double;
use crate::text::{
    distinct_names, find_name, names_have_no_order, position_of, put_name, value_named,
};

verus! {

/// The whole configuration.
#[derive(Clone, Debug, PartialEq, Eq)]
pub struct Config {
    pub device: Device,
    pub logging: Logging,
    /// The other top-level sections by name, the radios among them. A name occurs once
    /// ([`Config::wf`]).
    pub radios: Vec<(String, RadioOrSection)>,
    pub trx: Option<Trx>,
    pub scan: Option<Scan>,
    pub chirpmunk: Chirpmunk,
}

/// The `[device]` section.
#[derive(Clone, Debug, PartialEq, Eq)]
pub struct Device {
    pub driver: String,
    pub param: String,
    pub clock: String,
}

/// The `[logging]` section.
#[derive(Clone, Debug, PartialEq, Eq)]
pub struct Logging {
    pub level: String,
}

/// The `[chirpmunk]` section.
#[derive(Clone, Copy, Debug, PartialEq, Eq, Structural)]
pub struct Chirpmunk {
    pub loopback: bool,
}

/// A `[radio_*]` section, or some other section.
#[derive(Clone, Debug, PartialEq, Eq)]
pub enum RadioOrSection {
    Radio(Radio),
    Other,
}

/// A `[radio_*]` section.
#[derive(Clone, Debug, PartialEq, Eq)]
pub struct Radio {
    pub freq: u64,
    pub rx_channel: Vec<u32>,
    pub rx_antenna: Vec<String>,
    pub tx_channel: u32,
    pub tx_antenna: String,
    pub rx_gain: Double,
    pub tx_gain: Double,
    pub lo_offset: i64,
    pub dc_offset_auto: bool,
}

/// The `[trx]` section.
#[derive(Clone, Debug, PartialEq, Eq)]
pub struct Trx {
    pub name: String,
    pub radio: String,
    pub rate: u64,
    pub enable_tx: bool,
    pub use_aa_filter: bool,
    pub transmit: Option<TrxTransmit>,
    pub receive: Option<TrxReceive>,
    pub network: Option<TrxNetwork>,
    pub spectrum: Option<TrxSpectrum>,
}

/// The `[trx.transmit]` section.
#[derive(Clone, Copy, Debug, PartialEq, Eq, Structural)]
pub struct TrxTransmit {
    pub sf: u8,
    pub bw: u32,
    pub cr: u8,
    pub sync_word: u16,
    pub preamble_len: u32,
}

/// The `[trx.receive]` section.
#[derive(Clone, Debug, PartialEq, Eq)]
pub struct TrxReceive {
    pub bandwidths: Vec<u32>,
    pub chain: Vec<TrxReceiveChain>,
    pub dedup_window_ms: Option<u32>,
    pub cad_min_ratio: Option<Double>,
    pub cad_release_symbols: Option<u8>,
}

/// A `[[trx.receive.chain]]` section.
#[derive(Clone, Debug, PartialEq, Eq)]
pub struct TrxReceiveChain {
    pub label: String,
    pub sync_word: Option<u16>,
    pub sf: Option<Vec<u8>>,
}

/// The `[trx.network]` section.
#[derive(Clone, Debug, PartialEq, Eq)]
pub struct TrxNetwork {
    pub udp_listen: String,
    pub udp_port: u16,
    pub status_interval: u32,
    pub lbt: bool,
    pub lbt_timeout_ms: u32,
    pub tx_queue_depth: u32,
}

/// The `[trx.spectrum]` section.
#[derive(Clone, Copy, Debug, PartialEq, Eq, Structural)]
pub struct TrxSpectrum {
    pub enabled: bool,
    pub ws_port: u16,
}

/// The `[scan]` section.
#[derive(Clone, Debug, PartialEq, Eq)]
pub struct Scan {
    pub radio: String,
    pub freq_start: u64,
    pub freq_stop: u64,
    pub l1_rate: u64,
    pub master_clock: u64,
    pub channel_bw: u32,
    pub network: Option<ScanNetwork>,
}

/// The `[scan.network]` section.
#[derive(Clone, Debug, PartialEq, Eq)]
pub struct ScanNetwork {
    pub udp_listen: Option<String>,
    pub udp_port: Option<u16>,
}

/// The log level where a `[logging]` section does not give one.
pub fn default_log_level() -> (r: String)
    ensures
        r@ == "INFO"@,
{
    "INFO".to_owned()
}

/// The address to listen on where a `[trx.network]` section does not give one.
pub fn default_listen() -> (r: String)
    ensures
        r@ == "127.0.0.1"@,
{
    "127.0.0.1".to_owned()
}

/// The port of the spectrum feed where a `[trx.spectrum]` section does not give one.
pub fn default_ws_port() -> (r: u16)
    ensures
        r == 9001,
{
    9001
}

impl Default for Logging {
    /// Without a `[logging]` section no level is set.
    fn default() -> (r: Logging)
        ensures
            r.level@ == Seq::<char>::empty(),
    {
        Logging { level: String::new() }
    }
}

impl Default for Chirpmunk {
    fn default() -> (r: Chirpmunk)
        ensures
            !r.loopback,
    {
        Chirpmunk { loopback: false }
    }
}

impl Default for ScanNetwork {
    fn default() -> (r: ScanNetwork)
        ensures
            r.udp_listen is None,
            r.udp_port is None,
    {
        ScanNetwork { udp_listen: None, udp_port: None }
    }
}

impl Config {
    /// No name of a section occurs twice.
    pub open spec fn wf(self) -> bool {
        distinct_names(self.radios@)
    }

    /// Adds a section, in place of the one of that name.
    pub fn add_section(&mut self, name: String, section: RadioOrSection)
        requires
            old(self).wf(),
        ensures
            final(self).wf(),
            *final(self) == (Config { radios: final(self).radios, ..*old(self) }),
            forall|n: Seq<char>| #[trigger]
                value_named(final(self).radios@, n) == (if n == name@ {
                    Some(section)
                } else {
                    value_named(old(self).radios@, n)
                }),
    {
        put_name(&mut self.radios, name, section);
    }

    /// The radio of a name: the section of that name, if it is a radio, wherever it stands.
    pub fn radio(&self, name: &str) -> (r: Option<&Radio>)
        ensures
            match position_of(self.radios@, name@) {
                Some(i) => match self.radios@[i].1 {
                    RadioOrSection::Radio(radio) => r == Some(&radio),
                    RadioOrSection::Other => r is None,
                },
                None => r is None,
            },
            self.wf() ==> forall|i: int|
                0 <= i < self.radios@.len() && (#[trigger] self.radios@[i]).0@ == name@ ==> (
                match self.radios@[i].1 {
                    RadioOrSection::Radio(radio) => r == Some(&radio),
                    RadioOrSection::Other => r is None,
                }),
    {
        proof {
            if self.wf() {
                assert forall|i: int|
                    0 <= i < self.radios@.len() && (#[trigger] self.radios@[i]).0@
                        == name@ implies position_of(self.radios@, name@) == Some(i) by {
                    names_have_no_order(self.radios@, name@, i);
                }
            }
        }
        match find_name(&self.radios, name) {
            Some(i) => match &self.radios[i].1 {
                RadioOrSection::Radio(radio) => Some(radio),
                RadioOrSection::Other => None,
            },
            None => None,
        }
    }
}

} // verus!
