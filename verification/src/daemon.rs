//! The daemon's start-up: from the command line and the configuration to the parameters it runs with.

use vstd::prelude::*;

use crate::blocks::frame_sink::FrameSinkConfig;
use crate::blocks::multi_bw::{is_known_bandwidth, known_bandwidth};
use crate::blocks::multi_sf::copy_config;
use crate::blocks::tx_dispatch::LbtPolicy;
use crate::config::{Config, Radio, RadioOrSection, Trx, TrxNetwork, TrxReceive, TrxTransmit};
use crate::double::Double;
use crate::text::{decimal, decimal_text, names_have_no_order, position_of, same_text, text_view};

verus! {

// ---------------------------------------------------------------------------------------------
// Errors
// ---------------------------------------------------------------------------------------------
/// Why the daemon cannot start.
#[derive(Debug, PartialEq, Eq)]
pub enum StartError {
    /// No `[trx.transmit]` section.
    NoTransmit,
    BadSpreadingFactor(u8),
    BadBandwidth(u32),
    BadCodeRate(u8),
    BadPreamble(u32),
    /// The sample rate is no multiple of the bandwidth.
    BadRate { rate: u64, bw: u32 },
    /// Neither a `[trx.network]` section nor an address on the command line.
    NoBind,
    /// Hardware without a configuration.
    NoConfig,
    /// Hardware without a `[trx]` section.
    NoTrx,
    /// The radio section that is named is not there.
    NoRadio(String),
    /// More than one receive chain on a device that has one.
    SingleChainDevice,
    /// More receive chains than any device has.
    TooManyChains(usize),
}

/// A [`StartError`] by its contents.
pub enum StartErrorView {
    NoTransmit,
    BadSpreadingFactor(u8),
    BadBandwidth(u32),
    BadCodeRate(u8),
    BadPreamble(u32),
    BadRate { rate: u64, bw: u32 },
    NoBind,
    NoConfig,
    NoTrx,
    NoRadio(Seq<char>),
    SingleChainDevice,
    TooManyChains(usize),
}

impl View for StartError {
    type V = StartErrorView;

    open spec fn view(&self) -> StartErrorView {
        match *self {
            StartError::NoTransmit => StartErrorView::NoTransmit,
            StartError::BadSpreadingFactor(sf) => StartErrorView::BadSpreadingFactor(sf),
            StartError::BadBandwidth(bw) => StartErrorView::BadBandwidth(bw),
            StartError::BadCodeRate(cr) => StartErrorView::BadCodeRate(cr),
            StartError::BadPreamble(n) => StartErrorView::BadPreamble(n),
            StartError::BadRate { rate, bw } => StartErrorView::BadRate { rate, bw },
            StartError::NoBind => StartErrorView::NoBind,
            StartError::NoConfig => StartErrorView::NoConfig,
            StartError::NoTrx => StartErrorView::NoTrx,
            StartError::NoRadio(name) => StartErrorView::NoRadio(name@),
            StartError::SingleChainDevice => StartErrorView::SingleChainDevice,
            StartError::TooManyChains(n) => StartErrorView::TooManyChains(n),
        }
    }
}

impl StartErrorView {
    /// The error in words.
    pub open spec fn text(self) -> Seq<char> {
        match self {
            StartErrorView::NoTransmit => "config: [trx.transmit] section is required"@,
            StartErrorView::BadSpreadingFactor(sf) => "config: invalid [trx.transmit] sf="@
                + decimal_text(sf as nat) + "; expected 7..=12"@,
            StartErrorView::BadBandwidth(bw) => "config: invalid [trx.transmit] bw="@ + decimal_text(
                bw as nat,
            )
                + " Hz; expected one of 7800, 10400, 15600, 20800, 31200, 41700, 62500, 125000, 250000, 500000"@,
            StartErrorView::BadCodeRate(cr) => "config: invalid [trx.transmit] cr="@ + decimal_text(
                cr as nat,
            )
                + "; expected 1..=4 (chirpmunk: numerator-1) or 5..=8 (gr4-lora: denominator)"@,
            StartErrorView::BadPreamble(n) => "config: invalid [trx.transmit] preamble_len="@
                + decimal_text(n as nat) + "; LoRa requires >= 6 (typical 8 or 16)"@,
            StartErrorView::BadRate { rate, bw } => "config: rate "@ + decimal_text(rate as nat)
                + " not an integer multiple of bw "@ + decimal_text(bw as nat),
            StartErrorView::NoBind => "config: [trx.network] section or --bind is required"@,
            StartErrorView::NoConfig => "hardware mode requires --config"@,
            StartErrorView::NoTrx => "hardware mode requires [trx] in config"@,
            StartErrorView::NoRadio(name) => "config: radio section ["@ + name + "] not found"@,
            StartErrorView::SingleChainDevice =>
                "PlutoSDR has 1 RX channel; [radio_*] rx_channel must be [0] or empty"@,
            StartErrorView::TooManyChains(n) => "[radio_*] rx_channel.len()="@ + decimal_text(
                n as nat,
            ) + " unsupported (max 2 for B210/B220)"@,
        }
    }
}

impl StartError {
    /// The error in words.
    pub fn message(&self) -> (r: String)
        ensures
            r@ == self@.text(),
    {
        match self {
            StartError::NoTransmit => "config: [trx.transmit] section is required".to_owned(),
            StartError::BadSpreadingFactor(sf) => {
                let n = decimal(*sf as u64);
                "config: invalid [trx.transmit] sf=".to_owned().concat(n.as_str()).concat(
                    "; expected 7..=12",
                )
            },
            StartError::BadBandwidth(bw) => {
                let n = decimal(*bw as u64);
                "config: invalid [trx.transmit] bw=".to_owned().concat(n.as_str()).concat(
                    " Hz; expected one of 7800, 10400, 15600, 20800, 31200, 41700, 62500, 125000, 250000, 500000",
                )
            },
            StartError::BadCodeRate(cr) => {
                let n = decimal(*cr as u64);
                "config: invalid [trx.transmit] cr=".to_owned().concat(n.as_str()).concat(
                    "; expected 1..=4 (chirpmunk: numerator-1) or 5..=8 (gr4-lora: denominator)",
                )
            },
            StartError::BadPreamble(len) => {
                let n = decimal(*len as u64);
                "config: invalid [trx.transmit] preamble_len=".to_owned().concat(n.as_str()).concat(
                    "; LoRa requires >= 6 (typical 8 or 16)",
                )
            },
            StartError::BadRate { rate, bw } => {
                let a = decimal(*rate);
                let b = decimal(*bw as u64);
                "config: rate ".to_owned().concat(a.as_str()).concat(
                    " not an integer multiple of bw ",
                ).concat(b.as_str())
            },
            StartError::NoBind => "config: [trx.network] section or --bind is required".to_owned(),
            StartError::NoConfig => "hardware mode requires --config".to_owned(),
            StartError::NoTrx => "hardware mode requires [trx] in config".to_owned(),
            StartError::NoRadio(name) => "config: radio section [".to_owned().concat(
                name.as_str(),
            ).concat("] not found"),
            StartError::SingleChainDevice =>
                "PlutoSDR has 1 RX channel; [radio_*] rx_channel must be [0] or empty".to_owned(),
            StartError::TooManyChains(len) => {
                let n = decimal(*len as u64);
                "[radio_*] rx_channel.len()=".to_owned().concat(n.as_str()).concat(
                    " unsupported (max 2 for B210/B220)",
                )
            },
        }
    }
}

// ---------------------------------------------------------------------------------------------
// Sections
// ---------------------------------------------------------------------------------------------
/// The `[trx]` section, if there is one.
pub open spec fn trx_of(cfg: Option<&Config>) -> Option<Trx> {
    match cfg {
        Some(c) => c.trx,
        None => None,
    }
}

/// The `[trx.transmit]` section, if there is one.
pub open spec fn transmit_of(cfg: Option<&Config>) -> Option<TrxTransmit> {
    match trx_of(cfg) {
        Some(t) => t.transmit,
        None => None,
    }
}

/// The `[trx.receive]` section, if there is one.
pub open spec fn receive_of(cfg: Option<&Config>) -> Option<TrxReceive> {
    match trx_of(cfg) {
        Some(t) => t.receive,
        None => None,
    }
}

/// The `[trx.network]` section, if there is one.
pub open spec fn network_of(cfg: Option<&Config>) -> Option<TrxNetwork> {
    match trx_of(cfg) {
        Some(t) => t.network,
        None => None,
    }
}

fn receive<'a>(cfg: Option<&'a Config>) -> (r: Option<&'a TrxReceive>)
    ensures
        match r {
            Some(x) => receive_of(cfg) == Some(*x),
            None => receive_of(cfg) is None,
        },
{
    match cfg {
        Some(c) => match &c.trx {
            Some(t) => match &t.receive {
                Some(x) => Some(x),
                None => None,
            },
            None => None,
        },
        None => None,
    }
}

fn network<'a>(cfg: Option<&'a Config>) -> (r: Option<&'a TrxNetwork>)
    ensures
        match r {
            Some(x) => network_of(cfg) == Some(*x),
            None => network_of(cfg) is None,
        },
{
    match cfg {
        Some(c) => match &c.trx {
            Some(t) => match &t.network {
                Some(x) => Some(x),
                None => None,
            },
            None => None,
        },
        None => None,
    }
}

// ---------------------------------------------------------------------------------------------
// Where the configuration comes from
// ---------------------------------------------------------------------------------------------
/// Where the configuration is read from.
#[derive(Clone, Copy, Debug, PartialEq, Eq, Structural)]
pub enum ConfigSource {
    /// The file named on the command line.
    Given,
    /// The file at the default place.
    Standard,
    /// There is none.
    Absent,
}

/// A file that is named is always read; loopback does without one.
pub fn config_source(given: bool, loopback: bool) -> (r: ConfigSource)
    ensures
        r == (if given {
            ConfigSource::Given
        } else if loopback {
            ConfigSource::Absent
        } else {
            ConfigSource::Standard
        }),
{
    if given {
        ConfigSource::Given
    } else if loopback {
        ConfigSource::Absent
    } else {
        ConfigSource::Standard
    }
}

/// The directory and the path below it of the configuration file at the default place, by the
/// directories for configuration files and of the user, as far as they are known.
pub fn default_config_path(xdg: Option<&str>, home: Option<&str>) -> (r: Option<(String, &'static str)>)
    ensures
        match (xdg, home) {
            (Some(x), _) => r matches Some((base, rest)) && base@ == x@ && rest@
                == "chirpmunk/config.toml"@,
            (None, Some(h)) => r matches Some((base, rest)) && base@ == h@ && rest@
                == ".config/chirpmunk/config.toml"@,
            (None, None) => r is None,
        },
{
    match xdg {
        Some(x) => Some((x.to_owned(), "chirpmunk/config.toml")),
        None => match home {
            Some(h) => Some((h.to_owned(), ".config/chirpmunk/config.toml")),
            None => None,
        },
    }
}

/// Whether the daemon loops its transmissions back: by the command line or by the configuration.
pub open spec fn loops_back(flag: bool, cfg: Option<&Config>) -> bool {
    flag || (cfg matches Some(c) && c.chirpmunk.loopback)
}

/// Whether the daemon loops its transmissions back.
pub fn want_loopback(flag: bool, cfg: Option<&Config>) -> (r: bool)
    ensures
        r == loops_back(flag, cfg),
{
    flag || match cfg {
        Some(c) => c.chirpmunk.loopback,
        None => false,
    }
}

/// The level to log at.
pub fn log_level(cfg: Option<&Config>) -> (r: String)
    ensures
        r@ == (match cfg {
            Some(c) => c.logging.level@,
            None => "INFO"@,
        }),
{
    match cfg {
        Some(c) => c.logging.level.clone(),
        None => "INFO".to_owned(),
    }
}

/// An ASCII text with its capital letters made small.
pub open spec fn small_letters(s: Seq<char>) -> Seq<char> {
    s.map_values(
        |c: char| if 'A' <= c <= 'Z' {
            (c as u32 + 32) as char
        } else {
            c
        },
    )
}

/// The lower-case form that `str::to_lowercase` gives a text.
pub uninterp spec fn lowercase(s: Seq<char>) -> Seq<char>;

/// Calls `str::to_lowercase`. What it makes of letters beyond ASCII is not spelled out here; an ASCII
/// text keeps its length, its capital letters become small ones and all else stays.
#[verifier::external_body]
fn to_lowercase(s: &str) -> (r: String)
    ensures
        r@ == lowercase(s@),
        vstd::utf8::is_ascii_chars(s@) ==> r@ == small_letters(s@),
{
    s.to_lowercase()
}

/// The log filter at a level in lower case: the physical layer only warns, the rest follows the level.
pub open spec fn log_filter_text(lvl: Seq<char>) -> Seq<char> {
    "chirpmunk_phy=warn,chirpmunk_blocks="@ + lvl + ",chirpmunk_trx="@ + lvl + ",chirpmunk_udp="@
        + lvl
}

/// The log filter at a level.
pub fn log_filter(level: &str) -> (r: String)
    ensures
        r@ == log_filter_text(lowercase(level@)),
        vstd::utf8::is_ascii_chars(level@) ==> r@ == log_filter_text(small_letters(level@)),
{
    let lvl = to_lowercase(level);
    "chirpmunk_phy=warn,chirpmunk_blocks=".to_owned().concat(lvl.as_str()).concat(
        ",chirpmunk_trx=",
    ).concat(lvl.as_str()).concat(",chirpmunk_udp=").concat(lvl.as_str())
}

// ---------------------------------------------------------------------------------------------
// Parameters
// ---------------------------------------------------------------------------------------------
/// What the daemon runs with.
#[derive(Debug, PartialEq, Eq)]
pub struct Params {
    pub sf: u8,
    pub bw: u32,
    /// The code rate 4/(4 + `cr`).
    pub cr: u8,
    pub sync_word: u8,
    pub preamble_len: u32,
    pub rate_hz: u64,
    /// How many samples there are to a chip.
    pub os_factor: u64,
    /// The address to bind to.
    pub bind: String,
}

/// [`Params`] by their contents.
pub struct ParamsView {
    pub sf: u8,
    pub bw: u32,
    pub cr: u8,
    pub sync_word: u8,
    pub preamble_len: u32,
    pub rate_hz: u64,
    pub os_factor: u64,
    pub bind: Seq<char>,
}

impl View for Params {
    type V = ParamsView;

    open spec fn view(&self) -> ParamsView {
        ParamsView {
            sf: self.sf,
            bw: self.bw,
            cr: self.cr,
            sync_word: self.sync_word,
            preamble_len: self.preamble_len,
            rate_hz: self.rate_hz,
            os_factor: self.os_factor,
            bind: self.bind@,
        }
    }
}

/// The transmit settings: those of the configuration, or, in loopback without any, a common set.
pub open spec fn settings(cfg: Option<&Config>, loopback: bool) -> Option<TrxTransmit> {
    match transmit_of(cfg) {
        Some(t) => Some(t),
        None => if loopback {
            Some(TrxTransmit { sf: 7, bw: 125_000, cr: 4, sync_word: 0x12, preamble_len: 8 })
        } else {
            None
        },
    }
}

/// The sample rate: that of the configuration; where it is zero or absent, four times the bandwidth.
pub open spec fn rate_of(cfg: Option<&Config>, bw: u32) -> u64 {
    match trx_of(cfg) {
        Some(t) => if t.rate == 0 {
            (bw * 4) as u64
        } else {
            t.rate
        },
        None => (bw * 4) as u64,
    }
}

/// The address to bind to: that of the command line, else that of the configuration, else, in
/// loopback, a local one.
pub open spec fn bind_of(cfg: Option<&Config>, bind: Option<&str>, loopback: bool) -> Option<Seq<char>> {
    match bind {
        Some(b) => Some(b@),
        None => match network_of(cfg) {
            Some(n) => Some(n.udp_listen@ + ":"@ + decimal_text(n.udp_port as nat)),
            None => if loopback {
                Some("127.0.0.1:5556"@)
            } else {
                None
            },
        },
    }
}

/// The parameters that the command line and the configuration make up, or the first thing that is
/// wrong with them. A code rate may be given as 1 to 4 or by its denominator, 5 to 8.
pub open spec fn params_of(cfg: Option<&Config>, bind: Option<&str>, loopback: bool) -> Result<
    ParamsView,
    StartErrorView,
> {
    match settings(cfg, loopback) {
        None => Err(StartErrorView::NoTransmit),
        Some(t) => {
            let rate = rate_of(cfg, t.bw);
            if !(7 <= t.sf <= 12) {
                Err(StartErrorView::BadSpreadingFactor(t.sf))
            } else if !known_bandwidth(t.bw) {
                Err(StartErrorView::BadBandwidth(t.bw))
            } else if !(1 <= t.cr <= 8) {
                Err(StartErrorView::BadCodeRate(t.cr))
            } else if t.preamble_len < 6 {
                Err(StartErrorView::BadPreamble(t.preamble_len))
            } else if rate as int % t.bw as int != 0 {
                Err(StartErrorView::BadRate { rate, bw: t.bw })
            } else {
                match bind_of(cfg, bind, loopback) {
                    None => Err(StartErrorView::NoBind),
                    Some(b) => Ok(
                        ParamsView {
                            sf: t.sf,
                            bw: t.bw,
                            cr: if t.cr <= 4 {
                                t.cr
                            } else {
                                (t.cr - 4) as u8
                            },
                            sync_word: (t.sync_word % 256) as u8,
                            preamble_len: t.preamble_len,
                            rate_hz: rate,
                            os_factor: (rate as int / t.bw as int) as u64,
                            bind: b,
                        },
                    ),
                }
            }
        },
    }
}

/// Works out the parameters that the daemon runs with.
pub fn resolve(cfg: Option<&Config>, bind: Option<&str>, loopback: bool) -> (r: Result<
    Params,
    StartError,
>)
    ensures
        match r {
            Ok(p) => params_of(cfg, bind, loopback) == Ok::<ParamsView, StartErrorView>(p@),
            Err(e) => params_of(cfg, bind, loopback) == Err::<ParamsView, StartErrorView>(e@),
        },
{
    let given = match cfg {
        Some(c) => match &c.trx {
            Some(t) => t.transmit,
            None => None,
        },
        None => None,
    };
    let t = match given {
        Some(t) => t,
        None => if loopback {
            TrxTransmit { sf: 7, bw: 125_000, cr: 4, sync_word: 0x12, preamble_len: 8 }
        } else {
            return Err(StartError::NoTransmit);
        },
    };
    if t.sf < 7 || t.sf > 12 {
        return Err(StartError::BadSpreadingFactor(t.sf));
    }
    if !is_known_bandwidth(t.bw) {
        return Err(StartError::BadBandwidth(t.bw));
    }
    if t.cr < 1 || t.cr > 8 {
        return Err(StartError::BadCodeRate(t.cr));
    }
    if t.preamble_len < 6 {
        return Err(StartError::BadPreamble(t.preamble_len));
    }
    let wanted: u64 = match cfg {
        Some(c) => match &c.trx {
            Some(x) => x.rate,
            None => 0,
        },
        None => 0,
    };
    let rate_hz: u64 = if wanted == 0 {
        t.bw as u64 * 4
    } else {
        wanted
    };
    if rate_hz % t.bw as u64 != 0 {
        return Err(StartError::BadRate { rate: rate_hz, bw: t.bw });
    }
    let address = match bind {
        Some(b) => b.to_owned(),
        None => match network(cfg) {
            Some(n) => {
                let port = decimal(n.udp_port as u64);
                n.udp_listen.clone().concat(":").concat(port.as_str())
            },
            None => if loopback {
                "127.0.0.1:5556".to_owned()
            } else {
                return Err(StartError::NoBind);
            },
        },
    };
    Ok(
        Params {
            sf: t.sf,
            bw: t.bw,
            cr: if t.cr <= 4 {
                t.cr
            } else {
                t.cr - 4
            },
            sync_word: (t.sync_word % 256) as u8,
            preamble_len: t.preamble_len,
            rate_hz,
            os_factor: rate_hz / t.bw as u64,
            bind: address,
        },
    )
}

/// Parameters that were found good are good: every part lies in its range, and the oversampling makes
/// up for the bandwidth exactly.
pub proof fn params_are_good(cfg: Option<&Config>, bind: Option<&str>, loopback: bool)
    ensures
        params_of(cfg, bind, loopback) matches Ok(p) ==> {
            &&& 7 <= p.sf <= 12
            &&& known_bandwidth(p.bw)
            &&& 1 <= p.cr <= 4
            &&& p.preamble_len >= 6
            &&& p.os_factor * p.bw == p.rate_hz
            &&& p.os_factor > 0
        },
{
    if let Ok(p) = params_of(cfg, bind, loopback) {
        let m = p.bw as int;
        vstd::arithmetic::div_mod::lemma_fundamental_div_mod(p.rate_hz as int, m);
        assert(p.rate_hz as int / m * m == m * (p.rate_hz as int / m)) by (nonlinear_arith);
        assert(p.rate_hz as int / m > 0) by (nonlinear_arith)
            requires
                p.rate_hz as int == m * (p.rate_hz as int / m),
                p.rate_hz > 0,
                m > 0,
        ;
        assert(0 <= p.rate_hz as int / m <= p.rate_hz) by (nonlinear_arith)
            requires
                p.rate_hz as int == m * (p.rate_hz as int / m),
                p.rate_hz > 0,
                m > 0,
        ;
    }
}

/// Loopback needs no configuration at all.
pub proof fn loopback_needs_nothing()
    ensures
        params_of(None, None, true) == Ok::<ParamsView, StartErrorView>(
            ParamsView {
                sf: 7,
                bw: 125_000,
                cr: 4,
                sync_word: 0x12,
                preamble_len: 8,
                rate_hz: 500_000,
                os_factor: 4,
                bind: "127.0.0.1:5556"@,
            },
        ),
{
}

// ---------------------------------------------------------------------------------------------
// The receive path
// ---------------------------------------------------------------------------------------------
/// How a device is named to the driver library.
pub open spec fn seify_args(driver: Seq<char>, param: Seq<char>) -> Seq<char> {
    if param.len() == 0 {
        "soapy_driver="@ + driver
    } else {
        "soapy_driver="@ + driver + ","@ + param
    }
}

/// How a device is named to the driver library.
pub fn build_seify_args(driver: &str, param: &str) -> (r: String)
    ensures
        r@ == seify_args(driver@, param@),
{
    if param.is_empty() {
        "soapy_driver=".to_owned().concat(driver)
    } else {
        "soapy_driver=".to_owned().concat(driver).concat(",").concat(param)
    }
}

/// The name of the device in the frames: hardware has to be configured.
pub fn device_label(cfg: Option<&Config>, loopback: bool) -> (r: Result<String, StartError>)
    ensures
        match r {
            Ok(label) => if loopback {
                label@ == "chirpmunk-trx-loopback"@
            } else {
                cfg matches Some(c) && label@ == seify_args(c.device.driver@, c.device.param@)
            },
            Err(e) => !loopback && cfg is None && e@ == StartErrorView::NoConfig,
        },
{
    if loopback {
        return Ok("chirpmunk-trx-loopback".to_owned());
    }
    match cfg {
        Some(c) => Ok(build_seify_args(c.device.driver.as_str(), c.device.param.as_str())),
        None => Err(StartError::NoConfig),
    }
}

/// How long arrivals of one packet are gathered, where nothing is said of it.
pub const DEFAULT_DEDUP_WINDOW_MS: u32 = 50;

/// How long arrivals of one packet are gathered: fifty milliseconds, if nothing is said. Zero sends
/// every arrival at once.
pub fn dedup_window_ms(cfg: Option<&Config>) -> (r: u32)
    ensures
        r == (match receive_of(cfg) {
            Some(x) => match x.dedup_window_ms {
                Some(ms) => ms,
                None => 50,
            },
            None => 50,
        }),
{
    match receive(cfg) {
        Some(x) => match x.dedup_window_ms {
            Some(ms) => ms,
            None => DEFAULT_DEDUP_WINDOW_MS,
        },
        None => DEFAULT_DEDUP_WINDOW_MS,
    }
}

/// The detection threshold that is asked for, if one is.
pub fn cad_min_ratio(cfg: Option<&Config>) -> (r: Option<Double>)
    ensures
        r == (match receive_of(cfg) {
            Some(x) => x.cad_min_ratio,
            None => None,
        }),
{
    match receive(cfg) {
        Some(x) => x.cad_min_ratio,
        None => None,
    }
}

/// After how many clear windows a busy channel is released; four, if nothing is said.
pub fn cad_release_symbols(cfg: Option<&Config>) -> (r: u8)
    ensures
        r == (match receive_of(cfg) {
            Some(x) => match x.cad_release_symbols {
                Some(n) => n,
                None => 4,
            },
            None => 4,
        }),
{
    match receive(cfg) {
        Some(x) => match x.cad_release_symbols {
            Some(n) => n,
            None => 4,
        },
        None => 4,
    }
}

/// What the frames of the first receive chain have in common.
pub fn sink_template(p: &Params, device: &str, loopback: bool) -> (r: FrameSinkConfig)
    ensures
        r.sf == p.sf,
        r.bw == p.bw,
        r.cr == p.cr,
        r.sync_word == p.sync_word,
        text_view(r.device) == Some(device@),
        text_view(r.decode_label) == Some(
            if loopback {
                "loopback"@
            } else {
                "hardware"@
            },
        ),
        r.rx_channel == Some(0u32),
{
    FrameSinkConfig {
        sf: p.sf,
        bw: p.bw,
        cr: p.cr,
        sync_word: p.sync_word as u16,
        device: Some(device.to_owned()),
        decode_label: Some(
            if loopback {
                "loopback".to_owned()
            } else {
                "hardware".to_owned()
            },
        ),
        rx_channel: Some(0),
    }
}

/// What the frames of the second receive chain have in common: only the channel and the label differ
/// from the first.
pub fn second_chain(template: &FrameSinkConfig) -> (r: FrameSinkConfig)
    ensures
        r.sf == template.sf,
        r.bw == template.bw,
        r.cr == template.cr,
        r.sync_word == template.sync_word,
        text_view(r.device) == text_view(template.device),
        text_view(r.decode_label) == Some("hardware-chan1"@),
        r.rx_channel == Some(1u32),
{
    let mut cfg = copy_config(template);
    cfg.rx_channel = Some(1);
    cfg.decode_label = Some("hardware-chan1".to_owned());
    cfg
}

/// How many receive chains a radio has: one, if it lists none.
pub open spec fn chains_of(radio: Radio) -> int {
    if radio.rx_channel@.len() == 0 {
        1
    } else {
        radio.rx_channel@.len() as int
    }
}

/// The radio of a name, if there is one.
pub open spec fn radio_of(cfg: Config, name: Seq<char>) -> Option<Radio> {
    match position_of(cfg.radios@, name) {
        Some(i) => match cfg.radios@[i].1 {
            RadioOrSection::Radio(radio) => Some(radio),
            RadioOrSection::Other => None,
        },
        None => None,
    }
}

/// The radio that the hardware uses and how many receive chains it has, or why it cannot be used: a
/// `[trx]` section has to name a radio that is there, and no device has more than two chains, one
/// kind only one.
pub open spec fn hardware_of(cfg: Config) -> Result<(Radio, int), StartErrorView> {
    match cfg.trx {
        None => Err(StartErrorView::NoTrx),
        Some(trx) => match radio_of(cfg, trx.radio@) {
            None => Err(StartErrorView::NoRadio(trx.radio@)),
            Some(radio) => if cfg.device.driver@ == "plutoPAPR"@ && chains_of(radio) > 1 {
                Err(StartErrorView::SingleChainDevice)
            } else if chains_of(radio) > 2 {
                Err(StartErrorView::TooManyChains(chains_of(radio) as usize))
            } else {
                Ok((radio, chains_of(radio)))
            },
        },
    }
}

/// The radio of a name; a name that no radio section has is an error.
pub fn pick_radio<'a>(cfg: &'a Config, name: &str) -> (r: Result<&'a Radio, StartError>)
    ensures
        match r {
            Ok(radio) => radio_of(*cfg, name@) == Some(*radio),
            Err(e) => radio_of(*cfg, name@) is None && e@ == StartErrorView::NoRadio(name@),
        },
{
    match cfg.radio(name) {
        Some(radio) => Ok(radio),
        None => Err(StartError::NoRadio(name.to_owned())),
    }
}

/// The radio that the hardware uses and how many receive chains it has.
pub fn resolve_hardware<'a>(cfg: &'a Config) -> (r: Result<(&'a Radio, usize), StartError>)
    ensures
        match r {
            Ok((radio, chains)) => hardware_of(*cfg) == Ok::<(Radio, int), StartErrorView>(
                (*radio, chains as int),
            ),
            Err(e) => hardware_of(*cfg) == Err::<(Radio, int), StartErrorView>(e@),
        },
{
    let trx = match &cfg.trx {
        Some(t) => t,
        None => {
            return Err(StartError::NoTrx);
        },
    };
    let radio = match pick_radio(cfg, trx.radio.as_str()) {
        Ok(radio) => radio,
        Err(e) => {
            return Err(e);
        },
    };
    let chains: usize = if radio.rx_channel.len() == 0 {
        1
    } else {
        radio.rx_channel.len()
    };
    if same_text(cfg.device.driver.as_str(), "plutoPAPR") && chains > 1 {
        return Err(StartError::SingleChainDevice);
    }
    if chains > 2 {
        return Err(StartError::TooManyChains(chains));
    }
    Ok((radio, chains))
}

/// The antenna to receive with: the first that is listed.
pub fn rx_antenna(radio: &Radio) -> (r: Option<String>)
    ensures
        text_view(r) == (if radio.rx_antenna@.len() == 0 {
            None
        } else {
            Some(radio.rx_antenna@[0]@)
        }),
{
    if radio.rx_antenna.len() == 0 {
        None
    } else {
        Some(radio.rx_antenna[0].clone())
    }
}

/// The antenna to transmit with, if one is named.
pub fn tx_antenna(radio: &Radio) -> (r: Option<String>)
    ensures
        text_view(r) == (if radio.tx_antenna@.len() == 0 {
            None
        } else {
            Some(radio.tx_antenna@)
        }),
{
    if radio.tx_antenna.as_str().is_empty() {
        None
    } else {
        Some(radio.tx_antenna.clone())
    }
}

// ---------------------------------------------------------------------------------------------
// Listen before talk
// ---------------------------------------------------------------------------------------------
/// How the channel is waited for: as the `[trx.network]` section says; without one, in loopback only.
/// A timeout of zero stands for two seconds. The channel is looked at every ten milliseconds.
pub open spec fn policy_of(cfg: Option<&Config>, loopback: bool) -> Option<LbtPolicy> {
    let (enabled, timeout_ms) = match network_of(cfg) {
        Some(n) => (
            n.lbt,
            if n.lbt_timeout_ms == 0 {
                2000u32
            } else {
                n.lbt_timeout_ms
            },
        ),
        None => (loopback, 2000u32),
    };
    if enabled {
        Some(
            LbtPolicy {
                timeout_ns: (timeout_ms * 1_000_000) as u128,
                poll_interval_ns: 10_000_000,
            },
        )
    } else {
        None
    }
}

/// How the channel is waited for before a transmission.
pub fn lbt_policy(cfg: Option<&Config>, loopback: bool) -> (r: Option<LbtPolicy>)
    ensures
        r == policy_of(cfg, loopback),
{
    let (enabled, raw) = match network(cfg) {
        Some(n) => (n.lbt, n.lbt_timeout_ms),
        None => (loopback, 2000),
    };
    let timeout_ms: u32 = if raw == 0 {
        2000
    } else {
        raw
    };
    if enabled {
        Some(
            LbtPolicy { timeout_ns: timeout_ms as u128 * 1_000_000, poll_interval_ns: 10_000_000 },
        )
    } else {
        None
    }
}

// ---------------------------------------------------------------------------------------------
// Laws
// ---------------------------------------------------------------------------------------------
/// What a configuration with a `[trx.transmit]` section makes of itself. It is accepted exactly when
/// its settings are those of the physical layer, the sample rate is a multiple of the bandwidth and
/// there is an address; each parameter is then what the section says. A code rate above four is a
/// denominator, and of the sync word the lower half counts.
pub proof fn settings_are_followed(cfg: &Config, bind: Option<&str>, loopback: bool)
    requires
        cfg.trx is Some,
        cfg.trx->0.transmit is Some,
    ensures
        ({
            let trx = cfg.trx->0;
            let t = trx.transmit->0;
            let rate = if trx.rate > 0 {
                trx.rate as int
            } else {
                4 * t.bw
            };
            let got = params_of(Some(cfg), bind, loopback);
            &&& got is Ok <==> {
                &&& 7 <= t.sf <= 12
                &&& t.bw == 7_800 || t.bw == 10_400 || t.bw == 15_600 || t.bw == 20_800 || t.bw
                    == 31_200 || t.bw == 41_700 || t.bw == 62_500 || t.bw == 125_000 || t.bw
                    == 250_000 || t.bw == 500_000
                &&& 1 <= t.cr <= 8
                &&& t.preamble_len >= 6
                &&& rate % (t.bw as int) == 0
                &&& bind is Some || trx.network is Some || loopback
            }
            &&& got matches Ok(p) ==> {
                &&& p.sf == t.sf && p.bw == t.bw && p.preamble_len == t.preamble_len
                &&& t.cr <= 4 ==> p.cr == t.cr
                &&& t.cr > 4 ==> p.cr + 4 == t.cr
                &&& p.sync_word == t.sync_word % 256
                &&& p.rate_hz == rate
                &&& p.os_factor * p.bw == p.rate_hz
                &&& bind is Some ==> p.bind == bind->0@
                &&& bind is None && trx.network is Some ==> p.bind == trx.network->0.udp_listen@
                    + ":"@ + decimal_text(trx.network->0.udp_port as nat)
                &&& bind is None && trx.network is None ==> p.bind == "127.0.0.1:5556"@
            }
        }),
{
    params_are_good(Some(cfg), bind, loopback);
}

/// A refusal is true: it names something that is wrong with the settings, and gives it as it was given.
pub proof fn refusals_are_true(cfg: &Config, bind: Option<&str>, loopback: bool)
    requires
        cfg.trx is Some,
        cfg.trx->0.transmit is Some,
    ensures
        ({
            let trx = cfg.trx->0;
            let t = trx.transmit->0;
            match params_of(Some(cfg), bind, loopback) {
                Ok(_) => true,
                Err(StartErrorView::BadSpreadingFactor(sf)) => sf == t.sf && (sf < 7 || sf > 12),
                Err(StartErrorView::BadBandwidth(bw)) => bw == t.bw && !known_bandwidth(bw),
                Err(StartErrorView::BadCodeRate(cr)) => cr == t.cr && (cr == 0 || cr > 8),
                Err(StartErrorView::BadPreamble(n)) => n == t.preamble_len && n < 6,
                Err(StartErrorView::BadRate { rate, bw }) => {
                    &&& bw == t.bw
                    &&& trx.rate > 0 && rate == trx.rate
                    &&& rate as int % bw as int != 0
                },
                Err(StartErrorView::NoBind) => bind is None && trx.network is None && !loopback,
                Err(_) => false,
            }
        }),
{
    let t = cfg.trx->0.transmit->0;
    if t.bw > 0 {
        assert((t.bw * 4) % (t.bw as int) == 0) by (nonlinear_arith)
            requires
                t.bw > 0,
        ;
    }
}

/// Without a `[trx.transmit]` section there is nothing to run with, except in loopback, where a common set
/// of settings does.
pub proof fn loopback_settings(cfg: Option<&Config>, bind: Option<&str>)
    requires
        cfg matches Some(c) ==> c.trx matches Some(trx) ==> trx.transmit is None,
    ensures
        params_of(cfg, bind, false) == Err::<ParamsView, StartErrorView>(StartErrorView::NoTransmit),
        params_of(cfg, bind, true) matches Ok(p) ==> {
            &&& p.sf == 7 && p.bw == 125_000 && p.cr == 4 && p.sync_word == 0x12
            &&& p.preamble_len == 8
        },
{
}

/// Every section is the one that the configuration has; without a configuration there is none.
pub proof fn sections_are_taken(cfg: &Config)
    ensures
        trx_of(Some(cfg)) == cfg.trx,
        cfg.trx is Some ==> transmit_of(Some(cfg)) == cfg.trx->0.transmit,
        cfg.trx is Some ==> receive_of(Some(cfg)) == cfg.trx->0.receive,
        cfg.trx is Some ==> network_of(Some(cfg)) == cfg.trx->0.network,
        cfg.trx is None ==> transmit_of(Some(cfg)) is None && receive_of(Some(cfg)) is None
            && network_of(Some(cfg)) is None,
        transmit_of(None) is None && receive_of(None) is None && network_of(None) is None,
{
}

/// Either the command line or the configuration asks for loopback; neither can take it back.
pub proof fn loopback_is_asked_for(flag: bool, cfg: &Config)
    ensures
        loops_back(true, Some(cfg)) && loops_back(true, None),
        cfg.chirpmunk.loopback ==> loops_back(flag, Some(cfg)),
        !cfg.chirpmunk.loopback ==> loops_back(flag, Some(cfg)) == flag,
        loops_back(flag, None) == flag,
{
}

/// The log filter names four parts: one warns at any level, and the others each follow the level.
pub proof fn filter_names_parts(lvl: Seq<char>)
    ensures
        log_filter_text(lvl) == "chirpmunk_phy=warn"@ + (","@ + "chirpmunk_blocks="@ + lvl) + (","@
            + "chirpmunk_trx="@ + lvl) + (","@ + "chirpmunk_udp="@ + lvl),
{
    reveal_strlit("chirpmunk_phy=warn");
    reveal_strlit("chirpmunk_phy=warn,chirpmunk_blocks=");
    reveal_strlit("chirpmunk_blocks=");
    reveal_strlit(",chirpmunk_trx=");
    reveal_strlit("chirpmunk_trx=");
    reveal_strlit(",chirpmunk_udp=");
    reveal_strlit("chirpmunk_udp=");
    reveal_strlit(",");
    assert("chirpmunk_phy=warn"@ + (","@ + "chirpmunk_blocks="@)
        =~= "chirpmunk_phy=warn,chirpmunk_blocks="@);
    assert(","@ + "chirpmunk_trx="@ =~= ",chirpmunk_trx="@);
    assert(","@ + "chirpmunk_udp="@ =~= ",chirpmunk_udp="@);
    assert(log_filter_text(lvl) =~= "chirpmunk_phy=warn"@ + (","@ + "chirpmunk_blocks="@ + lvl) + (
    ","@ + "chirpmunk_trx="@ + lvl) + (","@ + "chirpmunk_udp="@ + lvl));
}

/// A device is named by its driver, and its parameters follow behind a comma if there are any.
pub proof fn device_is_named(driver: Seq<char>, param: Seq<char>)
    ensures
        seify_args(driver, Seq::empty()) == "soapy_driver="@ + driver,
        param.len() > 0 ==> seify_args(driver, param) == seify_args(driver, Seq::empty()) + ","@
            + param,
{
}

/// How the channel is waited for with a `[trx.network]` section: if it asks for that, as long as it says,
/// in milliseconds, or two seconds where it says zero.
pub proof fn policy_is_followed(cfg: &Config, loopback: bool)
    requires
        cfg.trx is Some,
        cfg.trx->0.network is Some,
    ensures
        ({
            let n = cfg.trx->0.network->0;
            let got = policy_of(Some(cfg), loopback);
            &&& got is Some <==> n.lbt
            &&& got matches Some(p) ==> {
                &&& n.lbt_timeout_ms > 0 ==> p.timeout_ns == n.lbt_timeout_ms * 1_000_000
                &&& n.lbt_timeout_ms == 0 ==> p.timeout_ns == 2_000_000_000
                &&& p.poll_interval_ns == 10_000_000
            }
        }),
{
}

/// Without a `[trx.network]` section the channel is waited for in loopback alone, for two seconds.
pub proof fn policy_without_network(cfg: Option<&Config>, loopback: bool)
    requires
        cfg matches Some(c) ==> c.trx matches Some(trx) ==> trx.network is None,
    ensures
        policy_of(cfg, loopback) is Some <==> loopback,
        policy_of(cfg, loopback) matches Some(p) ==> p.timeout_ns == 2_000_000_000
            && p.poll_interval_ns == 10_000_000,
{
}

/// The hardware is usable exactly when the `[trx]` section names a radio that is there and has one
/// receive chain, or two on a device that has two. A radio that lists no chains has one.
pub proof fn hardware_is_checked(cfg: Config)
    ensures
        hardware_of(cfg) is Ok <==> cfg.trx is Some && radio_of(cfg, cfg.trx->0.radio@) is Some && {
            let listed = radio_of(cfg, cfg.trx->0.radio@)->0.rx_channel@.len();
            listed <= 1 || (listed == 2 && cfg.device.driver@ != "plutoPAPR"@)
        },
        hardware_of(cfg) matches Ok((radio, chains)) ==> {
            &&& radio_of(cfg, cfg.trx->0.radio@) == Some(radio)
            &&& 1 <= chains <= 2
            &&& radio.rx_channel@.len() > 0 ==> chains == radio.rx_channel@.len()
            &&& radio.rx_channel@.len() == 0 ==> chains == 1
        },
{
}

/// Where no name occurs twice, the radio of a name is the section that stands under it, if that is a radio.
pub proof fn radio_by_name(cfg: Config, name: Seq<char>, i: int)
    requires
        cfg.wf(),
        0 <= i < cfg.radios@.len(),
        cfg.radios@[i].0@ == name,
    ensures
        match cfg.radios@[i].1 {
            RadioOrSection::Radio(radio) => radio_of(cfg, name) == Some(radio),
            RadioOrSection::Other => radio_of(cfg, name) is None,
        },
{
    names_have_no_order(cfg.radios@, name, i);
}

} // verus!
