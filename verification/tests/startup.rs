//! The daemon's start-up and the frontend.

use chirpmunk::blocks::tx_dispatch::LbtPolicy;
use chirpmunk::config::{
    default_listen, default_log_level, default_ws_port, Chirpmunk, Config, Device, Logging, Radio,
    RadioOrSection, ScanNetwork, Trx, TrxNetwork, TrxReceive, TrxTransmit,
};
use chirpmunk::daemon::{
    build_seify_args, cad_min_ratio, cad_release_symbols, config_source, dedup_window_ms,
    default_config_path, device_label, lbt_policy, log_filter, log_level, pick_radio, resolve,
    resolve_hardware, rx_antenna, second_chain, sink_template, tx_antenna, want_loopback,
    ConfigSource, StartError,
};
use chirpmunk::double::Double;
use chirpmunk::text::decimal;
use chirpmunk::ui::{ws_url, MessageInputTarget, Panel, Source};

fn radio(rx_channel: Vec<u32>) -> Radio {
    Radio {
        freq: 868_500_000,
        rx_channel,
        rx_antenna: vec!["TX/RX".into(), "RX2".into()],
        tx_channel: 0,
        tx_antenna: "A".into(),
        rx_gain: Double { bits: 50.0f64.to_bits() },
        tx_gain: Double { bits: 0 },
        lo_offset: 0,
        dc_offset_auto: false,
    }
}

fn config() -> Config {
    Config {
        device: Device { driver: "uhd".into(), param: "".into(), clock: "".into() },
        logging: Logging { level: "DEBUG".into() },
        radios: vec![
            ("other".into(), RadioOrSection::Other),
            ("radio_868".into(), RadioOrSection::Radio(radio(vec![0, 1]))),
        ],
        trx: Some(Trx {
            name: "".into(),
            radio: "radio_868".into(),
            rate: 1_000_000,
            enable_tx: true,
            use_aa_filter: false,
            transmit: Some(TrxTransmit {
                sf: 8,
                bw: 62_500,
                cr: 8,
                sync_word: 0x3412,
                preamble_len: 16,
            }),
            receive: Some(TrxReceive {
                bandwidths: vec![125_000],
                chain: Vec::new(),
                dedup_window_ms: Some(80),
                cad_min_ratio: Some(Double { bits: 5.0f64.to_bits() }),
                cad_release_symbols: Some(6),
            }),
            network: Some(TrxNetwork {
                udp_listen: "0.0.0.0".into(),
                udp_port: 5556,
                status_interval: 0,
                lbt: true,
                lbt_timeout_ms: 0,
                tx_queue_depth: 0,
            }),
            spectrum: None,
        }),
        scan: None,
        chirpmunk: Chirpmunk { loopback: false },
    }
}

#[test]
fn defaults_of_the_configuration() {
    assert_eq!(default_log_level(), "INFO");
    assert_eq!(default_listen(), "127.0.0.1");
    assert_eq!(default_ws_port(), 9001);
    assert_eq!(Logging::default().level, "");
    assert!(!Chirpmunk::default().loopback);
    assert_eq!(ScanNetwork::default(), ScanNetwork { udp_listen: None, udp_port: None });
}

#[test]
fn radios_are_found_by_name() {
    let c = config();
    assert_eq!(c.radio("radio_868").unwrap().freq, 868_500_000);
    assert!(c.radio("other").is_none());
    assert!(c.radio("radio_433").is_none());
    assert!(c.radio("").is_none());
    let mut more = config();
    more.add_section("radio_433".into(), RadioOrSection::Radio(radio(vec![1])));
    more.add_section("radio_868".into(), RadioOrSection::Other);
    assert_eq!(more.radio("radio_433").unwrap().rx_channel, vec![1]);
    assert!(more.radio("radio_868").is_none());
    assert_eq!(more.radios.len(), 3);
    assert_eq!(pick_radio(&c, "radio_868").unwrap().rx_channel, vec![0, 1]);
    assert_eq!(
        pick_radio(&c, "x").unwrap_err().message(),
        "config: radio section [x] not found"
    );
}

#[test]
fn loopback_runs_without_a_configuration() {
    let p = resolve(None, None, true).unwrap();
    assert_eq!((p.sf, p.bw, p.cr, p.sync_word, p.preamble_len), (7, 125_000, 4, 0x12, 8));
    assert_eq!((p.rate_hz, p.os_factor), (500_000, 4));
    assert_eq!(p.bind, "127.0.0.1:5556");
    assert_eq!(resolve(None, Some("[::1]:1"), true).unwrap().bind, "[::1]:1");
    assert_eq!(device_label(None, true).unwrap(), "chirpmunk-trx-loopback");
}

#[test]
fn a_configuration_is_resolved() {
    let c = config();
    let p = resolve(Some(&c), None, false).unwrap();
    assert_eq!((p.sf, p.bw, p.cr, p.sync_word, p.preamble_len), (8, 62_500, 4, 0x12, 16));
    assert_eq!((p.rate_hz, p.os_factor), (1_000_000, 16));
    assert_eq!(p.bind, "0.0.0.0:5556");
    assert_eq!(resolve(Some(&c), Some("h:1"), false).unwrap().bind, "h:1");
    assert_eq!(dedup_window_ms(Some(&c)), 80);
    assert_eq!(cad_release_symbols(Some(&c)), 6);
    assert_eq!(cad_min_ratio(Some(&c)), Some(Double { bits: 5.0f64.to_bits() }));
    assert_eq!(dedup_window_ms(None), 50);
    assert_eq!(cad_release_symbols(None), 4);
    assert_eq!(cad_min_ratio(None), None);
    assert_eq!(log_level(Some(&c)), "DEBUG");
    assert_eq!(log_level(None), "INFO");
    let mut c = config();
    c.trx.as_mut().unwrap().receive.as_mut().unwrap().dedup_window_ms = Some(0);
    assert_eq!(dedup_window_ms(Some(&c)), 0);
    c.trx.as_mut().unwrap().receive.as_mut().unwrap().dedup_window_ms = None;
    assert_eq!(dedup_window_ms(Some(&c)), 50);
    let mut c = config();
    c.trx.as_mut().unwrap().rate = 0;
    assert_eq!(resolve(Some(&c), None, false).unwrap().rate_hz, 250_000);
}

#[test]
fn bad_configurations_are_refused_in_words() {
    let with = |change: fn(&mut Config)| {
        let mut c = config();
        change(&mut c);
        resolve(Some(&c), None, false).unwrap_err().message()
    };
    let tx = |c: &mut Config, change: fn(&mut TrxTransmit)| {
        change(c.trx.as_mut().unwrap().transmit.as_mut().unwrap())
    };
    let bad = |change: fn(&mut TrxTransmit)| {
        let mut c = config();
        tx(&mut c, change);
        resolve(Some(&c), None, false).unwrap_err().message()
    };
    assert_eq!(
        with(|c| c.trx.as_mut().unwrap().transmit = None),
        "config: [trx.transmit] section is required"
    );
    assert_eq!(bad(|t| t.sf = 6), "config: invalid [trx.transmit] sf=6; expected 7..=12");
    assert_eq!(bad(|t| t.sf = 13), "config: invalid [trx.transmit] sf=13; expected 7..=12");
    assert_eq!(
        bad(|t| t.bw = 100_000),
        "config: invalid [trx.transmit] bw=100000 Hz; expected one of 7800, 10400, 15600, 20800, 31200, 41700, 62500, 125000, 250000, 500000"
    );
    assert_eq!(
        bad(|t| t.cr = 0),
        "config: invalid [trx.transmit] cr=0; expected 1..=4 (chirpmunk: numerator-1) or 5..=8 (gr4-lora: denominator)"
    );
    assert_eq!(
        bad(|t| t.cr = 9),
        "config: invalid [trx.transmit] cr=9; expected 1..=4 (chirpmunk: numerator-1) or 5..=8 (gr4-lora: denominator)"
    );
    assert_eq!(
        bad(|t| t.preamble_len = 5),
        "config: invalid [trx.transmit] preamble_len=5; LoRa requires >= 6 (typical 8 or 16)"
    );
    assert_eq!(
        with(|c| c.trx.as_mut().unwrap().rate = 1_000_001),
        "config: rate 1000001 not an integer multiple of bw 62500"
    );
    assert_eq!(
        with(|c| c.trx.as_mut().unwrap().network = None),
        "config: [trx.network] section or --bind is required"
    );
    assert_eq!(device_label(None, false).unwrap_err().message(), "hardware mode requires --config");
}

#[test]
fn hardware_has_one_or_two_chains() {
    let with = |driver: &str, channels: Vec<u32>| {
        let mut c = config();
        c.device.driver = driver.into();
        c.radios = vec![("radio_868".into(), RadioOrSection::Radio(radio(channels)))];
        match resolve_hardware(&c) {
            Ok((r, n)) => Ok((r.freq, n)),
            Err(e) => Err(e),
        }
    };
    assert_eq!(with("uhd", vec![]), Ok((868_500_000, 1)));
    assert_eq!(with("uhd", vec![0]), Ok((868_500_000, 1)));
    assert_eq!(with("uhd", vec![0, 1]), Ok((868_500_000, 2)));
    assert_eq!(with("plutoPAPR", vec![0]), Ok((868_500_000, 1)));
    assert_eq!(with("plutoPAPR", vec![0, 1]), Err(StartError::SingleChainDevice));
    assert_eq!(with("uhd", vec![0, 1, 2]), Err(StartError::TooManyChains(3)));
    assert_eq!(
        StartError::TooManyChains(3).message(),
        "[radio_*] rx_channel.len()=3 unsupported (max 2 for B210/B220)"
    );
    assert_eq!(
        StartError::SingleChainDevice.message(),
        "PlutoSDR has 1 RX channel; [radio_*] rx_channel must be [0] or empty"
    );
    let mut c = config();
    c.trx = None;
    assert_eq!(
        resolve_hardware(&c).unwrap_err().message(),
        "hardware mode requires [trx] in config"
    );
    let mut c = config();
    c.trx.as_mut().unwrap().radio = "other".into();
    assert_eq!(resolve_hardware(&c).unwrap_err(), StartError::NoRadio("other".into()));
}

#[test]
fn listen_before_talk() {
    let ms = 1_000_000u128;
    let policy = |t: u128| Some(LbtPolicy { timeout_ns: t * ms, poll_interval_ns: 10 * ms });
    assert_eq!(lbt_policy(None, true), policy(2000));
    assert_eq!(lbt_policy(None, false), None);
    let mut c = config();
    assert_eq!(lbt_policy(Some(&c), false), policy(2000));
    c.trx.as_mut().unwrap().network.as_mut().unwrap().lbt_timeout_ms = 200;
    assert_eq!(lbt_policy(Some(&c), false), policy(200));
    c.trx.as_mut().unwrap().network.as_mut().unwrap().lbt = false;
    assert_eq!(lbt_policy(Some(&c), true), None);
}

#[test]
fn sinks_are_labelled() {
    let p = resolve(None, None, true).unwrap();
    let t = sink_template(&p, "dev", true);
    assert_eq!(t.decode_label, Some("loopback".to_string()));
    assert_eq!(t.device, Some("dev".to_string()));
    assert_eq!((t.sf, t.bw, t.cr, t.sync_word, t.rx_channel), (7, 125_000, 4, 0x12, Some(0)));
    let t = sink_template(&p, "dev", false);
    assert_eq!(t.decode_label, Some("hardware".to_string()));
    let u = second_chain(&t);
    assert_eq!(u.decode_label, Some("hardware-chan1".to_string()));
    assert_eq!(u.rx_channel, Some(1));
    assert_eq!(u.device, t.device);
    let mut c = config();
    assert_eq!(device_label(Some(&c), false).unwrap(), "soapy_driver=uhd");
    c.device.param = "a=b".into();
    assert_eq!(device_label(Some(&c), false).unwrap(), "soapy_driver=uhd,a=b");
    assert_eq!(build_seify_args("uhd", "x=1,y=2"), "soapy_driver=uhd,x=1,y=2");
}

#[test]
fn where_the_configuration_comes_from() {
    assert_eq!(config_source(true, true), ConfigSource::Given);
    assert_eq!(config_source(true, false), ConfigSource::Given);
    assert_eq!(config_source(false, true), ConfigSource::Absent);
    assert_eq!(config_source(false, false), ConfigSource::Standard);
    let mut c = config();
    assert!(!want_loopback(false, Some(&c)));
    assert!(want_loopback(true, Some(&c)));
    assert!(!want_loopback(false, None));
    c.chirpmunk.loopback = true;
    assert!(want_loopback(false, Some(&c)));
}

#[test]
fn the_standard_place_of_the_configuration() {
    let place = |xdg: Option<&str>, home: Option<&str>| default_config_path(xdg, home);
    assert_eq!(place(Some("/x"), Some("/h")), Some(("/x".to_string(), "chirpmunk/config.toml")));
    assert_eq!(
        place(None, Some("/h")),
        Some(("/h".to_string(), ".config/chirpmunk/config.toml"))
    );
    assert_eq!(place(None, None), None);
}

#[test]
fn antennas_of_a_radio() {
    let mut r = radio(vec![0]);
    assert_eq!(rx_antenna(&r), Some("TX/RX".to_string()));
    assert_eq!(tx_antenna(&r), Some("A".to_string()));
    r.rx_antenna.clear();
    r.tx_antenna.clear();
    assert_eq!(rx_antenna(&r), None);
    assert_eq!(tx_antenna(&r), None);
}

#[test]
fn the_log_filter_is_in_lower_case() {
    assert_eq!(
        log_filter("INFO"),
        "chirpmunk_phy=warn,chirpmunk_blocks=info,chirpmunk_trx=info,chirpmunk_udp=info"
    );
    assert_eq!(log_filter("Debug"), log_filter("debug"));
}

#[test]
fn numbers_in_decimal() {
    for n in [0u64, 7, 9, 10, 99, 100, 65536, u64::MAX] {
        assert_eq!(decimal(n), format!("{n}"));
    }
}

#[test]
fn the_spectrum_feed() {
    assert_eq!(ws_url("http:", "localhost"), "ws://localhost:9001");
    assert_eq!(ws_url("https:", "example.org"), "wss://example.org:9001");
}

#[test]
fn the_message_panel() {
    let target = || MessageInputTarget {
        block_id: 3,
        block_name: "Transmitter".into(),
        handler: "msg".into(),
        source: Source::Canvas,
    };
    assert_eq!(target().caption(), "canvas -> block 3 (Transmitter) / handler 'msg'");
    let mut p = Panel::new();
    assert_eq!(p.submit(), None);
    p.open(target());
    assert_eq!(p.button_text(), "Send");
    assert_eq!(p.submit(), Some((3, "msg".to_string())));
    assert_eq!(p.button_text(), "Sending...");
    p.finished(Some("gone"));
    assert_eq!(p.submit_error, Some("failed to send PMT: gone".to_string()));
    assert!(!p.submitting && p.target.is_some());
    p.submit();
    assert_eq!(p.submit_error, None);
    p.finished(None);
    assert!(p.target.is_none() && !p.submitting);
    p.open(MessageInputTarget { source: Source::Table, ..target() });
    p.key("Enter");
    assert!(p.target.is_some());
    p.key("Escape");
    assert!(p.target.is_none());
    p.open(target());
    p.close();
    assert!(p.target.is_none());
}
