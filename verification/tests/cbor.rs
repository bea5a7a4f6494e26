//! The wire protocol.

use chirpmunk::cbor::{
    peek_type, to_vec, Carrier, Diversity, Error, Frame, LoraFrame, LoraTx, LoraTxAck, Phy,
    Subscribe,
};
use chirpmunk::double::Double;

fn d(v: f64) -> Double {
    Double { bits: v.to_bits() }
}

fn sample_frame() -> LoraFrame {
    LoraFrame {
        ts: "2026-02-17T10:00:00Z".into(),
        seq: 1,
        phy: Phy {
            sf: 8,
            bw: 62500,
            cr: 4,
            crc_valid: true,
            sync_word: 0x12,
            snr_db: d(12.3),
            noise_floor_db: Some(d(-42.1)),
            peak_db: None,
            snr_db_td: None,
            channel_freq: Some(d(869618000.0)),
            decode_bw: None,
            cfo_int: None,
            cfo_frac: None,
            sfo_hat: None,
            sample_rate: None,
            frequency_corrected: None,
            ppm_error: None,
            diversity: None,
        },
        carrier: Carrier { sync_word: 0x12, sf: 8, bw: 62500, cr: 4, ldro_cfg: false },
        payload: b"Hello".to_vec(),
        payload_len: 5,
        crc_valid: true,
        cr: 4,
        is_downchirp: false,
        id: "550e8400-e29b-41d4-a716-446655440000".into(),
        payload_hash: 12345678901234,
        rx_channel: Some(0),
        decode_label: Some("meshcore".into()),
        device: None,
    }
}

#[test]
fn roundtrip_idempotent() {
    let f = sample_frame();
    let a = to_vec(&f).expect("encode");
    let g = LoraFrame::from_slice(&a).expect("decode");
    assert_eq!(f, g);
    let b = to_vec(&g).expect("re-encode");
    assert_eq!(a, b);
}

#[test]
fn peek_type_round() {
    let f = sample_frame();
    let buf = to_vec(&f).unwrap();
    assert_eq!(peek_type(&buf).unwrap(), "lora_frame");
}

#[test]
fn rejects_wrong_type() {
    let mut buf = Vec::new();
    let mut e = minicbor::Encoder::new(&mut buf);
    e.map(1).unwrap().str("type").unwrap().str("subscribe").unwrap();
    let err = LoraFrame::from_slice(&buf).unwrap_err();
    match err {
        Error::UnexpectedType { got, expected } => {
            assert_eq!(got, "subscribe");
            assert_eq!(expected, "lora_frame");
        }
        other => panic!("wrong error variant: {other:?}"),
    }
}

#[test]
fn empty_filter_roundtrips() {
    let s = Subscribe::default();
    let buf = to_vec(&s).unwrap();
    let g = Subscribe::from_slice(&buf).unwrap();
    assert_eq!(s, g);
}

#[test]
fn filter_roundtrips() {
    let s = Subscribe { sync_words: vec![0x12, 0x2B, 0x34] };
    let buf = to_vec(&s).unwrap();
    let g = Subscribe::from_slice(&buf).unwrap();
    assert_eq!(s, g);
}

#[test]
fn lora_tx_minimal_roundtrip() {
    let req = LoraTx { payload: b"hello".to_vec(), ..LoraTx::default() };
    let buf = to_vec(&req).unwrap();
    let g = LoraTx::from_slice(&buf).unwrap();
    assert_eq!(req, g);
}

#[test]
fn lora_tx_full_roundtrip() {
    let req = LoraTx {
        payload: b"data".to_vec(),
        seq: Some(7),
        cr: Some(4),
        sync_word: Some(0x12),
        preamble_len: Some(16),
        repeat: Some(3),
        gap_ms: Some(500),
        dry_run: true,
    };
    let buf = to_vec(&req).unwrap();
    let g = LoraTx::from_slice(&buf).unwrap();
    assert_eq!(req, g);
}

#[test]
fn ack_roundtrips() {
    let a = LoraTxAck::ok(42);
    let buf = to_vec(&a).unwrap();
    assert_eq!(LoraTxAck::from_slice(&buf).unwrap(), a);

    let b = LoraTxAck::err(43, "channel_busy");
    let buf = to_vec(&b).unwrap();
    assert_eq!(LoraTxAck::from_slice(&buf).unwrap(), b);
}

#[test]
fn missing_payload_rejected() {
    let mut buf = Vec::new();
    let mut e = minicbor::Encoder::new(&mut buf);
    e.map(1).unwrap().str("type").unwrap().str("lora_tx").unwrap();
    let err = LoraTx::from_slice(&buf).unwrap_err();
    assert!(matches!(err, Error::MissingField("payload")));
}

#[test]
fn all_phy_fields_and_diversity_roundtrip() {
    let mut f = sample_frame();
    f.phy.peak_db = Some(d(-3.5));
    f.phy.snr_db_td = Some(d(0.1));
    f.phy.decode_bw = Some(d(62500.0));
    f.phy.cfo_int = Some(d(-2.0));
    f.phy.cfo_frac = Some(d(0.25));
    f.phy.sfo_hat = Some(d(f64::MIN_POSITIVE));
    f.phy.sample_rate = Some(d(1e6));
    f.phy.frequency_corrected = Some(d(868.1e6));
    f.phy.ppm_error = Some(d(-0.0));
    f.phy.diversity = Some(Diversity {
        antennas: vec![0, 1, 200],
        snr_db_max: d(12.3),
        snr_db_per_ant: vec![d(12.3), d(8.7), d(-1.0)],
    });
    f.device = Some("31DE7F5".into());
    f.ts = "caf\u{e9} \u{4e2d}\u{1f600}".into();
    let a = to_vec(&f).unwrap();
    assert_eq!(LoraFrame::from_slice(&a).unwrap(), f);
    // What stands behind the frame is not looked at.
    let mut longer = a.clone();
    longer.extend_from_slice(&[1, 2, 3]);
    assert_eq!(LoraFrame::from_slice(&longer).unwrap(), f);
}

#[test]
fn exact_bytes_of_small_frames() {
    assert_eq!(
        to_vec(&Subscribe::default()).unwrap(),
        b"\xa1\x64type\x69subscribe".to_vec()
    );
    assert_eq!(
        to_vec(&Subscribe { sync_words: vec![0x12, 0x18, 0x100, 0xffff] }).unwrap(),
        b"\xa2\x64type\x69subscribe\x69sync_word\x84\x12\x18\x18\x19\x01\x00\x19\xff\xff".to_vec()
    );
    assert_eq!(
        to_vec(&LoraTxAck::ok(0x1_0000_0000)).unwrap(),
        b"\xa3\x64type\x6blora_tx_ack\x63seq\x1b\x00\x00\x00\x01\x00\x00\x00\x00\x62ok\xf5".to_vec()
    );
    assert_eq!(
        to_vec(&LoraTxAck::err(65536, "x")).unwrap(),
        b"\xa4\x64type\x6blora_tx_ack\x63seq\x1a\x00\x01\x00\x00\x62ok\xf4\x65error\x61x".to_vec()
    );
    let tx = LoraTx { payload: vec![9; 30], cr: Some(5), ..LoraTx::default() };
    let mut want = b"\xa3\x64type\x67lora_tx\x67payload\x58\x1e".to_vec();
    want.extend_from_slice(&[9; 30]);
    want.extend_from_slice(b"\x62cr\x05");
    assert_eq!(to_vec(&tx).unwrap(), want);
}

#[test]
fn double_precision_on_the_wire() {
    let bytes = to_vec(&sample_frame()).unwrap();
    let mut item = vec![0x66];
    item.extend_from_slice(b"snr_db");
    item.push(0xfb);
    item.extend_from_slice(&12.3f64.to_be_bytes());
    assert!(bytes.windows(item.len()).any(|w| w == item.as_slice()));
}

/// A phy record with `snr_db` written by `put`.
fn frame_with_snr(put: fn(&mut Vec<u8>)) -> Vec<u8> {
    let mut out = Vec::new();
    {
        let mut e = minicbor::Encoder::new(&mut out);
        e.map(12).unwrap();
        e.str("type").unwrap().str("lora_frame").unwrap();
        e.str("ts").unwrap().str("t").unwrap();
        e.str("seq").unwrap().u64(1).unwrap();
        e.str("carrier").unwrap().map(5).unwrap();
        e.str("sync_word").unwrap().u16(0x12).unwrap();
        e.str("sf").unwrap().u8(7).unwrap();
        e.str("bw").unwrap().u32(125000).unwrap();
        e.str("cr").unwrap().u8(1).unwrap();
        e.str("ldro_cfg").unwrap().bool(true).unwrap();
        e.str("payload").unwrap().bytes(b"p").unwrap();
        e.str("payload_len").unwrap().u32(1).unwrap();
        e.str("crc_valid").unwrap().bool(false).unwrap();
        e.str("cr").unwrap().u8(1).unwrap();
        e.str("is_downchirp").unwrap().bool(true).unwrap();
        e.str("id").unwrap().str("i").unwrap();
        e.str("payload_hash").unwrap().u64(2).unwrap();
        e.str("phy").unwrap().map(6).unwrap();
        e.str("sf").unwrap().u8(7).unwrap();
        e.str("bw").unwrap().u32(125000).unwrap();
        e.str("cr").unwrap().u8(1).unwrap();
        e.str("crc_valid").unwrap().bool(true).unwrap();
        e.str("sync_word").unwrap().u16(0x12).unwrap();
        e.str("snr_db").unwrap();
    }
    put(&mut out);
    out
}

fn snr_of(put: fn(&mut Vec<u8>)) -> Result<f64, Error> {
    LoraFrame::from_slice(&frame_with_snr(put)).map(|f| f64::from_bits(f.phy.snr_db.bits))
}

#[test]
fn narrower_floats_are_widened() {
    assert_eq!(snr_of(|o| o.extend_from_slice(&[0xf9, 0x3c, 0x00])).unwrap(), 1.0);
    assert_eq!(snr_of(|o| o.extend_from_slice(&[0xf9, 0xc5, 0x00])).unwrap(), -5.0);
    // The smallest positive half-precision number.
    assert_eq!(snr_of(|o| o.extend_from_slice(&[0xf9, 0x00, 0x01])).unwrap(), 2f64.powi(-24));
    assert_eq!(snr_of(|o| o.extend_from_slice(&[0xf9, 0x80, 0x00])).unwrap().to_bits(), (-0.0f64).to_bits());
    assert_eq!(snr_of(|o| o.extend_from_slice(&[0xf9, 0x7c, 0x00])).unwrap(), f64::INFINITY);
    assert!(snr_of(|o| o.extend_from_slice(&[0xf9, 0x7e, 0x00])).unwrap().is_nan());
    assert_eq!(
        snr_of(|o| {
            o.push(0xfa);
            o.extend_from_slice(&12.3f32.to_be_bytes());
        })
        .unwrap(),
        12.3f32 as f64
    );
    assert_eq!(
        snr_of(|o| {
            o.push(0xfa);
            o.extend_from_slice(&f32::from_bits(3).to_be_bytes());
        })
        .unwrap(),
        f32::from_bits(3) as f64
    );
    assert_eq!(
        snr_of(|o| {
            o.push(0xfb);
            o.extend_from_slice(&(-0.5f64).to_be_bytes());
        })
        .unwrap(),
        -0.5
    );
}

#[test]
fn other_items_are_no_floats() {
    match snr_of(|o| o.push(0x05)).unwrap_err() {
        Error::Decode(t) => assert_eq!(t, "expected float, got U8"),
        other => panic!("{other:?}"),
    }
    match snr_of(|o| o.push(0xf5)).unwrap_err() {
        Error::Decode(t) => assert_eq!(t, "expected float, got Bool"),
        other => panic!("{other:?}"),
    }
    match snr_of(|o| o.extend_from_slice(&[0xfb, 0, 0])).unwrap_err() {
        Error::Decode(t) => assert_eq!(t, "end of input bytes"),
        other => panic!("{other:?}"),
    }
    match snr_of(|_| ()).unwrap_err() {
        Error::Decode(t) => assert_eq!(t, "end of input bytes"),
        other => panic!("{other:?}"),
    }
}

#[test]
fn last_of_a_repeated_key_counts() {
    let mut buf = Vec::new();
    let mut e = minicbor::Encoder::new(&mut buf);
    e.map(5).unwrap();
    e.str("ok").unwrap().bool(true).unwrap();
    e.str("seq").unwrap().u64(1).unwrap();
    e.str("seq").unwrap().u64(2).unwrap();
    e.str("ok").unwrap().bool(false).unwrap();
    e.str("type").unwrap().str("lora_tx_ack").unwrap();
    let a = LoraTxAck::from_slice(&buf).unwrap();
    assert_eq!(a, LoraTxAck { seq: 2, ok: false, error: None });
}

#[test]
fn repeated_sync_word_lists_add_up() {
    let mut buf = Vec::new();
    let mut e = minicbor::Encoder::new(&mut buf);
    e.map(3).unwrap();
    e.str("sync_word").unwrap().array(2).unwrap().u16(1).unwrap().u16(2).unwrap();
    e.str("type").unwrap().str("subscribe").unwrap();
    e.str("sync_word").unwrap().array(1).unwrap().u16(3).unwrap();
    assert_eq!(Subscribe::from_slice(&buf).unwrap().sync_words, vec![1, 2, 3]);
}

#[test]
fn unknown_keys_are_passed_over() {
    let mut buf = Vec::new();
    let mut e = minicbor::Encoder::new(&mut buf);
    e.map(4).unwrap();
    e.str("future").unwrap().array(2).unwrap().map(1).unwrap().str("a").unwrap().null().unwrap();
    e.bytes(b"xyz").unwrap();
    e.str("type").unwrap().str("lora_tx").unwrap();
    e.str("antennas").unwrap().str("known elsewhere").unwrap();
    e.str("payload").unwrap().bytes(b"ok").unwrap();
    assert_eq!(peek_type(&buf).unwrap(), "lora_tx");
    let tx = LoraTx::from_slice(&buf).unwrap();
    assert_eq!(tx.payload, b"ok".to_vec());
    assert_eq!(tx.seq, None);
}

#[test]
fn errors_of_the_decoder_are_handed_on() {
    match LoraTx::from_slice(&[]).unwrap_err() {
        Error::Decode(t) => assert_eq!(t, "end of input bytes"),
        other => panic!("{other:?}"),
    }
    match LoraTx::from_slice(&[0x05]).unwrap_err() {
        Error::Decode(t) => assert_eq!(t, "unexpected type u8 at position 0: expected map"),
        other => panic!("{other:?}"),
    }
    // A map of indefinite length.
    match LoraTx::from_slice(&[0xbf, 0xff]).unwrap_err() {
        Error::Decode(t) => assert_eq!(t, "expected map"),
        other => panic!("{other:?}"),
    }
    match peek_type(&[0xbf, 0xff]).unwrap_err() {
        Error::Decode(t) => assert_eq!(t, "not a CBOR map"),
        other => panic!("{other:?}"),
    }
    match peek_type(&[0xa0]).unwrap_err() {
        Error::MissingField(t) => assert_eq!(t, "type"),
        other => panic!("{other:?}"),
    }
    // Keys have to be text.
    match LoraTx::from_slice(&[0xa1, 0x01, 0x01]).unwrap_err() {
        Error::Decode(t) => {
            assert_eq!(t, "unexpected type u8 at position 1: expected text (definite length)")
        }
        other => panic!("{other:?}"),
    }
    // Text has to be UTF-8.
    match LoraTx::from_slice(&[0xa1, 0x61, 0xff, 0x01]).unwrap_err() {
        Error::Decode(t) => assert_eq!(t, "invalid utf-8 at position 1"),
        other => panic!("{other:?}"),
    }
    // A value that is cut short.
    match peek_type(b"\xa1\x61x\x58").unwrap_err() {
        Error::Decode(t) => assert_eq!(t, "end of input bytes"),
        other => panic!("{other:?}"),
    }
}

#[test]
fn numbers_beyond_their_range_are_refused() {
    let with = |key: &str, n: u64| {
        let mut buf = Vec::new();
        let mut e = minicbor::Encoder::new(&mut buf);
        e.map(3).unwrap();
        e.str("type").unwrap().str("lora_tx").unwrap();
        e.str("payload").unwrap().bytes(b"p").unwrap();
        e.str(key).unwrap().u64(n).unwrap();
        LoraTx::from_slice(&buf)
    };
    assert_eq!(with("cr", 255).unwrap().cr, Some(255));
    assert!(matches!(with("cr", 256), Err(Error::Decode(_))));
    assert_eq!(with("sync_word", 65535).unwrap().sync_word, Some(65535));
    assert!(matches!(with("sync_word", 65536), Err(Error::Decode(_))));
    assert_eq!(with("repeat", 4294967295).unwrap().repeat, Some(4294967295));
    assert!(matches!(with("repeat", 4294967296), Err(Error::Decode(_))));
    assert_eq!(with("seq", u64::MAX).unwrap().seq, Some(u64::MAX));
    assert!(matches!(with("dry_run", 1), Err(Error::Decode(_))));
    match with("cr", 300) {
        Err(Error::Decode(t)) => {
            assert_eq!(t, "300 overflows target type at position 27: when converting u16 to u8")
        }
        other => panic!("{other:?}"),
    }
}

#[test]
fn missing_fields_are_named_in_order() {
    let f = sample_frame();
    let full = to_vec(&f).unwrap();
    // Rename one key after the other, so that it is passed over.
    let without = |key: &str| {
        let mut item = vec![0x60 + key.len() as u8];
        item.extend_from_slice(key.as_bytes());
        let at = full.windows(item.len()).position(|w| w == item.as_slice()).unwrap();
        let mut bytes = full.clone();
        bytes[at + 1] = b'_';
        LoraFrame::from_slice(&bytes).unwrap_err()
    };
    assert!(matches!(without("type"), Error::MissingField("type")));
    assert!(matches!(without("ts"), Error::MissingField("ts")));
    assert!(matches!(without("seq"), Error::MissingField("seq")));
    assert!(matches!(without("phy"), Error::MissingField("phy")));
    assert!(matches!(without("carrier"), Error::MissingField("carrier")));
    assert!(matches!(without("payload"), Error::MissingField("payload")));
    assert!(matches!(without("payload_len"), Error::MissingField("payload_len")));
    assert!(matches!(without("is_downchirp"), Error::MissingField("is_downchirp")));
    assert!(matches!(without("id"), Error::MissingField("id")));
    assert!(matches!(without("payload_hash"), Error::MissingField("payload_hash")));
    assert!(matches!(without("sf"), Error::MissingField("phy.sf")));
    assert!(matches!(without("bw"), Error::MissingField("phy.bw")));
    assert!(matches!(without("snr_db"), Error::MissingField("phy.snr_db")));
    assert!(matches!(without("sync_word"), Error::MissingField("phy.sync_word")));
    assert!(matches!(without("ldro_cfg"), Error::MissingField("carrier.ldro_cfg")));
    let ack = |n: u64, key: &str| {
        let mut buf = Vec::new();
        let mut e = minicbor::Encoder::new(&mut buf);
        e.map(2).unwrap().str("type").unwrap().str("lora_tx_ack").unwrap();
        e.str(key).unwrap().u64(n).unwrap();
        LoraTxAck::from_slice(&buf).unwrap_err()
    };
    assert!(matches!(ack(1, "other"), Error::MissingField("seq")));
    assert!(matches!(ack(1, "seq"), Error::MissingField("ok")));
}

#[test]
fn incomplete_diversity_is_refused() {
    let put = |o: &mut Vec<u8>, keys: &[&str]| {
        let mut e = minicbor::Encoder::new(o);
        e.map(keys.len() as u64).unwrap();
        for k in keys {
            e.str(k).unwrap();
            match *k {
                "antennas" => e.array(1).unwrap().u8(3).unwrap(),
                "snr_db_max" => e.f64(1.0).unwrap(),
                _ => e.array(1).unwrap().f32(1.0).unwrap(),
            };
        }
    };
    let with = |keys: &[&str]| {
        // A phy record of two entries is enough to see the inner error first.
        let mut out = Vec::new();
        {
            let mut e = minicbor::Encoder::new(&mut out);
            e.map(1).unwrap().str("phy").unwrap().map(1).unwrap().str("diversity").unwrap();
        }
        put(&mut out, keys);
        LoraFrame::from_slice(&out).unwrap_err()
    };
    assert!(matches!(with(&[]), Error::MissingField("phy.diversity.antennas")));
    assert!(matches!(with(&["antennas"]), Error::MissingField("phy.diversity.snr_db_max")));
    assert!(matches!(
        with(&["antennas", "snr_db_max"]),
        Error::MissingField("phy.diversity.snr_db_per_ant")
    ));
    assert!(matches!(
        with(&["antennas", "snr_db_max", "snr_db_per_ant"]),
        Error::MissingField("phy.sf")
    ));
}

#[test]
fn lists_of_indefinite_length_are_refused() {
    match Subscribe::from_slice(b"\xa1\x69sync_word\x9f\xff").unwrap_err() {
        Error::Decode(t) => assert_eq!(t, "sync_word expected array"),
        other => panic!("{other:?}"),
    }
    match Subscribe::from_slice(b"\xa1\x69sync_word\x01").unwrap_err() {
        Error::Decode(t) => assert_eq!(t, "unexpected type u8 at position 11: expected array"),
        other => panic!("{other:?}"),
    }
    // A list that promises more than there is.
    assert!(matches!(
        Subscribe::from_slice(b"\xa1\x69sync_word\x9b\xff\xff\xff\xff\xff\xff\xff\xff\x01"),
        Err(Error::Decode(_))
    ));
}

#[test]
fn type_texts() {
    assert_eq!(<LoraFrame as Frame>::TYPE, "lora_frame");
    assert_eq!(<Subscribe as Frame>::TYPE, "subscribe");
    assert_eq!(<LoraTx as Frame>::TYPE, "lora_tx");
    assert_eq!(<LoraTxAck as Frame>::TYPE, "lora_tx_ack");
    assert_eq!(peek_type(&to_vec(&Subscribe::default()).unwrap()).unwrap(), "subscribe");
    assert_eq!(peek_type(&to_vec(&LoraTxAck::ok(1)).unwrap()).unwrap(), "lora_tx_ack");
    let tx = LoraTx { payload: vec![1], ..LoraTx::default() };
    assert_eq!(peek_type(&to_vec(&tx).unwrap()).unwrap(), "lora_tx");
}

#[test]
fn keys_stand_in_any_order() {
    let mut f = sample_frame();
    f.phy.diversity = Some(Diversity {
        antennas: vec![0, 1],
        snr_db_max: d(12.5),
        snr_db_per_ant: vec![d(12.5), d(8.75)],
    });
    let mut buf = Vec::new();
    let mut e = minicbor::Encoder::new(&mut buf);
    e.map(16).unwrap();
    e.str("decode_label").unwrap().str("meshcore").unwrap();
    e.str("payload_hash").unwrap().u64(12345678901234).unwrap();
    e.str("future").unwrap().map(1).unwrap().u8(1).unwrap().null().unwrap();
    e.str("phy").unwrap().map(10).unwrap();
    e.str("snr_db").unwrap().f64(12.3).unwrap();
    e.str("diversity").unwrap().map(4).unwrap();
    e.str("snr_db_per_ant").unwrap().array(2).unwrap().f64(12.5).unwrap().f64(8.75).unwrap();
    e.str("sf").unwrap().u8(3).unwrap();
    e.str("antennas").unwrap().array(2).unwrap().u8(0).unwrap().u8(1).unwrap();
    e.str("snr_db_max").unwrap().f64(12.5).unwrap();
    e.str("payload").unwrap().begin_array().unwrap().u8(9).unwrap().end().unwrap();
    e.str("channel_freq").unwrap().f64(869618000.0).unwrap();
    e.str("sync_word").unwrap().u16(0x12).unwrap();
    e.str("noise_floor_db").unwrap().f64(-42.1).unwrap();
    e.str("crc_valid").unwrap().bool(true).unwrap();
    e.str("cr").unwrap().u8(4).unwrap();
    e.str("bw").unwrap().u32(62500).unwrap();
    e.str("sf").unwrap().u8(8).unwrap();
    e.str("rx_channel").unwrap().u32(0).unwrap();
    e.str("id").unwrap().str("550e8400-e29b-41d4-a716-446655440000").unwrap();
    e.str("is_downchirp").unwrap().bool(false).unwrap();
    e.str("cr").unwrap().u8(4).unwrap();
    e.str("crc_valid").unwrap().bool(true).unwrap();
    e.str("carrier").unwrap().map(6).unwrap();
    e.str("ldro_cfg").unwrap().bool(false).unwrap();
    e.str("cr").unwrap().u8(4).unwrap();
    e.str("").unwrap().bytes(b"?").unwrap();
    e.str("bw").unwrap().u32(62500).unwrap();
    e.str("sf").unwrap().u8(8).unwrap();
    e.str("sync_word").unwrap().u16(0x12).unwrap();
    e.str("payload_len").unwrap().u32(5).unwrap();
    e.str("payload").unwrap().bytes(b"Hello").unwrap();
    e.str("seq").unwrap().u64(1).unwrap();
    e.str("ts").unwrap().str("2026-02-17T10:00:00Z").unwrap();
    e.str("future").unwrap().u8(0).unwrap();
    e.str("type").unwrap().str("lora_frame").unwrap();
    assert_eq!(LoraFrame::from_slice(&buf).unwrap(), f);
    assert_eq!(LoraFrame::from_slice(&to_vec(&f).unwrap()).unwrap(), f);
}

/// A request with `value` under a key that it does not know.
fn tx_with_unknown(value: &[u8]) -> Vec<u8> {
    let mut out = Vec::new();
    {
        let mut e = minicbor::Encoder::new(&mut out);
        e.map(3).unwrap();
        e.str("type").unwrap().str("lora_tx").unwrap();
        e.str("future").unwrap();
    }
    out.extend_from_slice(value);
    let mut e = minicbor::Encoder::new(&mut out);
    e.str("payload").unwrap().bytes(b"behind").unwrap();
    out
}

#[test]
fn values_of_indefinite_length_are_passed_over() {
    let values: [&[u8]; 18] = [
        &[0x9f, 0xff],
        &[0xbf, 0xff],
        &[0x5f, 0xff],
        &[0x7f, 0xff],
        &[0x5f, 0x41, 0xff, 0x40, 0x42, 0x00, 0x01, 0xff],
        &[0x7f, 0x62, 0xc3, 0xa9, 0x60, 0xff],
        &[0x9f, 0x01, 0x82, 0x02, 0x03, 0xff],
        &[0x82, 0x9f, 0x01, 0xff, 0x02],
        &[0x83, 0x9f, 0xff, 0x01, 0x02],
        &[0x83, 0x01, 0x02, 0x9f, 0x82, 0x9f, 0xff, 0x03, 0xff],
        &[0x9f, 0x83, 0x9f, 0xff, 0x01, 0x02, 0xff],
        &[0x9f, 0x82, 0x9f, 0x83, 0x9f, 0xff, 0x01, 0x02, 0xff, 0x04, 0xff],
        &[0x82, 0x01, 0x9f, 0x83, 0x9f, 0xff, 0x01, 0x02, 0x05, 0xff],
        &[0xbf, 0x61, 0x61, 0x9f, 0xff, 0x61, 0x62, 0xbf, 0x01, 0x02, 0xff, 0xff],
        &[0xa2, 0x61, 0x61, 0xbf, 0xff, 0x61, 0x62, 0x9f, 0x9f, 0xff, 0xff],
        &[0xc1, 0x9f, 0x01, 0xff],
        &[0x9f, 0xc1, 0x5f, 0x41, 0x00, 0xff, 0x80, 0xa0, 0xff],
        &[0x84, 0x80, 0x9f, 0xa1, 0x01, 0x9f, 0xff, 0xff, 0x9f, 0x82, 0x01, 0x02, 0xff, 0xf6],
    ];
    for value in values {
        let tx = LoraTx::from_slice(&tx_with_unknown(value));
        assert_eq!(tx.unwrap().payload, b"behind".to_vec(), "{value:x?}");
    }
    // Without its break the value takes what stands behind it.
    assert!(LoraTx::from_slice(&tx_with_unknown(&[0x9f, 0x01])).is_err());
    assert!(LoraTx::from_slice(&tx_with_unknown(&[0x5f, 0x61, 0x61, 0xff])).is_err());
}
