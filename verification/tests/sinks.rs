//! The frame sink and the hardware sinks.

use chirpmunk::blocks::frame_sink::{
    assemble, fnv1a_64, Annotations, Datum, FrameSink, FrameSinkConfig, Handled, Message, Telemetry,
};
use chirpmunk::blocks::iio_direct::{
    iio_args, iio_rx_step, Chunk, IioDirectSink, IioRead, IioTxStep,
};
use chirpmunk::blocks::soapy_direct::{
    channel_gain, common_room, soapy_rx_step, translate_args, RxRead, RxStep, SoapyDirectSink, TxStep, Written,
};
use chirpmunk::double::Double;

fn d(v: f64) -> Double {
    Double { bits: v.to_bits() }
}

fn cfg() -> FrameSinkConfig {
    FrameSinkConfig {
        sf: 7,
        bw: 125_000,
        cr: 4,
        sync_word: 0x12,
        device: None,
        decode_label: Some("m3-tx".into()),
        rx_channel: Some(0),
    }
}

#[test]
fn fnv_known_vectors() {
    assert_eq!(fnv1a_64(b""), 0xcbf29ce484222325);
    assert_eq!(fnv1a_64(b"a"), 0xaf63dc4c8601ec8c);
    assert_eq!(fnv1a_64(b"foobar"), 0x85944171f73967e8);
}

#[test]
fn a_blob_becomes_a_frame() {
    let mut sink = FrameSink::new(cfg());
    assert_eq!(sink.sync_word(), 0x12);
    let f = match sink.handle(Message::Blob(b"hello".to_vec())) {
        Handled::Frame(f) => f,
        other => panic!("{other:?}"),
    };
    assert_eq!(f.seq, 1);
    assert_eq!(f.payload, b"hello".to_vec());
    assert_eq!(f.payload_len, 5);
    assert_eq!(f.payload_hash, fnv1a_64(b"hello"));
    assert_eq!(f.phy.snr_db, d(0.0));
    assert_eq!(f.phy.noise_floor_db, None);
    assert_eq!(f.decode_label, Some("m3-tx".to_string()));
    assert_eq!(f.carrier.bw, 125_000);
    assert!(f.ts.ends_with("+00:00"), "{}", f.ts);
    assert_eq!(&f.ts[4..5], "-");
    assert_eq!(&f.ts[7..8], "-");
    assert_eq!(&f.ts[10..11], "T");
    assert_eq!(&f.ts[13..14], ":");
    assert_eq!(&f.ts[16..17], ":");
    assert!([25, 29, 32, 35].contains(&f.ts.len()), "{}", f.ts);
    assert_eq!(f.id.len(), 36);
    assert_eq!(&f.id[14..15], "4");
    let g = match sink.handle(Message::Blob(b"hello".to_vec())) {
        Handled::Frame(g) => g,
        other => panic!("{other:?}"),
    };
    assert_eq!(g.seq, 2);
    assert_ne!(g.id, f.id);
}

#[test]
fn annotations_are_picked_out() {
    let mut sink = FrameSink::new(cfg());
    let entries = vec![
        ("snr_db".to_string(), Datum::Double(d(1.0))),
        ("snr".to_string(), Datum::Single(12.5f32.to_bits())),
        ("noise_floor_db".to_string(), Datum::Double(d(-90.0))),
        ("noise_floor".to_string(), Datum::Double(d(f64::NAN))),
        ("cfo_int".to_string(), Datum::Signed(-3)),
        ("sample_rate".to_string(), Datum::Unsigned(500_000)),
        ("peak_db".to_string(), Datum::Double(d(f64::INFINITY))),
        ("ppm_error".to_string(), Datum::Bool(true)),
        ("payload".to_string(), Datum::Blob(b"hello\x01\x02".to_vec())),
        ("has_crc".to_string(), Datum::Bool(true)),
    ];
    let f = match sink.handle(Message::Annotated(Annotations { entries })) {
        Handled::Frame(f) => f,
        other => panic!("{other:?}"),
    };
    assert_eq!(f.payload, b"hello".to_vec());
    assert_eq!(f.payload_len, 5);
    assert_eq!(f.phy.snr_db, d(12.5));
    assert_eq!(f.phy.noise_floor_db, Some(d(-90.0)));
    assert_eq!(f.phy.cfo_int, Some(d(-3.0)));
    assert_eq!(f.phy.sample_rate, Some(d(500_000.0)));
    assert_eq!(f.phy.peak_db, None);
    assert_eq!(f.phy.ppm_error, None);
}

#[test]
fn checksums_are_dropped_only_where_there_are_any() {
    let mut sink = FrameSink::new(cfg());
    let mut payload_of = |payload: &[u8], has_crc: Option<bool>| {
        let mut entries = vec![("payload".to_string(), Datum::Blob(payload.to_vec()))];
        if let Some(b) = has_crc {
            entries.push(("has_crc".to_string(), Datum::Bool(b)));
        }
        match sink.handle(Message::Annotated(Annotations { entries })) {
            Handled::Frame(f) => f.payload,
            other => panic!("{other:?}"),
        }
    };
    assert_eq!(payload_of(b"abc", Some(true)), b"a".to_vec());
    assert_eq!(payload_of(b"ab", Some(true)), b"".to_vec());
    assert_eq!(payload_of(b"a", Some(true)), b"a".to_vec());
    assert_eq!(payload_of(b"abc", Some(false)), b"abc".to_vec());
    assert_eq!(payload_of(b"abc", None), b"abc".to_vec());
}

#[test]
fn other_messages_leave_the_sink_alone() {
    let mut sink = FrameSink::new(cfg());
    assert_eq!(sink.handle(Message::Other), Handled::Invalid);
    assert_eq!(sink.handle(Message::Finished), Handled::Finished);
    let entries = vec![("payload".to_string(), Datum::Bool(true))];
    assert_eq!(sink.handle(Message::Annotated(Annotations { entries })), Handled::Invalid);
    assert_eq!(
        sink.handle(Message::Annotated(Annotations { entries: Vec::new() })),
        Handled::Invalid
    );
    match sink.handle(Message::Blob(vec![1])) {
        Handled::Frame(f) => assert_eq!(f.seq, 1),
        other => panic!("{other:?}"),
    }
}

#[test]
fn frames_are_assembled_from_their_parts() {
    let f = assemble(
        &cfg(),
        9,
        b"pay".to_vec(),
        Telemetry { snr_db: Some(d(3.0)), peak_db: Some(d(4.0)), ..Telemetry::default() },
        "now".to_string(),
        "me".to_string(),
    );
    assert_eq!(f.ts, "now");
    assert_eq!(f.id, "me");
    assert_eq!(f.seq, 9);
    assert_eq!(f.phy.snr_db, d(3.0));
    assert_eq!(f.phy.peak_db, Some(d(4.0)));
    assert!(f.crc_valid && f.phy.crc_valid && !f.is_downchirp && !f.carrier.ldro_cfg);
    assert_eq!(f.phy.diversity, None);
}

#[test]
fn device_arguments_are_translated() {
    assert_eq!(translate_args("soapy_driver=uhd"), "driver=uhd");
    assert_eq!(
        translate_args("soapy_driver=uhd,master_clock_rate=24000000"),
        "driver=uhd,master_clock_rate=24000000"
    );
    assert_eq!(translate_args("driver=uhd"), "driver=uhd");
    assert_eq!(translate_args("soapy_driver=soapy_driver=x"), "driver=driver=x");
    assert_eq!(translate_args(""), "");
    assert_eq!(iio_args("ip:192.168.2.1"), "driver=iio, uri=ip:192.168.2.1");
    assert_eq!(channel_gain(0, d(50.0)), d(50.0));
    assert_eq!(channel_gain(1, d(50.0)), d(0.0));
}

#[test]
fn receive_reads() {
    assert_eq!(soapy_rx_step(RxRead::Samples(17)), RxStep::Produce(17));
    assert_eq!(soapy_rx_step(RxRead::Overflow), RxStep::Wait);
    assert_eq!(soapy_rx_step(RxRead::Timeout), RxStep::Wait);
    assert_eq!(soapy_rx_step(RxRead::Failed), RxStep::Finish);
    assert_eq!(iio_rx_step(IioRead::Samples(3)), RxStep::Produce(3));
    assert_eq!(iio_rx_step(IioRead::Overflow), RxStep::Wait);
    assert_eq!(iio_rx_step(IioRead::Inactive), RxStep::Finish);
    assert_eq!(iio_rx_step(IioRead::Failed), RxStep::Finish);
    assert_eq!(common_room(3, 5), 3);
    assert_eq!(common_room(5, 3), 3);
}

#[test]
fn a_burst_is_written_in_chunks() {
    let mut sink: SoapyDirectSink<u32> = SoapyDirectSink::new(Some(10));
    assert_eq!(sink.mtu, 10);
    let mut sent: Vec<u32> = Vec::new();
    let input: Vec<u32> = (0..25).collect();
    assert_eq!(sink.work(&[]), TxStep::Sleep(5));
    assert_eq!(sink.work(&input[..20]), TxStep::Consume(20));
    assert_eq!(sink.work(&input[20..]), TxStep::Consume(5));
    assert_eq!(sink.work(&[]), TxStep::ActivateAndWrite { start: 0, len: 10 });
    sent.extend_from_slice(&sink.write_burst[0..7]);
    assert_eq!(sink.wrote(7), Written::More);
    // While a burst is written, input waits.
    assert_eq!(sink.work(&[99]), TxStep::Write { start: 7, len: 10 });
    assert_eq!(sink.flush(), Some((7, 10)));
    sent.extend_from_slice(&sink.write_burst[7..17]);
    assert_eq!(sink.wrote(10), Written::More);
    assert_eq!(sink.work(&[99]), TxStep::Write { start: 17, len: 8 });
    assert_eq!(sink.wrote(0), Written::Stalled);
    assert_eq!(sink.work(&[99]), TxStep::Write { start: 17, len: 8 });
    sent.extend_from_slice(&sink.write_burst[17..25]);
    assert_eq!(sink.wrote(8), Written::Deactivate);
    assert_eq!(sent, input);
    assert_eq!(sink.flush(), None);
    assert_eq!(sink.work(&[99]), TxStep::Consume(1));
    assert_eq!(sink.work(&[]), TxStep::ActivateAndWrite { start: 0, len: 1 });
    sink.activation_failed();
    assert_eq!(sink.work(&[]), TxStep::Sleep(5));
}

#[test]
fn chunks_are_bounded() {
    let sink: SoapyDirectSink<u8> = SoapyDirectSink::new(Some(1_000_000));
    assert_eq!(sink.mtu, 2040);
    let sink: SoapyDirectSink<u8> = SoapyDirectSink::new(None);
    assert_eq!(sink.mtu, 2040);
}

#[test]
fn the_iio_sink_marks_the_last_chunk() {
    let mut sink: IioDirectSink<u16> = IioDirectSink::new();
    assert_eq!(sink.work(&[]), IioTxStep::Sleep(5));
    let input = vec![7u16; 2041];
    assert_eq!(sink.work(&input), IioTxStep::Consume(2041));
    let first = Chunk { start: 0, len: 2040, end_burst: false };
    assert_eq!(sink.work(&[]), IioTxStep::Write(first));
    sink.wrote();
    // Input is taken in even while a burst is written.
    assert_eq!(sink.work(&[1, 2]), IioTxStep::Consume(2));
    assert_eq!(
        sink.work(&[]),
        IioTxStep::Write(Chunk { start: 2040, len: 3, end_burst: true })
    );
    sink.wrote();
    assert_eq!(sink.work(&[]), IioTxStep::Sleep(5));
    assert_eq!(sink.work(&vec![1u16; 5000]), IioTxStep::Consume(5000));
    let (held, plan) = sink.drain();
    assert_eq!(held.len(), 5000);
    assert_eq!(
        plan,
        vec![
            Chunk { start: 0, len: 2040, end_burst: false },
            Chunk { start: 2040, len: 2040, end_burst: false },
            Chunk { start: 4080, len: 920, end_burst: true },
        ]
    );
    assert_eq!(sink.drain().1, vec![]);
}

#[test]
fn draining_amid_a_burst_sends_only_the_rest() {
    let mut sink: IioDirectSink<u32> = IioDirectSink::new();
    let input: Vec<u32> = (0..5000).collect();
    assert_eq!(sink.work(&input), IioTxStep::Consume(5000));
    let mut sent: Vec<u32> = Vec::new();
    match sink.work(&[]) {
        IioTxStep::Write(c) => sent.extend_from_slice(&sink.pending[c.start..c.start + c.len]),
        other => panic!("{other:?}"),
    }
    sink.wrote();
    let (held, plan) = sink.drain();
    assert_eq!(
        plan,
        vec![
            Chunk { start: 2040, len: 2040, end_burst: false },
            Chunk { start: 4080, len: 920, end_burst: true },
        ]
    );
    for c in plan {
        sent.extend_from_slice(&held[c.start..c.start + c.len]);
    }
    assert_eq!(sent, input);
    assert_eq!(sink.work(&[]), IioTxStep::Sleep(5));
    assert_eq!(sink.drain().1, vec![]);
}

#[test]
fn a_name_occurs_once_among_annotations() {
    let mut a = Annotations::new();
    assert_eq!(a.get("x"), None);
    a.insert("x".to_string(), Datum::Signed(1));
    a.insert("y".to_string(), Datum::Signed(2));
    a.insert("x".to_string(), Datum::Signed(3));
    assert_eq!(a.get("x"), Some(&Datum::Signed(3)));
    assert_eq!(a.get("y"), Some(&Datum::Signed(2)));
    assert_eq!(a.get("z"), None);
    assert_eq!(a.entries.len(), 2);
}
