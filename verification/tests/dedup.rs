//! Selection-diversity dedup.

use chirpmunk::blocks::dedup::{DedupKey, DedupState, Submission};
use chirpmunk::blocks::frame_sink::fnv1a_64;
use chirpmunk::cbor::{Carrier, LoraFrame, Phy};
use chirpmunk::double::Double;

fn d(v: f64) -> Double {
    Double { bits: v.to_bits() }
}

fn frame(payload: &[u8], rx_channel: u32, snr_db: f64) -> LoraFrame {
    LoraFrame {
        ts: "2026-05-08T00:00:00Z".into(),
        seq: 0,
        phy: Phy {
            sf: 7,
            bw: 125_000,
            cr: 4,
            crc_valid: true,
            sync_word: 0x12,
            snr_db: d(snr_db),
            noise_floor_db: None,
            peak_db: None,
            snr_db_td: None,
            channel_freq: None,
            decode_bw: None,
            cfo_int: None,
            cfo_frac: None,
            sfo_hat: None,
            sample_rate: None,
            frequency_corrected: None,
            ppm_error: None,
            diversity: None,
        },
        carrier: Carrier { sync_word: 0x12, sf: 7, bw: 125_000, cr: 4, ldro_cfg: false },
        payload: payload.to_vec(),
        payload_len: payload.len() as u32,
        crc_valid: true,
        cr: 4,
        is_downchirp: false,
        id: format!("test-{rx_channel}"),
        payload_hash: fnv1a_64(payload),
        rx_channel: Some(rx_channel),
        decode_label: None,
        device: None,
    }
}

/// The key that was opened, and when its window ends.
fn opened(s: Submission) -> (DedupKey, u128) {
    match s {
        Submission::Opened(key, due_ns) => (key, due_ns),
        other => panic!("{other:?}"),
    }
}

#[test]
fn dedup_within_window_emits_once_with_merged_diversity() {
    let mut state = DedupState::new(50_000_000);
    let (key, due) = opened(state.submit(frame(b"hello world", 0, 12.3), 0x12, 0));
    assert_eq!(due, 50_000_000);
    assert_eq!(
        state.submit(frame(b"hello world", 1, 8.7), 0x12, 10_000_000),
        Submission::Merged
    );

    let (buf, sync) = state.expire(key, due).expect("exactly one frame expected after window");
    assert_eq!(sync, 0x12);
    let decoded = LoraFrame::from_slice(&buf).expect("decode lora_frame");
    let diversity = decoded.phy.diversity.expect("phy.diversity present");
    assert_eq!(diversity.antennas, vec![0, 1]);
    assert_eq!(diversity.snr_db_per_ant, vec![d(12.3), d(8.7)]);
    assert!((f64::from_bits(diversity.snr_db_max.bits) - 12.3).abs() < 1e-9);
    assert!(state.expire(key, 130_000_000).is_none(), "no second frame expected");
}

#[test]
fn dedup_window_zero_emits_each_decode() {
    let mut state = DedupState::new(0);
    let mut emitted = Vec::new();
    for f in [frame(b"hi", 0, 10.0), frame(b"hi", 1, 11.0)] {
        match state.submit(f, 0x34, 0) {
            Submission::Emit((bytes, sync)) => {
                assert_eq!(sync, 0x34);
                emitted.push(LoraFrame::from_slice(&bytes).unwrap());
            }
            other => panic!("{other:?}"),
        }
    }
    assert_eq!(emitted.len(), 2);
    assert!(emitted[0].phy.diversity.is_none(), "no merge with window=0");
    assert!(emitted[1].phy.diversity.is_none(), "no merge with window=0");
}

#[test]
fn dedup_distinct_payloads_emit_separately() {
    let mut state = DedupState::new(30_000_000);
    let (alpha, due_a) = opened(state.submit(frame(b"alpha", 0, 5.0), 0x12, 7));
    let (bravo, due_b) = opened(state.submit(frame(b"bravo", 0, 5.0), 0x12, 7));
    let (a, _) = state.expire(alpha, due_a).expect("alpha");
    let (b, _) = state.expire(bravo, due_b).expect("bravo");
    assert_eq!(LoraFrame::from_slice(&a).unwrap().payload, b"alpha".to_vec());
    assert_eq!(LoraFrame::from_slice(&b).unwrap().payload, b"bravo".to_vec());
    assert!(state.expire(alpha, due_a).is_none());
    assert!(state.expire(bravo, due_b).is_none());
}

#[test]
fn dedup_same_chain_repeat_does_not_double_count() {
    let mut state = DedupState::new(50_000_000);
    let (key, due) = opened(state.submit(frame(b"echo", 0, 10.0), 0x12, 7));
    assert_eq!(state.submit(frame(b"echo", 0, 11.0), 0x12, 7), Submission::Merged);
    let (buf, _) = state.expire(key, due).expect("one merged frame");
    let decoded = LoraFrame::from_slice(&buf).unwrap();
    assert!(decoded.phy.diversity.is_none());
    assert_eq!(decoded, frame(b"echo", 0, 10.0));
}

#[test]
fn best_snr_is_the_largest_and_chains_narrow_to_a_byte() {
    let mut state = DedupState::from_window_ms(80);
    assert_eq!(state.window(), 80_000_000);
    let (key, due) = opened(state.submit(frame(b"x", 0, -3.0), 0x2b, 7));
    state.submit(frame(b"x", 257, 4.5), 0x55, 7);
    state.submit(frame(b"x", 2, 4.0), 0x55, 7);
    state.submit(frame(b"x", 3, f64::NAN), 0x55, 7);
    let (buf, sync) = state.expire(key, due).unwrap();
    // The first arrival decides what the frame is sent under.
    assert_eq!(sync, 0x2b);
    let f = LoraFrame::from_slice(&buf).unwrap();
    let dv = f.phy.diversity.unwrap();
    assert_eq!(dv.antennas, vec![0, 1, 2, 3]);
    assert_eq!(dv.snr_db_max, d(4.5));
    assert_eq!(dv.snr_db_per_ant.len(), 4);
    assert_eq!(f.phy.snr_db, d(-3.0));
}

#[test]
fn every_part_of_the_key_counts() {
    let mut state = DedupState::new(1);
    let base = frame(b"k", 0, 1.0);
    let mut others = Vec::new();
    let mut f = base.clone();
    f.phy.sf = 8;
    others.push(f);
    let mut f = base.clone();
    f.phy.bw = 250_000;
    others.push(f);
    let mut f = base.clone();
    f.phy.sync_word = 0x34;
    others.push(f);
    let mut f = base.clone();
    f.payload_hash += 1;
    others.push(f);
    assert!(matches!(state.submit(base.clone(), 1, 7), Submission::Opened(..)));
    for f in others {
        assert!(matches!(state.submit(f, 1, 7), Submission::Opened(..)));
    }
    assert_eq!(state.submit(base, 1, 7), Submission::Merged);
}

#[test]
fn a_frame_without_a_channel_counts_as_chain_zero() {
    let mut state = DedupState::new(1);
    let mut f = frame(b"k", 0, 1.0);
    f.rx_channel = None;
    let (key, due) = opened(state.submit(f.clone(), 1, 7));
    state.submit(frame(b"k", 0, 9.0), 1, 7);
    let (buf, _) = state.expire(key, due).unwrap();
    assert_eq!(LoraFrame::from_slice(&buf).unwrap(), f);
}

#[test]
fn a_window_ends_when_its_first_arrival_says() {
    let mut state = DedupState::new(100);
    let (key, due) = opened(state.submit(frame(b"w", 0, 1.0), 0x12, 1_000));
    assert_eq!(due, 1_100);
    assert_eq!(state.expire(key, 1_050), None);
    // A late arrival does not postpone it.
    assert_eq!(state.submit(frame(b"w", 1, 2.0), 0x34, 1_099), Submission::Merged);
    assert_eq!(state.expire(key, 1_099), None);
    let (buf, sync) = state.expire(key, 1_100).unwrap();
    assert_eq!(sync, 0x12);
    let sent = LoraFrame::from_slice(&buf).unwrap();
    assert_eq!(sent.phy.diversity.as_ref().unwrap().antennas, vec![0, 1]);
    assert_eq!(state.expire(key, 1_200), None);
    // The next arrival opens a window of its own.
    assert_eq!(opened(state.submit(frame(b"w", 0, 1.0), 0x12, 1_150)), (key, 1_250));
}
