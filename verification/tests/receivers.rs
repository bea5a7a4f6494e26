//! Receivers for several bandwidths and spreading factors.

use chirpmunk::blocks::frame_sink::FrameSinkConfig;
use chirpmunk::blocks::multi_bw::{build_multi_bw_rx, MultiBwError, MAX_BW};
use chirpmunk::blocks::multi_sf::{build_multi_sf_rx, sf_to_u8, SpreadingFactor, ALL_SF};

fn cfg_template() -> FrameSinkConfig {
    FrameSinkConfig {
        sf: 7,
        bw: 125_000,
        cr: 4,
        sync_word: 0x12,
        device: None,
        decode_label: Some("rx".into()),
        rx_channel: Some(0),
    }
}

#[test]
fn rejects_empty() {
    let r = build_multi_bw_rx(&[], 500_000, &cfg_template());
    assert!(r.is_err());
    assert_eq!(r.unwrap_err(), MultiBwError::Empty);
}

#[test]
fn rejects_non_divisible_rate() {
    let r = build_multi_bw_rx(&[125_000], 123_456, &cfg_template());
    assert!(r.is_err());
    assert_eq!(
        r.unwrap_err(),
        MultiBwError::NotMultiple { sample_rate: 123_456, bw: 125_000 }
    );
}

#[test]
fn builds_two_bandwidths() {
    let r = build_multi_bw_rx(&[125_000, 250_000], 500_000, &cfg_template());
    assert!(r.is_ok(), "build_multi_bw_rx should succeed: {:?}", r.err());
    let h = r.unwrap();
    assert_eq!(h.bandwidths, vec![125_000, 250_000]);
    assert_eq!(h.unused, 2);
    assert_eq!(h.branches[0].os_factor, 4);
    assert_eq!(h.branches[1].os_factor, 2);
    assert_eq!(h.branches[0].cfg.decode_label, Some("rx-bw125k".to_string()));
    assert_eq!(h.branches[1].cfg.decode_label, Some("rx-bw250k".to_string()));
    assert_eq!(h.branches[1].cfg.bw, 250_000);
    assert_eq!(h.branches[1].cfg.sync_word, 0x12);
}

#[test]
fn other_refusals_and_their_words() {
    let t = cfg_template();
    assert_eq!(MAX_BW, 4);
    let words = |bws: &[u32], rate: u64| build_multi_bw_rx(bws, rate, &t).unwrap_err().message();
    assert_eq!(words(&[], 1), "multi_bw: bandwidths must be non-empty");
    assert_eq!(words(&[1, 1, 1, 1, 1], 1), "multi_bw: bandwidths.len()=5 exceeds MAX_BW=4");
    assert_eq!(words(&[125_000, 0], 500_000), "multi_bw: bw must be > 0");
    assert_eq!(
        words(&[125_000, 62_500], 625_000 + 125_000 * 3 + 1),
        "multi_bw: sample_rate 1000001 not a multiple of bw 125000"
    );
    assert_eq!(words(&[125_000, 100_000], 500_000), "multi_bw: invalid bandwidth 100000");
    // The rate is looked at before the bandwidths are.
    assert_eq!(
        words(&[100_000, 250_001], 500_000),
        "multi_bw: sample_rate 500000 not a multiple of bw 250001"
    );
}

#[test]
fn one_chain_for_each_spreading_factor() {
    let mut t = cfg_template();
    let chains = build_multi_sf_rx(&t);
    assert_eq!(chains.len(), 6);
    for (i, c) in chains.iter().enumerate() {
        assert_eq!(c.sf, 7 + i as u8);
        assert_eq!(c.sf, sf_to_u8(ALL_SF[i]));
        assert_eq!(c.decode_label, Some(format!("rx-sf{}", c.sf)));
        assert_eq!(c.bw, 125_000);
    }
    t.decode_label = Some("hw-bw62k".into());
    assert_eq!(build_multi_sf_rx(&t)[5].decode_label, Some("hw-bw62k-sf12".to_string()));
    t.decode_label = None;
    assert_eq!(build_multi_sf_rx(&t)[0].decode_label, Some("rx-sf7".to_string()));
    assert_eq!(sf_to_u8(SpreadingFactor::SF5), 5);
    assert_eq!(sf_to_u8(SpreadingFactor::SF6), 6);
}
