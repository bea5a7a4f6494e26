//! The channel activity detector, with a Fourier transform.

use chirpmunk::blocks::cad::{best_ratio, DetectResult, Detector, StreamingDetector};
use chirpmunk::double::Double;
use rustfft::num_complex::Complex32;
use rustfft::FftPlanner;

fn single(v: f32) -> Double {
    Double { bits: (v as f64).to_bits() }
}

fn build_upchirp_1x(sf: u8) -> Vec<Complex32> {
    let n: usize = 1 << sf;
    let n_f = n as f32;
    (0..n)
        .map(|k| {
            let kf = k as f32;
            let phase = std::f32::consts::TAU * (kf * kf / (2.0 * n_f) - kf / 2.0);
            Complex32::new(phase.cos(), phase.sin())
        })
        .collect()
}

fn default_alpha(sf: u8, os_factor: u32) -> f32 {
    let m = (1u64 << sf) as f64;
    let l = f64::from(os_factor) * m;
    let inner = 1.0 - (1.0_f64 - 0.001_f64).powf(1.0 / l);
    (-(4.0 / std::f64::consts::PI) * inner.ln()).sqrt() as f32
}

/// The best peak-to-mean ratio of a symbol over the timing offsets.
fn peak_ratio(det: &Detector, sym: &[Complex32]) -> Double {
    let sf = det.sf_size.trailing_zeros() as u8;
    let down: Vec<Complex32> = build_upchirp_1x(sf).iter().map(|c| c.conj()).collect();
    let fft = FftPlanner::new().plan_fft_forward(det.sf_size);
    let mut ratios = Vec::new();
    for offset in 0..det.os_factor as usize {
        let mut buf: Vec<Complex32> =
            det.decimate(sym, offset).iter().zip(&down).map(|(a, b)| a * b).collect();
        fft.process(&mut buf);
        let mags: Vec<f32> = buf.iter().map(|y| (y.re * y.re + y.im * y.im).sqrt()).collect();
        let total: f32 = mags.iter().sum();
        let peak = mags.iter().fold(0.0f32, |a, b| if *b > a { *b } else { a });
        let mean = total / det.sf_size as f32;
        ratios.push(single(if mean > 0.0 { peak / mean } else { 0.0 }));
    }
    best_ratio(&ratios)
}

fn process(det: &Detector, win: &[Complex32]) -> DetectResult {
    let r1 = peak_ratio(det, &win[..det.sym_len]);
    let r2 = peak_ratio(det, &win[det.sym_len..2 * det.sym_len]);
    det.process_window(r1, r2)
}

fn detector(sf: u8, os: u32) -> Detector {
    Detector::new(sf, os, single(default_alpha(sf, os)))
}

fn streaming(sf: u8, os: u32, release: u8) -> StreamingDetector<Complex32> {
    StreamingDetector::new(sf, os, release, false, single(default_alpha(sf, os)))
}

fn synth_oversampled_upchirp(sf: u8, os: u32) -> Vec<Complex32> {
    let mut out = Vec::new();
    for s in build_upchirp_1x(sf) {
        for _ in 0..os {
            out.push(s);
        }
    }
    out
}

fn feed(sd: &mut StreamingDetector<Complex32>, samples: &[Complex32]) {
    let det = sd.detector();
    for win in sd.feed(samples) {
        let r1 = peak_ratio(&det, &win[..det.sym_len]);
        let r2 = peak_ratio(&det, &win[det.sym_len..]);
        sd.judge(r1, r2);
    }
}

#[test]
fn detects_clean_chirp() {
    let sf = 7u8;
    let os = 4u32;
    let det = detector(sf, os);
    let mut win = synth_oversampled_upchirp(sf, os);
    win.extend(synth_oversampled_upchirp(sf, os));
    let r = process(&det, &win);
    assert!(r.up_detected, "clean chirp must detect");
    assert!(r.peak_ratio_up.greater_than(single(default_alpha(sf, os))));
}

#[test]
fn rejects_silence() {
    let sf = 7u8;
    let os = 4u32;
    let det = detector(sf, os);
    let n = (1usize << sf) * os as usize * 2;
    assert_eq!(det.window_len(), n);
    let win = vec![Complex32::new(0.0, 0.0); n];
    let r = process(&det, &win);
    assert!(!r.up_detected);
}

#[test]
fn streaming_busy_after_one_window() {
    let sf = 7u8;
    let os = 4u32;
    let mut sd = streaming(sf, os, 4);
    let mut win = synth_oversampled_upchirp(sf, os);
    win.extend(synth_oversampled_upchirp(sf, os));
    feed(&mut sd, &win);
    assert!(sd.is_busy());
}

#[test]
fn streaming_releases_after_hysteresis() {
    let sf = 7u8;
    let os = 4u32;
    let release = 3u8;
    let mut sd = streaming(sf, os, release);
    let mut win = synth_oversampled_upchirp(sf, os);
    win.extend(synth_oversampled_upchirp(sf, os));
    feed(&mut sd, &win);
    assert!(sd.is_busy());
    let zeros = vec![Complex32::new(0.0, 0.0); win.len()];
    for i in 0..release {
        assert!(sd.is_busy(), "released after {i} windows");
        feed(&mut sd, &zeros);
    }
    assert!(!sd.is_busy());
}

#[test]
fn windows_do_not_depend_on_the_pieces() {
    let stream: Vec<u32> = (0..1000).collect();
    let mut whole: StreamingDetector<u32> = StreamingDetector::new(3, 2, 1, false, single(1.0));
    let want = whole.feed(&stream);
    assert_eq!(want.len(), 1000 / 32);
    for (i, w) in want.iter().enumerate() {
        assert_eq!(w[..], stream[i * 32..(i + 1) * 32]);
    }
    let mut pieces: StreamingDetector<u32> = StreamingDetector::new(3, 2, 1, false, single(1.0));
    let mut got = Vec::new();
    for piece in stream.chunks(7) {
        got.extend(pieces.feed(piece));
    }
    assert_eq!(got, want);
}

#[test]
fn both_symbols_have_to_hold_a_chirp() {
    let mut det = Detector::new(7, 1, single(9.0));
    assert_eq!(det.alpha(), single(9.0));
    assert!(!det.process_window(single(3.0), single(4.0)).up_detected);
    det.set_alpha(single(2.0));
    let r = det.process_window(single(3.0), single(4.0));
    assert_eq!(r, DetectResult { peak_ratio_up: single(4.0), up_detected: true });
    assert!(!det.process_window(single(3.0), single(2.0)).up_detected);
    assert!(!det.process_window(single(2.0), single(3.0)).up_detected);
    let r = det.process_window(single(f32::NAN), single(3.0));
    assert_eq!(r, DetectResult { peak_ratio_up: single(3.0), up_detected: false });
}

#[test]
fn offsets_take_every_nth_sample() {
    let det = Detector::new(2, 3, single(1.0));
    let sym: Vec<u8> = (0..12).collect();
    assert_eq!(det.decimate(&sym, 0), vec![0, 3, 6, 9]);
    assert_eq!(det.decimate(&sym, 1), vec![1, 4, 7, 10]);
    assert_eq!(det.decimate(&sym, 2), vec![2, 5, 8, 11]);
}

#[test]
fn the_best_ratio_is_kept() {
    assert_eq!(best_ratio(&[]), single(0.0));
    assert_eq!(best_ratio(&[single(1.0), single(3.0), single(2.0)]), single(3.0));
    assert_eq!(best_ratio(&[single(f32::NAN), single(-1.0)]), single(0.0));
}

#[test]
fn the_threshold_of_a_stream_can_be_replaced() {
    let mut sd: StreamingDetector<u8> = StreamingDetector::new(2, 1, 2, false, single(5.0));
    sd.judge(single(4.0), single(4.0));
    assert!(!sd.is_busy());
    sd.detector_mut().set_alpha(single(3.0));
    assert_eq!(sd.detector().alpha(), single(3.0));
    assert!(sd.judge(single(4.0), single(4.0)).up_detected);
    assert!(sd.is_busy());
}
