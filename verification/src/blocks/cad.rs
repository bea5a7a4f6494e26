//! The channel activity detector: how samples are gathered into windows and symbols, what two peak
//! ratios say of the channel, and when a busy channel counts as clear again.
//!
//! The peak ratios themselves are a matter of a Fourier transform, which the caller does.

use vstd::arithmetic::power2::{lemma_pow2_pos, lemma_pow2_unfold, pow2};
use vstd::prelude::*;

use crate::double::Double;

verus! {

// ---------------------------------------------------------------------------------------------
// Shapes
// ---------------------------------------------------------------------------------------------
/// A detector: a symbol has `sf_size` chips, each sampled `os_factor` times, and holds a chirp when
/// its peak ratio is above `alpha`.
#[derive(Clone, Copy, Debug, PartialEq, Eq, Structural)]
pub struct Detector {
    pub os_factor: u32,
    pub sf_size: usize,
    pub sym_len: usize,
    pub alpha: Double,
}

fn power_of_two(n: u8) -> (r: usize)
    requires
        pow2(n as nat) <= usize::MAX,
    ensures
        r == pow2(n as nat),
    decreases n,
{
    if n == 0 {
        proof {
            vstd::arithmetic::power2::lemma2_to64();
        }
        1
    } else {
        proof {
            lemma_pow2_unfold(n as nat);
        }
        2 * power_of_two(n - 1)
    }
}

impl Detector {
    /// The sizes fit together, and a window of two symbols has a length.
    pub open spec fn wf(self) -> bool {
        &&& self.sf_size > 0
        &&& self.sym_len == self.sf_size * self.os_factor
        &&& 2 * self.sym_len <= usize::MAX
    }

    /// The detector of spreading factor `sf`, `os_factor` samples to the chip, with the threshold
    /// `alpha`.
    pub fn new(sf: u8, os_factor: u32, alpha: Double) -> (r: Detector)
        requires
            pow2(sf as nat) <= usize::MAX,
            2 * (pow2(sf as nat) * os_factor) <= usize::MAX,
        ensures
            r.wf(),
            r.os_factor == os_factor,
            r.sf_size == pow2(sf as nat),
            r.sym_len == pow2(sf as nat) * os_factor,
            r.alpha == alpha,
    {
        proof {
            lemma_pow2_pos(sf as nat);
            assert(os_factor <= pow2(sf as nat) * os_factor) by (nonlinear_arith)
                requires
                    pow2(sf as nat) > 0,
            ;
        }
        let sf_size: usize = power_of_two(sf);
        let sym_len: usize = sf_size * os_factor as usize;
        Detector { os_factor, sf_size, sym_len, alpha }
    }

    /// The threshold.
    pub fn alpha(&self) -> (r: Double)
        ensures
            r == self.alpha,
    {
        self.alpha
    }

    /// Replaces the threshold.
    pub fn set_alpha(&mut self, alpha: Double)
        ensures
            *final(self) == (Detector { alpha, ..*old(self) }),
    {
        self.alpha = alpha;
    }

    /// How many samples a detection looks at: two symbols.
    pub fn window_len(&self) -> (r: usize)
        requires
            self.wf(),
        ensures
            r == 2 * self.sym_len,
    {
        2 * self.sym_len
    }

    /// The samples of a symbol at one of the timing offsets within a chip: every `os_factor`-th.
    pub fn decimate<T: Copy>(&self, symbol: &[T], offset: usize) -> (r: Vec<T>)
        requires
            self.wf(),
            symbol@.len() == self.sym_len,
            offset < self.os_factor,
        ensures
            r@ == chips_at(symbol@, offset as int, self.os_factor as int, self.sf_size as nat),
            r@ == Seq::new(self.sf_size as nat, |k: int| symbol@[offset + k * self.os_factor]),
    {
        let step: usize = self.os_factor as usize;
        let mut out: Vec<T> = Vec::new();
        let mut k: usize = 0;
        let mut at: usize = offset;
        while k < self.sf_size
            invariant
                self.wf(),
                k <= self.sf_size,
                step == self.os_factor,
                offset < self.os_factor,
                at == offset + k * step,
                symbol@.len() == self.sym_len,
                out@.len() == k,
                forall|j: int| 0 <= j < k ==> out@[j] == symbol@[offset + j * self.os_factor],
            decreases self.sf_size - k,
        {
            proof {
                decimation_in_range(*self, offset as int, k as int);
                assert((k + 1) * step == k * step + step) by (nonlinear_arith);
            }
            out.push(symbol[at]);
            at = at + step;
            k = k + 1;
        }
        assert(out@ =~= Seq::new(
            self.sf_size as nat,
            |k: int| symbol@[offset + k * self.os_factor],
        ));
        out
    }

    /// What two peak ratios say: there is a chirp when both are above the threshold.
    pub fn process_window(&self, first: Double, second: Double) -> (r: DetectResult)
        ensures
            r == verdict(self.alpha, first, second),
            r.up_detected == (first.above(self.alpha) && second.above(self.alpha)),
            r.peak_ratio_up == (if first.nan() || second.above(first) {
                second
            } else {
                first
            }),
    {
        DetectResult {
            peak_ratio_up: if first.is_nan() || second.greater_than(first) {
                second
            } else {
                first
            },
            up_detected: first.greater_than(self.alpha) && second.greater_than(self.alpha),
        }
    }
}

/// Every `step`-th sample of a symbol from `offset` on, `count` of them.
pub open spec fn chips_at<T>(symbol: Seq<T>, offset: int, step: int, count: nat) -> Seq<T> {
    Seq::new(count, |k: int| symbol[offset + k * step])
}

/// The offsets together see every sample of a symbol, each once and in its order: sample `i` is the one
/// that the offset `i` modulo the oversampling sees as its chip `i` divided by it.
pub proof fn every_sample_is_seen<T>(d: Detector, symbol: Seq<T>, i: int)
    requires
        d.wf(),
        symbol.len() == d.sym_len,
        0 <= i < symbol.len(),
    ensures
        ({
            let m = d.os_factor as int;
            let chips = chips_at(symbol, i % m, m, d.sf_size as nat);
            chips.len() == d.sf_size && 0 <= i / m < chips.len() && chips[i / m] == symbol[i]
        }),
{
    offsets_share_symbol(d, i);
}

proof fn decimation_in_range(d: Detector, offset: int, k: int)
    requires
        d.wf(),
        0 <= offset < d.os_factor,
        0 <= k < d.sf_size,
    ensures
        0 <= offset + k * d.os_factor < d.sym_len,
        offset + k * d.os_factor + d.os_factor <= 2 * d.sym_len,
{
    assert(offset + k * d.os_factor < d.sf_size * d.os_factor) by (nonlinear_arith)
        requires
            0 <= offset < d.os_factor,
            0 <= k,
            k + 1 <= d.sf_size,
    ;
    assert(0 <= k * d.os_factor) by (nonlinear_arith)
        requires
            0 <= k,
            d.os_factor > 0,
    ;
    assert(d.os_factor <= d.sf_size * d.os_factor) by (nonlinear_arith)
        requires
            d.sf_size >= 1,
            d.os_factor > 0,
    ;
}

/// The timing offsets share a symbol out: every sample belongs to exactly one offset and one chip.
pub proof fn offsets_share_symbol(d: Detector, i: int)
    requires
        d.wf(),
        0 <= i < d.sym_len,
    ensures
        0 <= i % (d.os_factor as int) < d.os_factor,
        0 <= i / (d.os_factor as int) < d.sf_size,
        i == i % (d.os_factor as int) + i / (d.os_factor as int) * d.os_factor,
        forall|offset: int, k: int|
            0 <= offset < d.os_factor && #[trigger] (offset + k * d.os_factor) == i ==> offset == i % (
            d.os_factor as int) && k == i / (d.os_factor as int),
{
    let m = d.os_factor as int;
    vstd::arithmetic::div_mod::lemma_fundamental_div_mod(i, m);
    assert(i / m * m == m * (i / m)) by (nonlinear_arith);
    assert(0 <= i / m < d.sf_size) by (nonlinear_arith)
        requires
            0 <= i < d.sf_size * m,
            m > 0,
    ;
    assert forall|offset: int, k: int|
        0 <= offset < m && #[trigger] (offset + k * d.os_factor) == i implies offset == i % m && k
        == i / m by {
        vstd::arithmetic::div_mod::lemma_fundamental_div_mod_converse(i, m, k, offset);
    }
}

/// What two peak ratios say under a threshold.
pub open spec fn verdict(alpha: Double, first: Double, second: Double) -> DetectResult {
    DetectResult {
        peak_ratio_up: if first.nan() || second.above(first) {
            second
        } else {
            first
        },
        up_detected: first.above(alpha) && second.above(alpha),
    }
}

/// One symbol alone is no chirp: if either ratio is at or below the threshold, or a NaN, nothing is
/// detected; if both are above it, there is a chirp. The order of the two symbols does not matter, and
/// ratios that are as good or better than those of a chirp are a chirp too. Of the two ratios the
/// larger one is told; a NaN only where both are.
pub proof fn both_symbols_count(alpha: Double, first: Double, second: Double)
    ensures
        !first.above(alpha) ==> !verdict(alpha, first, second).up_detected,
        !second.above(alpha) ==> !verdict(alpha, first, second).up_detected,
        first.above(alpha) && second.above(alpha) ==> verdict(alpha, first, second).up_detected,
        verdict(alpha, first, second).up_detected == verdict(alpha, second, first).up_detected,
        forall|a: Double, b: Double|
            verdict(alpha, first, second).up_detected && (a == first || a.above(first)) && (b == second
                || b.above(second)) ==> (#[trigger] verdict(alpha, a, b)).up_detected,
        ({
            let told = verdict(alpha, first, second).peak_ratio_up;
            &&& told == first || told == second
            &&& !first.above(told) && !second.above(told)
            &&& told.nan() <==> first.nan() && second.nan()
        }),
{
}

/// What a detection found.
#[derive(Clone, Copy, Debug, PartialEq, Eq, Structural)]
pub struct DetectResult {
    /// The larger of the two peak ratios.
    pub peak_ratio_up: Double,
    /// Whether both symbols hold a chirp.
    pub up_detected: bool,
}

// ---------------------------------------------------------------------------------------------
// The best of several ratios
// ---------------------------------------------------------------------------------------------
/// The best of the ratios, from zero on: a ratio replaces the best when it is above it.
pub open spec fn best_of(ratios: Seq<Double>) -> Double
    decreases ratios.len(),
{
    if ratios.len() == 0 {
        Double { bits: 0 }
    } else {
        let best = best_of(ratios.drop_last());
        if ratios.last().above(best) {
            ratios.last()
        } else {
            best
        }
    }
}

/// The best of the peak ratios at the several timing offsets.
pub fn best_ratio(ratios: &[Double]) -> (r: Double)
    ensures
        r == best_of(ratios@),
{
    let mut best = Double::zero();
    let mut i: usize = 0;
    assert(ratios@.take(0).len() == 0);
    while i < ratios.len()
        invariant
            i <= ratios.len(),
            best == best_of(ratios@.take(i as int)),
        decreases ratios.len() - i,
    {
        assert(ratios@.take(i + 1).drop_last() =~= ratios@.take(i as int));
        if ratios[i].greater_than(best) {
            best = ratios[i];
        }
        i = i + 1;
    }
    assert(ratios@.take(i as int) =~= ratios@);
    best
}

/// The best ratio is zero, or one of those given and above zero; no ratio is above it, and it is no
/// NaN.
pub proof fn best_is_best(ratios: Seq<Double>)
    ensures
        !best_of(ratios).nan(),
        forall|i: int| 0 <= i < ratios.len() ==> !(#[trigger] ratios[i]).above(best_of(ratios)),
        best_of(ratios) == (Double { bits: 0 }) || (ratios.contains(best_of(ratios)) && best_of(
            ratios,
        ).above(Double { bits: 0 })),
    decreases ratios.len(),
{
    if ratios.len() > 0 {
        let front = ratios.drop_last();
        best_is_best(front);
        if ratios.last().above(best_of(front)) {
            assert(ratios[ratios.len() - 1] == best_of(ratios));
        } else if front.contains(best_of(front)) {
            let k = choose|k: int| 0 <= k < front.len() && front[k] == best_of(front);
            assert(ratios[k] == best_of(ratios));
        }
        assert forall|i: int| 0 <= i < ratios.len() implies !(#[trigger] ratios[i]).above(
            best_of(ratios),
        ) by {
            if i < front.len() {
                assert(front[i] == ratios[i]);
            } else {
                assert(ratios[i] == ratios.last());
            }
        }
    }
}

// ---------------------------------------------------------------------------------------------
// The stream
// ---------------------------------------------------------------------------------------------
/// The windows that a stream gives, and what is left over.
pub open spec fn windows_of<T>(stream: Seq<T>, len: int) -> (Seq<Seq<T>>, Seq<T>)
    decreases stream.len(),
{
    if len <= 0 || stream.len() < len {
        (Seq::empty(), stream)
    } else {
        let (rest, left) = windows_of(stream.subrange(len, stream.len() as int), len);
        (seq![stream.subrange(0, len)] + rest, left)
    }
}

/// The samples of each window.
pub open spec fn contents<T>(windows: Seq<Vec<T>>) -> Seq<Seq<T>> {
    windows.map_values(|w: Vec<T>| w@)
}

/// Whether the channel is busy, and how many windows in a row were clear since it last was.
#[derive(Clone, Copy, Debug, PartialEq, Eq, Structural)]
pub struct Activity {
    pub busy: bool,
    pub clean_count: u8,
}

/// The activity after one more window. A busy channel is released when `release_symbols` windows in
/// a row were clear; the count stops at its largest value.
pub open spec fn after_window(a: Activity, detected: bool, release_symbols: u8) -> Activity {
    if detected {
        Activity { busy: true, clean_count: 0 }
    } else {
        let clean_count = if a.clean_count < 255 {
            (a.clean_count + 1) as u8
        } else {
            255u8
        };
        Activity { busy: a.busy && clean_count < release_symbols, clean_count }
    }
}

/// Gathers samples into windows and keeps track of the channel's activity.
pub struct StreamingDetector<T> {
    detector: Detector,
    accum: Vec<T>,
    release_symbols: u8,
    activity: Activity,
}

impl<T: Copy> StreamingDetector<T> {
    /// The detector, which gives the windows their shape.
    pub closed spec fn shape(self) -> Detector {
        self.detector
    }

    /// The samples of the window that is being gathered.
    pub closed spec fn gathered(self) -> Seq<T> {
        self.accum@
    }

    /// The activity so far.
    pub closed spec fn state(self) -> Activity {
        self.activity
    }

    /// After how many clear windows the channel is released.
    pub closed spec fn release(self) -> u8 {
        self.release_symbols
    }

    /// What is gathered does not fill a window, and a window has a length.
    pub open spec fn wf(self) -> bool {
        self.shape().wf() && self.gathered().len() < 2 * self.shape().sym_len
    }

    /// Nothing gathered; the channel is taken to be as `busy` says.
    pub fn new(
        sf: u8,
        os_factor: u32,
        release_symbols: u8,
        busy: bool,
        alpha: Double,
    ) -> (r: StreamingDetector<T>)
        requires
            os_factor > 0,
            pow2(sf as nat) <= usize::MAX,
            2 * (pow2(sf as nat) * os_factor) <= usize::MAX,
        ensures
            r.wf(),
            r.shape().os_factor == os_factor,
            r.shape().sf_size == pow2(sf as nat),
            r.shape().alpha == alpha,
            r.gathered() == Seq::<T>::empty(),
            r.state() == (Activity { busy, clean_count: 0 }),
            r.release() == release_symbols,
    {
        proof {
            lemma_pow2_pos(sf as nat);
            assert(pow2(sf as nat) * os_factor > 0) by (nonlinear_arith)
                requires
                    pow2(sf as nat) > 0,
                    os_factor > 0,
            ;
        }
        StreamingDetector {
            detector: Detector::new(sf, os_factor, alpha),
            accum: Vec::new(),
            release_symbols,
            activity: Activity { busy, clean_count: 0 },
        }
    }

    /// Takes in any number of samples and returns the windows that they fill, in their order; what is
    /// left over waits for more.
    pub fn feed(&mut self, samples: &[T]) -> (r: Vec<Vec<T>>)
        requires
            old(self).wf(),
        ensures
            final(self).wf(),
            final(self).shape() == old(self).shape(),
            final(self).state() == old(self).state(),
            final(self).release() == old(self).release(),
            (contents(r@), final(self).gathered()) == windows_of(
                old(self).gathered() + samples@,
                2 * old(self).shape().sym_len,
            ),
    {
        let len: usize = self.detector.window_len();
        let ghost stream = self.accum@ + samples@;
        let mut full: Vec<Vec<T>> = Vec::new();
        let mut i: usize = 0;
        proof {
            assert(samples@.subrange(0, samples@.len() as int) =~= samples@);
            let (rest, left) = windows_of(stream, len as int);
            assert(contents(full@) + rest =~= rest);
        }
        while i < samples.len()
            invariant
                i <= samples@.len(),
                len > 0,
                len == 2 * self.detector.sym_len,
                self.detector == old(self).detector,
                self.activity == old(self).activity,
                self.release_symbols == old(self).release_symbols,
                self.accum@.len() < len,
                ({
                    let (rest, left) = windows_of(
                        self.accum@ + samples@.subrange(i as int, samples@.len() as int),
                        len as int,
                    );
                    windows_of(stream, len as int) == (contents(full@) + rest, left)
                }),
            decreases samples.len() - i,
        {
            let ghost held = self.accum@;
            self.accum.push(samples[i]);
            proof {
                assert(held + samples@.subrange(i as int, samples@.len() as int) =~= self.accum@
                    + samples@.subrange(i + 1, samples@.len() as int));
            }
            if self.accum.len() == len {
                let mut window: Vec<T> = Vec::new();
                std::mem::swap(&mut window, &mut self.accum);
                proof {
                    let tail = samples@.subrange(i + 1, samples@.len() as int);
                    let joined = window@ + tail;
                    assert(joined.subrange(0, len as int) =~= window@);
                    assert(joined.subrange(len as int, joined.len() as int) =~= self.accum@ + tail);
                    let (rest, left) = windows_of(self.accum@ + tail, len as int);
                    assert(contents(full@.push(window)) =~= contents(full@).push(window@));
                    assert(contents(full@) + (seq![window@] + rest) =~= contents(full@).push(
                        window@,
                    ) + rest);
                }
                full.push(window);
            }
            i = i + 1;
        }
        proof {
            let end = samples@.subrange(i as int, samples@.len() as int);
            assert(self.accum@ + end =~= self.accum@);
            assert(contents(full@) + Seq::<Seq<T>>::empty() =~= contents(full@));
        }
        full
    }

    /// Takes the verdict on a window, by the peak ratios of its two symbols.
    pub fn judge(&mut self, first: Double, second: Double) -> (r: DetectResult)
        requires
            old(self).wf(),
        ensures
            final(self).wf(),
            final(self).shape() == old(self).shape(),
            final(self).release() == old(self).release(),
            final(self).gathered() == old(self).gathered(),
            r == verdict(old(self).shape().alpha, first, second),
            r.peak_ratio_up == (if first.nan() || second.above(first) {
                second
            } else {
                first
            }),
            r.up_detected == (first.above(old(self).shape().alpha) && second.above(
                old(self).shape().alpha,
            )),
            final(self).state() == after_window(
                old(self).state(),
                r.up_detected,
                old(self).release(),
            ),
    {
        let found = self.detector.process_window(first, second);
        if found.up_detected {
            self.activity = Activity { busy: true, clean_count: 0 };
        } else {
            let clean_count: u8 = if self.activity.clean_count < 255 {
                self.activity.clean_count + 1
            } else {
                255
            };
            self.activity = Activity {
                busy: self.activity.busy && clean_count < self.release_symbols,
                clean_count,
            };
        }
        found
    }

    /// Whether the channel counts as busy.
    pub fn is_busy(&self) -> (r: bool)
        ensures
            r == self.state().busy,
    {
        self.activity.busy
    }

    /// The detector.
    pub fn detector(&self) -> (r: Detector)
        ensures
            r == self.shape(),
    {
        self.detector
    }

    /// The detector, to be changed in place.
    pub fn detector_mut(&mut self) -> (r: &mut Detector)
        ensures
            *r == old(self).shape(),
            final(self).shape() == *final(r),
            final(self).gathered() == old(self).gathered(),
            final(self).state() == old(self).state(),
            final(self).release() == old(self).release(),
    {
        &mut self.detector
    }
}

// ---------------------------------------------------------------------------------------------
// Laws
// ---------------------------------------------------------------------------------------------
/// The activity after a row of windows.
pub open spec fn after_windows(a: Activity, detected: Seq<bool>, release_symbols: u8) -> Activity
    decreases detected.len(),
{
    if detected.len() == 0 {
        a
    } else {
        after_window(
            after_windows(a, detected.drop_last(), release_symbols),
            detected.last(),
            release_symbols,
        )
    }
}

/// A window in which something is detected makes the channel busy, whatever was before.
pub proof fn detection_makes_busy(a: Activity, before: Seq<bool>, release_symbols: u8)
    ensures
        after_windows(a, before.push(true), release_symbols) == (Activity {
            busy: true,
            clean_count: 0,
        }),
{
    assert(before.push(true).drop_last() =~= before);
}

/// From any state on, clear windows are counted up to 255, and a busy channel is released once the
/// count has reached `release_symbols`; a clear one stays clear.
pub proof fn clear_windows_count(a: Activity, clear: Seq<bool>, release_symbols: u8)
    requires
        clear.len() > 0,
        forall|i: int| 0 <= i < clear.len() ==> !#[trigger] clear[i],
    ensures
        ({
            let count = if a.clean_count + clear.len() < 255 {
                a.clean_count + clear.len()
            } else {
                255
            };
            let now = after_windows(a, clear, release_symbols);
            &&& now.clean_count == count
            &&& now.busy <==> a.busy && count < release_symbols
        }),
    decreases clear.len(),
{
    let front = clear.drop_last();
    assert(clear.last() == clear[clear.len() - 1]);
    assert forall|i: int| 0 <= i < front.len() implies !#[trigger] front[i] by {
        assert(front[i] == clear[i]);
    }
    if front.len() > 0 {
        clear_windows_count(a, front, release_symbols);
    } else {
        assert(after_windows(a, front, release_symbols) == a);
    }
}

/// A detection makes the channel busy, and from then on it stays busy through clear windows until
/// there were `release_symbols` of them in a row: not sooner and not later.
pub proof fn released_after_exactly(
    a: Activity,
    before: Seq<bool>,
    clear: Seq<bool>,
    release_symbols: u8,
)
    requires
        before.len() > 0,
        before.last(),
        forall|i: int| 0 <= i < clear.len() ==> !#[trigger] clear[i],
    ensures
        after_windows(a, before + clear, release_symbols).busy == (clear.len() == 0 || clear.len()
            < release_symbols),
        after_windows(a, before + clear, release_symbols).clean_count == (if clear.len() < 255 {
            clear.len() as int
        } else {
            255
        }),
    decreases clear.len(),
{
    if clear.len() == 0 {
        assert(before + clear =~= before);
    } else {
        assert((before + clear).drop_last() =~= before + clear.drop_last());
        assert(clear.last() == clear[clear.len() - 1]);
        assert forall|i: int| 0 <= i < clear.drop_last().len() implies !#[trigger] clear.drop_last()[i] by {
            assert(clear.drop_last()[i] == clear[i]);
        }
        released_after_exactly(a, before, clear.drop_last(), release_symbols);
    }
}

/// A clear channel stays clear until something is detected.
pub proof fn stays_clear(a: Activity, clear: Seq<bool>, release_symbols: u8)
    requires
        !a.busy,
        forall|i: int| 0 <= i < clear.len() ==> !#[trigger] clear[i],
    ensures
        !after_windows(a, clear, release_symbols).busy,
    decreases clear.len(),
{
    if clear.len() > 0 {
        assert(clear.last() == clear[clear.len() - 1]);
        assert forall|i: int| 0 <= i < clear.drop_last().len() implies !#[trigger] clear.drop_last()[i] by {
            assert(clear.drop_last()[i] == clear[i]);
        }
        stays_clear(a, clear.drop_last(), release_symbols);
    }
}

/// Windows are cut from a stream one behind the other, and nothing is lost or repeated: joined
/// together, with what is left over behind them, they are the stream. Each is of the full length, and
/// what is left over is shorter than a window.
pub proof fn windows_make_up_stream<T>(stream: Seq<T>, len: int)
    requires
        len > 0,
    ensures
        ({
            let (windows, left) = windows_of(stream, len);
            &&& windows.flatten() + left == stream
            &&& forall|i: int| 0 <= i < windows.len() ==> (#[trigger] windows[i]).len() == len
            &&& left.len() < len
        }),
    decreases stream.len(),
{
    let (windows, left) = windows_of(stream, len);
    if stream.len() < len {
        assert(windows.flatten() =~= Seq::<T>::empty());
        assert(windows.flatten() + left =~= stream);
    } else {
        let first = stream.subrange(0, len);
        let tail = stream.subrange(len, stream.len() as int);
        let (rest, l) = windows_of(tail, len);
        windows_make_up_stream(tail, len);
        assert(windows =~= seq![first] + rest);
        assert(windows.drop_first() =~= rest);
        assert(windows.flatten() == first + rest.flatten());
        assert((first + rest.flatten()) + left =~= first + (rest.flatten() + left));
        assert(first + tail =~= stream);
        assert forall|i: int| 0 <= i < windows.len() implies (#[trigger] windows[i]).len() == len by {
            if i > 0 {
                assert(windows[i] == rest[i - 1]);
            }
        }
    }
}

/// It does not matter in which pieces a stream comes in: the windows are those of the whole stream.
pub proof fn pieces_do_not_matter<T>(a: Seq<T>, b: Seq<T>, len: int)
    requires
        len > 0,
    ensures
        ({
            let (first, left) = windows_of(a, len);
            let (second, end) = windows_of(left + b, len);
            windows_of(a + b, len) == (first + second, end)
        }),
    decreases a.len(),
{
    let (first, left) = windows_of(a, len);
    let (second, end) = windows_of(left + b, len);
    if a.len() < len {
        assert(first + second =~= second);
    } else {
        let rest = a.subrange(len, a.len() as int);
        pieces_do_not_matter(rest, b, len);
        assert((a + b).subrange(len, (a + b).len() as int) =~= rest + b);
        assert((a + b).subrange(0, len) =~= a.subrange(0, len));
        let (tail, l) = windows_of(rest, len);
        assert(first =~= seq![a.subrange(0, len)] + tail);
        assert(seq![a.subrange(0, len)] + (tail + second) =~= first + second);
    }
}

} // verus!
