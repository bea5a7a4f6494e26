//! The branches of a receiver that decodes several bandwidths at once.
//!
//! All branches take the same samples; a branch for a bandwidth sees them as oversampled by the ratio
//! of the two rates, which therefore has to be a whole number.

use vstd::prelude::*;

use crate::blocks::frame_sink::FrameSinkConfig;
use crate::blocks::multi_sf::{base_label, copy_config, label_of};
use crate::text::{decimal, decimal_text, text_view};

verus! {

/// The most bandwidths of a receiver.
pub const MAX_BW: usize = 4;

/// Why a receiver cannot be built.
#[derive(Clone, Copy, Debug, PartialEq, Eq, Structural)]
pub enum MultiBwError {
    /// No bandwidths.
    Empty,
    /// More bandwidths than there are branches.
    TooMany { len: usize },
    /// A bandwidth of zero.
    ZeroBandwidth,
    /// The sample rate is no multiple of a bandwidth.
    NotMultiple { sample_rate: u64, bw: u32 },
    /// A bandwidth that the physical layer does not have.
    InvalidBandwidth { bw: u32 },
}

/// The bandwidths of the physical layer, in hertz.
pub open spec fn known_bandwidth(bw: u32) -> bool {
    ||| bw == 7_800
    ||| bw == 10_400
    ||| bw == 15_600
    ||| bw == 20_800
    ||| bw == 31_200
    ||| bw == 41_700
    ||| bw == 62_500
    ||| bw == 125_000
    ||| bw == 250_000
    ||| bw == 500_000
}

/// Whether the physical layer has a bandwidth.
pub fn is_known_bandwidth(bw: u32) -> (r: bool)
    ensures
        r == known_bandwidth(bw),
{
    bw == 7_800 || bw == 10_400 || bw == 15_600 || bw == 20_800 || bw == 31_200 || bw == 41_700 || bw
        == 62_500 || bw == 125_000 || bw == 250_000 || bw == 500_000
}

/// One branch: its bandwidth, how often each chip is sampled, and what its sinks have in common.
#[derive(Debug, PartialEq, Eq)]
pub struct Branch {
    pub bw: u32,
    pub os_factor: u64,
    pub cfg: FrameSinkConfig,
}

/// The branches of a receiver, in the order of the bandwidths, and how many outputs of the splitter
/// are left over and have to be drained.
#[derive(Debug, PartialEq, Eq)]
pub struct MultiBwRx {
    pub branches: Vec<Branch>,
    pub bandwidths: Vec<u32>,
    pub unused: usize,
}

/// The branch for a bandwidth: the template with that bandwidth, which also joins the label in
/// kilohertz.
pub open spec fn is_branch_of(b: Branch, template: FrameSinkConfig, bw: u32, sample_rate: u64) -> bool {
    &&& b.bw == bw
    &&& b.os_factor == sample_rate as int / bw as int
    &&& b.cfg.bw == bw
    &&& b.cfg.sf == template.sf
    &&& b.cfg.cr == template.cr
    &&& b.cfg.sync_word == template.sync_word
    &&& text_view(b.cfg.device) == text_view(template.device)
    &&& b.cfg.rx_channel == template.rx_channel
    &&& text_view(b.cfg.decode_label) == Some(
        base_label(template.decode_label) + "-bw"@ + decimal_text((bw / 1_000) as nat) + "k"@,
    )
}

/// The first of the bandwidths that does not go with the sample rate, and why.
pub open spec fn first_misfit(bandwidths: Seq<u32>, sample_rate: u64) -> Option<MultiBwError>
    decreases bandwidths.len(),
{
    if bandwidths.len() == 0 {
        None
    } else {
        match first_misfit(bandwidths.drop_last(), sample_rate) {
            Some(e) => Some(e),
            None => {
                let bw = bandwidths.last();
                if bw == 0 {
                    Some(MultiBwError::ZeroBandwidth)
                } else if sample_rate as int % bw as int != 0 {
                    Some(MultiBwError::NotMultiple { sample_rate, bw })
                } else {
                    None
                }
            },
        }
    }
}

/// The first of the bandwidths that the physical layer does not have.
pub open spec fn first_unknown(bandwidths: Seq<u32>) -> Option<MultiBwError>
    decreases bandwidths.len(),
{
    if bandwidths.len() == 0 {
        None
    } else {
        match first_unknown(bandwidths.drop_last()) {
            Some(e) => Some(e),
            None => if known_bandwidth(bandwidths.last()) {
                None
            } else {
                Some(MultiBwError::InvalidBandwidth { bw: bandwidths.last() })
            },
        }
    }
}

/// Why a receiver for these bandwidths cannot be built, if it cannot: the first reason counts.
pub open spec fn refused(bandwidths: Seq<u32>, sample_rate: u64) -> Option<MultiBwError> {
    if bandwidths.len() == 0 {
        Some(MultiBwError::Empty)
    } else if bandwidths.len() > MAX_BW {
        Some(MultiBwError::TooMany { len: bandwidths.len() as usize })
    } else if first_misfit(bandwidths, sample_rate) is Some {
        first_misfit(bandwidths, sample_rate)
    } else {
        first_unknown(bandwidths)
    }
}

fn branch(template: &FrameSinkConfig, bw: u32, sample_rate: u64) -> (r: Branch)
    requires
        bw > 0,
    ensures
        is_branch_of(r, *template, bw, sample_rate),
{
    let mut cfg = copy_config(template);
    cfg.bw = bw;
    let digits = decimal((bw / 1_000) as u64);
    let label = label_of(&template.decode_label).concat("-bw").concat(digits.as_str()).concat("k");
    cfg.decode_label = Some(label);
    Branch { bw, os_factor: sample_rate / bw as u64, cfg }
}

/// A bandwidth that was found unfit stays the first one.
proof fn misfit_stays(bandwidths: Seq<u32>, n: int, sample_rate: u64)
    requires
        0 <= n <= bandwidths.len(),
        first_misfit(bandwidths.take(n), sample_rate) is Some,
    ensures
        first_misfit(bandwidths, sample_rate) == first_misfit(bandwidths.take(n), sample_rate),
    decreases bandwidths.len(),
{
    if n == bandwidths.len() {
        assert(bandwidths.take(n) =~= bandwidths);
    } else {
        assert(bandwidths.drop_last().take(n) =~= bandwidths.take(n));
        misfit_stays(bandwidths.drop_last(), n, sample_rate);
    }
}

proof fn unknown_stays(bandwidths: Seq<u32>, n: int)
    requires
        0 <= n <= bandwidths.len(),
        first_unknown(bandwidths.take(n)) is Some,
    ensures
        first_unknown(bandwidths) == first_unknown(bandwidths.take(n)),
    decreases bandwidths.len(),
{
    if n == bandwidths.len() {
        assert(bandwidths.take(n) =~= bandwidths);
    } else {
        assert(bandwidths.drop_last().take(n) =~= bandwidths.take(n));
        unknown_stays(bandwidths.drop_last(), n);
    }
}

/// Without a misfit every bandwidth divides the sample rate.
proof fn no_misfit(bandwidths: Seq<u32>, sample_rate: u64, i: int)
    requires
        first_misfit(bandwidths, sample_rate) is None,
        0 <= i < bandwidths.len(),
    ensures
        bandwidths[i] > 0,
        sample_rate as int % bandwidths[i] as int == 0,
    decreases bandwidths.len(),
{
    if i < bandwidths.len() - 1 {
        no_misfit(bandwidths.drop_last(), sample_rate, i);
        assert(bandwidths.drop_last()[i] == bandwidths[i]);
    }
}

/// Plans a receiver for several bandwidths at one sample rate.
pub fn build_multi_bw_rx(
    bandwidths: &[u32],
    sample_rate: u64,
    template: &FrameSinkConfig,
) -> (r: Result<MultiBwRx, MultiBwError>)
    ensures
        match refused(bandwidths@, sample_rate) {
            Some(e) => r matches Err(x) && x == e,
            None => {
                &&& r matches Ok(rx) && rx.bandwidths@ == bandwidths@ && rx.branches@.len()
                    == bandwidths@.len() && rx.unused == MAX_BW - bandwidths@.len() && forall|i: int|
                    0 <= i < bandwidths@.len() ==> is_branch_of(
                        #[trigger] rx.branches@[i],
                        *template,
                        bandwidths@[i],
                        sample_rate,
                    )
            },
        },
{
    if bandwidths.len() == 0 {
        return Err(MultiBwError::Empty);
    }
    if bandwidths.len() > MAX_BW {
        return Err(MultiBwError::TooMany { len: bandwidths.len() });
    }
    let mut i: usize = 0;
    assert(bandwidths@.take(0).len() == 0);
    while i < bandwidths.len()
        invariant
            i <= bandwidths.len(),
            0 < bandwidths@.len() <= MAX_BW,
            first_misfit(bandwidths@.take(i as int), sample_rate) is None,
        decreases bandwidths.len() - i,
    {
        let bw: u32 = bandwidths[i];
        proof {
            assert(bandwidths@.take(i + 1).drop_last() =~= bandwidths@.take(i as int));
        }
        if bw == 0 {
            proof {
                misfit_stays(bandwidths@, i + 1, sample_rate);
            }
            return Err(MultiBwError::ZeroBandwidth);
        }
        if sample_rate % bw as u64 != 0 {
            proof {
                misfit_stays(bandwidths@, i + 1, sample_rate);
            }
            return Err(MultiBwError::NotMultiple { sample_rate, bw });
        }
        i = i + 1;
    }
    assert(bandwidths@.take(i as int) =~= bandwidths@);
    let mut branches: Vec<Branch> = Vec::new();
    let mut list: Vec<u32> = Vec::new();
    let mut k: usize = 0;
    assert(bandwidths@.take(0).len() == 0);
    while k < bandwidths.len()
        invariant
            k <= bandwidths.len(),
            0 < bandwidths@.len() <= MAX_BW,
            first_misfit(bandwidths@, sample_rate) is None,
            first_unknown(bandwidths@.take(k as int)) is None,
            list@ == bandwidths@.take(k as int),
            branches@.len() == k,
            forall|j: int|
                0 <= j < k ==> is_branch_of(
                    #[trigger] branches@[j],
                    *template,
                    bandwidths@[j],
                    sample_rate,
                ),
        decreases bandwidths.len() - k,
    {
        let bw: u32 = bandwidths[k];
        proof {
            no_misfit(bandwidths@, sample_rate, k as int);
            assert(bandwidths@.take(k + 1).drop_last() =~= bandwidths@.take(k as int));
        }
        if !is_known_bandwidth(bw) {
            proof {
                unknown_stays(bandwidths@, k + 1);
            }
            return Err(MultiBwError::InvalidBandwidth { bw });
        }
        branches.push(branch(template, bw, sample_rate));
        list.push(bw);
        assert(list@ =~= bandwidths@.take(k + 1));
        k = k + 1;
    }
    assert(bandwidths@.take(k as int) =~= bandwidths@);
    Ok(MultiBwRx { branches, bandwidths: list, unused: MAX_BW - bandwidths.len() })
}

impl MultiBwError {
    /// The error in words.
    pub open spec fn text(self) -> Seq<char> {
        match self {
            MultiBwError::Empty => "multi_bw: bandwidths must be non-empty"@,
            MultiBwError::TooMany { len } => "multi_bw: bandwidths.len()="@ + decimal_text(
                len as nat,
            ) + " exceeds MAX_BW=4"@,
            MultiBwError::ZeroBandwidth => "multi_bw: bw must be > 0"@,
            MultiBwError::NotMultiple { sample_rate, bw } => "multi_bw: sample_rate "@
                + decimal_text(sample_rate as nat) + " not a multiple of bw "@ + decimal_text(
                bw as nat,
            ),
            MultiBwError::InvalidBandwidth { bw } => "multi_bw: invalid bandwidth "@ + decimal_text(
                bw as nat,
            ),
        }
    }

    /// The error in words.
    pub fn message(self) -> (r: String)
        ensures
            r@ == self.text(),
    {
        match self {
            MultiBwError::Empty => "multi_bw: bandwidths must be non-empty".to_owned(),
            MultiBwError::TooMany { len } => {
                let n = decimal(len as u64);
                "multi_bw: bandwidths.len()=".to_owned().concat(n.as_str()).concat(
                    " exceeds MAX_BW=4",
                )
            },
            MultiBwError::ZeroBandwidth => "multi_bw: bw must be > 0".to_owned(),
            MultiBwError::NotMultiple { sample_rate, bw } => {
                let rate = decimal(sample_rate);
                let width = decimal(bw as u64);
                "multi_bw: sample_rate ".to_owned().concat(rate.as_str()).concat(
                    " not a multiple of bw ",
                ).concat(width.as_str())
            },
            MultiBwError::InvalidBandwidth { bw } => {
                let width = decimal(bw as u64);
                "multi_bw: invalid bandwidth ".to_owned().concat(width.as_str())
            },
        }
    }
}

/// Which receivers can be built: those of one to four bandwidths, each of which the physical layer has and
/// divides the sample rate.
pub proof fn can_be_built(bandwidths: Seq<u32>, sample_rate: u64)
    ensures
        refused(bandwidths, sample_rate) is None <==> {
            &&& 1 <= bandwidths.len() <= 4
            &&& forall|i: int|
                0 <= i < bandwidths.len() ==> sample_rate as int % (#[trigger] bandwidths[i]) as int
                    == 0 && seq![
                    7_800u32,
                    10_400,
                    15_600,
                    20_800,
                    31_200,
                    41_700,
                    62_500,
                    125_000,
                    250_000,
                    500_000,
                ].contains(bandwidths[i])
        },
{
    let all = seq![
        7_800u32,
        10_400,
        15_600,
        20_800,
        31_200,
        41_700,
        62_500,
        125_000,
        250_000,
        500_000,
    ];
    assert forall|bw: u32| known_bandwidth(bw) == #[trigger] all.contains(bw) by {
        assert(all[0] == 7_800 && all[1] == 10_400 && all[2] == 15_600 && all[3] == 20_800 && all[4]
            == 31_200 && all[5] == 41_700 && all[6] == 62_500 && all[7] == 125_000 && all[8]
            == 250_000 && all[9] == 500_000);
    }
    misfit_told(bandwidths, sample_rate);
    unknown_told(bandwidths);
}

/// The first bandwidth that does not fit is the one that is told: all before it fit.
pub proof fn misfit_told(bandwidths: Seq<u32>, sample_rate: u64)
    ensures
        first_misfit(bandwidths, sample_rate) is None <==> forall|i: int|
            0 <= i < bandwidths.len() ==> (#[trigger] bandwidths[i]) != 0 && sample_rate as int
                % bandwidths[i] as int == 0,
        first_misfit(bandwidths, sample_rate) matches Some(e) ==> exists|i: int|
            0 <= i < bandwidths.len() && misfit_at(bandwidths, sample_rate, i, e),
    decreases bandwidths.len(),
{
    if bandwidths.len() > 0 {
        let front = bandwidths.drop_last();
        let last = bandwidths.len() - 1;
        misfit_told(front, sample_rate);
        assert(bandwidths[last] == bandwidths.last());
        if first_misfit(front, sample_rate) is None {
            assert forall|i: int| 0 <= i < last implies (#[trigger] bandwidths[i]) != 0
                && sample_rate as int % bandwidths[i] as int == 0 by {
                assert(front[i] == bandwidths[i]);
            }
            if first_misfit(bandwidths, sample_rate) is Some {
                assert(misfit_at(
                    bandwidths,
                    sample_rate,
                    last,
                    first_misfit(bandwidths, sample_rate)->0,
                ));
            }
        } else {
            let e = first_misfit(front, sample_rate)->0;
            let i = choose|i: int| 0 <= i < front.len() && misfit_at(front, sample_rate, i, e);
            assert(front[i] == bandwidths[i]);
            assert forall|j: int| 0 <= j < i implies (#[trigger] bandwidths[j]) != 0
                && sample_rate as int % bandwidths[j] as int == 0 by {
                assert(front[j] == bandwidths[j]);
            }
            assert(misfit_at(bandwidths, sample_rate, i, e));
        }
    }
}

/// The bandwidth at `i` is the first that does not fit, and `e` says so.
pub open spec fn misfit_at(bandwidths: Seq<u32>, sample_rate: u64, i: int, e: MultiBwError) -> bool {
    &&& forall|j: int|
        0 <= j < i ==> (#[trigger] bandwidths[j]) != 0 && sample_rate as int % bandwidths[j] as int
            == 0
    &&& if bandwidths[i] == 0 {
        e == MultiBwError::ZeroBandwidth
    } else {
        sample_rate as int % bandwidths[i] as int != 0 && e == (MultiBwError::NotMultiple {
            sample_rate,
            bw: bandwidths[i],
        })
    }
}

proof fn unknown_told(bandwidths: Seq<u32>)
    ensures
        first_unknown(bandwidths) is None <==> forall|i: int|
            0 <= i < bandwidths.len() ==> known_bandwidth(#[trigger] bandwidths[i]),
    decreases bandwidths.len(),
{
    if bandwidths.len() > 0 {
        let front = bandwidths.drop_last();
        unknown_told(front);
        assert(bandwidths[bandwidths.len() - 1] == bandwidths.last());
        if first_unknown(front) is None {
            assert forall|i: int| 0 <= i < bandwidths.len() - 1 implies known_bandwidth(
                #[trigger] bandwidths[i],
            ) by {
                assert(front[i] == bandwidths[i]);
            }
        } else {
            let i = choose|i: int| 0 <= i < front.len() && !known_bandwidth(#[trigger] front[i]);
            assert(!known_bandwidth(bandwidths[i]));
        }
    }
}

/// In a receiver that can be built, each branch's oversampling makes up for its bandwidth exactly:
/// the product of the two is the sample rate.
pub proof fn oversampling_is_exact(bandwidths: Seq<u32>, sample_rate: u64, i: int)
    requires
        refused(bandwidths, sample_rate) is None,
        0 <= i < bandwidths.len(),
    ensures
        bandwidths[i] > 0,
        sample_rate as int / bandwidths[i] as int * bandwidths[i] == sample_rate,
{
    no_misfit(bandwidths, sample_rate, i);
    let m = bandwidths[i] as int;
    vstd::arithmetic::div_mod::lemma_fundamental_div_mod(sample_rate as int, m);
    assert(sample_rate as int / m * m == m * (sample_rate as int / m)) by (nonlinear_arith);
}

/// A branch of a receiver that can be built samples its bandwidth so often that the product is the
/// sample rate; it differs from its template in the bandwidth and in the label, which the bandwidth in
/// kilohertz joins, and in nothing else.
pub proof fn branch_keeps_template(
    b: Branch,
    template: FrameSinkConfig,
    bandwidths: Seq<u32>,
    sample_rate: u64,
    i: int,
)
    requires
        refused(bandwidths, sample_rate) is None,
        0 <= i < bandwidths.len(),
        is_branch_of(b, template, bandwidths[i], sample_rate),
    ensures
        b.bw == bandwidths[i],
        b.os_factor * b.bw == sample_rate,
        b.cfg.bw == bandwidths[i],
        b.cfg.sf == template.sf,
        b.cfg.cr == template.cr,
        b.cfg.sync_word == template.sync_word,
        b.cfg.rx_channel == template.rx_channel,
        text_view(b.cfg.device) == text_view(template.device),
        b.cfg.decode_label is Some,
        ({
            let kilohertz = decimal_text((bandwidths[i] / 1_000) as nat);
            match template.decode_label {
                Some(label) => b.cfg.decode_label->0@ == label@ + "-bw"@ + kilohertz + "k"@,
                None => b.cfg.decode_label->0@ == "rx"@ + "-bw"@ + kilohertz + "k"@,
            }
        }),
{
    oversampling_is_exact(bandwidths, sample_rate, i);
}

/// All bandwidths go with the sample rate, and the one at `i` is the first that the physical layer does not
/// have.
pub open spec fn first_unknown_at(bandwidths: Seq<u32>, sample_rate: u64, i: int) -> bool {
    &&& 0 <= i < bandwidths.len()
    &&& !known_bandwidth(bandwidths[i])
    &&& forall|j: int| 0 <= j < i ==> known_bandwidth(#[trigger] bandwidths[j])
    &&& forall|j: int|
        0 <= j < bandwidths.len() ==> (#[trigger] bandwidths[j]) != 0 && sample_rate as int
            % bandwidths[j] as int == 0
}

proof fn unknown_stands(bandwidths: Seq<u32>, sample_rate: u64, i: int)
    requires
        first_unknown_at(bandwidths, sample_rate, i),
    ensures
        first_unknown(bandwidths) == Some(MultiBwError::InvalidBandwidth { bw: bandwidths[i] }),
{
    let head = bandwidths.take(i + 1);
    assert(head.drop_last() =~= bandwidths.take(i));
    unknown_told(bandwidths.take(i));
    assert(head.last() == bandwidths[i]);
    unknown_stays(bandwidths, i + 1);
}

/// What is told where a receiver cannot be built: that there are no bandwidths, or how many there are if
/// they are too many; else the first one that does not go with the sample rate, if there is one.
pub proof fn refusal_is_told(bandwidths: Seq<u32>, sample_rate: u64)
    ensures
        bandwidths.len() == 0 ==> refused(bandwidths, sample_rate) == Some(MultiBwError::Empty),
        4 < bandwidths.len() <= usize::MAX ==> refused(bandwidths, sample_rate) == Some(
            MultiBwError::TooMany { len: bandwidths.len() as usize },
        ),
        forall|i: int, e: MultiBwError|
            1 <= bandwidths.len() <= 4 && 0 <= i < bandwidths.len() && #[trigger] misfit_at(
                bandwidths,
                sample_rate,
                i,
                e,
            ) ==> refused(bandwidths, sample_rate) == Some(e),
        forall|i: int|
            1 <= bandwidths.len() <= 4 && #[trigger] first_unknown_at(bandwidths, sample_rate, i)
                ==> refused(bandwidths, sample_rate) == Some(
                MultiBwError::InvalidBandwidth { bw: bandwidths[i] },
            ),
{
    assert forall|i: int|
        1 <= bandwidths.len() <= 4 && #[trigger] first_unknown_at(
            bandwidths,
            sample_rate,
            i,
        ) implies refused(bandwidths, sample_rate) == Some(
        MultiBwError::InvalidBandwidth { bw: bandwidths[i] },
    ) by {
        misfit_told(bandwidths, sample_rate);
        unknown_stands(bandwidths, sample_rate, i);
    }
    assert forall|i: int, e: MultiBwError|
        1 <= bandwidths.len() <= 4 && 0 <= i < bandwidths.len() && #[trigger] misfit_at(
            bandwidths,
            sample_rate,
            i,
            e,
        ) implies refused(bandwidths, sample_rate) == Some(e) by {
        misfit_told(bandwidths, sample_rate);
        let x = first_misfit(bandwidths, sample_rate)->0;
        let k = choose|k: int| 0 <= k < bandwidths.len() && misfit_at(bandwidths, sample_rate, k, x);
        assert(misfit_at(bandwidths, sample_rate, k, x));
        if k < i {
            assert(bandwidths[k] != 0);
        } else if i < k {
            assert(bandwidths[i] != 0);
        }
    }
}

} // verus!
