//! The chains of a receiver that decodes all spreading factors at once.

use vstd::prelude::*;

use crate::blocks::frame_sink::FrameSinkConfig;
use crate::text::{copy_text, decimal, decimal_text, text_view};

verus! {

/// The spreading factors of the physical layer.
#[derive(Clone, Copy, Debug, PartialEq, Eq, Structural)]
pub enum SpreadingFactor {
    SF5,
    SF6,
    SF7,
    SF8,
    SF9,
    SF10,
    SF11,
    SF12,
}

/// The number of a spreading factor.
pub open spec fn sf_number(sf: SpreadingFactor) -> u8 {
    match sf {
        SpreadingFactor::SF5 => 5,
        SpreadingFactor::SF6 => 6,
        SpreadingFactor::SF7 => 7,
        SpreadingFactor::SF8 => 8,
        SpreadingFactor::SF9 => 9,
        SpreadingFactor::SF10 => 10,
        SpreadingFactor::SF11 => 11,
        SpreadingFactor::SF12 => 12,
    }
}

/// The number of a spreading factor.
pub fn sf_to_u8(sf: SpreadingFactor) -> (r: u8)
    ensures
        r == sf_number(sf),
        5 <= r <= 12,
{
    match sf {
        SpreadingFactor::SF5 => 5,
        SpreadingFactor::SF6 => 6,
        SpreadingFactor::SF7 => 7,
        SpreadingFactor::SF8 => 8,
        SpreadingFactor::SF9 => 9,
        SpreadingFactor::SF10 => 10,
        SpreadingFactor::SF11 => 11,
        SpreadingFactor::SF12 => 12,
    }
}

/// The numbers of the spreading factors run from five to twelve, without a gap and in their order.
pub proof fn sf_numbers_run_on()
    ensures
        sf_number(SpreadingFactor::SF5) == 5,
        sf_number(SpreadingFactor::SF6) == sf_number(SpreadingFactor::SF5) + 1,
        sf_number(SpreadingFactor::SF7) == sf_number(SpreadingFactor::SF6) + 1,
        sf_number(SpreadingFactor::SF8) == sf_number(SpreadingFactor::SF7) + 1,
        sf_number(SpreadingFactor::SF9) == sf_number(SpreadingFactor::SF8) + 1,
        sf_number(SpreadingFactor::SF10) == sf_number(SpreadingFactor::SF9) + 1,
        sf_number(SpreadingFactor::SF11) == sf_number(SpreadingFactor::SF10) + 1,
        sf_number(SpreadingFactor::SF12) == sf_number(SpreadingFactor::SF11) + 1,
{
}

/// The spreading factors that are decoded, in the order of the chains.
pub const ALL_SF: [SpreadingFactor; 6] = [
    SpreadingFactor::SF7,
    SpreadingFactor::SF8,
    SpreadingFactor::SF9,
    SpreadingFactor::SF10,
    SpreadingFactor::SF11,
    SpreadingFactor::SF12,
];

/// The label of a template; one that has none is called `rx`.
pub open spec fn base_label(label: Option<String>) -> Seq<char> {
    match label {
        Some(s) => s@,
        None => "rx"@,
    }
}

/// The configuration of a chain: the template with the chain's spreading factor, which also joins the
/// label.
pub open spec fn is_chain_of(cfg: FrameSinkConfig, template: FrameSinkConfig, sf: u8) -> bool {
    &&& cfg.sf == sf
    &&& cfg.bw == template.bw
    &&& cfg.cr == template.cr
    &&& cfg.sync_word == template.sync_word
    &&& text_view(cfg.device) == text_view(template.device)
    &&& cfg.rx_channel == template.rx_channel
    &&& text_view(cfg.decode_label) == Some(
        base_label(template.decode_label) + "-sf"@ + decimal_text(sf as nat),
    )
}

/// A copy of a configuration.
pub fn copy_config(cfg: &FrameSinkConfig) -> (r: FrameSinkConfig)
    ensures
        r.sf == cfg.sf,
        r.bw == cfg.bw,
        r.cr == cfg.cr,
        r.sync_word == cfg.sync_word,
        text_view(r.device) == text_view(cfg.device),
        text_view(r.decode_label) == text_view(cfg.decode_label),
        r.rx_channel == cfg.rx_channel,
{
    FrameSinkConfig {
        sf: cfg.sf,
        bw: cfg.bw,
        cr: cfg.cr,
        sync_word: cfg.sync_word,
        device: copy_text(&cfg.device),
        decode_label: copy_text(&cfg.decode_label),
        rx_channel: cfg.rx_channel,
    }
}

/// The label of a template.
pub fn label_of(label: &Option<String>) -> (r: String)
    ensures
        r@ == base_label(*label),
{
    match label {
        Some(s) => s.clone(),
        None => "rx".to_owned(),
    }
}

fn chain(template: &FrameSinkConfig, sf: SpreadingFactor) -> (r: FrameSinkConfig)
    ensures
        is_chain_of(r, *template, sf_number(sf)),
{
    let mut cfg = copy_config(template);
    let number: u8 = sf_to_u8(sf);
    cfg.sf = number;
    let digits = decimal(number as u64);
    let label = label_of(&template.decode_label).concat("-sf").concat(digits.as_str());
    cfg.decode_label = Some(label);
    cfg
}

/// A chain differs from its template in the spreading factor and in the label, which the factor joins,
/// and in nothing else.
pub proof fn chain_keeps_template(cfg: FrameSinkConfig, template: FrameSinkConfig, sf: u8)
    requires
        is_chain_of(cfg, template, sf),
    ensures
        cfg.sf == sf,
        cfg.bw == template.bw,
        cfg.cr == template.cr,
        cfg.sync_word == template.sync_word,
        cfg.rx_channel == template.rx_channel,
        text_view(cfg.device) == text_view(template.device),
        cfg.decode_label is Some,
        match template.decode_label {
            Some(label) => cfg.decode_label->0@ == label@ + "-sf"@ + decimal_text(sf as nat),
            None => cfg.decode_label->0@ == "rx"@ + "-sf"@ + decimal_text(sf as nat),
        },
{
}

/// The sinks of a receiver for all spreading factors: one for each, in the order of the chains.
pub fn build_multi_sf_rx(template: &FrameSinkConfig) -> (r: Vec<FrameSinkConfig>)
    ensures
        r@.len() == 6,
        forall|i: int| 0 <= i < 6 ==> is_chain_of(#[trigger] r@[i], *template, (7 + i) as u8),
{
    let mut out: Vec<FrameSinkConfig> = Vec::new();
    let mut i: usize = 0;
    while i < 6
        invariant
            i <= 6,
            out@.len() == i,
            forall|j: int| 0 <= j < i ==> is_chain_of(#[trigger] out@[j], *template, (7 + j) as u8),
        decreases 6 - i,
    {
        let sf = ALL_SF[i];
        assert(sf_number(sf) == 7 + i);
        out.push(chain(template, sf));
        i = i + 1;
    }
    out
}

} // verus!
