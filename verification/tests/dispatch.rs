//! Carrying out transmit requests.

use chirpmunk::blocks::tx_dispatch::{
    dispatch_lora_tx, wait_until_clear, Action, LbtOutcome, LbtPolicy, LbtStep, Report,
};
use chirpmunk::cbor::{to_vec, LoraTx, LoraTxAck};

const MS: u128 = 1_000_000;

/// Waits on a simulated clock; the channel is busy until `clear_at`.
fn wait(clear_at: Option<u128>, deadline_ms: u128, poll_ms: u128) -> (LbtOutcome, u128) {
    let policy = LbtPolicy { timeout_ns: deadline_ms * MS, poll_interval_ns: poll_ms * MS };
    let mut now: u128 = 0;
    loop {
        let busy = match clear_at {
            Some(t) => now < t * MS,
            None => true,
        };
        match wait_until_clear(busy, now, policy) {
            LbtStep::Done(outcome) => return (outcome, now / MS),
            LbtStep::Sleep(ns) => now += ns,
        }
    }
}

#[test]
fn busy_persistent_returns_timeout() {
    assert_eq!(wait(None, 50, 5), (LbtOutcome::Timeout, 50));
}

#[test]
fn busy_clears_before_deadline_returns_clear() {
    assert_eq!(wait(Some(20), 200, 5), (LbtOutcome::Clear, 20));
}

#[test]
fn already_clear_returns_immediately() {
    assert_eq!(wait(Some(0), 1000, 50), (LbtOutcome::Clear, 0));
}

#[test]
fn a_clear_channel_wins_over_the_deadline() {
    let policy = LbtPolicy { timeout_ns: 0, poll_interval_ns: 1 };
    assert_eq!(wait_until_clear(false, 5, policy), LbtStep::Done(LbtOutcome::Clear));
    assert_eq!(wait_until_clear(true, 0, policy), LbtStep::Done(LbtOutcome::Timeout));
}

#[test]
fn dry_run_acks_without_dispatching() {
    let req = LoraTx {
        payload: b"never-emitted".to_vec(),
        seq: Some(7),
        dry_run: true,
        ..LoraTx::default()
    };
    let (d, action) = dispatch_lora_tx(&req, false);
    match action {
        Action::Answer(ack) => {
            assert!(ack.ok);
            assert_eq!(ack.seq, 7);
            assert!(ack.error.is_none());
        }
        other => panic!("dry_run should not produce a frame: {other:?}"),
    }
    assert!(!d.expects(Report::Posted(true)));
}

#[test]
fn a_dry_run_does_not_wait_for_the_channel() {
    let req = LoraTx { payload: vec![1], seq: Some(7), dry_run: true, ..LoraTx::default() };
    assert_eq!(dispatch_lora_tx(&req, true).1, Action::Answer(LoraTxAck::ok(7)));
}

#[test]
fn a_plain_request_is_posted_once() {
    let req = LoraTx {
        payload: b"chirpmunk-m3-tx-payload".to_vec(),
        seq: Some(99),
        ..LoraTx::default()
    };
    let (mut d, action) = dispatch_lora_tx(&req, false);
    assert_eq!(action, Action::Post(b"chirpmunk-m3-tx-payload".to_vec()));
    assert!(d.expects(Report::Posted(true)));
    assert_eq!(d.step(Report::Posted(true)), Action::Answer(LoraTxAck::ok(99)));
}

#[test]
fn repeats_are_gated_and_spaced() {
    let req = LoraTx {
        payload: vec![1, 2],
        repeat: Some(2),
        gap_ms: Some(500),
        ..LoraTx::default()
    };
    let (mut d, action) = dispatch_lora_tx(&req, true);
    assert_eq!(action, Action::WaitUntilClear);
    assert_eq!(d.step(Report::Gate(LbtOutcome::Clear)), Action::Post(vec![1, 2]));
    assert_eq!(d.step(Report::Posted(true)), Action::Sleep(500));
    assert_eq!(d.step(Report::Slept), Action::WaitUntilClear);
    assert_eq!(d.step(Report::Gate(LbtOutcome::Clear)), Action::Post(vec![1, 2]));
    assert_eq!(d.step(Report::Posted(true)), Action::Answer(LoraTxAck::ok(0)));
}

#[test]
fn failures_are_answered() {
    let req = LoraTx { payload: vec![1], seq: Some(3), repeat: Some(5), ..LoraTx::default() };
    let (mut d, _) = dispatch_lora_tx(&req, true);
    assert_eq!(
        d.step(Report::Gate(LbtOutcome::Timeout)),
        Action::Answer(LoraTxAck::err(3, "channel_busy"))
    );
    let (mut d, _) = dispatch_lora_tx(&req, false);
    assert_eq!(d.step(Report::Posted(true)), Action::Post(vec![1]));
    assert_eq!(d.step(Report::Posted(false)), Action::Answer(LoraTxAck::err(3, "internal")));
    let empty = LoraTx { seq: Some(4), ..LoraTx::default() };
    let (_, action) = dispatch_lora_tx(&empty, false);
    assert_eq!(action, Action::Answer(LoraTxAck::err(4, "internal")));
}

#[test]
fn no_repeats_are_one() {
    let req = LoraTx { payload: vec![1], repeat: Some(0), ..LoraTx::default() };
    let (mut d, action) = dispatch_lora_tx(&req, false);
    assert_eq!(action, Action::Post(vec![1]));
    assert_eq!(d.step(Report::Posted(true)), Action::Answer(LoraTxAck::ok(0)));
}

#[test]
fn a_request_and_its_answer_over_the_wire() {
    let req = LoraTx { payload: vec![9], seq: Some(77), ..LoraTx::default() };
    let received = LoraTx::from_slice(&to_vec(&req).unwrap()).unwrap();
    assert_eq!(received, req);
    let (mut d, _) = dispatch_lora_tx(&received, true);
    let ack = match d.step(Report::Gate(LbtOutcome::Timeout)) {
        Action::Answer(ack) => ack,
        other => panic!("{other:?}"),
    };
    let read = LoraTxAck::from_slice(&to_vec(&ack).unwrap()).unwrap();
    assert_eq!(read, LoraTxAck::err(77, "channel_busy"));
}
