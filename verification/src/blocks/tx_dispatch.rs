//! Carrying out a transmit request: how often the payload is handed to the transmitter, when the
//! channel has to be clear, and what the client is answered.
//!
//! The caller does the waiting and the posting. It carries out the action it is given, reports how
//! that went, and is given the next action, until the action is an answer.

use vstd::prelude::*;

use crate::cbor::error::ErrorView;
use crate::cbor::key::encoded_len;
use crate::cbor::tx::{
    lora_tx_ack_in, lora_tx_ack_round_trip, lora_tx_ack_wire, lora_tx_fits, lora_tx_in,
    lora_tx_round_trip, lora_tx_wire, LoraTx, LoraTxAck, LoraTxAckView, LoraTxView,
};

verus! {

// ---------------------------------------------------------------------------------------------
// Listen before talk
// ---------------------------------------------------------------------------------------------
/// How waiting for a clear channel ended.
#[derive(Clone, Copy, Debug, PartialEq, Eq, Structural)]
pub enum LbtOutcome {
    Clear,
    Timeout,
}

/// How long to wait for a clear channel and how often to look, in nanoseconds.
#[derive(Clone, Copy, Debug, PartialEq, Eq, Structural)]
pub struct LbtPolicy {
    pub timeout_ns: u128,
    pub poll_interval_ns: u128,
}

/// What to do after a look at the channel.
#[derive(Clone, Copy, Debug, PartialEq, Eq, Structural)]
pub enum LbtStep {
    /// Waiting is over.
    Done(LbtOutcome),
    /// Look again after this many nanoseconds.
    Sleep(u128),
}

/// What follows from a look at the channel, `elapsed_ns` after waiting began. A clear channel ends
/// the wait even when the time is up.
pub open spec fn after_look(busy: bool, elapsed_ns: u128, policy: LbtPolicy) -> LbtStep {
    if !busy {
        LbtStep::Done(LbtOutcome::Clear)
    } else if elapsed_ns >= policy.timeout_ns {
        LbtStep::Done(LbtOutcome::Timeout)
    } else {
        LbtStep::Sleep(policy.poll_interval_ns)
    }
}

/// One look at the channel, `elapsed_ns` after waiting began.
pub fn wait_until_clear(busy: bool, elapsed_ns: u128, policy: LbtPolicy) -> (r: LbtStep)
    ensures
        r == after_look(busy, elapsed_ns, policy),
{
    if !busy {
        LbtStep::Done(LbtOutcome::Clear)
    } else if elapsed_ns >= policy.timeout_ns {
        LbtStep::Done(LbtOutcome::Timeout)
    } else {
        LbtStep::Sleep(policy.poll_interval_ns)
    }
}

/// A look at the channel: whether it was busy, and how long after waiting began.
pub struct Look {
    pub busy: bool,
    pub elapsed_ns: u128,
}

/// Looks at the channel that did not end the wait, each after the sleep that the one before it asked
/// for.
pub open spec fn still_waiting(looks: Seq<Look>, policy: LbtPolicy) -> bool {
    &&& forall|i: int|
        0 <= i < looks.len() ==> after_look(
            (#[trigger] looks[i]).busy,
            looks[i].elapsed_ns,
            policy,
        ) is Sleep
    &&& forall|i: int|
        0 < i < looks.len() ==> (#[trigger] looks[i]).elapsed_ns >= looks[i - 1].elapsed_ns
            + policy.poll_interval_ns
}

/// Waiting is bounded: while it goes on, the channel was busy at every look, and the sleeps so far
/// add up to less than the timeout. So where the looks are some time apart, the wait ends.
pub proof fn waiting_is_bounded(looks: Seq<Look>, policy: LbtPolicy)
    requires
        looks.len() > 0,
        still_waiting(looks, policy),
    ensures
        forall|i: int| 0 <= i < looks.len() ==> (#[trigger] looks[i]).busy,
        (looks.len() - 1) * policy.poll_interval_ns <= looks.last().elapsed_ns,
        (looks.len() - 1) * policy.poll_interval_ns < policy.timeout_ns,
    decreases looks.len(),
{
    assert(looks.last() == looks[looks.len() - 1]);
    if looks.len() > 1 {
        let front = looks.drop_last();
        assert(still_waiting(front, policy)) by {
            assert forall|i: int| 0 <= i < front.len() implies after_look(
                (#[trigger] front[i]).busy,
                front[i].elapsed_ns,
                policy,
            ) is Sleep by {
                assert(front[i] == looks[i]);
            }
            assert forall|i: int| 0 < i < front.len() implies (#[trigger] front[i]).elapsed_ns
                >= front[i - 1].elapsed_ns + policy.poll_interval_ns by {
                assert(front[i] == looks[i] && front[i - 1] == looks[i - 1]);
            }
        }
        waiting_is_bounded(front, policy);
        assert(front.last() == looks[looks.len() - 2]);
        assert((looks.len() - 1) * policy.poll_interval_ns == (looks.len() - 2)
            * policy.poll_interval_ns + policy.poll_interval_ns) by (nonlinear_arith);
    }
}

/// Waiting for a busy channel is given up as soon as a look finds it still busy after the timeout, and
/// never before; until then the next look comes after one interval. What a look at the timeout finds
/// busy, every later one does too.
pub proof fn given_up_at_timeout(busy: bool, elapsed_ns: u128, policy: LbtPolicy)
    ensures
        ({
            let step = after_look(busy, elapsed_ns, policy);
            &&& step == LbtStep::Done(LbtOutcome::Timeout) <==> busy && elapsed_ns
                >= policy.timeout_ns
            &&& step == LbtStep::Done(LbtOutcome::Clear) <==> !busy
            &&& step matches LbtStep::Sleep(ns) ==> ns == policy.poll_interval_ns
        }),
        forall|later_ns: u128|
            later_ns >= elapsed_ns && after_look(busy, elapsed_ns, policy) is Done ==> #[trigger]
                after_look(busy, later_ns, policy) == after_look(busy, elapsed_ns, policy),
{
}

/// A channel that is clear at the first look is not waited for.
pub proof fn clear_channel_is_not_waited_for(elapsed_ns: u128, policy: LbtPolicy)
    ensures
        after_look(false, elapsed_ns, policy) == LbtStep::Done(LbtOutcome::Clear),
{
}

// ---------------------------------------------------------------------------------------------
// The dispatch, as a model
// ---------------------------------------------------------------------------------------------
/// What a dispatch waits for.
#[derive(Clone, Copy, Debug, PartialEq, Eq, Structural)]
pub enum Phase {
    Gate,
    Post,
    Gap,
    Done,
}

/// The state of a dispatch: what was asked for, how many posts were made, and what is waited for.
pub struct DispatchView {
    pub seq: u64,
    pub payload: Seq<u8>,
    pub repeat: u32,
    pub gap_ms: u32,
    pub gated: bool,
    pub posted: u32,
    pub phase: Phase,
}

/// What the caller is to do next.
pub enum ActionView {
    /// Wait until the channel is clear.
    WaitUntilClear,
    /// Hand the payload to the transmitter.
    Post(Seq<u8>),
    /// Sleep this many milliseconds.
    Sleep(u32),
    /// Send the answer; the dispatch is over.
    Answer(LoraTxAckView),
}

/// How the action went.
#[derive(Clone, Copy, Debug, PartialEq, Eq, Structural)]
pub enum Report {
    Gate(LbtOutcome),
    Posted(bool),
    Slept,
}

/// The number of a request: zero if it has none.
pub open spec fn seq_of(req: LoraTxView) -> u64 {
    match req.seq {
        Some(n) => n,
        None => 0,
    }
}

/// How often the payload goes out: once at least.
pub open spec fn repeat_of(req: LoraTxView) -> u32 {
    match req.repeat {
        Some(n) => if n == 0 {
            1
        } else {
            n
        },
        None => 1,
    }
}

/// The pause between two posts; zero is no pause.
pub open spec fn gap_of(req: LoraTxView) -> u32 {
    match req.gap_ms {
        Some(n) => n,
        None => 0,
    }
}

pub open spec fn answer_ok(seq: u64) -> ActionView {
    ActionView::Answer(LoraTxAckView { seq, ok: true, error: None })
}

pub open spec fn answer_err(seq: u64, error: Seq<char>) -> ActionView {
    ActionView::Answer(LoraTxAckView { seq, ok: false, error: Some(error) })
}

impl DispatchView {
    /// The dispatch is over, with this answer.
    pub open spec fn ended(self, answer: ActionView) -> (DispatchView, ActionView) {
        (DispatchView { phase: Phase::Done, ..self }, answer)
    }

    /// The next post is due: the channel is looked at first, if that is asked for.
    pub open spec fn attempt(self) -> (DispatchView, ActionView) {
        if self.gated {
            (DispatchView { phase: Phase::Gate, ..self }, ActionView::WaitUntilClear)
        } else {
            self.post()
        }
    }

    pub open spec fn post(self) -> (DispatchView, ActionView) {
        (DispatchView { phase: Phase::Post, ..self }, ActionView::Post(self.payload))
    }

    /// The start: a dry run is acknowledged without a post, an empty payload is refused.
    pub open spec fn started(req: LoraTxView, gated: bool) -> (DispatchView, ActionView) {
        let d = DispatchView {
            seq: seq_of(req),
            payload: req.payload,
            repeat: repeat_of(req),
            gap_ms: gap_of(req),
            gated,
            posted: 0,
            phase: Phase::Done,
        };
        if req.dry_run {
            d.ended(answer_ok(d.seq))
        } else if req.payload.len() == 0 {
            d.ended(answer_err(d.seq, "internal"@))
        } else {
            d.attempt()
        }
    }

    /// The report is one that the dispatch waits for.
    pub open spec fn awaits(self, report: Report) -> bool {
        match report {
            Report::Gate(_) => self.phase == Phase::Gate,
            Report::Posted(_) => self.phase == Phase::Post,
            Report::Slept => self.phase == Phase::Gap,
        }
    }

    /// The next state and action.
    pub open spec fn next(self, report: Report) -> (DispatchView, ActionView) {
        match report {
            Report::Gate(LbtOutcome::Clear) => self.post(),
            Report::Gate(LbtOutcome::Timeout) => self.ended(
                answer_err(self.seq, "channel_busy"@),
            ),
            Report::Posted(false) => self.ended(answer_err(self.seq, "internal"@)),
            Report::Posted(true) => {
                let d = DispatchView { posted: (self.posted + 1) as u32, ..self };
                if d.posted >= d.repeat {
                    d.ended(answer_ok(d.seq))
                } else if d.gap_ms > 0 {
                    (DispatchView { phase: Phase::Gap, ..d }, ActionView::Sleep(d.gap_ms))
                } else {
                    d.attempt()
                }
            },
            Report::Slept => self.attempt(),
        }
    }

    /// Posts are counted up to the number asked for; the channel is waited for only when that is
    /// asked for.
    pub open spec fn sound(self) -> bool {
        &&& self.repeat >= 1
        &&& self.phase != Phase::Done ==> self.posted < self.repeat
        &&& self.phase == Phase::Gate ==> self.gated
    }
}

// ---------------------------------------------------------------------------------------------
// The dispatch
// ---------------------------------------------------------------------------------------------
/// A transmit request that is being carried out.
pub struct Dispatch {
    seq: u64,
    payload: Vec<u8>,
    repeat: u32,
    gap_ms: u32,
    gated: bool,
    posted: u32,
    phase: Phase,
}

/// What the caller is to do next.
#[derive(Debug, PartialEq, Eq)]
pub enum Action {
    /// Wait until the channel is clear.
    WaitUntilClear,
    /// Hand the payload to the transmitter.
    Post(Vec<u8>),
    /// Sleep this many milliseconds.
    Sleep(u32),
    /// Send the answer; the dispatch is over.
    Answer(LoraTxAck),
}

impl View for Action {
    type V = ActionView;

    open spec fn view(&self) -> ActionView {
        match *self {
            Action::WaitUntilClear => ActionView::WaitUntilClear,
            Action::Post(p) => ActionView::Post(p@),
            Action::Sleep(ms) => ActionView::Sleep(ms),
            Action::Answer(a) => ActionView::Answer(a@),
        }
    }
}

impl View for Dispatch {
    type V = DispatchView;

    closed spec fn view(&self) -> DispatchView {
        DispatchView {
            seq: self.seq,
            payload: self.payload@,
            repeat: self.repeat,
            gap_ms: self.gap_ms,
            gated: self.gated,
            posted: self.posted,
            phase: self.phase,
        }
    }
}

fn copy(bytes: &Vec<u8>) -> (r: Vec<u8>)
    ensures
        r@ == bytes@,
{
    let mut out: Vec<u8> = Vec::new();
    let mut i: usize = 0;
    while i < bytes.len()
        invariant
            i <= bytes.len(),
            out@ == bytes@.take(i as int),
        decreases bytes.len() - i,
    {
        out.push(bytes[i]);
        assert(out@ =~= bytes@.take(i + 1));
        i = i + 1;
    }
    assert(out@ =~= bytes@);
    out
}

/// Starts to carry out a request; `gated` asks for a clear channel before each post.
pub fn dispatch_lora_tx(req: &LoraTx, gated: bool) -> (r: (Dispatch, Action))
    ensures
        (r.0@, r.1@) == DispatchView::started(req@, gated),
        r.0@.sound(),
{
    let mut d = Dispatch {
        seq: match req.seq {
            Some(n) => n,
            None => 0,
        },
        payload: copy(&req.payload),
        repeat: match req.repeat {
            Some(n) => if n == 0 {
                1
            } else {
                n
            },
            None => 1,
        },
        gap_ms: match req.gap_ms {
            Some(n) => n,
            None => 0,
        },
        gated,
        posted: 0,
        phase: Phase::Done,
    };
    let action = if req.dry_run {
        Action::Answer(LoraTxAck::ok(d.seq))
    } else if req.payload.len() == 0 {
        Action::Answer(LoraTxAck::err(d.seq, "internal"))
    } else {
        d.attempt()
    };
    (d, action)
}

impl Dispatch {
    fn attempt(&mut self) -> (r: Action)
        ensures
            (final(self)@, r@) == old(self)@.attempt(),
    {
        if self.gated {
            self.phase = Phase::Gate;
            Action::WaitUntilClear
        } else {
            self.post()
        }
    }

    fn post(&mut self) -> (r: Action)
        ensures
            (final(self)@, r@) == old(self)@.post(),
    {
        self.phase = Phase::Post;
        Action::Post(copy(&self.payload))
    }

    /// Whether the dispatch waits for such a report.
    pub fn expects(&self, report: Report) -> (r: bool)
        ensures
            r == self@.awaits(report),
    {
        match report {
            Report::Gate(_) => self.phase == Phase::Gate,
            Report::Posted(_) => self.phase == Phase::Post,
            Report::Slept => self.phase == Phase::Gap,
        }
    }

    /// Takes the report on the last action and gives the next action.
    pub fn step(&mut self, report: Report) -> (r: Action)
        requires
            old(self)@.sound(),
            old(self)@.awaits(report),
        ensures
            (final(self)@, r@) == old(self)@.next(report),
            final(self)@.sound(),
    {
        match report {
            Report::Gate(LbtOutcome::Clear) => self.post(),
            Report::Gate(LbtOutcome::Timeout) => {
                self.phase = Phase::Done;
                Action::Answer(LoraTxAck::err(self.seq, "channel_busy"))
            },
            Report::Posted(false) => {
                self.phase = Phase::Done;
                Action::Answer(LoraTxAck::err(self.seq, "internal"))
            },
            Report::Posted(true) => {
                self.posted = self.posted + 1;
                if self.posted >= self.repeat {
                    self.phase = Phase::Done;
                    Action::Answer(LoraTxAck::ok(self.seq))
                } else if self.gap_ms > 0 {
                    self.phase = Phase::Gap;
                    Action::Sleep(self.gap_ms)
                } else {
                    self.attempt()
                }
            },
            Report::Slept => self.attempt(),
        }
    }
}

// ---------------------------------------------------------------------------------------------
// Laws
// ---------------------------------------------------------------------------------------------
/// A run of a dispatch: the reports that came in, each of which was waited for.
pub open spec fn runs(d: DispatchView, reports: Seq<Report>) -> bool
    decreases reports.len(),
{
    reports.len() == 0 || {
        let front = reports.drop_last();
        runs(d, front) && state_after(d, front).awaits(reports.last())
    }
}

/// The state after a run.
pub open spec fn state_after(d: DispatchView, reports: Seq<Report>) -> DispatchView
    decreases reports.len(),
{
    if reports.len() == 0 {
        d
    } else {
        state_after(d, reports.drop_last()).next(reports.last()).0
    }
}

/// The action that was given after a run.
pub open spec fn action_after(start: (DispatchView, ActionView), reports: Seq<Report>) -> ActionView {
    if reports.len() == 0 {
        start.1
    } else {
        state_after(start.0, reports.drop_last()).next(reports.last()).1
    }
}

/// How many posts were asked for by the end of a run, the current action included.
pub open spec fn posts_in(start: (DispatchView, ActionView), reports: Seq<Report>) -> nat
    decreases reports.len(),
{
    let now: nat = if action_after(start, reports) is Post {
        1
    } else {
        0
    };
    if reports.len() == 0 {
        now
    } else {
        posts_in(start, reports.drop_last()) + now
    }
}

/// The answer is a good one without an error, or one of the two refusals.
pub open spec fn proper_answer(a: LoraTxAckView) -> bool {
    if a.ok {
        a.error is None
    } else {
        a.error == Some("internal"@) || a.error == Some("channel_busy"@)
    }
}

/// Along every run of a request: the answer, when it comes, carries the request's number and is a
/// proper one; at most as many posts are asked for as the request wants, each of the request's
/// payload; a good answer to a request that is no dry run comes only after all of them; with a gate,
/// every post comes right after the channel was found clear; and a channel that stays busy, or a post
/// that fails, ends the run with the refusal for it.
pub proof fn every_run_is_faithful(req: LoraTxView, gated: bool, reports: Seq<Report>)
    requires
        runs(DispatchView::started(req, gated).0, reports),
    ensures
        ({
            let start = DispatchView::started(req, gated);
            let action = action_after(start, reports);
            let posts = posts_in(start, reports);
            &&& action matches ActionView::Answer(a) ==> a.seq == seq_of(req) && proper_answer(a)
            &&& action matches ActionView::Post(p) ==> p == req.payload && !req.dry_run
            &&& posts <= repeat_of(req)
            &&& req.dry_run ==> posts == 0 && action == answer_ok(seq_of(req))
            &&& action is Answer && action->Answer_0.ok && !req.dry_run ==> posts == repeat_of(req)
            &&& action is Post && gated ==> reports.len() > 0 && reports.last() == Report::Gate(
                LbtOutcome::Clear,
            )
            &&& gated || !(action is WaitUntilClear)
            &&& reports.len() > 0 && reports.last() == Report::Gate(LbtOutcome::Timeout) ==> action
                == answer_err(seq_of(req), "channel_busy"@)
            &&& reports.len() > 0 && reports.last() == Report::Posted(false) ==> action
                == answer_err(seq_of(req), "internal"@)
        }),
{
    faithful_state(req, gated, reports);
    if reports.len() > 0 {
        faithful_state(req, gated, reports.drop_last());
    }
}

/// What every state that a run reaches has kept of its request, and how its posts are counted.
proof fn faithful_state(req: LoraTxView, gated: bool, reports: Seq<Report>)
    requires
        runs(DispatchView::started(req, gated).0, reports),
    ensures
        ({
            let start = DispatchView::started(req, gated);
            let d = state_after(start.0, reports);
            let action = action_after(start, reports);
            let posts = posts_in(start, reports);
            &&& d.seq == seq_of(req) && d.payload == req.payload && d.repeat == repeat_of(req)
                && d.gated == gated
            &&& d.sound()
            &&& req.dry_run ==> reports.len() == 0 && d.phase == Phase::Done && posts == 0
            &&& d.phase == Phase::Post ==> action == ActionView::Post(req.payload) && posts
                == d.posted + 1
            &&& d.phase == Phase::Gate ==> action is WaitUntilClear && posts == d.posted
            &&& d.phase == Phase::Gap ==> action is Sleep && posts == d.posted
            &&& d.phase == Phase::Done ==> action is Answer && posts <= d.posted + 1 && posts
                <= d.repeat
            &&& d.phase == Phase::Done ==> action->Answer_0.seq == d.seq && proper_answer(
                action->Answer_0,
            )
            &&& d.phase == Phase::Done && action->Answer_0.ok && !req.dry_run ==> posts == d.repeat
            &&& d.phase == Phase::Done && req.dry_run ==> action == answer_ok(d.seq)
            &&& d.phase == Phase::Post && gated ==> reports.len() > 0 && reports.last()
                == Report::Gate(LbtOutcome::Clear)
        }),
    decreases reports.len(),
{
    if reports.len() > 0 {
        faithful_state(req, gated, reports.drop_last());
    }
}

/// How many posts of a run were reported to have gone well.
pub open spec fn posted_well(reports: Seq<Report>) -> nat
    decreases reports.len(),
{
    if reports.len() == 0 {
        0
    } else if reports.last() == Report::Posted(true) {
        posted_well(reports.drop_last()) + 1
    } else {
        posted_well(reports.drop_last())
    }
}

/// How many pauses were asked for by the end of a run, the current action included.
pub open spec fn sleeps_in(start: (DispatchView, ActionView), reports: Seq<Report>) -> nat
    decreases reports.len(),
{
    let now: nat = if action_after(start, reports) is Sleep {
        1
    } else {
        0
    };
    if reports.len() == 0 {
        now
    } else {
        sleeps_in(start, reports.drop_last()) + now
    }
}

/// The request wants the payload to go out `n` times.
pub open spec fn wants_posts(req: LoraTxView, n: int) -> bool {
    req.repeat == Some(n as u32) && 0 < n <= u32::MAX || (req.repeat is None || req.repeat == Some(
        0u32,
    )) && n == 1
}

/// The action that hands the next copy of the payload out: behind a gate the channel is looked at
/// first.
pub open spec fn hands_out(action: ActionView, req: LoraTxView, gated: bool) -> bool {
    if gated {
        action is WaitUntilClear
    } else {
        action == ActionView::Post(req.payload)
    }
}

/// The action is a good answer.
pub open spec fn answered_well(action: ActionView) -> bool {
    action matches ActionView::Answer(a) && a.ok && a.error is None
}

/// The action is an answer that refuses the request for `reason`.
pub open spec fn refused_for(action: ActionView, reason: Seq<char>) -> bool {
    action matches ActionView::Answer(a) && !a.ok && a.error == Some(reason)
}

/// What a dispatch does next, told by the request and the reports so far alone.
///
/// A dry run is answered at once and well, an empty payload at once and badly; any other request
/// begins to hand its payload out. After a post that went well, the request is answered if that was
/// the last of the posts it wants; if not, and it names a gap, the pause is as long as the gap, and if
/// it names none, the next copy follows at once. After the pause the next copy follows. A channel found
/// clear is posted on. The answers carry the number that the request carries, or zero.
pub proof fn reports_decide(req: LoraTxView, gated: bool, n: int, reports: Seq<Report>)
    requires
        runs(DispatchView::started(req, gated).0, reports),
        wants_posts(req, n),
    ensures
        ({
            let start = DispatchView::started(req, gated);
            let action = action_after(start, reports);
            let done = posted_well(reports);
            let last = reports.last();
            &&& reports.len() == 0 && req.dry_run ==> answered_well(action)
            &&& reports.len() == 0 && !req.dry_run && req.payload.len() == 0 ==> refused_for(
                action,
                "internal"@,
            )
            &&& reports.len() == 0 && !req.dry_run && req.payload.len() > 0 ==> hands_out(
                action,
                req,
                gated,
            )
            &&& reports.len() > 0 && last == Report::Posted(true) && done >= n ==> answered_well(action)
            &&& reports.len() > 0 && last == Report::Posted(true) && done < n ==> match req.gap_ms {
                Some(gap) => if gap > 0 {
                    action == ActionView::Sleep(gap)
                } else {
                    hands_out(action, req, gated)
                },
                None => hands_out(action, req, gated),
            }
            &&& reports.len() > 0 && last == Report::Slept ==> hands_out(action, req, gated)
            &&& reports.len() > 0 && last == Report::Gate(LbtOutcome::Clear) ==> action
                == ActionView::Post(req.payload)
            &&& reports.len() > 0 && last == Report::Gate(LbtOutcome::Timeout) ==> refused_for(
                action,
                "channel_busy"@,
            )
            &&& reports.len() > 0 && last == Report::Posted(false) ==> refused_for(
                action,
                "internal"@,
            )
            &&& action matches ActionView::Answer(a) ==> match req.seq {
                Some(number) => a.seq == number,
                None => a.seq == 0,
            }
        }),
{
    counted(req, gated, n, reports);
    if reports.len() > 0 {
        counted(req, gated, n, reports.drop_last());
    }
}

/// An action shows what it is.
pub proof fn action_shows(a: Action)
    ensures
        match a {
            Action::WaitUntilClear => a@ is WaitUntilClear,
            Action::Post(payload) => a@ == ActionView::Post(payload@),
            Action::Sleep(ms) => a@ == ActionView::Sleep(ms),
            Action::Answer(ack) => a@ matches ActionView::Answer(x) && x.seq == ack.seq && x.ok
                == ack.ok && match ack.error {
                Some(reason) => x.error == Some(reason@),
                None => x.error is None,
            },
        },
{
}

/// A request shows what it asks for.
pub proof fn request_shows(req: LoraTx)
    ensures
        req@.payload == req.payload@,
        req@.seq == req.seq,
        req@.repeat == req.repeat,
        req@.gap_ms == req.gap_ms,
        req@.dry_run == req.dry_run,
{
}

/// What is waited for is the report on the last action; after an answer there is none.
pub proof fn reports_answer_actions(req: LoraTxView, gated: bool, reports: Seq<Report>, next: Report)
    requires
        runs(DispatchView::started(req, gated).0, reports),
    ensures
        state_after(DispatchView::started(req, gated).0, reports).awaits(next) <==> match action_after(
            DispatchView::started(req, gated),
            reports,
        ) {
            ActionView::WaitUntilClear => next is Gate,
            ActionView::Post(_) => next is Posted,
            ActionView::Sleep(_) => next is Slept,
            ActionView::Answer(_) => false,
        },
{
    faithful_state(req, gated, reports);
}

/// Between two posts of a run there is exactly one pause if the request names a gap, and none if it does
/// not; no pause stands before the first post or behind the last.
pub proof fn one_pause_between_posts(req: LoraTxView, gated: bool, reports: Seq<Report>)
    requires
        runs(DispatchView::started(req, gated).0, reports),
    ensures
        ({
            let start = DispatchView::started(req, gated);
            let posts = posts_in(start, reports);
            let sleeps = sleeps_in(start, reports);
            &&& req.gap_ms is None || req.gap_ms == Some(0u32) ==> sleeps == 0
            &&& req.gap_ms is Some && req.gap_ms->0 > 0 ==> {
                &&& action_after(start, reports) is Post ==> sleeps == posts - 1
                &&& action_after(start, reports) is Sleep ==> sleeps == posts
                &&& action_after(start, reports) is Answer && action_after(
                    start,
                    reports,
                )->Answer_0.ok && posts > 0 ==> sleeps == posts - 1
            }
            &&& action_after(start, reports) matches ActionView::Sleep(ms) ==> req.gap_ms == Some(ms)
        }),
{
    pauses_counted(req, gated, reports);
    faithful_state(req, gated, reports);
}

proof fn pauses_counted(req: LoraTxView, gated: bool, reports: Seq<Report>)
    requires
        runs(DispatchView::started(req, gated).0, reports),
    ensures
        ({
            let start = DispatchView::started(req, gated);
            let d = state_after(start.0, reports);
            let sleeps = sleeps_in(start, reports);
            let posts = posts_in(start, reports);
            &&& d.gap_ms == gap_of(req)
            &&& d.gap_ms == 0 ==> sleeps == 0 && d.phase != Phase::Gap
            &&& d.gap_ms > 0 && d.phase == Phase::Post ==> sleeps == d.posted
            &&& d.gap_ms > 0 && d.phase == Phase::Gate ==> sleeps == d.posted
            &&& d.gap_ms > 0 && d.phase == Phase::Gap ==> sleeps == d.posted
            &&& d.phase == Phase::Gap ==> action_after(start, reports) == ActionView::Sleep(d.gap_ms)
            &&& action_after(start, reports) is Sleep ==> d.phase == Phase::Gap
            &&& d.gap_ms > 0 && d.phase == Phase::Done && action_after(start, reports)->Answer_0.ok
                && posts > 0 ==> sleeps == posts - 1
        }),
    decreases reports.len(),
{
    faithful_state(req, gated, reports);
    if reports.len() > 0 {
        pauses_counted(req, gated, reports.drop_last());
        faithful_state(req, gated, reports.drop_last());
    }
}

/// The posts that a dispatch has counted are those that were reported to have gone well.
proof fn counted(req: LoraTxView, gated: bool, n: int, reports: Seq<Report>)
    requires
        runs(DispatchView::started(req, gated).0, reports),
        wants_posts(req, n),
    ensures
        ({
            let start = DispatchView::started(req, gated);
            let d = state_after(start.0, reports);
            &&& d.repeat == n
            &&& d.gap_ms == gap_of(req)
            &&& d.posted == posted_well(reports)
            &&& d.seq == seq_of(req) && d.payload == req.payload && d.gated == gated
            &&& d.sound()
            &&& d.phase == Phase::Done ==> action_after(start, reports) is Answer
        }),
    decreases reports.len(),
{
    faithful_state(req, gated, reports);
    if reports.len() > 0 {
        counted(req, gated, n, reports.drop_last());
    }
}

/// The report that lets a dispatch go on after an action.
pub open spec fn favourable(action: ActionView) -> Report {
    match action {
        ActionView::WaitUntilClear => Report::Gate(LbtOutcome::Clear),
        ActionView::Post(_) => Report::Posted(true),
        _ => Report::Slept,
    }
}

/// All actions of a run went well.
pub open spec fn went_well(start: (DispatchView, ActionView), reports: Seq<Report>) -> bool {
    forall|i: int|
        0 <= i < reports.len() ==> #[trigger] reports[i] == favourable(
            action_after(start, reports.take(i)),
        )
}

/// When the channel is always clear and every post is taken, a run ends with a good answer after
/// exactly as many posts as were asked for.
#[verifier::rlimit(50)]
#[verifier::spinoff_prover]
pub proof fn all_clear_posts_all(req: LoraTxView, gated: bool) -> (reports: Seq<Report>)
    requires
        !req.dry_run,
        req.payload.len() > 0,
    ensures
        runs(DispatchView::started(req, gated).0, reports),
        went_well(DispatchView::started(req, gated), reports),
        action_after(DispatchView::started(req, gated), reports) == answer_ok(seq_of(req)),
        posts_in(DispatchView::started(req, gated), reports) == repeat_of(req),
{
    let reports = go_on(req, gated, Seq::empty());
    faithful_state(req, gated, reports);
    reports
}

/// How far a dispatch is from its end, if all goes well.
spec fn left_to_do(d: DispatchView) -> int {
    4 * (d.repeat - d.posted) + (if d.phase == Phase::Gap {
        2int
    } else if d.phase == Phase::Gate {
        1int
    } else {
        0int
    })
}

/// The action that a state goes with, up to the answer that ends a dispatch.
spec fn goes_with(d: DispatchView, action: ActionView) -> bool {
    match d.phase {
        Phase::Gate => action is WaitUntilClear,
        Phase::Post => action is Post,
        Phase::Gap => action is Sleep,
        Phase::Done => action == answer_ok(d.seq),
    }
}

proof fn progress(d: DispatchView, action: ActionView)
    requires
        d.sound(),
        d.phase != Phase::Done,
        goes_with(d, action),
    ensures
        d.awaits(favourable(action)),
        d.next(favourable(action)).0.seq == d.seq,
        goes_with(d.next(favourable(action)).0, d.next(favourable(action)).1),
        0 <= left_to_do(d.next(favourable(action)).0) < left_to_do(d),
{
}

proof fn one_report_more(start: (DispatchView, ActionView), so_far: Seq<Report>, report: Report)
    requires
        runs(start.0, so_far),
        went_well(start, so_far),
        state_after(start.0, so_far).awaits(report),
        report == favourable(action_after(start, so_far)),
    ensures
        runs(start.0, so_far.push(report)),
        went_well(start, so_far.push(report)),
        state_after(start.0, so_far.push(report)) == state_after(start.0, so_far).next(report).0,
        action_after(start, so_far.push(report)) == state_after(start.0, so_far).next(report).1,
{
    let longer = so_far.push(report);
    assert(longer.drop_last() =~= so_far);
    assert forall|i: int| 0 <= i < longer.len() implies #[trigger] longer[i] == favourable(
        action_after(start, longer.take(i)),
    ) by {
        if i < so_far.len() {
            assert(longer.take(i) =~= so_far.take(i));
            assert(longer[i] == so_far[i]);
        } else {
            assert(longer.take(i) =~= so_far);
        }
    }
}

proof fn go_on(req: LoraTxView, gated: bool, so_far: Seq<Report>) -> (reports: Seq<Report>)
    requires
        runs(DispatchView::started(req, gated).0, so_far),
        went_well(DispatchView::started(req, gated), so_far),
        state_after(DispatchView::started(req, gated).0, so_far).seq == seq_of(req),
        goes_with(
            state_after(DispatchView::started(req, gated).0, so_far),
            action_after(DispatchView::started(req, gated), so_far),
        ),
    ensures
        runs(DispatchView::started(req, gated).0, reports),
        went_well(DispatchView::started(req, gated), reports),
        action_after(DispatchView::started(req, gated), reports) == answer_ok(seq_of(req)),
    decreases left_to_do(state_after(DispatchView::started(req, gated).0, so_far)),
{
    let start = DispatchView::started(req, gated);
    let d = state_after(start.0, so_far);
    if d.phase == Phase::Done {
        so_far
    } else {
        let action = action_after(start, so_far);
        faithful_state(req, gated, so_far);
        progress(d, action);
        one_report_more(start, so_far, favourable(action));
        go_on(req, gated, so_far.push(favourable(action)))
    }
}

/// From the wire and back: the daemon reads the request that a client wrote, and the client reads the
/// answer that a run of the request ended with, which carries the request's number.
pub proof fn client_reads_answer(req: LoraTxView, gated: bool, reports: Seq<Report>)
    requires
        lora_tx_fits(req),
        req.payload.len() > 0,
        runs(DispatchView::started(req, gated).0, reports),
    ensures
        lora_tx_in(lora_tx_wire(req)) == Ok::<LoraTxView, ErrorView>(req),
        action_after(DispatchView::started(req, gated), reports) matches ActionView::Answer(a) ==> {
            &&& lora_tx_ack_in(lora_tx_ack_wire(a)) == Ok::<LoraTxAckView, ErrorView>(a)
            &&& a.seq == seq_of(req)
        },
{
    lora_tx_round_trip(req, Seq::empty());
    every_run_is_faithful(req, gated, reports);
    if let ActionView::Answer(a) = action_after(DispatchView::started(req, gated), reports) {
        reveal_strlit("internal");
        reveal_strlit("channel_busy");
        encoded_len("internal"@);
        encoded_len("channel_busy"@);
        lora_tx_ack_round_trip(a, Seq::empty());
    }
}

} // verus!
