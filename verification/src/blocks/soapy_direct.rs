//! The burst logic of the SoapySDR transmit sink, what its receive source makes of a read, and the
//! form of its device arguments.
//!
//! The sink collects samples until none come in, then writes them out as a burst, at most one chunk
//! per tick. The stream is active only while a burst is written, so that nothing is emitted between
//! bursts. The caller drives the device: it carries out the step it is given and reports what the
//! device took.

use vstd::prelude::*;

use crate::double::Double;

verus! {

/// The most samples that a pending burst may hold.
pub const MAX_BURST_SAMPLES: usize = 16777216;

/// The most samples that are written in one chunk.
pub const MAX_CHUNK: usize = 2040;

/// How long an idle tick sleeps.
pub const IDLE_TICK_SLEEP_MS: u64 = 5;

// ---------------------------------------------------------------------------------------------
// Device arguments
// ---------------------------------------------------------------------------------------------
/// `s` with every occurrence of `from`, found from left to right, replaced by `to`.
pub open spec fn replaced(s: Seq<char>, from: Seq<char>, to: Seq<char>) -> Seq<char>
    decreases s.len(),
{
    if from.len() == 0 || s.len() < from.len() {
        s
    } else if s.subrange(0, from.len() as int) == from {
        to + replaced(s.subrange(from.len() as int, s.len() as int), from, to)
    } else {
        seq![s[0]] + replaced(s.subrange(1, s.len() as int), from, to)
    }
}

/// Calls `str::replace`: all matches of a pattern that is not empty are replaced, from left to right.
#[verifier::external_body]
fn replace_all(s: &str, from: &str, to: &str) -> (r: String)
    requires
        from@.len() > 0,
    ensures
        r@ == replaced(s@, from@, to@),
{
    s.replace(from, to)
}

/// Turns device arguments that name the driver by `soapy_driver=` into the form with `driver=` that
/// the device library takes.
pub fn translate_args(s: &str) -> (r: String)
    ensures
        r@ == replaced(s@, "soapy_driver="@, "driver="@),
{
    proof {
        reveal_strlit("soapy_driver=");
    }
    replace_all(s, "soapy_driver=", "driver=")
}

/// The gain that a channel of the device is set to: the second one is only kept running.
pub fn channel_gain(channel: usize, gain: Double) -> (r: Double)
    ensures
        r == (if channel == 0 {
            gain
        } else {
            Double { bits: 0 }
        }),
{
    if channel == 0 {
        gain
    } else {
        Double::zero()
    }
}

// ---------------------------------------------------------------------------------------------
// Receiving
// ---------------------------------------------------------------------------------------------
/// How a read from the device ended.
#[derive(Clone, Copy, Debug, PartialEq, Eq, Structural)]
pub enum RxRead {
    Samples(usize),
    Overflow,
    Timeout,
    Failed,
}

/// What the source does next.
#[derive(Clone, Copy, Debug, PartialEq, Eq, Structural)]
pub enum RxStep {
    /// Hand on that many samples on each output and come again at once.
    Produce(usize),
    /// Nothing to hand on this time.
    Wait,
    /// The source is finished.
    Finish,
}

/// What the source makes of a read: overflows and timeouts pass, any other error ends it.
pub fn soapy_rx_step(read: RxRead) -> (r: RxStep)
    ensures
        r == (match read {
            RxRead::Samples(n) => RxStep::Produce(n),
            RxRead::Overflow => RxStep::Wait,
            RxRead::Timeout => RxStep::Wait,
            RxRead::Failed => RxStep::Finish,
        }),
{
    match read {
        RxRead::Samples(n) => RxStep::Produce(n),
        RxRead::Overflow => RxStep::Wait,
        RxRead::Timeout => RxStep::Wait,
        RxRead::Failed => RxStep::Finish,
    }
}

/// How many samples can be read for two outputs with room for `a` and `b`.
pub fn common_room(a: usize, b: usize) -> (r: usize)
    ensures
        r == (if a < b {
            a
        } else {
            b
        }),
{
    if a < b {
        a
    } else {
        b
    }
}

// ---------------------------------------------------------------------------------------------
// Transmitting
// ---------------------------------------------------------------------------------------------
/// The sink's buffers: samples that wait for a burst, the burst that is written, how much of it is
/// written, and whether the stream is active.
pub struct SoapyDirectSink<T> {
    pub mtu: usize,
    pub pending: Vec<T>,
    pub write_burst: Vec<T>,
    pub write_cursor: usize,
    pub stream_active: bool,
}

/// What the caller is to do in a tick. After each, the sink wants to be called again.
#[derive(Clone, Copy, Debug, PartialEq, Eq, Structural)]
pub enum TxStep {
    /// That many samples of the input were taken.
    Consume(usize),
    /// Activate the stream, then write `len` samples of the burst from `start` on.
    ActivateAndWrite { start: usize, len: usize },
    /// Write `len` samples of the burst from `start` on.
    Write { start: usize, len: usize },
    /// Nothing to do: sleep that many milliseconds.
    Sleep(u64),
}

/// What follows a write.
#[derive(Clone, Copy, Debug, PartialEq, Eq, Structural)]
pub enum Written {
    /// There is more of the burst.
    More,
    /// The burst is out: deactivate the stream.
    Deactivate,
    /// The device took nothing.
    Stalled,
}

/// How many samples the next chunk has.
pub open spec fn chunk_of(len: int, start: int, mtu: int) -> int {
    if len - start < mtu {
        len - start
    } else {
        mtu
    }
}

/// What a tick of a sink asks for, by how many samples wait for a burst, how many the burst has, how many
/// of it are written, how many come in, and how long a chunk may be.
pub open spec fn soapy_step(pending: int, burst: int, cursor: int, input: int, mtu: int) -> TxStep {
    if cursor == 0 && input > 0 {
        TxStep::Consume(chunk_of(MAX_BURST_SAMPLES as int, pending, input) as usize)
    } else if cursor > 0 {
        TxStep::Write { start: cursor as usize, len: chunk_of(burst, cursor, mtu) as usize }
    } else if pending == 0 {
        TxStep::Sleep(IDLE_TICK_SLEEP_MS)
    } else {
        TxStep::ActivateAndWrite { start: 0, len: chunk_of(pending, 0, mtu) as usize }
    }
}

/// A burst that is under way goes on before anything else, from where it stopped, whether or not
/// samples come in. Between bursts, what comes in is taken as far as there is room. When nothing comes
/// in, what was collected goes out from its beginning, and only that activates the stream; with nothing
/// collected, the sink idles.
pub proof fn ticks_of_a_sink(pending: int, burst: int, cursor: int, input: int, mtu: int)
    requires
        0 <= pending <= 16_777_216,
        0 <= cursor <= burst <= usize::MAX,
        cursor > 0 ==> cursor < burst,
        0 <= input <= usize::MAX,
        0 < mtu <= 2040,
    ensures
        ({
            let step = soapy_step(pending, burst, cursor, input, mtu);
            &&& step is Write <==> cursor > 0
            &&& step matches TxStep::Write { start, len } ==> start == cursor && 0 < len <= mtu
                && start + len <= burst && (len == mtu || start + len == burst)
            &&& step is Consume <==> cursor == 0 && input > 0
            &&& step matches TxStep::Consume(n) ==> n <= input && pending + n <= 16_777_216 && (n
                == input || pending + n == 16_777_216)
            &&& step is ActivateAndWrite <==> cursor == 0 && input == 0 && pending > 0
            &&& step matches TxStep::ActivateAndWrite { start, len } ==> start == 0 && 0 < len <= mtu
                && len <= pending && (len == mtu || len == pending)
            &&& step is Sleep <==> cursor == 0 && input == 0 && pending == 0
            &&& step matches TxStep::Sleep(ms) ==> ms == 5
        }),
{
}

/// What follows a write, by how much of a burst was written before and now.
pub open spec fn soapy_written(burst: int, cursor: int, written: int) -> Written {
    if written == 0 {
        Written::Stalled
    } else if cursor + written == burst {
        Written::Deactivate
    } else {
        Written::More
    }
}

/// The stream is deactivated exactly when the last sample of a burst is out, and a device has stalled
/// exactly when it took nothing.
pub proof fn deactivated_at_the_end(burst: int, cursor: int, written: int)
    requires
        0 <= cursor < burst,
        0 <= written <= burst - cursor,
    ensures
        soapy_written(burst, cursor, written) is Stalled <==> written == 0,
        soapy_written(burst, cursor, written) is Deactivate <==> cursor + written == burst,
        soapy_written(burst, cursor, written) is More <==> 0 < written < burst - cursor,
{
}

impl<T: Copy> SoapyDirectSink<T> {
    /// The cursor lies within the burst; the stream is active exactly while there is a burst.
    pub open spec fn wf(self) -> bool {
        &&& self.write_cursor <= self.write_burst@.len()
        &&& self.write_burst@.len() > 0 ==> self.write_cursor < self.write_burst@.len()
        &&& self.stream_active <==> self.write_burst@.len() > 0
        &&& self.pending@.len() <= MAX_BURST_SAMPLES
        &&& 0 < self.mtu <= MAX_CHUNK
    }

    /// No write is under way: what there is of a burst has been begun.
    pub open spec fn between_ticks(self) -> bool {
        self.wf() && (self.write_burst@.len() > 0 ==> self.write_cursor > 0)
    }

    /// What was taken in and is not yet written, in its order.
    pub open spec fn unsent(self) -> Seq<T> {
        self.write_burst@.subrange(self.write_cursor as int, self.write_burst@.len() as int)
            + self.pending@
    }

    /// An empty sink. The chunks are as long as the device says, up to a bound; `mtu` is `None`
    /// where the device does not say.
    pub fn new(mtu: Option<usize>) -> (r: SoapyDirectSink<T>)
        requires
            mtu != Some(0usize),
        ensures
            r.between_ticks(),
            r.unsent() == Seq::<T>::empty(),
            0 < r.mtu <= 2040,
            r.mtu == (match mtu {
                Some(n) => if n < MAX_CHUNK {
                    n
                } else {
                    MAX_CHUNK
                },
                None => MAX_CHUNK,
            }),
    {
        let r = SoapyDirectSink {
            mtu: match mtu {
                Some(n) => if n < MAX_CHUNK {
                    n
                } else {
                    MAX_CHUNK
                },
                None => MAX_CHUNK,
            },
            pending: Vec::new(),
            write_burst: Vec::new(),
            write_cursor: 0,
            stream_active: false,
        };
        assert(r.unsent() =~= Seq::<T>::empty());
        r
    }

    /// The next chunk of the burst.
    fn chunk(&self) -> (r: usize)
        requires
            self.wf(),
        ensures
            r == chunk_of(
                self.write_burst@.len() as int,
                self.write_cursor as int,
                self.mtu as int,
            ),
    {
        let remaining: usize = self.write_burst.len() - self.write_cursor;
        if remaining < self.mtu {
            remaining
        } else {
            self.mtu
        }
    }

    /// One tick: input is taken while no burst is under way, up to the bound; a burst that is under
    /// way goes on; otherwise what was collected becomes a burst, or there is nothing to do.
    pub fn work(&mut self, input: &[T]) -> (r: TxStep)
        requires
            old(self).between_ticks(),
        ensures
            final(self).wf(),
            final(self).mtu == old(self).mtu,
            r == soapy_step(
                old(self).pending@.len() as int,
                old(self).write_burst@.len() as int,
                old(self).write_cursor as int,
                input@.len() as int,
                old(self).mtu as int,
            ),
            r == (if old(self).write_cursor == 0 && input@.len() > 0 {
                TxStep::Consume(
                    chunk_of(
                        MAX_BURST_SAMPLES as int,
                        old(self).pending@.len() as int,
                        input@.len() as int,
                    ) as usize,
                )
            } else if old(self).write_cursor > 0 {
                TxStep::Write {
                    start: old(self).write_cursor,
                    len: chunk_of(
                        old(self).write_burst@.len() as int,
                        old(self).write_cursor as int,
                        old(self).mtu as int,
                    ) as usize,
                }
            } else if old(self).pending@.len() == 0 {
                TxStep::Sleep(IDLE_TICK_SLEEP_MS)
            } else {
                TxStep::ActivateAndWrite {
                    start: 0,
                    len: chunk_of(old(self).pending@.len() as int, 0, old(self).mtu as int) as usize,
                }
            }),
            match r {
                TxStep::Consume(n) => {
                    &&& n <= input@.len()
                    &&& n == input@.len() || final(self).pending@.len() == 16_777_216
                    &&& final(self).between_ticks()
                    &&& final(self).pending@ == old(self).pending@ + input@.take(n as int)
                    &&& final(self).write_burst == old(self).write_burst
                    &&& final(self).write_cursor == old(self).write_cursor
                    &&& final(self).stream_active == old(self).stream_active
                    &&& final(self).unsent() == old(self).unsent() + input@.take(n as int)
                },
                TxStep::Sleep(_) => *final(self) == *old(self),
                TxStep::Write { start, len } => *final(self) == *old(self) && len > 0,
                TxStep::ActivateAndWrite { start, len } => {
                    &&& len > 0
                    &&& final(self).write_burst@ == old(self).pending@
                    &&& final(self).pending@.len() == 0
                    &&& final(self).write_cursor == 0
                    &&& final(self).stream_active
                    &&& final(self).unsent() == old(self).unsent()
                },
            },
    {
        if self.write_cursor == 0 && input.len() > 0 {
            let room: usize = MAX_BURST_SAMPLES - self.pending.len();
            let take: usize = if room < input.len() {
                room
            } else {
                input.len()
            };
            let ghost before = self.pending@;
            let mut i: usize = 0;
            while i < take
                invariant
                    i <= take <= input@.len(),
                    self.mtu == old(self).mtu,
                    self.write_burst == old(self).write_burst,
                    self.write_cursor == old(self).write_cursor,
                    self.stream_active == old(self).stream_active,
                    self.pending@ == before + input@.take(i as int),
                decreases take - i,
            {
                self.pending.push(input[i]);
                assert(self.pending@ =~= before + input@.take(i + 1));
                i = i + 1;
            }
            assert(self.unsent() =~= old(self).unsent() + input@.take(take as int));
            return TxStep::Consume(take);
        }
        if self.write_cursor > 0 {
            return TxStep::Write { start: self.write_cursor, len: self.chunk() };
        }
        if self.pending.len() == 0 {
            return TxStep::Sleep(IDLE_TICK_SLEEP_MS);
        }
        let mut burst: Vec<T> = Vec::new();
        std::mem::swap(&mut burst, &mut self.pending);
        self.write_burst = burst;
        self.write_cursor = 0;
        self.stream_active = true;
        assert(self.unsent() =~= old(self).unsent());
        TxStep::ActivateAndWrite { start: 0, len: self.chunk() }
    }

    /// Takes the report that the device took `written` samples of a chunk. A device that takes
    /// nothing has stalled, and the sink is left as it was.
    pub fn wrote(&mut self, written: usize) -> (r: Written)
        requires
            old(self).wf(),
            old(self).write_burst@.len() > 0,
            written <= chunk_of(
                old(self).write_burst@.len() as int,
                old(self).write_cursor as int,
                old(self).mtu as int,
            ),
        ensures
            final(self).wf(),
            final(self).mtu == old(self).mtu,
            final(self).pending == old(self).pending,
            r == soapy_written(
                old(self).write_burst@.len() as int,
                old(self).write_cursor as int,
                written as int,
            ),
            r == (if written == 0 {
                Written::Stalled
            } else if old(self).write_cursor + written == old(self).write_burst@.len() {
                Written::Deactivate
            } else {
                Written::More
            }),
            written > 0 ==> final(self).between_ticks(),
            r is Stalled ==> *final(self) == *old(self),
            r is More ==> final(self).stream_active,
            r is Deactivate ==> !final(self).stream_active,
            old(self).unsent() == old(self).write_burst@.subrange(
                old(self).write_cursor as int,
                old(self).write_cursor + written,
            ) + final(self).unsent(),
    {
        if written == 0 {
            assert(self.unsent() =~= self.write_burst@.subrange(
                self.write_cursor as int,
                self.write_cursor as int,
            ) + self.unsent());
            return Written::Stalled;
        }
        let ghost before = *self;
        let total: usize = self.write_burst.len();
        self.write_cursor = self.write_cursor + written;
        if self.write_cursor >= total {
            self.stream_active = false;
            self.write_burst = Vec::new();
            self.write_cursor = 0;
            assert(before.unsent() =~= before.write_burst@.subrange(
                before.write_cursor as int,
                before.write_cursor + written,
            ) + self.unsent());
            Written::Deactivate
        } else {
            assert(before.unsent() =~= before.write_burst@.subrange(
                before.write_cursor as int,
                before.write_cursor + written,
            ) + self.unsent());
            Written::More
        }
    }

    /// Takes the report that the stream could not be activated: the burst is given up.
    pub fn activation_failed(&mut self)
        requires
            old(self).wf(),
            old(self).write_cursor == 0,
        ensures
            final(self).between_ticks(),
            !final(self).stream_active,
            final(self).mtu == old(self).mtu,
            final(self).pending == old(self).pending,
    {
        self.write_burst = Vec::new();
        self.stream_active = false;
    }

    /// The chunk that is still to be written when the sink shuts down: the rest of a burst under
    /// way. Samples that wait for a burst are not sent any more.
    pub fn flush(&self) -> (r: Option<(usize, usize)>)
        requires
            self.wf(),
        ensures
            r == (if self.stream_active {
                Some(
                    (
                        self.write_cursor,
                        chunk_of(
                            self.write_burst@.len() as int,
                            self.write_cursor as int,
                            self.mtu as int,
                        ) as usize,
                    ),
                )
            } else {
                None
            }),
            r matches Some((_, len)) ==> len > 0,
    {
        if self.stream_active {
            Some((self.write_cursor, self.chunk()))
        } else {
            None
        }
    }
}

/// A chunk is as long as it may be: it stays within what is there and within the bound, and reaches one
/// of the two. So there is something to write as long as anything is left.
pub proof fn chunks_are_full(len: int, start: int, mtu: int)
    requires
        0 <= start <= len,
        0 < mtu,
    ensures
        chunk_of(len, start, mtu) <= mtu,
        start + chunk_of(len, start, mtu) <= len,
        chunk_of(len, start, mtu) == mtu || start + chunk_of(len, start, mtu) == len,
        start < len ==> chunk_of(len, start, mtu) > 0,
{
}

/// A tick of a sink: input was taken in, or part of the burst was written.
pub enum SinkEvent<T> {
    Took(Seq<T>),
    Wrote(Seq<T>),
}

/// The samples that a run of events took in.
pub open spec fn taken<T>(run: Seq<SinkEvent<T>>) -> Seq<T>
    decreases run.len(),
{
    if run.len() == 0 {
        Seq::empty()
    } else {
        match run.last() {
            SinkEvent::Took(s) => taken(run.drop_last()) + s,
            SinkEvent::Wrote(_) => taken(run.drop_last()),
        }
    }
}

/// The samples that a run of events wrote.
pub open spec fn sent<T>(run: Seq<SinkEvent<T>>) -> Seq<T>
    decreases run.len(),
{
    if run.len() == 0 {
        Seq::empty()
    } else {
        match run.last() {
            SinkEvent::Took(_) => sent(run.drop_last()),
            SinkEvent::Wrote(s) => sent(run.drop_last()) + s,
        }
    }
}

/// `held[i]` is what a sink held before event `i` of a run: what is taken in joins the end of what is
/// held, and what is written is its front. This is what `work` and `wrote` of the sinks say of
/// `unsent`.
pub open spec fn holds_along<T>(run: Seq<SinkEvent<T>>, held: Seq<Seq<T>>) -> bool {
    &&& held.len() == run.len() + 1
    &&& forall|i: int|
        #![trigger run[i]]
        0 <= i < run.len() ==> match run[i] {
            SinkEvent::Took(s) => held[i + 1] == held[i] + s,
            SinkEvent::Wrote(s) => held[i] == s + held[i + 1],
        }
}

/// A sink neither loses, repeats nor reorders a sample: along every run that starts with an empty
/// sink, what was taken in is what was sent followed by what is still held.
pub proof fn no_sample_lost<T>(run: Seq<SinkEvent<T>>, held: Seq<Seq<T>>)
    requires
        holds_along(run, held),
        held[0].len() == 0,
    ensures
        taken(run) == sent(run) + held.last(),
    decreases run.len(),
{
    if run.len() == 0 {
        assert(taken(run) =~= sent(run) + held.last());
    } else {
        let front = run.drop_last();
        let before = held.drop_last();
        assert forall|i: int|
            #![trigger front[i]]
            0 <= i < front.len() implies match front[i] {
            SinkEvent::Took(s) => before[i + 1] == before[i] + s,
            SinkEvent::Wrote(s) => before[i] == s + before[i + 1],
        } by {
            assert(front[i] == run[i]);
        }
        no_sample_lost(front, before);
        assert(run.last() == run[run.len() - 1]);
        match run.last() {
            SinkEvent::Took(s) => {
                assert((sent(front) + before.last()) + s =~= sent(front) + held.last());
            },
            SinkEvent::Wrote(s) => {
                assert(sent(front) + before.last() =~= (sent(front) + s) + held.last());
            },
        }
    }
}

} // verus!
