//! The burst logic of the IIO transmit sink and what its receive source makes of a read.
//!
//! The stream is active for the life of the sink. Samples are collected as they come, and while none
//! come in, one chunk is written per tick; the last chunk of what was collected ends the burst.

use vstd::prelude::*;

use crate::blocks::soapy_direct::{chunk_of, RxStep, IDLE_TICK_SLEEP_MS, MAX_BURST_SAMPLES, MAX_CHUNK};

verus! {

/// The arguments that open the device at `uri`.
pub fn iio_args(uri: &str) -> (r: String)
    ensures
        r@ == "driver=iio, uri="@ + uri@,
{
    "driver=iio, uri=".to_owned().concat(uri)
}

// ---------------------------------------------------------------------------------------------
// Receiving
// ---------------------------------------------------------------------------------------------
/// How a read from the device ended.
#[derive(Clone, Copy, Debug, PartialEq, Eq, Structural)]
pub enum IioRead {
    Samples(usize),
    Overflow,
    Inactive,
    Failed,
}

/// What the source makes of a read: overflows pass, any other error ends it.
pub fn iio_rx_step(read: IioRead) -> (r: RxStep)
    ensures
        r == (match read {
            IioRead::Samples(n) => RxStep::Produce(n),
            IioRead::Overflow => RxStep::Wait,
            IioRead::Inactive => RxStep::Finish,
            IioRead::Failed => RxStep::Finish,
        }),
{
    match read {
        IioRead::Samples(n) => RxStep::Produce(n),
        IioRead::Overflow => RxStep::Wait,
        IioRead::Inactive => RxStep::Finish,
        IioRead::Failed => RxStep::Finish,
    }
}

// ---------------------------------------------------------------------------------------------
// Transmitting
// ---------------------------------------------------------------------------------------------
/// The sink's buffer: the samples collected, and how many of them are written.
pub struct IioDirectSink<T> {
    pub pending: Vec<T>,
    pub write_cursor: usize,
}

/// A chunk of the collected samples; `end_burst` marks the last one.
#[derive(Clone, Copy, Debug, PartialEq, Eq, Structural)]
pub struct Chunk {
    pub start: usize,
    pub len: usize,
    pub end_burst: bool,
}

/// What the caller is to do in a tick. After each, the sink wants to be called again.
#[derive(Clone, Copy, Debug, PartialEq, Eq, Structural)]
pub enum IioTxStep {
    /// That many samples of the input were taken.
    Consume(usize),
    /// Write the whole of a chunk, and report when it is written.
    Write(Chunk),
    /// Nothing to do: sleep that many milliseconds.
    Sleep(u64),
}

/// The chunk that starts at `start`.
pub open spec fn chunk_at(len: int, start: int) -> Chunk {
    let n = chunk_of(len, start, MAX_CHUNK as int);
    Chunk { start: start as usize, len: n as usize, end_burst: start + n >= len }
}

/// The chunks from `start` on.
pub open spec fn chunks_from(len: int, start: int) -> Seq<Chunk>
    decreases len - start,
{
    if start >= len {
        Seq::empty()
    } else {
        seq![chunk_at(len, start)] + chunks_from(len, start + chunk_of(len, start, MAX_CHUNK as int))
    }
}

/// What a tick of a sink asks for, by how many samples are collected, how many of them are written, and
/// how many come in.
pub open spec fn iio_step(pending: int, cursor: int, input: int) -> IioTxStep {
    if input > 0 && pending < MAX_BURST_SAMPLES {
        IioTxStep::Consume(chunk_of(MAX_BURST_SAMPLES as int, pending, input) as usize)
    } else if cursor < pending {
        IioTxStep::Write(chunk_at(pending, cursor))
    } else {
        IioTxStep::Sleep(IDLE_TICK_SLEEP_MS)
    }
}

/// What comes in is taken first, as far as there is room. When nothing comes in, or there is no room,
/// the samples go out from where writing stopped, and the chunk that reaches the last one ends the
/// burst; with nothing left, the sink idles.
pub proof fn ticks_of_a_sink(pending: int, cursor: int, input: int)
    requires
        0 <= cursor <= pending <= 16_777_216,
        0 <= input <= usize::MAX,
    ensures
        ({
            let step = iio_step(pending, cursor, input);
            &&& step is Consume <==> input > 0 && pending < 16_777_216
            &&& step matches IioTxStep::Consume(n) ==> 0 < n <= input && (n == input || pending + n
                == 16_777_216)
            &&& step is Write <==> (input == 0 || pending == 16_777_216) && cursor < pending
            &&& step matches IioTxStep::Write(c) ==> c.start == cursor && 0 < c.len <= 2040 && c.start
                + c.len <= pending && (c.len == 2040 || c.start + c.len == pending) && (c.end_burst
                <==> c.start + c.len == pending)
            &&& step matches IioTxStep::Sleep(ms) ==> ms == 5
        }),
{
}

fn next_chunk(len: usize, start: usize) -> (r: Chunk)
    requires
        start < len,
    ensures
        r == chunk_at(len as int, start as int),
        0 < r.len <= MAX_CHUNK,
        start + r.len <= len,
{
    let remaining: usize = len - start;
    let n: usize = if remaining < MAX_CHUNK {
        remaining
    } else {
        MAX_CHUNK
    };
    Chunk { start, len: n, end_burst: start + n >= len }
}

impl<T: Copy> IioDirectSink<T> {
    /// What is written is not yet all that was collected.
    pub open spec fn wf(self) -> bool {
        &&& self.pending@.len() > 0 ==> self.write_cursor < self.pending@.len()
        &&& self.pending@.len() == 0 ==> self.write_cursor == 0
        &&& self.pending@.len() <= MAX_BURST_SAMPLES
    }

    /// What was taken in and is not yet written, in its order.
    pub open spec fn unsent(self) -> Seq<T> {
        self.pending@.subrange(self.write_cursor as int, self.pending@.len() as int)
    }

    /// An empty sink.
    pub fn new() -> (r: IioDirectSink<T>)
        ensures
            r.wf(),
            r.unsent() == Seq::<T>::empty(),
    {
        let r = IioDirectSink { pending: Vec::new(), write_cursor: 0 };
        assert(r.unsent() =~= Seq::<T>::empty());
        r
    }

    /// One tick: input is taken as long as there is room; otherwise a chunk is written, or there is
    /// nothing to do.
    pub fn work(&mut self, input: &[T]) -> (r: IioTxStep)
        requires
            old(self).wf(),
        ensures
            final(self).wf(),
            r == iio_step(
                old(self).pending@.len() as int,
                old(self).write_cursor as int,
                input@.len() as int,
            ),
            r == (if input@.len() > 0 && old(self).pending@.len() < MAX_BURST_SAMPLES {
                IioTxStep::Consume(
                    chunk_of(
                        MAX_BURST_SAMPLES as int,
                        old(self).pending@.len() as int,
                        input@.len() as int,
                    ) as usize,
                )
            } else if old(self).write_cursor < old(self).pending@.len() {
                IioTxStep::Write(
                    chunk_at(old(self).pending@.len() as int, old(self).write_cursor as int),
                )
            } else {
                IioTxStep::Sleep(IDLE_TICK_SLEEP_MS)
            }),
            match r {
                IioTxStep::Consume(n) => {
                    &&& 0 < n <= input@.len()
                    &&& n == input@.len() || final(self).pending@.len() == 16_777_216
                    &&& final(self).pending@ == old(self).pending@ + input@.take(n as int)
                    &&& final(self).write_cursor == old(self).write_cursor
                    &&& final(self).unsent() == old(self).unsent() + input@.take(n as int)
                },
                _ => *final(self) == *old(self),
            },
    {
        if input.len() > 0 && self.pending.len() < MAX_BURST_SAMPLES {
            let room: usize = MAX_BURST_SAMPLES - self.pending.len();
            let take: usize = if room < input.len() {
                room
            } else {
                input.len()
            };
            let ghost before = self.pending@;
            let mut i: usize = 0;
            while i < take
                invariant
                    i <= take <= input@.len(),
                    self.write_cursor == old(self).write_cursor,
                    self.pending@ == before + input@.take(i as int),
                decreases take - i,
            {
                self.pending.push(input[i]);
                assert(self.pending@ =~= before + input@.take(i + 1));
                i = i + 1;
            }
            assert(self.unsent() =~= old(self).unsent() + input@.take(take as int));
            return IioTxStep::Consume(take);
        }
        if self.write_cursor < self.pending.len() {
            return IioTxStep::Write(next_chunk(self.pending.len(), self.write_cursor));
        }
        IioTxStep::Sleep(IDLE_TICK_SLEEP_MS)
    }

    /// Takes the report that the chunk is written. The last chunk empties the sink.
    pub fn wrote(&mut self)
        requires
            old(self).wf(),
            old(self).pending@.len() > 0,
        ensures
            final(self).wf(),
            ({
                let chunk = chunk_at(
                    old(self).pending@.len() as int,
                    old(self).write_cursor as int,
                );
                &&& old(self).unsent() == old(self).pending@.subrange(
                    chunk.start as int,
                    chunk.start + chunk.len,
                ) + final(self).unsent()
                &&& chunk.end_burst ==> final(self).pending@.len() == 0
                &&& !chunk.end_burst ==> final(self).pending == old(self).pending
                    && final(self).write_cursor == old(self).write_cursor + chunk.len
            }),
    {
        let chunk = next_chunk(self.pending.len(), self.write_cursor);
        if chunk.end_burst {
            self.pending = Vec::new();
            self.write_cursor = 0;
        } else {
            self.write_cursor = self.write_cursor + chunk.len;
        }
        assert(old(self).unsent() =~= old(self).pending@.subrange(
            chunk.start as int,
            chunk.start + chunk.len,
        ) + self.unsent());
    }

    /// Shuts the sink down: the samples that it holds, and the chunks of those that are not yet
    /// written, the last of which ends the burst. The sink is empty afterwards.
    pub fn drain(&mut self) -> (r: (Vec<T>, Vec<Chunk>))
        requires
            old(self).wf(),
        ensures
            r.0@ == old(self).pending@,
            r.1@ == chunks_from(
                old(self).pending@.len() as int,
                old(self).write_cursor as int,
            ),
            covered(r.0@, r.1@) == old(self).unsent(),
            final(self).wf(),
            final(self).pending@.len() == 0,
    {
        let start: usize = self.write_cursor;
        let mut held: Vec<T> = Vec::new();
        std::mem::swap(&mut held, &mut self.pending);
        self.write_cursor = 0;
        let mut plan: Vec<Chunk> = Vec::new();
        let total: usize = held.len();
        let mut at: usize = start;
        while at < total
            invariant
                start <= at <= total,
                plan@ + chunks_from(total as int, at as int) == chunks_from(
                    total as int,
                    start as int,
                ),
            decreases total - at,
        {
            let chunk = next_chunk(total, at);
            let ghost rest = chunks_from(total as int, at + chunk.len);
            assert(plan@ + (seq![chunk] + rest) =~= plan@.push(chunk) + rest);
            plan.push(chunk);
            at = at + chunk.len;
        }
        assert(plan@ + Seq::<Chunk>::empty() =~= plan@);
        proof {
            chunks_are_the_rest(held@, start as int);
        }
        (held, plan)
    }
}

/// The samples that a row of chunks names, one chunk behind the other.
pub open spec fn covered<T>(samples: Seq<T>, chunks: Seq<Chunk>) -> Seq<T>
    decreases chunks.len(),
{
    if chunks.len() == 0 {
        Seq::empty()
    } else {
        samples.subrange(chunks[0].start as int, chunks[0].start + chunks[0].len) + covered(
            samples,
            chunks.drop_first(),
        )
    }
}

/// The chunks from `start` on name every sample from there on once, in its order, and none before.
pub proof fn chunks_are_the_rest<T>(samples: Seq<T>, start: int)
    requires
        0 <= start <= samples.len() <= usize::MAX,
    ensures
        covered(samples, chunks_from(samples.len() as int, start)) == samples.subrange(
            start,
            samples.len() as int,
        ),
    decreases samples.len() - start,
{
    let len = samples.len() as int;
    if start < len {
        let n = chunk_of(len, start, MAX_CHUNK as int);
        chunks_are_the_rest(samples, start + n);
        assert(chunks_from(len, start).drop_first() =~= chunks_from(len, start + n));
        assert(samples.subrange(start, start + n) + samples.subrange(start + n, len)
            =~= samples.subrange(start, len));
    } else {
        assert(samples.subrange(start, len) =~= Seq::empty());
    }
}

/// Chunks lie one behind the other, cover everything from `start` on, are never longer than the
/// bound, and only the last of them ends the burst.
pub proof fn chunks_cover(len: int, start: int, i: int)
    requires
        0 <= start <= len <= usize::MAX,
        0 <= i < chunks_from(len, start).len(),
    ensures
        ({
            let chunks = chunks_from(len, start);
            &&& 0 < chunks[i].len <= 2040
            &&& i + 1 < chunks.len() ==> chunks[i].len == 2040
            &&& chunks[0].start == start
            &&& i + 1 < chunks.len() ==> chunks[i + 1].start == chunks[i].start + chunks[i].len
            &&& i + 1 == chunks.len() ==> chunks[i].start + chunks[i].len == len
            &&& chunks[i].end_burst <==> i + 1 == chunks.len()
        }),
    decreases len - start,
{
    let n = chunk_of(len, start, MAX_CHUNK as int);
    let rest = chunks_from(len, start + n);
    let chunks = chunks_from(len, start);
    assert(chunks[0] == chunk_at(len, start));
    assert(rest.len() == 0 <==> start + n >= len);
    if i > 0 {
        chunks_cover(len, start + n, i - 1);
        assert(chunks[i] == rest[i - 1]);
        if i + 1 < chunks.len() {
            assert(chunks[i + 1] == rest[i]);
        }
    } else if rest.len() > 0 {
        chunks_cover(len, start + n, 0);
        assert(chunks[1] == rest[0]);
    }
}

} // verus!
