//! Selection-diversity dedup of decoded frames.
//!
//! Several receive chains hand in the packets they decode. Arrivals with the same payload hash,
//! sync word, spreading factor and bandwidth within a window collapse into one frame, which is sent
//! when the window ends and tells which chains heard the packet. With a window of zero every frame
//! is sent at once.
//!
//! The caller owns the clock: it tells the time of each call, in nanoseconds since a point of its
//! choice, and comes back for a key when the key's window ends.

use std::collections::HashMap;
use vstd::prelude::*;

use crate::cbor::frame::{lora_frame_wire, Diversity, DiversityView, LoraFrame, LoraFrameView, PhyView};
use crate::cbor::{to_vec, Frame};
use crate::double::Double;

verus! {

broadcast use vstd::std_specs::hash::group_hash_axioms;

/// An encoded frame and the sync word that subscriptions are matched against.
pub type Outbound = (Vec<u8>, u16);

/// What makes two arrivals the same packet.
#[derive(Clone, Copy, Debug, PartialEq, Eq, Structural)]
pub struct DedupKey {
    pub payload_hash: u64,
    pub sync_word: u16,
    pub sf: u8,
    pub bw: u32,
}

/// The key of a frame.
pub open spec fn key_of_frame(f: LoraFrameView) -> DedupKey {
    DedupKey {
        payload_hash: f.payload_hash,
        sync_word: f.phy.sync_word,
        sf: f.phy.sf,
        bw: f.phy.bw,
    }
}

/// The receive chain that a frame came from.
pub open spec fn chain_of(f: LoraFrameView) -> u32 {
    match f.rx_channel {
        Some(c) => c,
        None => 0,
    }
}

/// A packet whose window is still open.
struct Entry {
    base: LoraFrame,
    antennas: Vec<u32>,
    snr_per_ant: Vec<Double>,
    snr_max: Double,
    sync_word: u16,
    due_ns: u128,
}

/// A packet whose window is still open, by its contents: the first frame, the chains that heard it
/// and what each measured, the best measurement, the sync word to send it under, and when its window
/// ends.
#[verifier::ext_equal]
pub struct OpenPacket {
    pub base: LoraFrameView,
    pub antennas: Seq<u32>,
    pub snr_per_ant: Seq<Double>,
    pub snr_max: Double,
    pub sync_word: u16,
    pub due_ns: u128,
}

impl OpenPacket {
    /// The packet after its first arrival.
    pub open spec fn opened(frame: LoraFrameView, sync_word: u16, due_ns: u128) -> OpenPacket {
        OpenPacket {
            base: frame,
            antennas: seq![chain_of(frame)],
            snr_per_ant: seq![frame.phy.snr_db],
            snr_max: frame.phy.snr_db,
            sync_word,
            due_ns,
        }
    }

    /// The packet after another arrival: a chain counts once. When the window ends stays.
    pub open spec fn merged(self, frame: LoraFrameView) -> OpenPacket {
        if self.antennas.contains(chain_of(frame)) {
            self
        } else {
            OpenPacket {
                antennas: self.antennas.push(chain_of(frame)),
                snr_per_ant: self.snr_per_ant.push(frame.phy.snr_db),
                snr_max: if frame.phy.snr_db.above(self.snr_max) {
                    frame.phy.snr_db
                } else {
                    self.snr_max
                },
                ..self
            }
        }
    }

    /// The frame that is sent when the window ends: the first arrival, and the diversity record
    /// where more than one chain heard the packet.
    pub open spec fn consolidated(self) -> LoraFrameView {
        if self.antennas.len() > 1 {
            LoraFrameView {
                phy: PhyView {
                    diversity: Some(
                        DiversityView {
                            antennas: self.antennas.map_values(|c: u32| (c % 256) as u8),
                            snr_db_max: self.snr_max,
                            snr_db_per_ant: self.snr_per_ant,
                        },
                    ),
                    ..self.base.phy
                },
                ..self.base
            }
        } else {
            self.base
        }
    }

    /// One measurement for each chain, no chain twice, and the best of the measurements kept: it is
    /// one of them, and none of them is above it.
    pub open spec fn sound(self) -> bool {
        &&& self.antennas.len() == self.snr_per_ant.len()
        &&& self.antennas.len() >= 1
        &&& self.antennas.no_duplicates()
        &&& self.snr_per_ant.contains(self.snr_max)
        &&& forall|i: int|
            0 <= i < self.snr_per_ant.len() ==> !(#[trigger] self.snr_per_ant[i]).above(
                self.snr_max,
            )
    }
}

/// A packet stays sound as arrivals come in.
pub proof fn arrivals_keep_sound(
    p: OpenPacket,
    frame: LoraFrameView,
    sync_word: u16,
    due_ns: u128,
)
    ensures
        OpenPacket::opened(frame, sync_word, due_ns).sound(),
        p.sound() ==> p.merged(frame).sound(),
{
    let o = OpenPacket::opened(frame, sync_word, due_ns);
    assert(o.snr_per_ant[0] == o.snr_max);
    if p.sound() && !p.antennas.contains(chain_of(frame)) {
        let m = p.merged(frame);
        let last = p.snr_per_ant.len() as int;
        assert(m.snr_per_ant[last] == frame.phy.snr_db);
        if !frame.phy.snr_db.above(p.snr_max) {
            let i = choose|i: int| 0 <= i < p.snr_per_ant.len() && p.snr_per_ant[i] == p.snr_max;
            assert(m.snr_per_ant[i] == p.snr_max);
        }
        assert forall|i: int| 0 <= i < m.snr_per_ant.len() implies !(
        #[trigger] m.snr_per_ant[i]).above(m.snr_max) by {
            if i < last {
                assert(m.snr_per_ant[i] == p.snr_per_ant[i]);
            }
        }
    }
}

impl Entry {
    spec fn open(self) -> OpenPacket {
        OpenPacket {
            base: self.base@,
            antennas: self.antennas@,
            snr_per_ant: self.snr_per_ant@,
            snr_max: self.snr_max,
            sync_word: self.sync_word,
            due_ns: self.due_ns,
        }
    }
}

// ---------------------------------------------------------------------------------------------
// Keys as numbers
// ---------------------------------------------------------------------------------------------
/// The key as one number: its parts side by side.
spec fn packed(k: DedupKey) -> int {
    k.payload_hash * 0x100_0000_0000_0000 + k.sync_word * 0x100_0000_0000 + k.sf * 0x1_0000_0000
        + k.bw
}

/// The parts can be told from the number.
proof fn unpacked(k: DedupKey)
    ensures
        packed(k) / 0x100_0000_0000_0000 == k.payload_hash,
        packed(k) / 0x100_0000_0000 % 0x1_0000 == k.sync_word,
        packed(k) / 0x1_0000_0000 % 0x100 == k.sf,
        packed(k) % 0x1_0000_0000 == k.bw,
        0 <= packed(k) <= u128::MAX,
{
    let high = k.payload_hash as int;
    let word = high * 0x1_0000 + k.sync_word;
    let factor = word * 0x100 + k.sf;
    assert(packed(k) == factor * 0x1_0000_0000 + k.bw);
    assert(packed(k) / 0x1_0000_0000 == factor);
    assert(packed(k) / 0x100_0000_0000 == word);
}

proof fn packed_injective()
    ensures
        forall|a: DedupKey, b: DedupKey| #[trigger] packed(a) == #[trigger] packed(b) ==> a == b,
        forall|a: DedupKey| 0 <= #[trigger] packed(a) <= u128::MAX,
{
    assert forall|a: DedupKey, b: DedupKey| #[trigger] packed(a) == #[trigger] packed(
        b,
    ) implies a == b by {
        unpacked(a);
        unpacked(b);
    }
    assert forall|a: DedupKey| 0 <= #[trigger] packed(a) <= u128::MAX by {
        unpacked(a);
    }
}

fn pack(k: DedupKey) -> (r: u128)
    ensures
        r == packed(k),
{
    k.payload_hash as u128 * 0x100_0000_0000_0000 + k.sync_word as u128 * 0x100_0000_0000
        + k.sf as u128 * 0x1_0000_0000 + k.bw as u128
}

// ---------------------------------------------------------------------------------------------
// The state
// ---------------------------------------------------------------------------------------------
/// The open packets by key.
pub type OpenPackets = Map<DedupKey, OpenPacket>;

/// The open packets after a frame was handed in at `now_ns`, while the window is `window_ns` long.
pub open spec fn after_submit(
    window_ns: u128,
    open: OpenPackets,
    frame: LoraFrameView,
    sync_word: u16,
    now_ns: u128,
) -> OpenPackets {
    let key = key_of_frame(frame);
    if window_ns == 0 {
        open
    } else if open.contains_key(key) {
        open.insert(key, open[key].merged(frame))
    } else {
        open.insert(key, OpenPacket::opened(frame, sync_word, (now_ns + window_ns) as u128))
    }
}

/// The window of `key` is open at `now_ns` and has come to its end.
pub open spec fn is_due(open: OpenPackets, key: DedupKey, now_ns: u128) -> bool {
    open.contains_key(key) && open[key].due_ns <= now_ns
}

/// The open packets after `key` was asked for at `now_ns`.
pub open spec fn after_expire(open: OpenPackets, key: DedupKey, now_ns: u128) -> OpenPackets {
    if is_due(open, key, now_ns) {
        open.remove(key)
    } else {
        open
    }
}

/// The packets whose windows are open.
pub struct DedupState {
    window_ns: u128,
    entries: HashMap<u128, Entry>,
}

/// What becomes of a frame that is handed in.
#[derive(Debug, PartialEq, Eq)]
pub enum Submission {
    /// It is sent at once.
    Emit(Outbound),
    /// It is the first of its kind: the window of its key ends at the time given.
    Opened(DedupKey, u128),
    /// It was counted towards a packet whose window is open.
    Merged,
}

impl DedupState {
    /// The window in nanoseconds.
    pub closed spec fn window_len(self) -> u128 {
        self.window_ns
    }

    /// The open packets by key.
    pub closed spec fn open(self) -> OpenPackets {
        Map::new(
            |k: DedupKey| self.entries@.contains_key(packed(k) as u128),
            |k: DedupKey| self.entries@[packed(k) as u128].open(),
        )
    }

    /// Every open packet is sound and stands under the key of its frame.
    pub closed spec fn wf(self) -> bool {
        forall|k: DedupKey| #[trigger]
            self.open().contains_key(k) ==> self.open()[k].sound() && key_of_frame(
                self.open()[k].base,
            ) == k
    }

    /// No packets, and a window of `window_ns` nanoseconds.
    pub fn new(window_ns: u128) -> (r: DedupState)
        ensures
            r.wf(),
            r.window_len() == window_ns,
            r.open() == Map::<DedupKey, OpenPacket>::empty(),
    {
        let r = DedupState { window_ns, entries: HashMap::new() };
        assert(r.open() =~= Map::<DedupKey, OpenPacket>::empty());
        r
    }

    /// No packets, and a window of `window_ms` milliseconds.
    pub fn from_window_ms(window_ms: u32) -> (r: DedupState)
        ensures
            r.wf(),
            r.window_len() == window_ms * 1_000_000,
            r.open() == Map::<DedupKey, OpenPacket>::empty(),
    {
        DedupState::new(window_ms as u128 * 1_000_000)
    }

    /// The window in nanoseconds.
    pub fn window(&self) -> (r: u128)
        ensures
            r == self.window_len(),
    {
        self.window_ns
    }

    /// Takes a frame that was decoded at `now_ns`, to be sent under `sync_word`.
    pub fn submit(&mut self, frame: LoraFrame, sync_word: u16, now_ns: u128) -> (r: Submission)
        requires
            old(self).wf(),
            now_ns + old(self).window_len() <= u128::MAX,
        ensures
            final(self).wf(),
            final(self).window_len() == old(self).window_len(),
            final(self).open() == after_submit(
                old(self).window_len(),
                old(self).open(),
                frame@,
                sync_word,
                now_ns,
            ),
            match r {
                Submission::Emit((bytes, word)) => {
                    &&& old(self).window_len() == 0
                    &&& bytes@ == frame.wire()
                    &&& word == sync_word
                },
                Submission::Opened(key, due_ns) => {
                    &&& old(self).window_len() > 0
                    &&& key == key_of_frame(frame@)
                    &&& due_ns == now_ns + old(self).window_len()
                    &&& !old(self).open().contains_key(key)
                },
                Submission::Merged => {
                    &&& old(self).window_len() > 0
                    &&& old(self).open().contains_key(key_of_frame(frame@))
                },
            },
    {
        if self.window_ns == 0 {
            return Submission::Emit(encode(&frame, sync_word));
        }
        let key = DedupKey {
            payload_hash: frame.payload_hash,
            sync_word: frame.phy.sync_word,
            sf: frame.phy.sf,
            bw: frame.phy.bw,
        };
        let chain: u32 = match frame.rx_channel {
            Some(c) => c,
            None => 0,
        };
        let snr = frame.phy.snr_db;
        let packed_key: u128 = pack(key);
        proof {
            packed_injective();
            assert(old(self).open().contains_key(key) == self.entries@.contains_key(packed_key));
        }
        match self.entries.remove(&packed_key) {
            Some(found) => {
                let mut entry = found;
                proof {
                    arrivals_keep_sound(found.open(), frame@, sync_word, found.due_ns);
                }
                if !contains_chain(&entry.antennas, chain) {
                    entry.antennas.push(chain);
                    entry.snr_per_ant.push(snr);
                    if snr.greater_than(entry.snr_max) {
                        entry.snr_max = snr;
                    }
                }
                assert(entry.open() =~= found.open().merged(frame@));
                self.entries.insert(packed_key, entry);
                assert(self.open() =~= old(self).open().insert(
                    key,
                    old(self).open()[key].merged(frame@),
                ));
                Submission::Merged
            },
            None => {
                let mut antennas: Vec<u32> = Vec::new();
                antennas.push(chain);
                let mut snr_per_ant: Vec<Double> = Vec::new();
                snr_per_ant.push(snr);
                let due_ns: u128 = now_ns + self.window_ns;
                let ghost packet = OpenPacket::opened(frame@, sync_word, due_ns);
                proof {
                    arrivals_keep_sound(packet, frame@, sync_word, due_ns);
                }
                let entry = Entry {
                    base: frame,
                    antennas,
                    snr_per_ant,
                    snr_max: snr,
                    sync_word,
                    due_ns,
                };
                assert(entry.open() =~= packet);
                self.entries.insert(packed_key, entry);
                assert(self.open() =~= old(self).open().insert(key, packet));
                Submission::Opened(key, due_ns)
            },
        }
    }

    /// Asks for `key` at `now_ns`: if its window has come to its end, the packet is closed and its frame
    /// handed out. Before that, and for a key that is not open, nothing comes and nothing changes.
    pub fn expire(&mut self, key: DedupKey, now_ns: u128) -> (r: Option<Outbound>)
        requires
            old(self).wf(),
        ensures
            final(self).wf(),
            final(self).window_len() == old(self).window_len(),
            final(self).open() == after_expire(old(self).open(), key, now_ns),
            match r {
                Some((bytes, word)) => {
                    &&& is_due(old(self).open(), key, now_ns)
                    &&& bytes@ == lora_frame_wire(old(self).open()[key].consolidated())
                    &&& word == old(self).open()[key].sync_word
                },
                None => !is_due(old(self).open(), key, now_ns),
            },
    {
        let packed_key: u128 = pack(key);
        proof {
            packed_injective();
            assert(old(self).open().contains_key(key) == self.entries@.contains_key(packed_key));
        }
        let taken = self.entries.remove(&packed_key);
        assert(self.open() =~= old(self).open().remove(key));
        match taken {
            None => {
                assert(self.open() =~= old(self).open());
                None
            },
            Some(entry) => {
                if now_ns < entry.due_ns {
                    self.entries.insert(packed_key, entry);
                    assert(self.open() =~= old(self).open());
                    return None;
                }
                let ghost packet = entry.open();
                let mut frame = entry.base;
                if entry.antennas.len() > 1 {
                    let antennas = narrow_chains(&entry.antennas);
                    frame.phy.diversity = Some(
                        Diversity {
                            antennas,
                            snr_db_max: entry.snr_max,
                            snr_db_per_ant: entry.snr_per_ant,
                        },
                    );
                }
                assert(frame@ =~= packet.consolidated());
                Some(encode(&frame, entry.sync_word))
            },
        }
    }
}

fn contains_chain(chains: &Vec<u32>, chain: u32) -> (r: bool)
    ensures
        r == chains@.contains(chain),
{
    let mut i: usize = 0;
    while i < chains.len()
        invariant
            i <= chains.len(),
            forall|j: int| 0 <= j < i ==> chains@[j] != chain,
        decreases chains.len() - i,
    {
        if chains[i] == chain {
            return true;
        }
        i = i + 1;
    }
    false
}

/// The chains as the wire has them, eight bits each.
fn narrow_chains(chains: &Vec<u32>) -> (r: Vec<u8>)
    ensures
        r@ == chains@.map_values(|c: u32| (c % 256) as u8),
{
    let mut out: Vec<u8> = Vec::new();
    let mut i: usize = 0;
    while i < chains.len()
        invariant
            i <= chains.len(),
            out@.len() == i,
            forall|j: int| 0 <= j < i ==> out@[j] == (chains@[j] % 256) as u8,
        decreases chains.len() - i,
    {
        out.push((chains[i] % 256) as u8);
        i = i + 1;
    }
    assert(out@ =~= chains@.map_values(|c: u32| (c % 256) as u8));
    out
}

fn encode(frame: &LoraFrame, sync_word: u16) -> (r: Outbound)
    ensures
        r.0@ == frame.wire(),
        r.1 == sync_word,
{
    match to_vec(frame) {
        Ok(bytes) => (bytes, sync_word),
        Err(_) => (Vec::new(), sync_word),
    }
}

// ---------------------------------------------------------------------------------------------
// Laws
// ---------------------------------------------------------------------------------------------
/// Something that happens to the open packets, and when.
pub enum Event {
    /// A frame is handed in.
    Submit(LoraFrameView, u16, u128),
    /// A key is asked for.
    Expire(DedupKey, u128),
}

/// The open packets after an event.
pub open spec fn after(window_ns: u128, open: OpenPackets, e: Event) -> OpenPackets {
    match e {
        Event::Submit(frame, sync_word, now_ns) => after_submit(
            window_ns,
            open,
            frame,
            sync_word,
            now_ns,
        ),
        Event::Expire(key, now_ns) => after_expire(open, key, now_ns),
    }
}

/// The frame that is sent at an event and the sync word that it is sent under, if one is.
pub open spec fn sent_at(window_ns: u128, open: OpenPackets, e: Event) -> Option<
    (LoraFrameView, u16),
> {
    match e {
        Event::Submit(frame, sync_word, now_ns) => if window_ns == 0 {
            Some((frame, sync_word))
        } else {
            None
        },
        Event::Expire(key, now_ns) => if is_due(open, key, now_ns) {
            Some((open[key].consolidated(), open[key].sync_word))
        } else {
            None
        },
    }
}

/// The event is about the packet of `key`.
pub open spec fn concerns(e: Event, key: DedupKey) -> bool {
    match e {
        Event::Submit(frame, _, _) => key_of_frame(frame) == key,
        Event::Expire(k, _) => k == key,
    }
}

/// Nobody asks for `key` at `due_ns` or later.
pub open spec fn not_asked_from(run: Seq<Event>, key: DedupKey, due_ns: u128) -> bool {
    forall|i: int|
        0 <= i < run.len() ==> (#[trigger] run[i] matches Event::Expire(k, now_ns) ==> k != key
            || now_ns < due_ns)
}

/// The open packets after a run of events.
pub open spec fn after_all(window_ns: u128, open: OpenPackets, run: Seq<Event>) -> OpenPackets
    decreases run.len(),
{
    if run.len() == 0 {
        open
    } else {
        after(window_ns, after_all(window_ns, open, run.drop_last()), run.last())
    }
}

/// The arrivals of key `key` in a run of events, in their order.
pub open spec fn arrivals(run: Seq<Event>, key: DedupKey) -> Seq<LoraFrameView>
    decreases run.len(),
{
    if run.len() == 0 {
        Seq::empty()
    } else {
        match run.last() {
            Event::Submit(frame, _, _) => if key_of_frame(frame) == key {
                arrivals(run.drop_last(), key).push(frame)
            } else {
                arrivals(run.drop_last(), key)
            },
            Event::Expire(_, _) => arrivals(run.drop_last(), key),
        }
    }
}

/// A packet after a row of further arrivals.
pub open spec fn merged_all(p: OpenPacket, later: Seq<LoraFrameView>) -> OpenPacket
    decreases later.len(),
{
    if later.len() == 0 {
        p
    } else {
        merged_all(p, later.drop_last()).merged(later.last())
    }
}

/// With a window, a packet that was opened collects all arrivals of its key, and nothing else, until
/// its key is asked for when the window has ended; it keeps the frame and the sync word it was opened
/// with, and the time at which its window ends, which no later arrival postpones.
pub proof fn open_packet_collects(
    window_ns: u128,
    open: OpenPackets,
    first: LoraFrameView,
    sync_word: u16,
    start_ns: u128,
    run: Seq<Event>,
)
    requires
        window_ns > 0,
        start_ns + window_ns <= u128::MAX,
        !open.contains_key(key_of_frame(first)),
        not_asked_from(run, key_of_frame(first), (start_ns + window_ns) as u128),
    ensures
        ({
            let key = key_of_frame(first);
            let due_ns = (start_ns + window_ns) as u128;
            let begun = after_submit(window_ns, open, first, sync_word, start_ns);
            let now = after_all(window_ns, begun, run);
            let packet = merged_all(
                OpenPacket::opened(first, sync_word, due_ns),
                arrivals(run, key),
            );
            &&& now.contains_key(key)
            &&& now[key] == packet
            &&& packet.base == first
            &&& packet.sync_word == sync_word
            &&& packet.due_ns == due_ns
            &&& packet.sound()
        }),
    decreases run.len(),
{
    let key = key_of_frame(first);
    let due_ns = (start_ns + window_ns) as u128;
    let begun = after_submit(window_ns, open, first, sync_word, start_ns);
    let opened = OpenPacket::opened(first, sync_word, due_ns);
    arrivals_keep_sound(opened, first, sync_word, due_ns);
    if run.len() > 0 {
        let front = run.drop_last();
        assert(not_asked_from(front, key, due_ns)) by {
            assert forall|i: int| 0 <= i < front.len() implies (
            #[trigger] front[i] matches Event::Expire(k, now_ns) ==> k != key || now_ns < due_ns) by {
                assert(front[i] == run[i]);
            }
        }
        open_packet_collects(window_ns, open, first, sync_word, start_ns, front);
        assert(run.last() == run[run.len() - 1]);
        match run.last() {
            Event::Submit(frame, w, _) => {
                let p = merged_all(opened, arrivals(front, key));
                arrivals_keep_sound(p, frame, w, due_ns);
                if key_of_frame(frame) == key {
                    assert(arrivals(run, key).drop_last() =~= arrivals(front, key));
                }
            },
            Event::Expire(_, _) => {},
        }
    }
}

/// With a window, a packet and all its later arrivals make one frame. Until the window that its first
/// arrival opened has ended, nothing is sent for its key, whatever else happens. Whoever then asks for
/// the key gets the first arrival, all of it the same but for the diversity record, under the sync
/// word it came with. After that there is nothing more to get, and the next arrival of the key opens a
/// window of its own.
pub proof fn one_frame_per_window(
    window_ns: u128,
    open: OpenPackets,
    first: LoraFrameView,
    sync_word: u16,
    start_ns: u128,
    run: Seq<Event>,
    ask_ns: u128,
)
    requires
        window_ns > 0,
        start_ns + window_ns <= u128::MAX,
        !open.contains_key(key_of_frame(first)),
        not_asked_from(run, key_of_frame(first), (start_ns + window_ns) as u128),
    ensures
        ({
            let key = key_of_frame(first);
            let due_ns = (start_ns + window_ns) as u128;
            let begun = after_submit(window_ns, open, first, sync_word, start_ns);
            let now = after_all(window_ns, begun, run);
            let packet = merged_all(
                OpenPacket::opened(first, sync_word, due_ns),
                arrivals(run, key),
            );
            let sent = packet.consolidated();
            let ask = Event::Expire(key, ask_ns);
            let next = after(window_ns, now, ask);
            &&& sent_at(window_ns, open, Event::Submit(first, sync_word, start_ns)) is None
            &&& forall|i: int|
                0 <= i < run.len() && concerns(#[trigger] run[i], key) ==> sent_at(
                    window_ns,
                    after_all(window_ns, begun, run.take(i)),
                    run[i],
                ) is None
            &&& sent == (LoraFrameView {
                phy: PhyView { diversity: sent.phy.diversity, ..first.phy },
                ..first
            })
            &&& ask_ns < due_ns ==> sent_at(window_ns, now, ask) is None && next == now
            &&& ask_ns >= due_ns ==> {
                &&& sent_at(window_ns, now, ask) == Some((sent, sync_word))
                &&& !next.contains_key(key)
                &&& forall|later_ns: u128|
                    (#[trigger] sent_at(window_ns, next, Event::Expire(key, later_ns))) is None
                &&& forall|frame: LoraFrameView, w: u16, t: u128|
                    key_of_frame(frame) == key ==> (#[trigger] after(
                        window_ns,
                        next,
                        Event::Submit(frame, w, t),
                    ))[key] == OpenPacket::opened(frame, w, (t + window_ns) as u128)
            }
        }),
{
    let key = key_of_frame(first);
    let due_ns = (start_ns + window_ns) as u128;
    let begun = after_submit(window_ns, open, first, sync_word, start_ns);
    open_packet_collects(window_ns, open, first, sync_word, start_ns, run);
    assert forall|i: int| 0 <= i < run.len() && concerns(#[trigger] run[i], key) implies sent_at(
        window_ns,
        after_all(window_ns, begun, run.take(i)),
        run[i],
    ) is None by {
        let front = run.take(i);
        assert(not_asked_from(front, key, due_ns)) by {
            assert forall|j: int| 0 <= j < front.len() implies (
            #[trigger] front[j] matches Event::Expire(k, now_ns) ==> k != key || now_ns < due_ns) by {
                assert(front[j] == run[j]);
            }
        }
        open_packet_collects(window_ns, open, first, sync_word, start_ns, front);
    }
}

/// Two frames are one packet exactly when payload hash, sync word, spreading factor and bandwidth are
/// the same.
pub proof fn same_packet_when(f: LoraFrameView, g: LoraFrameView)
    ensures
        key_of_frame(f) == key_of_frame(g) <==> {
            &&& f.payload_hash == g.payload_hash
            &&& f.phy.sync_word == g.phy.sync_word
            &&& f.phy.sf == g.phy.sf
            &&& f.phy.bw == g.phy.bw
        },
{
}

/// The frame came from receive chain `c`; one that names none came from the first.
pub open spec fn came_from(f: LoraFrameView, c: u32) -> bool {
    f.rx_channel == Some(c) || (f.rx_channel is None && c == 0)
}

/// Arrival `i` came from a chain that is among `chains`, since it or an earlier arrival brought it.
pub open spec fn counted_by(firsts: Seq<int>, chains: Seq<u32>, f: LoraFrameView, i: int) -> bool {
    exists|j: int|
        #![trigger firsts[j]]
        0 <= j < firsts.len() && firsts[j] <= i && came_from(f, chains[j])
}

/// Every chain that heard a packet counts, once, with what it measured first, in the order in which the
/// chains were heard: `firsts` are the arrivals that brought a chain not heard before.
pub proof fn every_chain_counts(
    first: LoraFrameView,
    sync_word: u16,
    due_ns: u128,
    later: Seq<LoraFrameView>,
) -> (firsts: Seq<int>)
    ensures
        ({
            let all = seq![first] + later;
            let p = merged_all(OpenPacket::opened(first, sync_word, due_ns), later);
            &&& firsts.len() == p.antennas.len()
            &&& firsts.len() == p.snr_per_ant.len()
            &&& forall|j: int|
                #![trigger firsts[j]]
                0 <= j < firsts.len() ==> 0 <= firsts[j] < all.len() && came_from(
                    all[firsts[j]],
                    p.antennas[j],
                ) && p.snr_per_ant[j] == all[firsts[j]].phy.snr_db
            &&& forall|j: int, k: int|
                #![trigger firsts[j], firsts[k]]
                0 <= j < k < firsts.len() ==> firsts[j] < firsts[k] && p.antennas[j]
                    != p.antennas[k]
            &&& forall|i: int|
                #![trigger all[i]]
                0 <= i < all.len() ==> counted_by(firsts, p.antennas, all[i], i)
        }),
    decreases later.len(),
{
    let all = seq![first] + later;
    let opened = OpenPacket::opened(first, sync_word, due_ns);
    let p = merged_all(opened, later);
    if later.len() == 0 {
        let firsts = seq![0int];
        assert(all[0] == first);
        assert forall|i: int| #![trigger all[i]] 0 <= i < all.len() implies counted_by(
            firsts,
            p.antennas,
            all[i],
            i,
        ) by {
            assert(firsts[0] <= i && came_from(all[i], p.antennas[0]));
        }
        assert(firsts[0] == 0 && all[firsts[0]] == first);
        assert(p.antennas[0] == chain_of(first) && p.snr_per_ant[0] == first.phy.snr_db);
        firsts
    } else {
        let front = later.drop_last();
        let last = later.last();
        let before = every_chain_counts(first, sync_word, due_ns, front);
        let q = merged_all(opened, front);
        let fewer = seq![first] + front;
        assert(all =~= fewer.push(last));
        assert(p == q.merged(last));
        let firsts = if q.antennas.contains(chain_of(last)) {
            before
        } else {
            before.push(all.len() - 1)
        };
        assert forall|j: int| #![trigger firsts[j]] 0 <= j < firsts.len() implies 0 <= firsts[j]
            < all.len() && came_from(all[firsts[j]], p.antennas[j]) && p.snr_per_ant[j]
            == all[firsts[j]].phy.snr_db by {
            if j < before.len() {
                assert(firsts[j] == before[j]);
                assert(all[before[j]] == fewer[before[j]]);
            }
        }
        assert forall|j: int, k: int|
            #![trigger firsts[j], firsts[k]]
            0 <= j < k < firsts.len() implies firsts[j] < firsts[k] && p.antennas[j]
            != p.antennas[k] by {
            assert(firsts[j] == before[j]);
            assert(0 <= before[j] < fewer.len());
            if k < before.len() {
                assert(firsts[k] == before[k]);
            } else if p.antennas[j] == p.antennas[k] {
                assert(q.antennas[j] == chain_of(last));
            }
        }
        assert forall|i: int| #![trigger all[i]] 0 <= i < all.len() implies counted_by(
            firsts,
            p.antennas,
            all[i],
            i,
        ) by {
            if i < fewer.len() {
                assert(all[i] == fewer[i]);
                assert(counted_by(before, q.antennas, fewer[i], i));
                let j = choose|j: int|
                    #![trigger before[j]]
                    0 <= j < before.len() && before[j] <= i && came_from(fewer[i], q.antennas[j]);
                assert(firsts[j] == before[j]);
                assert(p.antennas[j] == q.antennas[j]);
            } else if q.antennas.contains(chain_of(last)) {
                let j = choose|j: int| 0 <= j < q.antennas.len() && q.antennas[j] == chain_of(last);
                assert(0 <= before[j] < fewer.len());
                assert(firsts[j] <= i && came_from(all[i], p.antennas[j]));
            } else {
                let j = before.len() as int;
                assert(firsts[j] <= i && came_from(all[i], p.antennas[j]));
            }
        }
        firsts
    }
}

/// The best measurement of a packet changes only for a better one, and then to the one that arrived. A
/// chain that was heard before changes nothing.
pub proof fn best_only_improves(p: OpenPacket, f: LoraFrameView, c: u32)
    requires
        came_from(f, c),
    ensures
        p.antennas.contains(c) ==> p.merged(f) == p,
        !p.antennas.contains(c) && f.phy.snr_db.above(p.snr_max) ==> p.merged(f).snr_max
            == f.phy.snr_db,
        !f.phy.snr_db.above(p.snr_max) ==> p.merged(f).snr_max == p.snr_max,
        p.merged(f).base == p.base,
        p.merged(f).sync_word == p.sync_word,
        p.merged(f).due_ns == p.due_ns,
{
}

/// A packet that more than one chain heard tells all of them, eight bits each, with what each measured
/// and the best; one that a single chain heard is sent as it came. All else is as it first came.
pub proof fn all_chains_told(p: OpenPacket)
    ensures
        p.antennas.len() <= 1 ==> p.consolidated() == p.base,
        p.antennas.len() > 1 ==> {
            let sent = p.consolidated();
            &&& sent.phy.diversity is Some
            &&& sent.phy.diversity->0.antennas.len() == p.antennas.len()
            &&& forall|i: int|
                0 <= i < p.antennas.len() ==> #[trigger] sent.phy.diversity->0.antennas[i]
                    == p.antennas[i] % 256
            &&& sent.phy.diversity->0.snr_db_per_ant == p.snr_per_ant
            &&& sent.phy.diversity->0.snr_db_max == p.snr_max
            &&& sent == (LoraFrameView {
                phy: PhyView { diversity: sent.phy.diversity, ..p.base.phy },
                ..p.base
            })
        },
{
}

/// Two chains that hear the same packet make one frame: the first arrival, with both chains and
/// both measurements, in the order of arrival, and the better of the two.
pub proof fn two_chains_one_frame(
    f: LoraFrameView,
    g: LoraFrameView,
    sync_word: u16,
    due_ns: u128,
)
    requires
        chain_of(f) != chain_of(g),
    ensures
        ({
            let packet = OpenPacket::opened(f, sync_word, due_ns).merged(g);
            let sent = packet.consolidated();
            &&& sent == (LoraFrameView { phy: PhyView { diversity: sent.phy.diversity, ..f.phy }, ..f })
            &&& sent.phy.diversity matches Some(d) && d.antennas == seq![
                (chain_of(f) % 256) as u8,
                (chain_of(g) % 256) as u8,
            ] && d.snr_db_per_ant == seq![f.phy.snr_db, g.phy.snr_db] && d.snr_db_max == (
            if g.phy.snr_db.above(f.phy.snr_db) {
                g.phy.snr_db
            } else {
                f.phy.snr_db
            })
        }),
{
    let packet = OpenPacket::opened(f, sync_word, due_ns).merged(g);
    let d = packet.consolidated().phy.diversity->0;
    assert(d.antennas =~= seq![(chain_of(f) % 256) as u8, (chain_of(g) % 256) as u8]);
    assert(d.snr_db_per_ant =~= seq![f.phy.snr_db, g.phy.snr_db]);
}

/// A chain that hears a packet again is not counted again, and the frame is sent as it first came.
pub proof fn same_chain_counts_once(
    f: LoraFrameView,
    g: LoraFrameView,
    sync_word: u16,
    due_ns: u128,
)
    requires
        chain_of(f) == chain_of(g),
    ensures
        OpenPacket::opened(f, sync_word, due_ns).merged(g) == OpenPacket::opened(f, sync_word, due_ns),
        OpenPacket::opened(f, sync_word, due_ns).merged(g).consolidated() == f,
{
    assert(OpenPacket::opened(f, sync_word, due_ns).antennas[0] == chain_of(f));
}

/// Packets of different keys do not touch each other.
pub proof fn keys_are_independent(
    window_ns: u128,
    open: OpenPackets,
    frame: LoraFrameView,
    sync_word: u16,
    now_ns: u128,
    other: DedupKey,
)
    requires
        other != key_of_frame(frame),
    ensures
        ({
            let next = after_submit(window_ns, open, frame, sync_word, now_ns);
            &&& next.contains_key(other) == open.contains_key(other)
            &&& open.contains_key(other) ==> next[other] == open[other]
        }),
{
}

/// With a window of zero, every frame that is handed in is sent as it is, and nothing stays open.
pub proof fn no_window_no_dedup(
    open: OpenPackets,
    frame: LoraFrameView,
    sync_word: u16,
    now_ns: u128,
)
    ensures
        sent_at(0, open, Event::Submit(frame, sync_word, now_ns)) == Some((frame, sync_word)),
        after(0, open, Event::Submit(frame, sync_word, now_ns)) == open,
{
}

} // verus!
