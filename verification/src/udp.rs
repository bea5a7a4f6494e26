//! The subscribers of the UDP fan-out: who is registered, who is sent what, and who is dropped.
//!
//! The caller owns the socket. It hands in the datagrams that arrive and reports how each send went.

use vstd::prelude::*;

use crate::cbor::error::{Error, ErrorView};
use crate::cbor::subscribe::{subscribe_fits, subscribe_in, subscribe_round_trip, subscribe_wire, Subscribe};
use crate::cbor::{peek_tells_subscribe, peek_type, type_in};
use crate::text::same_text;

verus! {

/// The largest datagram that is received.
pub const MAX_DATAGRAM: usize = 65536;

/// After so many failed sends in a row a client is dropped.
pub const MAX_SEND_FAILURES: u32 = 10;

/// Where a client is reached: an address and a port.
#[derive(Clone, Copy, Debug, PartialEq, Eq, Structural)]
pub enum PeerAddr {
    V4 { ip: u32, port: u16 },
    V6 { ip: u128, port: u16, flowinfo: u32, scope_id: u32 },
}

struct Client {
    sync_words: Vec<u16>,
    send_failures: u32,
}

/// A client: the sync words it asked for (none stands for all), and how many sends in a row failed.
pub struct ClientView {
    pub sync_words: Seq<u16>,
    pub send_failures: u32,
}

/// The clients by address.
pub type Clients = Map<PeerAddr, ClientView>;

impl Client {
    spec fn model(self) -> ClientView {
        ClientView { sync_words: self.sync_words@, send_failures: self.send_failures }
    }
}

/// Whether a client with this filter is sent a frame under `sync_word`; a frame under none goes to
/// everyone.
pub open spec fn accepts(filter: Seq<u16>, sync_word: Option<u16>) -> bool {
    match sync_word {
        Some(w) => filter.len() == 0 || filter.contains(w),
        None => true,
    }
}

/// The clients after a send to `peer` went well or not.
pub open spec fn recorded(clients: Clients, peer: PeerAddr, sent: bool) -> Clients {
    if !clients.contains_key(peer) {
        clients
    } else {
        let failures = clients[peer].send_failures;
        clients.insert(
            peer,
            ClientView {
                send_failures: if sent {
                    0
                } else if failures < u32::MAX {
                    (failures + 1) as u32
                } else {
                    failures
                },
                ..clients[peer]
            },
        )
    }
}

/// Whether a send to `peer` was one failure too many.
pub open spec fn exhausted(clients: Clients, peer: PeerAddr, sent: bool) -> bool {
    !sent && clients.contains_key(peer) && recorded(clients, peer, sent)[peer].send_failures
        >= MAX_SEND_FAILURES
}

/// The clients after all sends of a broadcast, before anyone is dropped.
pub open spec fn recorded_all(clients: Clients, results: Seq<(PeerAddr, bool)>) -> Clients
    decreases results.len(),
{
    if results.len() == 0 {
        clients
    } else {
        recorded(
            recorded_all(clients, results.drop_last()),
            results.last().0,
            results.last().1,
        )
    }
}

/// The clients that a broadcast exhausts.
pub open spec fn exhausted_by(clients: Clients, results: Seq<(PeerAddr, bool)>) -> Set<PeerAddr>
    decreases results.len(),
{
    if results.len() == 0 {
        Set::empty()
    } else {
        let before = recorded_all(clients, results.drop_last());
        let so_far = exhausted_by(clients, results.drop_last());
        if exhausted(before, results.last().0, results.last().1) {
            so_far.insert(results.last().0)
        } else {
            so_far
        }
    }
}

/// The clients after a broadcast: failures are counted, and who is exhausted is dropped at the end.
pub open spec fn after_broadcast(clients: Clients, results: Seq<(PeerAddr, bool)>) -> Clients {
    recorded_all(clients, results).remove_keys(exhausted_by(clients, results))
}

/// The clients after a datagram from `peer`.
pub open spec fn after_datagram(clients: Clients, bytes: Seq<u8>, peer: PeerAddr) -> Clients {
    match type_in(bytes) {
        Err(_) => clients.insert(peer, ClientView { sync_words: Seq::empty(), send_failures: 0 }),
        Ok(t) => if t == "subscribe"@ {
            match subscribe_in(bytes) {
                Ok(words) => clients.insert(peer, ClientView { sync_words: words, send_failures: 0 }),
                Err(_) => clients,
            }
        } else {
            clients
        },
    }
}

/// What came of a datagram.
#[derive(Debug, PartialEq, Eq)]
pub enum Inbound {
    /// The sender is registered.
    Subscribed,
    /// A subscription that could not be read.
    BadSubscribe(Error),
    /// A transmit request, to be carried out.
    LoraTx,
    /// Another kind of frame, which is let pass.
    Ignored,
}

/// The registered clients.
pub struct Server {
    entries: Vec<(PeerAddr, Client)>,
}

/// Position `i` has the address `peer`.
spec fn stands(entries: Seq<(PeerAddr, Client)>, peer: PeerAddr, i: int) -> bool {
    0 <= i < entries.len() && entries[i].0 == peer
}

/// The position that has the address `peer`.
spec fn position(entries: Seq<(PeerAddr, Client)>, peer: PeerAddr) -> int {
    choose|i: int| stands(entries, peer, i)
}

/// The addresses, in the order of registration.
spec fn addresses(entries: Seq<(PeerAddr, Client)>) -> Seq<PeerAddr> {
    entries.map_values(|e: (PeerAddr, Client)| e.0)
}

spec fn by_address(entries: Seq<(PeerAddr, Client)>) -> Clients {
    Map::new(
        |a: PeerAddr| exists|i: int| stands(entries, a, i),
        |a: PeerAddr| entries[position(entries, a)].1.model(),
    )
}

spec fn distinct(entries: Seq<(PeerAddr, Client)>) -> bool {
    forall|i: int, j: int|
        0 <= i < j < entries.len() ==> (#[trigger] entries[i]).0 != (#[trigger] entries[j]).0
}

proof fn found_at(entries: Seq<(PeerAddr, Client)>, peer: PeerAddr, i: int)
    requires
        distinct(entries),
        stands(entries, peer, i),
    ensures
        position(entries, peer) == i,
        by_address(entries).contains_key(peer),
        by_address(entries)[peer] == entries[i].1.model(),
{
    let k = position(entries, peer);
    assert(stands(entries, peer, k));
    if k < i {
        assert(entries[k].0 != entries[i].0);
    } else if i < k {
        assert(entries[i].0 != entries[k].0);
    }
}

/// Replacing the client at a position replaces it in the map.
proof fn replaced_at(
    before: Seq<(PeerAddr, Client)>,
    after: Seq<(PeerAddr, Client)>,
    i: int,
    client: Client,
)
    requires
        distinct(before),
        0 <= i < before.len(),
        after == before.update(i, (before[i].0, client)),
    ensures
        distinct(after),
        by_address(after) == by_address(before).insert(before[i].0, client.model()),
{
    let peer = before[i].0;
    assert forall|a: PeerAddr| by_address(after).contains_key(a) == by_address(before).insert(
        peer,
        client.model(),
    ).contains_key(a) by {
        if exists|k: int| stands(after, a, k) {
            let k = choose|k: int| stands(after, a, k);
            assert(stands(before, a, k));
        }
        if exists|k: int| stands(before, a, k) {
            let k = choose|k: int| stands(before, a, k);
            assert(stands(after, a, k));
        }
        assert(stands(after, peer, i));
    }
    assert forall|a: PeerAddr| by_address(after).contains_key(a) implies by_address(after)[a]
        == by_address(before).insert(peer, client.model())[a] by {
        let k = choose|k: int| stands(after, a, k);
        found_at(after, a, k);
        assert(stands(before, a, k));
        found_at(before, a, k);
        if a == peer {
            found_at(after, peer, i);
        }
    }
    assert(by_address(after) =~= by_address(before).insert(peer, client.model()));
}

/// A client at a new address joins the map.
proof fn joined(before: Seq<(PeerAddr, Client)>, peer: PeerAddr, client: Client)
    requires
        distinct(before),
        !by_address(before).contains_key(peer),
    ensures
        distinct(before.push((peer, client))),
        by_address(before.push((peer, client))) == by_address(before).insert(peer, client.model()),
{
    let after = before.push((peer, client));
    assert forall|i: int, j: int| 0 <= i < j < after.len() implies (#[trigger] after[i]).0 != (
    #[trigger] after[j]).0 by {
        if j == before.len() {
            if after[i].0 == peer {
                assert(stands(before, peer, i));
            }
        }
    }
    assert forall|a: PeerAddr| by_address(after).contains_key(a) == by_address(before).insert(
        peer,
        client.model(),
    ).contains_key(a) by {
        if exists|k: int| stands(after, a, k) {
            let k = choose|k: int| stands(after, a, k);
            assert(k < before.len() ==> stands(before, a, k));
        }
        if exists|k: int| stands(before, a, k) {
            let k = choose|k: int| stands(before, a, k);
            assert(stands(after, a, k));
        }
        assert(stands(after, peer, before.len() as int));
    }
    assert forall|a: PeerAddr| by_address(after).contains_key(a) implies by_address(after)[a]
        == by_address(before).insert(peer, client.model())[a] by {
        let k = choose|k: int| stands(after, a, k);
        found_at(after, a, k);
        if k < before.len() {
            assert(stands(before, a, k));
            found_at(before, a, k);
        }
    }
    assert(by_address(after) =~= by_address(before).insert(peer, client.model()));
}

/// A client that leaves its position leaves the map.
proof fn left(before: Seq<(PeerAddr, Client)>, i: int)
    requires
        distinct(before),
        0 <= i < before.len(),
    ensures
        distinct(before.remove(i)),
        by_address(before.remove(i)) == by_address(before).remove(before[i].0),
{
    let after = before.remove(i);
    let peer = before[i].0;
    assert forall|j: int, k: int| 0 <= j < k < after.len() implies (#[trigger] after[j]).0 != (
    #[trigger] after[k]).0 by {
        let jj = if j < i {
            j
        } else {
            j + 1
        };
        let kk = if k < i {
            k
        } else {
            k + 1
        };
        assert(after[j] == before[jj] && after[k] == before[kk]);
    }
    assert forall|a: PeerAddr| by_address(after).contains_key(a) == by_address(before).remove(
        peer,
    ).contains_key(a) by {
        if exists|k: int| stands(after, a, k) {
            let k = choose|k: int| stands(after, a, k);
            let kk = if k < i {
                k
            } else {
                k + 1
            };
            assert(stands(before, a, kk));
            if a == peer {
                assert(before[kk].0 == before[i].0);
            }
        }
        if a != peer && exists|k: int| stands(before, a, k) {
            let k = choose|k: int| stands(before, a, k);
            let kk = if k < i {
                k
            } else {
                k - 1
            };
            assert(after[kk] == before[k]);
            assert(stands(after, a, kk));
        }
    }
    assert forall|a: PeerAddr| by_address(after).contains_key(a) implies by_address(after)[a]
        == by_address(before).remove(peer)[a] by {
        let k = choose|k: int| stands(after, a, k);
        let kk = if k < i {
            k
        } else {
            k + 1
        };
        found_at(after, a, k);
        assert(stands(before, a, kk));
        found_at(before, a, kk);
    }
    assert(by_address(after) =~= by_address(before).remove(peer));
}

fn contains_word(words: &Vec<u16>, word: u16) -> (r: bool)
    ensures
        r == words@.contains(word),
{
    let mut i: usize = 0;
    while i < words.len()
        invariant
            i <= words.len(),
            forall|j: int| 0 <= j < i ==> words@[j] != word,
        decreases words.len() - i,
    {
        if words[i] == word {
            return true;
        }
        i = i + 1;
    }
    false
}

impl Server {
    /// The clients by address.
    pub closed spec fn clients(self) -> Clients {
        by_address(self.entries@)
    }

    /// No address is registered twice.
    pub closed spec fn wf(self) -> bool {
        distinct(self.entries@)
    }

    /// No clients.
    pub fn new() -> (r: Server)
        ensures
            r.wf(),
            r.clients() == Map::<PeerAddr, ClientView>::empty(),
    {
        let r = Server { entries: Vec::new() };
        assert(r.clients() =~= Map::<PeerAddr, ClientView>::empty());
        r
    }

    fn find(&self, peer: PeerAddr) -> (r: Option<usize>)
        requires
            self.wf(),
        ensures
            match r {
                Some(i) => stands(self.entries@, peer, i as int),
                None => !self.clients().contains_key(peer),
            },
    {
        let mut i: usize = 0;
        while i < self.entries.len()
            invariant
                i <= self.entries.len(),
                forall|j: int| 0 <= j < i ==> (#[trigger] self.entries@[j]).0 != peer,
            decreases self.entries.len() - i,
        {
            if self.entries[i].0 == peer {
                return Some(i);
            }
            i = i + 1;
        }
        proof {
            if exists|k: int| stands(self.entries@, peer, k) {
                let k = choose|k: int| stands(self.entries@, peer, k);
                assert(self.entries@[k].0 == peer);
            }
        }
        None
    }

    /// Registers a client, or registers it anew: the filter is replaced and the failures forgotten.
    pub fn add_client(&mut self, peer: PeerAddr, sync_words: Vec<u16>)
        requires
            old(self).wf(),
        ensures
            final(self).wf(),
            final(self).clients() == old(self).clients().insert(
                peer,
                ClientView { sync_words: sync_words@, send_failures: 0 },
            ),
    {
        let client = Client { sync_words, send_failures: 0 };
        match self.find(peer) {
            Some(i) => {
                proof {
                    replaced_at(
                        self.entries@,
                        self.entries@.update(i as int, (peer, client)),
                        i as int,
                        client,
                    );
                }
                self.entries.set(i, (peer, client));
            },
            None => {
                proof {
                    joined(self.entries@, peer, client);
                }
                self.entries.push((peer, client));
            },
        }
    }

    /// How many clients there are.
    pub fn client_count(&self) -> (r: usize)
        requires
            self.wf(),
        ensures
            self.clients().dom().finite(),
            r == self.clients().dom().len(),
    {
        proof {
            let names = addresses(self.entries@);
            assert(names.no_duplicates()) by {
                assert forall|i: int, j: int|
                    0 <= i < names.len() && 0 <= j < names.len() && i != j implies names[i]
                    != names[j] by {
                    if i < j {
                        assert(self.entries@[i].0 != self.entries@[j].0);
                    } else {
                        assert(self.entries@[j].0 != self.entries@[i].0);
                    }
                }
            }
            names.unique_seq_to_set();
            assert(self.clients().dom() =~= names.to_set()) by {
                assert forall|a: PeerAddr| self.clients().dom().contains(a)
                    == names.to_set().contains(a) by {
                    if exists|k: int| stands(self.entries@, a, k) {
                        let k = choose|k: int| stands(self.entries@, a, k);
                        assert(names[k] == a);
                    }
                    if names.contains(a) {
                        let k = choose|k: int| 0 <= k < names.len() && names[k] == a;
                        assert(stands(self.entries@, a, k));
                    }
                }
            }
        }
        self.entries.len()
    }

    /// Takes a datagram from `peer`: a subscription registers the sender with its filter, a transmit
    /// request is passed on, other frames are let pass, and what cannot be read at all registers the
    /// sender for everything.
    pub fn handle_datagram(&mut self, bytes: &[u8], peer: PeerAddr) -> (r: Inbound)
        requires
            old(self).wf(),
        ensures
            final(self).wf(),
            final(self).clients() == after_datagram(old(self).clients(), bytes@, peer),
            match type_in(bytes@) {
                Err(_) => {
                    &&& r is Subscribed
                    &&& final(self).clients() == old(self).clients().insert(
                        peer,
                        ClientView { sync_words: Seq::empty(), send_failures: 0 },
                    )
                },
                Ok(t) => if t == "subscribe"@ {
                    match subscribe_in(bytes@) {
                        Ok(words) => {
                            &&& r is Subscribed
                            &&& final(self).clients() == old(self).clients().insert(
                                peer,
                                ClientView { sync_words: words, send_failures: 0 },
                            )
                        },
                        Err(e) => {
                            &&& r matches Inbound::BadSubscribe(x) && x@ == e
                            &&& final(self).clients() == old(self).clients()
                        },
                    }
                } else {
                    &&& r is LoraTx <==> t == "lora_tx"@
                    &&& r is Ignored <==> t != "lora_tx"@
                    &&& final(self).clients() == old(self).clients()
                },
            },
    {
        match peek_type(bytes) {
            Err(_) => {
                let none: Vec<u16> = Vec::new();
                assert(none@ =~= Seq::<u16>::empty());
                self.add_client(peer, none);
                Inbound::Subscribed
            },
            Ok(t) => if same_text(t.as_str(), "subscribe") {
                match Subscribe::from_slice(bytes) {
                    Ok(sub) => {
                        self.add_client(peer, sub.sync_words);
                        Inbound::Subscribed
                    },
                    Err(e) => Inbound::BadSubscribe(e),
                }
            } else if same_text(t.as_str(), "lora_tx") {
                Inbound::LoraTx
            } else {
                Inbound::Ignored
            },
        }
    }

    /// The clients that a frame under `sync_word` goes to, each once.
    pub fn recipients(&self, sync_word: Option<u16>) -> (r: Vec<PeerAddr>)
        requires
            self.wf(),
        ensures
            r@.no_duplicates(),
            forall|a: PeerAddr| #[trigger]
                r@.contains(a) <==> self.clients().contains_key(a) && accepts(
                    self.clients()[a].sync_words,
                    sync_word,
                ),
    {
        let mut out: Vec<PeerAddr> = Vec::new();
        let mut from: Ghost<Seq<int>> = Ghost(Seq::empty());
        let mut i: usize = 0;
        while i < self.entries.len()
            invariant
                i <= self.entries.len(),
                self.wf(),
                out@.len() == from@.len(),
                forall|k: int|
                    0 <= k < out@.len() ==> 0 <= #[trigger] from@[k] < i && out@[k]
                        == self.entries@[from@[k]].0 && accepts(
                        self.entries@[from@[k]].1.sync_words@,
                        sync_word,
                    ),
                forall|k: int, l: int| 0 <= k < l < out@.len() ==> #[trigger] from@[k] < #[trigger] from@[l],
                forall|j: int|
                    0 <= j < i && accepts((#[trigger] self.entries@[j]).1.sync_words@, sync_word)
                        ==> out@.contains(self.entries@[j].0),
            decreases self.entries.len() - i,
        {
            let accepted = match sync_word {
                Some(w) => self.entries[i].1.sync_words.len() == 0 || contains_word(
                    &self.entries[i].1.sync_words,
                    w,
                ),
                None => true,
            };
            let ghost before = out@;
            if accepted {
                out.push(self.entries[i].0);
                proof {
                    from@ = from@.push(i as int);
                }
                assert(out@[before.len() as int] == self.entries@[i as int].0);
            }
            proof {
                assert forall|j: int|
                    0 <= j < i + 1 && accepts(
                        (#[trigger] self.entries@[j]).1.sync_words@,
                        sync_word,
                    ) implies out@.contains(self.entries@[j].0) by {
                    if j < i {
                        let k = choose|k: int|
                            0 <= k < before.len() && before[k] == self.entries@[j].0;
                        assert(out@[k] == self.entries@[j].0);
                    }
                }
            }
            i = i + 1;
        }
        proof {
            assert forall|a: PeerAddr| #[trigger] out@.contains(a) implies self.clients().contains_key(
                a,
            ) && accepts(self.clients()[a].sync_words, sync_word) by {
                let k = choose|k: int| 0 <= k < out@.len() && out@[k] == a;
                assert(stands(self.entries@, a, from@[k]));
                found_at(self.entries@, a, from@[k]);
            }
            assert forall|a: PeerAddr|
                self.clients().contains_key(a) && accepts(
                    self.clients()[a].sync_words,
                    sync_word,
                ) implies #[trigger] out@.contains(a) by {
                let k = choose|k: int| stands(self.entries@, a, k);
                found_at(self.entries@, a, k);
                assert(self.entries@[k].0 == a);
            }
            assert(out@.no_duplicates()) by {
                assert forall|k: int, l: int|
                    0 <= k < out@.len() && 0 <= l < out@.len() && k != l implies out@[k] != out@[l] by {
                    if k < l {
                        assert(from@[k] < from@[l]);
                        assert(self.entries@[from@[k]].0 != self.entries@[from@[l]].0);
                    } else {
                        assert(from@[l] < from@[k]);
                        assert(self.entries@[from@[l]].0 != self.entries@[from@[k]].0);
                    }
                }
            }
        }
        out
    }

    /// Takes the report on a send to `peer`: success forgets earlier failures, failure is counted.
    /// Returns whether the client has failed too often. A peer that is no client changes nothing.
    pub fn record_send(&mut self, peer: PeerAddr, sent: bool) -> (r: bool)
        requires
            old(self).wf(),
        ensures
            final(self).wf(),
            final(self).clients() == recorded(old(self).clients(), peer, sent),
            r == exhausted(old(self).clients(), peer, sent),
    {
        match self.find(peer) {
            None => false,
            Some(i) => {
                proof {
                    found_at(self.entries@, peer, i as int);
                }
                let failures: u32 = self.entries[i].1.send_failures;
                let send_failures: u32 = if sent {
                    0
                } else if failures < u32::MAX {
                    failures + 1
                } else {
                    failures
                };
                let words = copy_words(&self.entries[i].1.sync_words);
                let client = Client { sync_words: words, send_failures };
                proof {
                    replaced_at(
                        self.entries@,
                        self.entries@.update(i as int, (peer, client)),
                        i as int,
                        client,
                    );
                }
                self.entries.set(i, (peer, client));
                assert(self.clients() =~= recorded(old(self).clients(), peer, sent));
                !sent && send_failures >= MAX_SEND_FAILURES
            },
        }
    }

    /// Drops a client, if it is one.
    pub fn evict(&mut self, peer: PeerAddr)
        requires
            old(self).wf(),
        ensures
            final(self).wf(),
            final(self).clients() == old(self).clients().remove(peer),
    {
        match self.find(peer) {
            None => {
                assert(self.clients() =~= old(self).clients().remove(peer));
            },
            Some(i) => {
                proof {
                    left(self.entries@, i as int);
                }
                self.entries.remove(i);
            },
        }
    }

    /// Takes the reports on all sends of a broadcast and drops the clients that have failed too
    /// often.
    pub fn broadcast(&mut self, results: &[(PeerAddr, bool)])
        requires
            old(self).wf(),
        ensures
            final(self).wf(),
            final(self).clients() == after_broadcast(old(self).clients(), results@),
    {
        let mut to_evict: Vec<PeerAddr> = Vec::new();
        let mut i: usize = 0;
        assert(results@.take(0).len() == 0);
        assert(to_evict@.to_set() =~= Set::<PeerAddr>::empty());
        while i < results.len()
            invariant
                i <= results.len(),
                self.wf(),
                self.clients() == recorded_all(old(self).clients(), results@.take(i as int)),
                to_evict@.to_set() == exhausted_by(old(self).clients(), results@.take(i as int)),
            decreases results.len() - i,
        {
            let (peer, sent) = results[i];
            let ghost before = to_evict@;
            proof {
                assert(results@.take(i + 1).drop_last() =~= results@.take(i as int));
            }
            if self.record_send(peer, sent) {
                to_evict.push(peer);
                assert(to_evict@.to_set() =~= before.to_set().insert(peer)) by {
                    assert(to_evict@[before.len() as int] == peer);
                    assert forall|a: PeerAddr| before.contains(a) implies to_evict@.contains(a) by {
                        let k = choose|k: int| 0 <= k < before.len() && before[k] == a;
                        assert(to_evict@[k] == a);
                    }
                }
            }
            i = i + 1;
        }
        assert(results@.take(i as int) =~= results@);
        let ghost all = self.clients();
        let mut j: usize = 0;
        assert(to_evict@.take(0).to_set() =~= Set::<PeerAddr>::empty());
        assert(all.remove_keys(Set::empty()) =~= all);
        while j < to_evict.len()
            invariant
                j <= to_evict.len(),
                self.wf(),
                self.clients() == all.remove_keys(to_evict@.take(j as int).to_set()),
            decreases to_evict.len() - j,
        {
            let peer = to_evict[j];
            self.evict(peer);
            proof {
                let now = to_evict@.take(j as int);
                let next = to_evict@.take(j + 1);
                assert(next =~= now.push(peer));
                assert(next.to_set() =~= now.to_set().insert(peer)) by {
                    assert(next[j as int] == peer);
                    assert forall|a: PeerAddr| now.contains(a) implies next.contains(a) by {
                        let k = choose|k: int| 0 <= k < now.len() && now[k] == a;
                        assert(next[k] == a);
                    }
                }
                assert(all.remove_keys(now.to_set()).remove(peer) =~= all.remove_keys(
                    next.to_set(),
                ));
            }
            j = j + 1;
        }
        assert(to_evict@.take(j as int) =~= to_evict@);
    }
}

fn copy_words(words: &Vec<u16>) -> (r: Vec<u16>)
    ensures
        r@ == words@,
{
    let mut out: Vec<u16> = Vec::new();
    let mut i: usize = 0;
    while i < words.len()
        invariant
            i <= words.len(),
            out@ == words@.take(i as int),
        decreases words.len() - i,
    {
        out.push(words[i]);
        assert(out@ =~= words@.take(i + 1));
        i = i + 1;
    }
    assert(out@ =~= words@);
    out
}

// ---------------------------------------------------------------------------------------------
// Laws
// ---------------------------------------------------------------------------------------------
/// The datagram of a subscription is recognised as one and asks for the sync words it was made with,
/// so that [`Server::handle_datagram`] registers its sender with exactly those.
pub proof fn subscription_is_understood(words: Seq<u16>, tail: Seq<u8>)
    requires
        subscribe_fits(words),
    ensures
        type_in(subscribe_wire(words) + tail) == Ok::<Seq<char>, ErrorView>("subscribe"@),
        subscribe_in(subscribe_wire(words) + tail) == Ok::<Seq<u16>, ErrorView>(words),
{
    peek_tells_subscribe(words, tail);
    subscribe_round_trip(words, tail);
}

/// A client is sent a frame under each of the sync words it asked for, and under no other; one that
/// named none is sent every frame, and a frame under no sync word goes to everyone.
pub proof fn asked_words_are_sent(filter: Seq<u16>, w: u16)
    ensures
        forall|i: int|
            0 <= i < filter.len() ==> accepts(filter, Some(#[trigger] filter[i])),
        filter.len() > 0 && accepts(filter, Some(w)) ==> exists|i: int|
            0 <= i < filter.len() && #[trigger] filter[i] == w,
        filter.len() == 0 ==> accepts(filter, Some(w)),
        accepts(filter, None),
{
}

/// In which order and how often the sync words of a filter are named does not matter.
pub proof fn filters_have_no_order(a: Seq<u16>, b: Seq<u16>, sync_word: Option<u16>)
    requires
        forall|x: u16|
            #![trigger a.contains(x)]
            #![trigger b.contains(x)]
            a.contains(x) == b.contains(x),
    ensures
        accepts(a, sync_word) == accepts(b, sync_word),
{
    if a.len() == 0 && b.len() > 0 {
        assert(b.contains(b[0]));
    }
    if b.len() == 0 && a.len() > 0 {
        assert(a.contains(a[0]));
    }
}

/// A client that subscribes to some sync words is from then on sent the frames under these and no others,
/// or all frames if it named none; its failures are forgotten, and no other client is touched.
pub proof fn subscriber_is_served(
    clients: Clients,
    peer: PeerAddr,
    words: Seq<u16>,
    tail: Seq<u8>,
    w: u16,
    other: PeerAddr,
)
    requires
        subscribe_fits(words),
        other != peer,
    ensures
        ({
            let next = after_datagram(clients, subscribe_wire(words) + tail, peer);
            &&& next.contains_key(peer)
            &&& accepts(next[peer].sync_words, Some(w)) <==> words.len() == 0 || words.contains(w)
            &&& next[peer].send_failures == 0
            &&& next.contains_key(other) == clients.contains_key(other)
            &&& clients.contains_key(other) ==> next[other] == clients[other]
        }),
{
    subscription_is_understood(words, tail);
}

/// A datagram that tells no type registers its sender for all frames; one of another type than a
/// subscription registers nobody and drops nobody.
pub proof fn other_datagrams(clients: Clients, bytes: Seq<u8>, peer: PeerAddr, w: Option<u16>)
    ensures
        type_in(bytes) is Err ==> {
            let next = after_datagram(clients, bytes, peer);
            next.contains_key(peer) && accepts(next[peer].sync_words, w) && next.remove(peer)
                == clients.remove(peer)
        },
        type_in(bytes) is Ok && type_in(bytes)->Ok_0 != "subscribe"@ ==> after_datagram(
            clients,
            bytes,
            peer,
        ) == clients,
        type_in(bytes) is Ok && subscribe_in(bytes) is Err ==> after_datagram(clients, bytes, peer)
            == clients,
{
    let next = after_datagram(clients, bytes, peer);
    assert(type_in(bytes) is Err ==> next.remove(peer) =~= clients.remove(peer));
}

/// No client is sent to twice in a broadcast.
pub open spec fn each_once(results: Seq<(PeerAddr, bool)>) -> bool {
    forall|i: int, j: int|
        0 <= i < j < results.len() ==> (#[trigger] results[i]).0 != (#[trigger] results[j]).0
}

/// How the send at position `i` of a broadcast counts, when no other goes to the same client.
proof fn send_recorded(clients: Clients, results: Seq<(PeerAddr, bool)>, i: int)
    requires
        each_once(results),
        0 <= i < results.len(),
    ensures
        ({
            let (peer, sent) = results[i];
            let now = recorded_all(clients, results);
            let one = recorded(clients, peer, sent);
            &&& now.contains_key(peer) == one.contains_key(peer)
            &&& one.contains_key(peer) ==> now[peer] == one[peer]
            &&& exhausted_by(clients, results).contains(peer) == exhausted(clients, peer, sent)
        }),
    decreases results.len(),
{
    let front = results.drop_last();
    let (peer, sent) = results[i];
    let before = recorded_all(clients, front);
    assert(results.last() == results[results.len() - 1]);
    assert forall|j: int, k: int| 0 <= j < k < front.len() implies (#[trigger] front[j]).0 != (
    #[trigger] front[k]).0 by {
        assert(front[j] == results[j] && front[k] == results[k]);
    }
    if i == front.len() {
        assert forall|j: int| 0 <= j < front.len() implies (#[trigger] front[j]).0 != peer by {
            assert(front[j] == results[j]);
            assert(results[j].0 != results[i].0);
        }
        others_recorded(clients, front, peer);
    } else {
        assert(front[i] == results[i]);
        send_recorded(clients, front, i);
        assert(results[i].0 != results.last().0);
    }
}

/// In a broadcast to any number of clients, each counts for itself. A send that goes well keeps the
/// client and forgets its failures; one that fails counts one more, and the client is dropped exactly
/// when that makes ten. The filter stays.
pub proof fn each_send_counts(clients: Clients, results: Seq<(PeerAddr, bool)>, i: int)
    requires
        each_once(results),
        0 <= i < results.len(),
        clients.contains_key(results[i].0),
    ensures
        ({
            let (peer, sent) = results[i];
            let client = clients[peer];
            let next = after_broadcast(clients, results);
            if sent {
                next.contains_key(peer) && next[peer] == (ClientView { send_failures: 0, ..client })
            } else {
                &&& next.contains_key(peer) <==> client.send_failures + 1 < 10
                &&& next.contains_key(peer) ==> next[peer] == (ClientView {
                    send_failures: (client.send_failures + 1) as u32,
                    ..client
                })
            }
        }),
{
    send_recorded(clients, results, i);
}

/// How the send to `peer` went in a broadcast, if there was one.
pub open spec fn send_to(results: Seq<(PeerAddr, bool)>, peer: PeerAddr) -> Option<bool>
    decreases results.len(),
{
    if results.len() == 0 {
        None
    } else if results.last().0 == peer {
        Some(results.last().1)
    } else {
        send_to(results.drop_last(), peer)
    }
}

proof fn send_to_stands(results: Seq<(PeerAddr, bool)>, peer: PeerAddr) -> (i: int)
    ensures
        match send_to(results, peer) {
            Some(sent) => 0 <= i < results.len() && results[i] == (peer, sent),
            None => forall|k: int| 0 <= k < results.len() ==> (#[trigger] results[k]).0 != peer,
        },
    decreases results.len(),
{
    if results.len() == 0 {
        0
    } else if results.last().0 == peer {
        results.len() - 1
    } else {
        let front = results.drop_last();
        let i = send_to_stands(front, peer);
        assert forall|k: int|
            send_to(results, peer) is None && 0 <= k < results.len() implies (
        #[trigger] results[k]).0 != peer by {
            if k < front.len() {
                assert(front[k] == results[k]);
            }
        }
        i
    }
}

/// The clients after a row of broadcasts.
pub open spec fn after_broadcasts(clients: Clients, rounds: Seq<Seq<(PeerAddr, bool)>>) -> Clients
    decreases rounds.len(),
{
    if rounds.len() == 0 {
        clients
    } else {
        after_broadcast(after_broadcasts(clients, rounds.drop_last()), rounds.last())
    }
}

/// How many sends to `peer` in a row have failed after a row of broadcasts, `n` of them before it;
/// none once there were ten. A broadcast that did not send to `peer` does not count.
pub open spec fn failures_in_row(
    n: int,
    rounds: Seq<Seq<(PeerAddr, bool)>>,
    peer: PeerAddr,
) -> Option<int>
    decreases rounds.len(),
{
    if rounds.len() == 0 {
        Some(n)
    } else {
        match failures_in_row(n, rounds.drop_last(), peer) {
            None => None,
            Some(k) => match send_to(rounds.last(), peer) {
                None => Some(k),
                Some(true) => Some(0),
                Some(false) => if k + 1 < 10 {
                    Some(k + 1)
                } else {
                    None
                },
            },
        }
    }
}

/// Over any row of broadcasts, to whomever they go, a client is dropped exactly at its tenth failure
/// in a row; until then its filter stays, and its count is that of its failures since it was last
/// reached.
pub proof fn tenth_failure_evicts(
    clients: Clients,
    rounds: Seq<Seq<(PeerAddr, bool)>>,
    peer: PeerAddr,
)
    requires
        clients.contains_key(peer),
        clients[peer].send_failures < 10,
        forall|i: int| 0 <= i < rounds.len() ==> each_once(#[trigger] rounds[i]),
    ensures
        match failures_in_row(clients[peer].send_failures as int, rounds, peer) {
            Some(n) => {
                &&& after_broadcasts(clients, rounds).contains_key(peer)
                &&& after_broadcasts(clients, rounds)[peer] == (ClientView {
                    send_failures: n as u32,
                    ..clients[peer]
                })
                &&& 0 <= n < 10
            },
            None => !after_broadcasts(clients, rounds).contains_key(peer),
        },
    decreases rounds.len(),
{
    if rounds.len() > 0 {
        let front = rounds.drop_last();
        let results = rounds.last();
        let before = after_broadcasts(clients, front);
        assert forall|i: int| 0 <= i < front.len() implies each_once(#[trigger] front[i]) by {
            assert(front[i] == rounds[i]);
        }
        assert(results == rounds[rounds.len() - 1]);
        tenth_failure_evicts(clients, front, peer);
        let i = send_to_stands(results, peer);
        if send_to(results, peer) is None {
            others_unchanged(before, results, peer);
        } else {
            if before.contains_key(peer) {
                each_send_counts(before, results, i);
            } else {
                send_recorded(before, results, i);
            }
        }
    }
}

/// A broadcast leaves alone every client that it did not send to: one that the filter kept out is
/// neither dropped nor changed.
pub proof fn others_unchanged(clients: Clients, results: Seq<(PeerAddr, bool)>, other: PeerAddr)
    requires
        forall|i: int| 0 <= i < results.len() ==> (#[trigger] results[i]).0 != other,
    ensures
        after_broadcast(clients, results).contains_key(other) == clients.contains_key(other),
        clients.contains_key(other) ==> after_broadcast(clients, results)[other] == clients[other],
{
    others_recorded(clients, results, other);
}

proof fn others_recorded(clients: Clients, results: Seq<(PeerAddr, bool)>, other: PeerAddr)
    requires
        forall|i: int| 0 <= i < results.len() ==> (#[trigger] results[i]).0 != other,
    ensures
        recorded_all(clients, results).contains_key(other) == clients.contains_key(other),
        clients.contains_key(other) ==> recorded_all(clients, results)[other] == clients[other],
        !exhausted_by(clients, results).contains(other),
    decreases results.len(),
{
    if results.len() > 0 {
        let front = results.drop_last();
        assert forall|i: int| 0 <= i < front.len() implies (#[trigger] front[i]).0 != other by {
            assert(front[i] == results[i]);
        }
        others_recorded(clients, front, other);
        assert(results.last() == results[results.len() - 1]);
    }
}

} // verus!
