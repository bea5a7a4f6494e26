//! The subscriber registry.

use chirpmunk::cbor::{to_vec, Error, LoraTx, LoraTxAck, Subscribe};
use chirpmunk::udp::{Inbound, PeerAddr, Server};

fn peer(n: u16) -> PeerAddr {
    PeerAddr::V4 { ip: 0x7f00_0001, port: n }
}

#[test]
fn subscribe_registers_client() {
    let mut server = Server::new();
    assert_eq!(server.client_count(), 0);
    let buf = to_vec(&Subscribe::default()).unwrap();
    assert_eq!(server.handle_datagram(&buf, peer(1)), Inbound::Subscribed);
    assert_eq!(server.client_count(), 1);
}

#[test]
fn broadcast_reaches_subscriber() {
    let mut server = Server::new();
    server.handle_datagram(&to_vec(&Subscribe::default()).unwrap(), peer(1));
    assert_eq!(server.client_count(), 1);
    assert_eq!(server.recipients(None), vec![peer(1)]);
    assert_eq!(server.recipients(Some(0x2b)), vec![peer(1)]);
}

#[test]
fn filter_blocks_mismatch() {
    let mut server = Server::new();
    let sub = Subscribe { sync_words: vec![0x12] };
    server.handle_datagram(&to_vec(&sub).unwrap(), peer(1));
    assert_eq!(server.client_count(), 1);
    assert_eq!(server.recipients(Some(0x2B)), vec![]);
    assert_eq!(server.recipients(Some(0x12)), vec![peer(1)]);
    assert_eq!(server.recipients(None), vec![peer(1)]);
}

#[test]
fn other_datagrams() {
    let mut server = Server::new();
    let tx = LoraTx { payload: vec![1], ..LoraTx::default() };
    assert_eq!(server.handle_datagram(&to_vec(&tx).unwrap(), peer(1)), Inbound::LoraTx);
    assert_eq!(
        server.handle_datagram(&to_vec(&LoraTxAck::ok(1)).unwrap(), peer(1)),
        Inbound::Ignored
    );
    assert_eq!(server.client_count(), 0);
    // A subscription that cannot be read is refused.
    match server.handle_datagram(b"\xa2\x64type\x69subscribe\x69sync_word\x01", peer(1)) {
        Inbound::BadSubscribe(Error::Decode(_)) => (),
        other => panic!("{other:?}"),
    }
    assert_eq!(server.client_count(), 0);
    // What is no frame at all subscribes to everything.
    assert_eq!(server.handle_datagram(b"hello", peer(2)), Inbound::Subscribed);
    assert_eq!(server.handle_datagram(b"", peer(3)), Inbound::Subscribed);
    assert_eq!(server.client_count(), 2);
    assert_eq!(server.recipients(Some(1)), vec![peer(2), peer(3)]);
}

#[test]
fn subscribing_again_replaces_the_filter() {
    let mut server = Server::new();
    server.add_client(peer(1), vec![0x12]);
    server.add_client(peer(1), vec![0x34, 0x56]);
    assert_eq!(server.client_count(), 1);
    assert_eq!(server.recipients(Some(0x12)), vec![]);
    assert_eq!(server.recipients(Some(0x56)), vec![peer(1)]);
}

#[test]
fn the_tenth_failure_in_a_row_evicts() {
    let mut server = Server::new();
    server.add_client(peer(1), vec![]);
    server.add_client(peer(2), vec![0x12]);
    for _ in 0..9 {
        server.broadcast(&[(peer(1), false), (peer(2), true)]);
        assert_eq!(server.client_count(), 2);
    }
    server.broadcast(&[(peer(1), true), (peer(2), true)]);
    for _ in 0..9 {
        server.broadcast(&[(peer(1), false)]);
    }
    assert_eq!(server.client_count(), 2);
    server.broadcast(&[(peer(1), false)]);
    assert_eq!(server.client_count(), 1);
    assert_eq!(server.recipients(None), vec![peer(2)]);
}

#[test]
fn each_client_counts_its_own_failures() {
    let mut server = Server::new();
    for n in 1..=3 {
        server.add_client(peer(n), vec![n]);
    }
    for _ in 0..5 {
        server.broadcast(&[(peer(2), false), (peer(3), true)]);
    }
    for _ in 0..4 {
        server.broadcast(&[(peer(3), false), (peer(1), false), (peer(2), false)]);
    }
    assert_eq!(server.client_count(), 3);
    server.broadcast(&[(peer(1), false), (peer(2), false), (peer(3), false)]);
    assert_eq!(server.client_count(), 2);
    assert_eq!(server.recipients(Some(2)), vec![]);
    server.broadcast(&[(peer(1), true), (peer(3), false)]);
    for _ in 0..3 {
        server.broadcast(&[(peer(1), false), (peer(3), false)]);
    }
    assert_eq!(server.client_count(), 2);
    server.broadcast(&[(peer(1), false), (peer(3), false)]);
    assert_eq!(server.recipients(None), vec![peer(1)]);
    assert_eq!(server.recipients(Some(1)), vec![peer(1)]);
}

#[test]
fn subscribing_again_forgets_failures() {
    let mut server = Server::new();
    server.add_client(peer(1), vec![]);
    for _ in 0..9 {
        assert!(!server.record_send(peer(1), false));
    }
    server.add_client(peer(1), vec![]);
    assert!(!server.record_send(peer(1), false));
    for _ in 0..8 {
        assert!(!server.record_send(peer(1), false));
    }
    assert!(server.record_send(peer(1), false));
    server.evict(peer(1));
    assert_eq!(server.client_count(), 0);
    // Reports on peers that are no clients change nothing.
    assert!(!server.record_send(peer(1), false));
    server.evict(peer(1));
    assert_eq!(server.client_count(), 0);
}

#[test]
fn addresses_are_told_apart() {
    let mut server = Server::new();
    let six = |scope_id: u32| PeerAddr::V6 { ip: 1, port: 9, flowinfo: 0, scope_id };
    server.add_client(six(0), vec![1]);
    server.add_client(six(1), vec![2]);
    server.add_client(PeerAddr::V4 { ip: 1, port: 9 }, vec![3]);
    assert_eq!(server.client_count(), 3);
    assert_eq!(server.recipients(Some(2)), vec![six(1)]);
}
