use simple_dht::cli::ClientCommand;
use simple_dht::client::is_awaited_reply;
use simple_dht::messages::{DecodeError, Message, Payload, PeerAddr};
use simple_dht::server::{PeerStore, Relay, Server, PEER_TTL_MS};
use simple_dht::state::{Reply, State};
use simple_dht::transport::{Buffer, BUFFER_SIZE};

fn hash(n: u8) -> simple_dht::messages::Hash {
    simple_dht::messages::Hash::new([0, 0, 0, 0, 0, 0, 0, n])
}

fn sorted(mut v: Vec<PeerAddr>) -> Vec<PeerAddr> {
    v.sort_by_key(|a| format!("{:?}", a));
    v
}

#[test]
fn peer_probe_and_cleanup() {
    let mut peers = PeerStore::new(10);
    let a = PeerAddr::V4([1, 1, 1, 1], 1);
    let b = PeerAddr::V6([2; 16], 2);
    assert!(peers.probe(a, 0));
    assert!(!peers.probe(a, 5));
    assert!(peers.probe(b, 8));
    assert_eq!(peers.len(), 2);
    assert_eq!(sorted(peers.addresses()), sorted(vec![a, b]));
    // a was last seen at 5: stale after 15; b at 8: stale after 18.
    peers.cleanup(15);
    assert_eq!(peers.len(), 2);
    peers.cleanup(16);
    assert_eq!(peers.addresses(), vec![b]);
    peers.cleanup(19);
    assert_eq!(peers.len(), 0);
    assert!(peers.probe(a, 20));
}

#[test]
fn default_peer_ttl() {
    let mut peers = PeerStore::default();
    let a = PeerAddr::V4([1, 2, 3, 4], 5);
    peers.probe(a, 0);
    peers.cleanup(PEER_TTL_MS);
    assert_eq!(peers.len(), 1);
    peers.cleanup(PEER_TTL_MS + 1);
    assert_eq!(peers.len(), 0);
}

#[test]
fn datagram_is_probed_and_processed() {
    let mut state = State::default();
    let mut server = Server::new(1000);
    let src = PeerAddr::V4([127, 0, 0, 1], 7000);
    let frame = Message::IHave(hash(3)).serialize();
    let received = server.on_datagram(&mut state, src, &frame, 42, 0).unwrap();
    assert!(received.new_peer);
    assert!(!received.pending);
    assert_eq!(received.replies, vec![Reply { ticket: 42, message: Message::Get(hash(3)) }]);
    let received = server.on_datagram(&mut state, src, &Message::Get(hash(3)).serialize(), 44, 0).unwrap();
    assert!(received.pending);
    assert_eq!(received.replies, vec![]);
    let received = server.on_datagram(&mut state, src, &Message::KeepAlive.serialize(), 43, 1).unwrap();
    assert!(!received.new_peer);
    assert_eq!(received.replies, vec![]);
    assert_eq!(server.peers().addresses(), vec![src]);
}

#[test]
fn malformed_datagram_is_dropped() {
    let mut state = State::default();
    let mut server = Server::new(1000);
    let src = PeerAddr::V4([127, 0, 0, 1], 7000);
    assert_eq!(server.on_datagram(&mut state, src, &[9], 1, 0).err(), Some(DecodeError::InvalidMessageType));
    assert_eq!(server.on_datagram(&mut state, src, &[0, 1, 2], 1, 0).err(), Some(DecodeError::MessageTooShort));
    assert_eq!(server.peers().len(), 0);
}

#[test]
fn broadcast_is_forwarded_or_learned() {
    let mut server = Server::new(10);
    let a = PeerAddr::V4([10, 0, 0, 1], 1);
    let b = PeerAddr::V4([10, 0, 0, 2], 2);
    match server.on_broadcast(&Message::Discover(a), 0) {
        Relay::Learned { addr, new } => {
            assert_eq!(addr, a);
            assert!(new);
        }
        Relay::Forward(_) => panic!("a Discover is not forwarded"),
    }
    match server.on_broadcast(&Message::Discover(a), 1) {
        Relay::Learned { new, .. } => assert!(!new),
        Relay::Forward(_) => panic!("a Discover is not forwarded"),
    }
    server.on_broadcast(&Message::Discover(b), 5);
    match server.on_broadcast(&Message::IHave(hash(1)), 6) {
        Relay::Forward(targets) => assert_eq!(sorted(targets), sorted(vec![a, b])),
        Relay::Learned { .. } => panic!("only a Discover is learned"),
    }
    // Stale peers are dropped before forwarding: a was last seen at 1.
    match server.on_broadcast(&Message::KeepAlive, 12) {
        Relay::Forward(targets) => assert_eq!(targets, vec![b]),
        Relay::Learned { .. } => panic!("only a Discover is learned"),
    }
}

#[test]
fn two_servers_replicate_through_datagrams() {
    let mut engine_a = State::default();
    let mut engine_b = State::default();
    let inbox_a = engine_a.subscribe();
    let mut server_a = Server::new(10_000);
    let mut server_b = Server::new(10_000);
    let addr_a = PeerAddr::V4([10, 0, 0, 1], 1);
    let addr_b = PeerAddr::V4([10, 0, 0, 2], 2);
    let client = PeerAddr::V4([10, 0, 0, 3], 3);
    let h = hash(8);

    // B says hello to A, so A knows B.
    server_a.on_datagram(&mut engine_a, addr_b, &Message::KeepAlive.serialize(), 1, 0).unwrap();
    // A client puts content on A.
    let put = Message::Put(h, Payload(b"x".to_vec())).serialize();
    server_a.on_datagram(&mut engine_a, client, &put, 2, 0).unwrap();
    // A's engine broadcast IHave; A's loop forwards it to its peers.
    let notice = engine_a.receive(inbox_a).unwrap();
    let targets = match server_a.on_broadcast(&notice, 0) {
        Relay::Forward(targets) => targets,
        Relay::Learned { .. } => panic!("an IHave is forwarded"),
    };
    assert!(targets.contains(&addr_b));
    // B pulls it.
    let got = server_b.on_datagram(&mut engine_b, addr_a, &notice.serialize(), 3, 0).unwrap();
    assert_eq!(got.replies, vec![Reply { ticket: 3, message: Message::Get(h) }]);
    let answered = server_a.on_datagram(&mut engine_a, addr_b, &got.replies[0].message.serialize(), 4, 0).unwrap();
    assert_eq!(answered.replies, vec![Reply { ticket: 4, message: Message::Put(h, Payload(b"x".to_vec())) }]);
    server_b.on_datagram(&mut engine_b, addr_a, &answered.replies[0].message.serialize(), 5, 0).unwrap();
    assert_eq!(engine_b.get(&h), Some(b"x".to_vec()));
}

#[test]
fn client_waits_for_the_matching_reply() {
    let get = Message::Get(hash(1));
    assert!(is_awaited_reply(&get, &Message::Put(hash(1), Payload(vec![]))));
    assert!(!is_awaited_reply(&get, &Message::Put(hash(2), Payload(vec![]))));
    assert!(!is_awaited_reply(&get, &Message::IHave(hash(1))));
    let put = Message::Put(hash(1), Payload(vec![1]));
    assert!(is_awaited_reply(&put, &Message::IHave(hash(1))));
    assert!(!is_awaited_reply(&put, &Message::IHave(hash(2))));
    assert!(!is_awaited_reply(&put, &Message::KeepAlive));
    let discover = Message::Discover(PeerAddr::V4([1, 2, 3, 4], 5));
    assert!(is_awaited_reply(&discover, &Message::KeepAlive));
}

#[test]
fn client_command_to_message() {
    assert_eq!(ClientCommand::Get { hash: hash(1) }.to_message(), Message::Get(hash(1)));
    assert_eq!(
        ClientCommand::Put { hash: hash(2), payload: Payload(b"p".to_vec()) }.to_message(),
        Message::Put(hash(2), Payload(b"p".to_vec()))
    );
    let a = PeerAddr::V6([3; 16], 4);
    assert_eq!(ClientCommand::Discover { address: a }.to_message(), Message::Discover(a));
}

#[test]
fn receive_buffer() {
    let mut buffer = Buffer::new();
    assert!(buffer.0.iter().all(|b| *b == 0));
    assert_eq!(BUFFER_SIZE, 1024);
    buffer.0[..3].copy_from_slice(&[2, 9, 9]);
    assert_eq!(buffer.received(1), &[2]);
    assert_eq!(Message::deserialize(buffer.received(1)), Ok(Message::KeepAlive));
    assert_eq!(buffer.received(0).len(), 0);
}
