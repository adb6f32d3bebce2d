use std::str::FromStr;

use simple_dht::messages::{Message, Payload};
use simple_dht::state::{HashStore, Listeners, Reply, Requests, State, CONTENT_TTL_MS, MAILBOX_CAPACITY};

fn hash(text: &str) -> simple_dht::messages::Hash {
    simple_dht::messages::Hash::from_str(text).unwrap()
}

#[test]
fn store_hashes() {
    let mut state = State::default();
    let hash = simple_dht::messages::Hash::from_str("0123456789abcdef").unwrap();
    let content = vec![24, 8, 42, 12];
    assert_eq!(state.get(&hash.clone()), None);

    state.put(&hash.clone(), content.clone(), 0);
    assert_eq!(state.get(&hash), Some(content));
}

#[test]
fn process_messages() {
    let mut state = State::default();
    let hash = simple_dht::messages::Hash::from_str("0123456789abcdef").unwrap();

    // `IHave` of a missing hash asks for it
    let replies = state.process(Message::IHave(hash.clone()), 1, 0);
    let expected = Message::Get(hash.clone());
    assert_eq!(replies, vec![Reply { ticket: 1, message: expected }]);

    // `KeepAlive` shouldn't do anything
    let replies = state.process(Message::KeepAlive, 2, 0);
    assert_eq!(replies, vec![]);
}

#[test]
fn put_then_get_and_overwrite() {
    let mut store = HashStore::default();
    let h = hash("01");
    store.put(&h, b"first".to_vec(), 5);
    assert_eq!(store.get(&h), Some(b"first".to_vec()));
    store.put(&h, b"second".to_vec(), 6);
    assert_eq!(store.get(&h), Some(b"second".to_vec()));
    store.put(&h, Vec::new(), 7);
    assert_eq!(store.get(&h), Some(Vec::new()));
    assert!(store.contains(&h));
    assert!(!store.contains(&hash("02")));
    assert_eq!(store.list(), vec![h]);
}

#[test]
fn list_gives_each_hash_once() {
    let mut store = HashStore::new(1000);
    for text in ["a", "b", "c", "a", "b"] {
        store.put(&hash(text), vec![1], 0);
    }
    let mut listed: Vec<String> = store.list().iter().map(|h| h.to_hex()).collect();
    listed.sort();
    assert_eq!(listed, vec!["000000000000000a", "000000000000000b", "000000000000000c"]);
}

#[test]
fn ttl_eviction() {
    let mut store = HashStore::new(10_000);
    assert_eq!(store.time_to_live(), 10_000);
    let h = hash("beef");
    store.put(&h, b"x".to_vec(), 1_000);
    // Sweeps up to put time + ttl keep the entry.
    store.cleanup(1_000);
    store.cleanup(11_000);
    assert_eq!(store.get(&h), Some(b"x".to_vec()));
    // A sweep past it removes it.
    store.cleanup(11_001);
    assert_eq!(store.get(&h), None);
    assert!(store.list().is_empty());
}

#[test]
fn stale_content_is_still_read_until_swept() {
    let mut store = HashStore::new(10);
    let h = hash("1");
    store.put(&h, b"old".to_vec(), 0);
    // No sweep yet: a read long after the time to live still finds it.
    assert_eq!(store.get(&h), Some(b"old".to_vec()));
    store.cleanup(100);
    assert_eq!(store.get(&h), None);
}

#[test]
fn put_refreshes_and_never_moves_back() {
    let mut store = HashStore::new(10);
    let h = hash("2");
    store.put(&h, b"a".to_vec(), 100);
    // A put with an earlier clock keeps the later stamp.
    store.put(&h, b"b".to_vec(), 50);
    store.cleanup(110);
    assert_eq!(store.get(&h), Some(b"b".to_vec()));
    store.cleanup(111);
    assert_eq!(store.get(&h), None);
}

#[test]
fn default_content_ttl() {
    assert_eq!(CONTENT_TTL_MS, 10_000);
    assert_eq!(HashStore::default().time_to_live(), CONTENT_TTL_MS);
}

#[test]
fn single_flight_coalescing() {
    let mut requests = Requests::new();
    let mut store = HashStore::default();
    let h = hash("cafe");
    let other = hash("f00d");
    for ticket in 0..3 {
        let r = requests.request(h, ticket);
        assert_eq!(r.ticket, ticket);
    }
    requests.request(other, 9);
    // Nothing stored yet: nothing resolves.
    assert_eq!(requests.fulfill(&store), vec![]);

    store.put(&h, b"payload".to_vec(), 0);
    let replies = requests.fulfill(&store);
    let expected: Vec<Reply> = (0..3)
        .map(|ticket| Reply { ticket, message: Message::Put(h, Payload(b"payload".to_vec())) })
        .collect();
    assert_eq!(replies, expected);
    // All of them are gone; the other one still waits.
    assert_eq!(requests.fulfill(&store), vec![]);
    store.put(&other, b"later".to_vec(), 1);
    assert_eq!(
        requests.fulfill(&store),
        vec![Reply { ticket: 9, message: Message::Put(other, Payload(b"later".to_vec())) }]
    );
}

#[test]
fn gossip_pull() {
    let mut state = State::default();
    let h = hash("0123456789abcdef");
    assert_eq!(
        state.process(Message::IHave(h), 4, 0),
        vec![Reply { ticket: 4, message: Message::Get(h) }]
    );
    state.put(&h, b"x".to_vec(), 0);
    assert_eq!(state.process(Message::IHave(h), 4, 0), vec![]);
}

#[test]
fn put_then_get_scenario() {
    let mut state = State::default();
    let inbox = state.subscribe();
    let h = hash("0123456789abcdef");

    // Put: no direct reply, IHave broadcast.
    let replies = state.process(Message::Put(h, Payload(b"hi".to_vec())), 1, 0);
    assert_eq!(replies, vec![]);
    assert_eq!(state.receive(inbox), Some(Message::IHave(h)));
    assert_eq!(state.receive(inbox), None);

    // Get: answered at once.
    let replies = state.process(Message::Get(h), 2, 0);
    assert_eq!(replies, vec![Reply { ticket: 2, message: Message::Put(h, Payload(b"hi".to_vec())) }]);
}

#[test]
fn get_waits_for_a_later_put() {
    let mut state = State::default();
    let h = hash("77");
    assert_eq!(state.process(Message::Get(h), 10, 0), vec![]);
    assert_eq!(state.process(Message::Get(h), 11, 0), vec![]);
    let replies = state.process(Message::Put(h, Payload(b"v".to_vec())), 12, 1);
    assert_eq!(
        replies,
        vec![
            Reply { ticket: 10, message: Message::Put(h, Payload(b"v".to_vec())) },
            Reply { ticket: 11, message: Message::Put(h, Payload(b"v".to_vec())) },
        ]
    );
}

#[test]
fn two_engines_replicate() {
    let mut a = State::default();
    let mut b = State::default();
    let a_inbox = a.subscribe();
    let h = hash("abcdef");

    assert_eq!(a.process(Message::Put(h, Payload(b"x".to_vec())), 1, 0), vec![]);
    // The transport relays A's IHave to B.
    let notice = a.receive(a_inbox).unwrap();
    assert_eq!(notice, Message::IHave(h));
    let ask = b.process(notice, 2, 0);
    assert_eq!(ask, vec![Reply { ticket: 2, message: Message::Get(h) }]);
    // B's Get goes to A.
    let answer = a.process(ask[0].message.clone(), 3, 0);
    assert_eq!(answer, vec![Reply { ticket: 3, message: Message::Put(h, Payload(b"x".to_vec())) }]);
    // A's Put goes to B.
    assert_eq!(b.process(answer[0].message.clone(), 4, 0), vec![]);
    assert_eq!(b.get(&h), Some(b"x".to_vec()));
}

#[test]
fn discover_is_broadcast() {
    let mut state = State::default();
    let inbox = state.subscribe();
    let addr = simple_dht::messages::PeerAddr::V4([10, 0, 0, 1], 9000);
    assert_eq!(state.process(Message::Discover(addr), 1, 0), vec![]);
    assert_eq!(state.receive(inbox), Some(Message::Discover(addr)));
    assert!(!state.contains(&hash("0")));
}

#[test]
fn tick_sweeps_fulfills_and_keeps_alive() {
    let mut state = State::new(100);
    let inbox = state.subscribe();
    let fresh = hash("1");
    let old = hash("2");
    state.put(&old, b"old".to_vec(), 0);
    state.put(&fresh, b"new".to_vec(), 150);
    state.request(fresh, 7);
    state.request(old, 8);
    let replies = state.tick(200);
    assert_eq!(replies, vec![Reply { ticket: 7, message: Message::Put(fresh, Payload(b"new".to_vec())) }]);
    assert!(!state.contains(&old));
    assert!(state.contains(&fresh));
    assert_eq!(state.receive(inbox), Some(Message::KeepAlive));
}

#[test]
fn full_mailbox_misses_broadcasts() {
    let mut listeners = Listeners::new();
    let slow = listeners.subscribe();
    let fast = listeners.subscribe();
    assert_eq!((slow, fast), (0, 1));
    for _ in 0..MAILBOX_CAPACITY {
        assert_eq!(listeners.broadcast(&Message::KeepAlive), Ok(()));
        assert_eq!(listeners.receive(fast), Some(Message::KeepAlive));
    }
    // The slow mailbox is full: it misses this one, the other gets it.
    let h = hash("9");
    assert_eq!(listeners.broadcast(&Message::IHave(h)), Err(vec![slow]));
    assert_eq!(listeners.receive(fast), Some(Message::IHave(h)));
    for _ in 0..MAILBOX_CAPACITY {
        assert_eq!(listeners.receive(slow), Some(Message::KeepAlive));
    }
    assert_eq!(listeners.receive(slow), None);
}

#[test]
fn broadcast_without_subscribers() {
    let mut state = State::default();
    assert_eq!(state.broadcast(&Message::KeepAlive), Ok(()));
}

#[test]
fn hash_request_fulfill() {
    let mut requests = Requests::new();
    let r = requests.request(hash("5"), 77);
    assert_eq!(r.fulfill(Payload(vec![1, 2])), Reply { ticket: 77, message: Message::Put(hash("5"), Payload(vec![1, 2])) });
}
