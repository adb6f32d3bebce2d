//! One transport loop: its peer table, what it does with a datagram it
//! receives, and what it does with a message the engine broadcasts.
//!
//! The socket itself belongs to the caller, which hands each datagram in and
//! sends out what comes back.
use vstd::prelude::*;
use crate::messages::{parse_frame, AddrView, DecodeError, Message, MessageView, PeerAddr};
use crate::state::{next_state, replies_to, replies_view, Reply, State};
use crate::table::{is_stale, key_views, Table};

verus! {

/// The default time to live of a silent peer, in milliseconds.
pub const PEER_TTL_MS: u64 = 10_000;

/// The peer table as the protocol sees it: each known address and when it was
/// last seen.
pub type PeersView = Map<AddrView, u64>;

/// The table after a probe of `a` at time `now`: last seen now, or later if it
/// was already seen later.
pub open spec fn probed(m: PeersView, a: AddrView, now: u64) -> PeersView {
    m.insert(a, if m.contains_key(a) && m[a] > now { m[a] } else { now })
}

/// The table after dropping the peers that are stale at time `now`.
pub open spec fn without_stale(m: PeersView, now: u64, ttl: u64) -> PeersView {
    Map::new(|a: AddrView| m.contains_key(a) && !is_stale(m[a], now, ttl), |a: AddrView| m[a])
}

/// Store a list of known peers.
pub struct PeerStore {
    peers: Table<PeerAddr, ()>,
}

impl View for PeerStore {
    type V = PeersView;

    closed spec fn view(&self) -> PeersView {
        Map::new(|a: AddrView| self.peers@.contains_key(a), |a: AddrView| self.peers@[a].stamp)
    }
}

impl PeerStore {
    /// The table's invariant.
    pub closed spec fn wf(&self) -> bool {
        self.peers.wf()
    }

    /// How long a silent peer is kept, in milliseconds.
    pub closed spec fn ttl(&self) -> u64 {
        self.peers.ttl()
    }

    /// No known peer; a peer is kept `ttl` milliseconds after it was last seen.
    pub fn new(ttl: u64) -> (r: Self)
        ensures
            r.wf(),
            r.ttl() == ttl,
            r@ == PeersView::empty(),
    {
        let r = PeerStore { peers: Table::new(ttl) };
        assert(r@ =~= PeersView::empty());
        r
    }

    /// Probe a peer at time `now`; true if the peer was not known before.
    pub fn probe(&mut self, addr: PeerAddr, now: u64) -> (is_new: bool)
        requires
            old(self).wf(),
        ensures
            final(self).wf(),
            final(self).ttl() == old(self).ttl(),
            is_new == !old(self)@.contains_key(addr@),
            final(self)@ == probed(old(self)@, addr@, now),
    {
        let is_new = self.peers.write(addr, (), now);
        assert(self@ =~= probed(old(self)@, addr@, now));
        is_new
    }

    /// Forget the peers that are stale at time `now`.
    pub fn cleanup(&mut self, now: u64)
        requires
            old(self).wf(),
        ensures
            final(self).wf(),
            final(self).ttl() == old(self).ttl(),
            final(self)@ == without_stale(old(self)@, now, old(self).ttl()),
    {
        self.peers.sweep(now);
        assert(self@ =~= without_stale(old(self)@, now, old(self).ttl()));
    }

    /// The known peers' addresses, each once, in no particular order.
    pub fn addresses(&self) -> (r: Vec<PeerAddr>)
        requires
            self.wf(),
        ensures
            key_views(r@).no_duplicates(),
            forall|i: int| 0 <= i < r@.len() ==> self@.contains_key(#[trigger] r@[i]@),
            forall|a: AddrView| self@.contains_key(a) ==> key_views(r@).contains(a),
    {
        self.peers.keys()
    }

    /// The number of known peers.
    pub fn len(&self) -> (n: usize)
        requires
            self.wf(),
        ensures
            n == self@.len(),
    {
        assert(self@.dom() =~= self.peers@.dom());
        self.peers.len()
    }
}

impl Default for PeerStore {
    fn default() -> (r: Self)
        ensures
            r.wf(),
            r.ttl() == PEER_TTL_MS,
            r@ == PeersView::empty(),
    {
        PeerStore::new(PEER_TTL_MS)
    }
}

/// What came of a datagram that decoded.
pub struct Received {
    /// Whether the sender was not a known peer before.
    pub new_peer: bool,
    /// Whether the message was a `Get` of content not stored: its reply comes
    /// from a later call, under the same ticket.
    pub pending: bool,
    /// The replies the engine gave; those under the datagram's ticket go back
    /// to its sender.
    pub replies: Vec<Reply>,
}

/// What to do with a message the engine broadcast.
pub enum Relay {
    /// A `Discover` was taken in: the peer table learned `addr`, which is new
    /// if `new` holds.
    Learned { addr: PeerAddr, new: bool },
    /// Send the message to each of these peers.
    Forward(Vec<PeerAddr>),
}

/// The decisions of one transport loop, bound to one address: it keeps a peer
/// table of its own, while several loops may share one engine.
pub struct Server {
    peers: PeerStore,
}

impl Server {
    /// The loop's invariant.
    pub closed spec fn wf(&self) -> bool {
        self.peers.wf()
    }

    /// The loop's peer table.
    pub closed spec fn known(&self) -> PeersView {
        self.peers@
    }

    /// How long a silent peer is kept, in milliseconds.
    pub closed spec fn peer_ttl(&self) -> u64 {
        self.peers.ttl()
    }

    /// A loop that knows no peer yet.
    pub fn new(peer_ttl: u64) -> (r: Self)
        ensures
            r.wf(),
            r.peer_ttl() == peer_ttl,
            r.known() == PeersView::empty(),
    {
        Server { peers: PeerStore::new(peer_ttl) }
    }

    /// The loop's peer table.
    pub fn peers(&self) -> (r: &PeerStore)
        ensures
            r@ == self.known(),
            r.wf() == self.wf(),
    {
        &self.peers
    }

    /// A datagram `frame` arrived from `src` at time `now`. A frame that does
    /// not decode is dropped and changes nothing. Otherwise the sender is
    /// probed, and the message is processed by the engine under `ticket`.
    pub fn on_datagram(
        &mut self,
        state: &mut State,
        src: PeerAddr,
        frame: &[u8],
        ticket: u64,
        now: u64,
    ) -> (r: Result<Received, DecodeError>)
        requires
            old(self).wf(),
            old(state).wf(),
        ensures
            final(self).wf(),
            final(state).wf(),
            final(self).peer_ttl() == old(self).peer_ttl(),
            final(state).content_ttl() == old(state).content_ttl(),
            match parse_frame(frame@) {
                Err(e) => r == Err::<Received, DecodeError>(e) && final(self).known() == old(self).known()
                    && final(state)@ == old(state)@,
                Ok(m) => r is Ok && r->Ok_0.new_peer == !old(self).known().contains_key(src@)
                    && r->Ok_0.pending == (m matches MessageView::Get(h) && !old(state)@.store.contains_key(h))
                    && final(self).known() == probed(old(self).known(), src@, now)
                    && final(state)@ == next_state(old(state)@, m, ticket, now)
                    && replies_view(r->Ok_0.replies@) == replies_to(old(state)@, m, ticket, now),
            },
    {
        let msg = match Message::deserialize(frame) {
            Ok(msg) => msg,
            Err(e) => return Err(e),
        };
        let pending = match &msg {
            Message::Get(hash) => !state.contains(hash),
            _ => false,
        };
        let new_peer = self.peers.probe(src, now);
        let replies = state.process(msg, ticket, now);
        Ok(Received { new_peer, pending, replies })
    }

    /// The engine broadcast `msg`, seen at time `now`. Stale peers are dropped
    /// first. A `Discover(addr)` teaches the peer table `addr` and goes no
    /// further; any other message is forwarded to every known peer.
    pub fn on_broadcast(&mut self, msg: &Message, now: u64) -> (r: Relay)
        requires
            old(self).wf(),
        ensures
            final(self).wf(),
            final(self).peer_ttl() == old(self).peer_ttl(),
            match msg@ {
                MessageView::Discover(a) => {
                    let fresh = without_stale(old(self).known(), now, old(self).peer_ttl());
                    &&& final(self).known() == probed(fresh, a, now)
                    &&& r matches Relay::Learned { addr, new } && addr@ == a && new == !fresh.contains_key(a)
                },
                _ => {
                    let fresh = without_stale(old(self).known(), now, old(self).peer_ttl());
                    &&& final(self).known() == fresh
                    &&& r matches Relay::Forward(targets) && key_views(targets@).no_duplicates()
                        && (forall|i: int| 0 <= i < targets@.len() ==> fresh.contains_key(#[trigger] targets@[i]@))
                        && (forall|a: AddrView| fresh.contains_key(a) ==> key_views(targets@).contains(a))
                },
            },
    {
        self.peers.cleanup(now);
        match msg {
            Message::Discover(addr) => {
                let new = self.peers.probe(*addr, now);
                Relay::Learned { addr: *addr, new }
            },
            _ => Relay::Forward(self.peers.addresses()),
        }
    }
}

} // verus!
