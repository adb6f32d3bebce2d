//! The state engine: the content store, the pending requests, the broadcast
//! mailboxes, and how each incoming message changes them.
use vstd::prelude::*;
use vstd::slice::slice_to_vec;
use crate::messages::{Message, MessageView, Payload};
use crate::table::{restamp, swept, key_views, Stamped, Table};

verus! {

/// The default time to live of stored content, in milliseconds.
pub const CONTENT_TTL_MS: u64 = 10_000;

/// How many messages a mailbox holds before further broadcasts to it are dropped.
pub const MAILBOX_CAPACITY: usize = 8;

/// What the content store holds: for each hash, its payload and when it was
/// last put.
pub type StoreView = Map<Seq<u8>, Stamped<Seq<u8>>>;

/// The payload stored under `h`, if any.
pub open spec fn stored(m: StoreView, h: Seq<u8>) -> Option<Seq<u8>> {
    if m.contains_key(h) {
        Some(m[h].value)
    } else {
        None
    }
}

/// The store after a put of `p` under `h` at time `now`.
pub open spec fn put_into(m: StoreView, h: Seq<u8>, p: Seq<u8>, now: u64) -> StoreView {
    m.insert(h, Stamped { value: p, stamp: restamp(m, h, now) })
}

// ---------------------------------------------------------------------------
// Content store.
// ---------------------------------------------------------------------------

/// Stores hashes and their content.
pub struct HashStore {
    hashes: Table<crate::messages::Hash, Vec<u8>>,
}

impl View for HashStore {
    type V = StoreView;

    closed spec fn view(&self) -> StoreView {
        self.hashes@
    }
}

impl HashStore {
    /// The store's invariant.
    pub closed spec fn wf(&self) -> bool {
        self.hashes.wf()
    }

    /// How long content lives, in milliseconds.
    pub closed spec fn ttl(&self) -> u64 {
        self.hashes.ttl()
    }

    /// An empty store whose content lives `ttl` milliseconds.
    pub fn new(ttl: u64) -> (r: Self)
        ensures
            r.wf(),
            r@ == StoreView::empty(),
            r.ttl() == ttl,
    {
        HashStore { hashes: Table::new(ttl) }
    }

    /// How long content lives, in milliseconds.
    pub fn time_to_live(&self) -> (r: u64)
        ensures
            r == self.ttl(),
    {
        self.hashes.time_to_live()
    }

    /// Put a hash inside the store at time `now`; an existing value is
    /// overwritten, and its time stamp never moves backward.
    pub fn put(&mut self, hash: &crate::messages::Hash, data: Vec<u8>, now: u64)
        requires
            old(self).wf(),
        ensures
            final(self).wf(),
            final(self).ttl() == old(self).ttl(),
            final(self)@ == put_into(old(self)@, hash@, data@, now),
    {
        self.hashes.write(*hash, data, now);
    }

    /// A copy of the content stored under a hash, stale or not.
    pub fn get(&self, hash: &crate::messages::Hash) -> (r: Option<Vec<u8>>)
        requires
            self.wf(),
        ensures
            r is Some == self@.contains_key(hash@),
            r is Some ==> stored(self@, hash@) == Some(r->0@),
    {
        match self.hashes.get(hash) {
            Some(data) => Some(slice_to_vec(data.as_slice())),
            None => None,
        }
    }

    /// Whether the store holds a hash.
    pub fn contains(&self, hash: &crate::messages::Hash) -> (r: bool)
        requires
            self.wf(),
        ensures
            r == self@.contains_key(hash@),
    {
        self.hashes.contains(hash)
    }

    /// The known hashes, each once, in no particular order.
    pub fn list(&self) -> (r: Vec<crate::messages::Hash>)
        requires
            self.wf(),
        ensures
            key_views(r@).no_duplicates(),
            forall|i: int| 0 <= i < r@.len() ==> self@.contains_key(#[trigger] r@[i]@),
            forall|k: Seq<u8>| self@.contains_key(k) ==> key_views(r@).contains(k),
    {
        self.hashes.keys()
    }

    /// Drop the content that is stale at time `now`.
    pub fn cleanup(&mut self, now: u64)
        requires
            old(self).wf(),
        ensures
            final(self).wf(),
            final(self).ttl() == old(self).ttl(),
            final(self)@ == swept(old(self)@, now, old(self).ttl()),
    {
        self.hashes.sweep(now);
    }
}

impl Default for HashStore {
    fn default() -> (r: Self)
        ensures
            r.wf(),
            r@ == StoreView::empty(),
            r.ttl() == CONTENT_TTL_MS,
    {
        HashStore::new(CONTENT_TTL_MS)
    }
}

// ---------------------------------------------------------------------------
// Replies.
// ---------------------------------------------------------------------------

/// A message for whoever waits under `ticket`: the sender of the message being
/// processed, or the owner of an earlier request.
#[derive(Debug, Clone, PartialEq)]
pub struct Reply {
    pub ticket: u64,
    pub message: Message,
}

/// A reply as the protocol sees it.
pub struct ReplyView {
    pub ticket: u64,
    pub message: MessageView,
}

impl View for Reply {
    type V = ReplyView;

    open spec fn view(&self) -> ReplyView {
        ReplyView { ticket: self.ticket, message: self.message@ }
    }
}

/// The views of a sequence of replies.
pub open spec fn replies_view(r: Seq<Reply>) -> Seq<ReplyView> {
    r.map_values(|x: Reply| x@)
}

// ---------------------------------------------------------------------------
// Pending requests.
// ---------------------------------------------------------------------------

/// A single request: someone, known by `ticket`, waits for the content of `hash`.
#[derive(Debug, Clone, Copy, PartialEq)]
pub struct HashRequest {
    pub hash: crate::messages::Hash,
    pub ticket: u64,
}

/// A request as the protocol sees it.
pub struct RequestView {
    pub hash: Seq<u8>,
    pub ticket: u64,
}

impl View for HashRequest {
    type V = RequestView;

    open spec fn view(&self) -> RequestView {
        RequestView { hash: self.hash@, ticket: self.ticket }
    }
}

impl HashRequest {
    /// The reply that fulfills the request with `payload`.
    pub fn fulfill(&self, payload: Payload) -> (r: Reply)
        ensures
            r@ == (ReplyView { ticket: self.ticket, message: MessageView::Put(self.hash@, payload@) }),
    {
        Reply { ticket: self.ticket, message: Message::Put(self.hash, payload) }
    }
}

/// The requests, in order, that the store `m` cannot answer yet.
pub open spec fn still_waiting(ws: Seq<RequestView>, m: StoreView) -> Seq<RequestView>
    decreases ws.len(),
{
    if ws.len() == 0 {
        Seq::empty()
    } else {
        let rest = still_waiting(ws.drop_last(), m);
        if m.contains_key(ws.last().hash) {
            rest
        } else {
            rest.push(ws.last())
        }
    }
}

/// The reply that answers request `w` from the store `m`.
pub open spec fn answer(w: RequestView, m: StoreView) -> ReplyView {
    ReplyView { ticket: w.ticket, message: MessageView::Put(w.hash, m[w.hash].value) }
}

/// The replies, in the order of the requests, to the requests that the store
/// `m` can answer.
pub open spec fn answers(ws: Seq<RequestView>, m: StoreView) -> Seq<ReplyView>
    decreases ws.len(),
{
    if ws.len() == 0 {
        Seq::empty()
    } else {
        let rest = answers(ws.drop_last(), m);
        if m.contains_key(ws.last().hash) {
            rest.push(answer(ws.last(), m))
        } else {
            rest
        }
    }
}

/// Stores pending hash requests, in the order they were made.
pub struct Requests(Vec<HashRequest>);

impl View for Requests {
    type V = Seq<RequestView>;

    closed spec fn view(&self) -> Seq<RequestView> {
        self.0@.map_values(|r: HashRequest| r@)
    }
}

impl Requests {
    /// No pending request.
    pub fn new() -> (r: Self)
        ensures
            r@ == Seq::<RequestView>::empty(),
    {
        let r = Requests(Vec::new());
        assert(r@ =~= Seq::<RequestView>::empty());
        r
    }

    /// Request a hash on behalf of whoever is known by `ticket`; the request
    /// stays pending until content for the hash is there at a fulfill.
    pub fn request(&mut self, hash: crate::messages::Hash, ticket: u64) -> (r: HashRequest)
        ensures
            r@ == (RequestView { hash: hash@, ticket }),
            final(self)@ == old(self)@.push(r@),
    {
        let r = HashRequest { hash, ticket };
        self.0.push(r);
        assert(self@ =~= old(self)@.push(r@));
        r
    }

    /// Fulfill requests from the store: every pending request whose hash the
    /// store holds is answered with an independent copy of the stored payload
    /// and removed; the others stay, in order.
    pub fn fulfill(&mut self, store: &HashStore) -> (r: Vec<Reply>)
        requires
            store.wf(),
        ensures
            final(self)@ == still_waiting(old(self)@, store@),
            replies_view(r@) == answers(old(self)@, store@),
    {
        let ghost ws = self@;
        let mut pending: Vec<HashRequest> = Vec::new();
        let mut out: Vec<Reply> = Vec::new();
        let mut i: usize = 0;
        while i < self.0.len()
            invariant
                store.wf(),
                ws == self@,
                i <= self.0@.len(),
                pending@.map_values(|r: HashRequest| r@) == still_waiting(ws.subrange(0, i as int), store@),
                replies_view(out@) == answers(ws.subrange(0, i as int), store@),
            decreases self.0@.len() - i,
        {
            let req = self.0[i];
            let ghost prefix = ws.subrange(0, i as int + 1);
            assert(prefix.drop_last() =~= ws.subrange(0, i as int));
            assert(prefix.last() == req@);
            match store.get(&req.hash) {
                Some(data) => {
                    out.push(req.fulfill(Payload(data)));
                    assert(replies_view(out@) =~= answers(prefix, store@));
                },
                None => {
                    pending.push(req);
                    assert(pending@.map_values(|r: HashRequest| r@) =~= still_waiting(prefix, store@));
                },
            }
            i = i + 1;
        }
        assert(ws.subrange(0, ws.len() as int) =~= ws);
        self.0 = pending;
        out
    }
}

// ---------------------------------------------------------------------------
// Subscription fanout.
// ---------------------------------------------------------------------------

/// The mailboxes after a broadcast of `m`: each one with room gets a copy, a
/// full one is left as it was.
pub open spec fn delivered(boxes: Seq<Seq<MessageView>>, m: MessageView) -> Seq<Seq<MessageView>> {
    Seq::new(
        boxes.len(),
        |i: int|
            if boxes[i].len() < MAILBOX_CAPACITY {
                boxes[i].push(m)
            } else {
                boxes[i]
            },
    )
}

/// The subscribers, in increasing order, whose mailbox is full.
pub open spec fn full_mailboxes(boxes: Seq<Seq<MessageView>>) -> Seq<usize>
    decreases boxes.len(),
{
    if boxes.len() == 0 {
        Seq::empty()
    } else {
        let rest = full_mailboxes(boxes.drop_last());
        if boxes.last().len() >= MAILBOX_CAPACITY {
            rest.push((boxes.len() - 1) as usize)
        } else {
            rest
        }
    }
}

/// The views of a sequence of messages.
pub open spec fn messages_view(s: Seq<Message>) -> Seq<MessageView> {
    s.map_values(|m: Message| m@)
}

/// Bounded mailboxes that receive a copy of every broadcast message.
pub struct Listeners(Vec<Vec<Message>>);

impl View for Listeners {
    type V = Seq<Seq<MessageView>>;

    closed spec fn view(&self) -> Seq<Seq<MessageView>> {
        self.0@.map_values(|b: Vec<Message>| messages_view(b@))
    }
}

impl Listeners {
    /// No subscriber.
    pub fn new() -> (r: Self)
        ensures
            r@ == Seq::<Seq<MessageView>>::empty(),
    {
        let r = Listeners(Vec::new());
        assert(r@ =~= Seq::<Seq<MessageView>>::empty());
        r
    }

    /// Subscribe to broadcast messages: a new, empty mailbox, known by the
    /// number returned.
    pub fn subscribe(&mut self) -> (id: usize)
        ensures
            id == old(self)@.len(),
            final(self)@ == old(self)@.push(Seq::empty()),
    {
        let id = self.0.len();
        let mailbox: Vec<Message> = Vec::new();
        assert(messages_view(mailbox@) =~= Seq::<MessageView>::empty());
        self.0.push(mailbox);
        assert(self@ =~= old(self)@.push(Seq::empty()));
        id
    }

    /// Broadcast a message to all listeners: every mailbox with room gets a
    /// copy; a full mailbox misses this message, and the error lists the full
    /// ones.
    pub fn broadcast(&mut self, msg: &Message) -> (r: Result<(), Vec<usize>>)
        ensures
            final(self)@ == delivered(old(self)@, msg@),
            match r {
                Ok(()) => full_mailboxes(old(self)@).len() == 0,
                Err(full) => full@ == full_mailboxes(old(self)@) && full@.len() > 0,
            },
    {
        let ghost boxes = self@;
        let mut full: Vec<usize> = Vec::new();
        let mut i: usize = 0;
        while i < self.0.len()
            invariant
                i <= self.0@.len(),
                self@.len() == boxes.len(),
                forall|j: int| 0 <= j < i ==> #[trigger] self@[j] == delivered(boxes, msg@)[j],
                forall|j: int| i <= j < self@.len() ==> #[trigger] self@[j] == boxes[j],
                full@ == full_mailboxes(boxes.subrange(0, i as int)),
            decreases self.0@.len() - i,
        {
            let ghost prefix = boxes.subrange(0, i as int + 1);
            assert(prefix.drop_last() =~= boxes.subrange(0, i as int));
            assert(prefix.last() == boxes[i as int]);
            let ghost outer = self.0@;
            let ghost view_before = self@;
            assert(view_before[i as int] == messages_view(outer[i as int]@));
            assert(boxes[i as int].len() == outer[i as int]@.len());
            if self.0[i].len() < MAILBOX_CAPACITY {
                let copy = msg.duplicate();
                self.0[i].push(copy);
                assert(messages_view(self.0@[i as int]@) =~= messages_view(outer[i as int]@).push(msg@));
            } else {
                full.push(i);
                assert(full@ =~= full_mailboxes(prefix));
            }
            proof {
                assert forall|j: int| 0 <= j < self@.len() && j != i implies #[trigger] self@[j] == view_before[j] by {
                    assert(self.0@[j] == outer[j]);
                }
                assert(self@[i as int] == delivered(boxes, msg@)[i as int]);
            }
            i = i + 1;
        }
        assert(boxes.subrange(0, boxes.len() as int) =~= boxes);
        assert(self@ =~= delivered(boxes, msg@));
        if full.len() == 0 {
            Ok(())
        } else {
            Err(full)
        }
    }

    /// Take the oldest message out of a mailbox.
    pub fn receive(&mut self, id: usize) -> (r: Option<Message>)
        requires
            id < old(self)@.len(),
        ensures
            old(self)@[id as int].len() == 0 ==> r is None && final(self)@ == old(self)@,
            old(self)@[id as int].len() > 0 ==> r is Some && r->0@ == old(self)@[id as int][0]
                && final(self)@ == old(self)@.update(id as int, old(self)@[id as int].drop_first()),
    {
        if self.0[id].len() == 0 {
            return None;
        }
        let ghost before = self.0@[id as int];
        let m = self.0[id].remove(0);
        assert(messages_view(self.0@[id as int]@) =~= messages_view(before@).drop_first());
        assert(self@ =~= old(self)@.update(id as int, old(self)@[id as int].drop_first()));
        Some(m)
    }
}

// ---------------------------------------------------------------------------
// The state engine.
// ---------------------------------------------------------------------------

/// The engine as the protocol sees it.
pub struct StateView {
    pub store: StoreView,
    pub waiting: Seq<RequestView>,
    pub mailboxes: Seq<Seq<MessageView>>,
}

/// The engine after processing `m` from whoever is known by `ticket`, at time `now`.
pub open spec fn next_state(s: StateView, m: MessageView, ticket: u64, now: u64) -> StateView {
    match m {
        MessageView::Get(h) => StateView {
            store: s.store,
            waiting: still_waiting(s.waiting.push(RequestView { hash: h, ticket }), s.store),
            mailboxes: s.mailboxes,
        },
        MessageView::Put(h, p) => {
            let store = put_into(s.store, h, p, now);
            StateView {
                store,
                waiting: still_waiting(s.waiting, store),
                mailboxes: delivered(s.mailboxes, MessageView::IHave(h)),
            }
        },
        MessageView::Discover(_) => StateView {
            store: s.store,
            waiting: s.waiting,
            mailboxes: delivered(s.mailboxes, m),
        },
        _ => s,
    }
}

/// The replies to processing `m` from whoever is known by `ticket`, at time
/// `now`: those addressed to `ticket` answer `m`, the others answer earlier
/// requests.
pub open spec fn replies_to(s: StateView, m: MessageView, ticket: u64, now: u64) -> Seq<ReplyView> {
    match m {
        MessageView::Get(h) => answers(s.waiting.push(RequestView { hash: h, ticket }), s.store),
        MessageView::Put(h, p) => answers(s.waiting, put_into(s.store, h, p, now)),
        MessageView::IHave(h) => if s.store.contains_key(h) {
            Seq::empty()
        } else {
            seq![ReplyView { ticket, message: MessageView::Get(h) }]
        },
        _ => Seq::empty(),
    }
}

/// The engine after a maintenance tick at time `now`.
pub open spec fn after_tick(s: StateView, now: u64, ttl: u64) -> StateView {
    let store = swept(s.store, now, ttl);
    StateView {
        store,
        waiting: still_waiting(s.waiting, store),
        mailboxes: delivered(s.mailboxes, MessageView::KeepAlive),
    }
}

/// The server state.
pub struct State {
    /// Listeners subscribed to broadcasts.
    listeners: Listeners,
    /// Where the hashes are stored.
    hashes: HashStore,
    /// Pending hash requests.
    requests: Requests,
}

impl View for State {
    type V = StateView;

    closed spec fn view(&self) -> StateView {
        StateView { store: self.hashes@, waiting: self.requests@, mailboxes: self.listeners@ }
    }
}

impl State {
    /// The engine's invariant.
    pub closed spec fn wf(&self) -> bool {
        self.hashes.wf()
    }

    /// How long content lives, in milliseconds.
    pub closed spec fn content_ttl(&self) -> u64 {
        self.hashes.ttl()
    }

    /// An engine with nothing stored, pending or subscribed, whose content
    /// lives `content_ttl` milliseconds.
    pub fn new(content_ttl: u64) -> (r: Self)
        ensures
            r.wf(),
            r.content_ttl() == content_ttl,
            r@ == (StateView {
                store: StoreView::empty(),
                waiting: Seq::empty(),
                mailboxes: Seq::empty(),
            }),
    {
        State { listeners: Listeners::new(), hashes: HashStore::new(content_ttl), requests: Requests::new() }
    }

    /// Process a message from whoever is known by `ticket`, at time `now`,
    /// and return the replies it gives rise to.
    ///
    /// - `Get(h)` registers a request for `h` and fulfills what can be
    ///   fulfilled: if `h` is stored, the reply `Put(h, payload)` to `ticket`
    ///   is among the replies; otherwise it comes from a later call.
    /// - `Put(h, p)` stores `p`, fulfills the requests it answers, and
    ///   broadcasts `IHave(h)`.
    /// - `IHave(h)` asks the sender for `h` with `Get(h)` if `h` is not stored.
    /// - `Discover(a)` is broadcast for the transport loops to learn `a`.
    /// - `KeepAlive` changes nothing.
    ///
    /// A broadcast leaves out any mailbox that is full.
    pub fn process(&mut self, msg: Message, ticket: u64, now: u64) -> (r: Vec<Reply>)
        requires
            old(self).wf(),
        ensures
            final(self).wf(),
            final(self).content_ttl() == old(self).content_ttl(),
            final(self)@ == next_state(old(self)@, msg@, ticket, now),
            replies_view(r@) == replies_to(old(self)@, msg@, ticket, now),
    {
        let ghost s = self@;
        match msg {
            Message::Get(hash) => {
                // Request the hash from the store, then try to fulfill it at once.
                self.requests.request(hash, ticket);
                self.requests.fulfill(&self.hashes)
            },
            Message::Put(hash, payload) => {
                self.hashes.put(&hash, payload.0, now);
                let replies = self.requests.fulfill(&self.hashes);
                // Tell everyone; a full mailbox misses the notice.
                let _ = self.listeners.broadcast(&Message::IHave(hash));
                replies
            },
            Message::Discover(addr) => {
                // The transport loops intercept this and learn the new peer.
                let _ = self.listeners.broadcast(&Message::Discover(addr));
                Vec::new()
            },
            Message::IHave(hash) => {
                if self.hashes.contains(&hash) {
                    Vec::new()
                } else {
                    // Someone has a hash that I lack: ask for it.
                    let mut r = Vec::new();
                    r.push(Reply { ticket, message: Message::Get(hash) });
                    assert(replies_view(r@) =~= replies_to(s, msg@, ticket, now));
                    r
                }
            },
            Message::KeepAlive => Vec::new(),
        }
    }

    /// The maintenance tick, due every second: sweep stale content, fulfill
    /// what can be fulfilled, and broadcast `KeepAlive`.
    pub fn tick(&mut self, now: u64) -> (r: Vec<Reply>)
        requires
            old(self).wf(),
        ensures
            final(self).wf(),
            final(self).content_ttl() == old(self).content_ttl(),
            final(self)@ == after_tick(old(self)@, now, old(self).content_ttl()),
            replies_view(r@) == answers(old(self)@.waiting, swept(old(self)@.store, now, old(self).content_ttl())),
    {
        self.hashes.cleanup(now);
        let replies = self.requests.fulfill(&self.hashes);
        let _ = self.listeners.broadcast(&Message::KeepAlive);
        replies
    }

    /// Broadcast a message to all listeners; see [`Listeners::broadcast`].
    pub fn broadcast(&mut self, msg: &Message) -> (r: Result<(), Vec<usize>>)
        requires
            old(self).wf(),
        ensures
            final(self).wf(),
            final(self).content_ttl() == old(self).content_ttl(),
            final(self)@ == (StateView { mailboxes: delivered(old(self)@.mailboxes, msg@), ..old(self)@ }),
            match r {
                Ok(()) => full_mailboxes(old(self)@.mailboxes).len() == 0,
                Err(full) => full@ == full_mailboxes(old(self)@.mailboxes) && full@.len() > 0,
            },
    {
        self.listeners.broadcast(msg)
    }

    /// Subscribe to broadcast messages: a new, empty mailbox, known by the
    /// number returned.
    pub fn subscribe(&mut self) -> (id: usize)
        requires
            old(self).wf(),
        ensures
            final(self).wf(),
            final(self).content_ttl() == old(self).content_ttl(),
            id == old(self)@.mailboxes.len(),
            final(self)@ == (StateView { mailboxes: old(self)@.mailboxes.push(Seq::empty()), ..old(self)@ }),
    {
        self.listeners.subscribe()
    }

    /// Take the oldest message out of mailbox `id`.
    pub fn receive(&mut self, id: usize) -> (r: Option<Message>)
        requires
            old(self).wf(),
            id < old(self)@.mailboxes.len(),
        ensures
            final(self).wf(),
            final(self).content_ttl() == old(self).content_ttl(),
            old(self)@.mailboxes[id as int].len() == 0 ==> r is None && final(self)@ == old(self)@,
            old(self)@.mailboxes[id as int].len() > 0 ==> r is Some && r->0@ == old(self)@.mailboxes[id as int][0]
                && final(self)@ == (StateView {
                mailboxes: old(self)@.mailboxes.update(id as int, old(self)@.mailboxes[id as int].drop_first()),
                ..old(self)@
            }),
    {
        self.listeners.receive(id)
    }

    /// Request a hash on behalf of whoever is known by `ticket`; the request is
    /// answered by a later `process` or `tick`, once the content is there.
    pub fn request(&mut self, hash: crate::messages::Hash, ticket: u64) -> (r: HashRequest)
        requires
            old(self).wf(),
        ensures
            final(self).wf(),
            final(self).content_ttl() == old(self).content_ttl(),
            r@ == (RequestView { hash: hash@, ticket }),
            final(self)@ == (StateView { waiting: old(self)@.waiting.push(r@), ..old(self)@ }),
    {
        self.requests.request(hash, ticket)
    }

    /// Put a hash inside the store; an existing value is overwritten. Pending
    /// requests are answered at the next `process` or `tick`.
    pub fn put(&mut self, hash: &crate::messages::Hash, data: Vec<u8>, now: u64)
        requires
            old(self).wf(),
        ensures
            final(self).wf(),
            final(self).content_ttl() == old(self).content_ttl(),
            final(self)@ == (StateView { store: put_into(old(self)@.store, hash@, data@, now), ..old(self)@ }),
    {
        self.hashes.put(hash, data, now);
    }

    /// A copy of the content stored under a hash.
    pub fn get(&self, hash: &crate::messages::Hash) -> (r: Option<Vec<u8>>)
        requires
            self.wf(),
        ensures
            r is Some == self@.store.contains_key(hash@),
            r is Some ==> stored(self@.store, hash@) == Some(r->0@),
    {
        self.hashes.get(hash)
    }

    /// Whether a hash is stored.
    pub fn contains(&self, hash: &crate::messages::Hash) -> (r: bool)
        requires
            self.wf(),
        ensures
            r == self@.store.contains_key(hash@),
    {
        self.hashes.contains(hash)
    }
}

impl Default for State {
    fn default() -> (r: Self)
        ensures
            r.wf(),
            r.content_ttl() == CONTENT_TTL_MS,
            r@ == (StateView {
                store: StoreView::empty(),
                waiting: Seq::empty(),
                mailboxes: Seq::empty(),
            }),
    {
        State::new(CONTENT_TTL_MS)
    }
}

// ---------------------------------------------------------------------------
// Laws of the engine.
// ---------------------------------------------------------------------------

/// A get right after a put returns what was put, whatever the bytes (empty
/// included); a second put under the same hash overwrites it.
pub proof fn lemma_put_then_get(m: StoreView, h: Seq<u8>, p: Seq<u8>, p2: Seq<u8>, t1: u64, t2: u64)
    ensures
        stored(put_into(m, h, p, t1), h) == Some(p),
        stored(put_into(put_into(m, h, p, t1), h, p2, t2), h) == Some(p2),
{
}

/// Content put at time `t`, over no entry stamped later, survives every sweep
/// up to time `t + ttl` and is removed by a sweep at any later time.
pub proof fn lemma_ttl_eviction(m: StoreView, h: Seq<u8>, p: Seq<u8>, t: u64, now: u64, ttl: u64)
    requires
        !m.contains_key(h) || m[h].stamp <= t,
    ensures
        now as int <= t as int + ttl as int ==> stored(swept(put_into(m, h, p, t), now, ttl), h) == Some(p),
        now as int > t as int + ttl as int ==> stored(swept(put_into(m, h, p, t), now, ttl), h) is None,
{
    assert(put_into(m, h, p, t)[h].stamp == t);
}

proof fn lemma_answers_include(ws: Seq<RequestView>, m: StoreView, i: int)
    requires
        0 <= i < ws.len(),
        m.contains_key(ws[i].hash),
    ensures
        answers(ws, m).contains(answer(ws[i], m)),
    decreases ws.len(),
{
    let rest = answers(ws.drop_last(), m);
    if i == ws.len() - 1 {
        assert(answers(ws, m)[rest.len() as int] == answer(ws[i], m));
    } else {
        lemma_answers_include(ws.drop_last(), m, i);
        let k = choose|k: int| 0 <= k < rest.len() && rest[k] == answer(ws[i], m);
        assert(answers(ws, m)[k] == answer(ws[i], m));
    }
}

proof fn lemma_still_waiting_unanswered(ws: Seq<RequestView>, m: StoreView)
    ensures
        forall|i: int|
            0 <= i < still_waiting(ws, m).len() ==> !m.contains_key(#[trigger] still_waiting(ws, m)[i].hash),
    decreases ws.len(),
{
    if ws.len() > 0 {
        let rest = still_waiting(ws.drop_last(), m);
        let sw = still_waiting(ws, m);
        lemma_still_waiting_unanswered(ws.drop_last(), m);
        assert forall|i: int| 0 <= i < sw.len() implies !m.contains_key(#[trigger] sw[i].hash) by {
            if i < rest.len() {
                assert(sw[i] == rest[i]);
            }
        }
    }
}

/// Requests for a hash registered before a put of `p` under it are all
/// answered by the next fulfill, each with `p`, and none stays pending.
pub proof fn lemma_single_flight(ws: Seq<RequestView>, m: StoreView, h: Seq<u8>, p: Seq<u8>, now: u64)
    ensures
        forall|i: int|
            0 <= i < ws.len() && #[trigger] ws[i].hash == h ==> answers(ws, put_into(m, h, p, now)).contains(
                ReplyView { ticket: ws[i].ticket, message: MessageView::Put(h, p) },
            ),
        forall|i: int|
            0 <= i < still_waiting(ws, put_into(m, h, p, now)).len() ==> (#[trigger] still_waiting(
                ws,
                put_into(m, h, p, now),
            )[i]).hash != h,
{
    let after = put_into(m, h, p, now);
    assert forall|i: int| 0 <= i < ws.len() && #[trigger] ws[i].hash == h implies answers(ws, after).contains(
        ReplyView { ticket: ws[i].ticket, message: MessageView::Put(h, p) },
    ) by {
        lemma_answers_include(ws, after, i);
    }
    lemma_still_waiting_unanswered(ws, after);
}

/// Gossip pull: an `IHave(h)` yields exactly `[Get(h)]` back to its sender when
/// `h` is not stored, and nothing when it is.
pub proof fn lemma_gossip_pull(s: StateView, h: Seq<u8>, ticket: u64, now: u64)
    ensures
        !s.store.contains_key(h) ==> replies_to(s, MessageView::IHave(h), ticket, now) == seq![
            ReplyView { ticket, message: MessageView::Get(h) },
        ],
        s.store.contains_key(h) ==> replies_to(s, MessageView::IHave(h), ticket, now) == Seq::<ReplyView>::empty(),
        next_state(s, MessageView::IHave(h), ticket, now) == s,
{
}

} // verus!
