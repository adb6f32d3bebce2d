//! The client side of a one-shot request: which reply ends the wait.
use vstd::prelude::*;
use crate::messages::{Message, MessageView};

verus! {

/// Whether `resp` is the reply that a client that sent `req` waits for: a `Get`
/// waits for a `Put` of the same hash, a `Put` for an `IHave` of the same hash,
/// a `Discover` for any reply.
pub open spec fn awaited_reply(req: MessageView, resp: MessageView) -> bool {
    match req {
        MessageView::Get(h) => resp matches MessageView::Put(h2, _) && h2 == h,
        MessageView::Put(h, _) => resp matches MessageView::IHave(h2) && h2 == h,
        _ => true,
    }
}

/// The messages a client sends: `Get`, `Put` or `Discover`.
pub open spec fn is_client_request(req: MessageView) -> bool {
    req is Get || req is Put || req is Discover
}

/// Whether `resp` is the reply that a client that sent `req` waits for.
pub fn is_awaited_reply(req: &Message, resp: &Message) -> (r: bool)
    requires
        is_client_request(req@),
    ensures
        r == awaited_reply(req@, resp@),
{
    match req {
        Message::Get(hash) => match resp {
            Message::Put(hash2, _) => hash.same(hash2),
            _ => false,
        },
        Message::Put(hash, _) => match resp {
            Message::IHave(hash2) => hash.same(hash2),
            _ => false,
        },
        _ => true,
    }
}

} // verus!
