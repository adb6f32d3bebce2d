//! The commands a client sends, from the command line or the server's prompt.
use vstd::prelude::*;
use crate::messages::{Message, MessageView, Payload, PeerAddr};

verus! {

/// A client command.
#[derive(Debug)]
pub enum ClientCommand {
    /// GET a hash.
    Get { hash: crate::messages::Hash },
    /// PUT a hash.
    Put { hash: crate::messages::Hash, payload: Payload },
    /// DISCOVER a peer.
    Discover { address: PeerAddr },
}

impl ClientCommand {
    /// The message that carries the command.
    pub fn to_message(self) -> (r: Message)
        ensures
            r@ == match self {
                ClientCommand::Get { hash } => MessageView::Get(hash@),
                ClientCommand::Put { hash, payload } => MessageView::Put(hash@, payload@),
                ClientCommand::Discover { address } => MessageView::Discover(address@),
            },
    {
        match self {
            ClientCommand::Get { hash } => Message::Get(hash),
            ClientCommand::Put { hash, payload } => Message::Put(hash, payload),
            ClientCommand::Discover { address } => Message::Discover(address),
        }
    }
}

} // verus!
