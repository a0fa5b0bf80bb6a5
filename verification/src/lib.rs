//! A small runtime for participants ("nodes") in a line-delimited
//! request/reply messaging protocol, together with node state machines
//! built on it: an anti-entropy broadcast node, an echo node and a
//! unique-id node.
//!
//! The library holds the protocol data model and the node logic; the
//! surrounding process (wire encoding, standard streams, timers) lives
//! outside it and exchanges plain values with these types.

use vstd::prelude::*;

pub mod broadcast;
pub mod echo;
pub mod unique;

pub use broadcast::BroadcastNode;
pub use broadcast::InternalMessage;
pub use echo::EchoNode;
pub use unique::UniqueNode;

verus! {

/// One protocol message: a body in an envelope addressed from `src` to `dest`.
#[derive(Debug, PartialEq, Eq)]
pub struct Message<T> {
    pub src: String,
    pub dest: String,
    pub body: Body<T>,
}

/// The body of a message: correlation identifiers plus the payload.
#[derive(Debug, PartialEq, Eq)]
pub struct Body<T> {
    pub msg_id: Option<usize>,
    pub in_reply_to: Option<usize>,
    pub payload: T,
}

impl<T> Message<T> {
    pub fn new(src: String, dest: String, body: Body<T>) -> (r: Self)
        ensures
            r.src == src,
            r.dest == dest,
            r.body == body,
    {
        Message { src, dest, body }
    }

    /// Turns a request into its reply: addresses are swapped, the reply's
    /// `in_reply_to` carries the request's `msg_id`, and the payload is
    /// `payload` if given, else the request's own payload.
    pub fn into_reply(self, msg_id: usize, payload: Option<T>) -> (r: Self)
        ensures
            r.src == self.dest,
            r.dest == self.src,
            r.body.msg_id == Some(msg_id),
            r.body.in_reply_to == self.body.msg_id,
            r.body.payload == (if payload is Some {
                payload->Some_0
            } else {
                self.body.payload
            }),
    {
        Message {
            src: self.dest,
            dest: self.src,
            body: Body {
                msg_id: Some(msg_id),
                in_reply_to: self.body.msg_id,
                payload: match payload {
                    Some(p) => p,
                    None => self.body.payload,
                },
            },
        }
    }

    pub fn payload(&self) -> (r: &T)
        ensures
            r == &self.body.payload,
    {
        &self.body.payload
    }
}

impl<T> Body<T> {
    pub fn new(msg_id: Option<usize>, in_reply_to: Option<usize>, payload: T) -> (r: Self)
        ensures
            r.msg_id == msg_id,
            r.in_reply_to == in_reply_to,
            r.payload == payload,
    {
        Body { msg_id, in_reply_to, payload }
    }
}

/// The identity and peer list assigned to a node at bootstrap.
#[derive(Debug)]
pub struct Init {
    pub node_id: String,
    pub node_ids: Vec<String>,
}

/// The one-time bootstrap exchange: the handshake request and its
/// acknowledgement.
#[derive(Debug)]
pub enum PayloadInit {
    Init(Init),
    InitOk,
}

impl PayloadInit {
    /// The bootstrap identity, if this is the handshake request: the
    /// runtime treats any other first payload as fatal.
    pub fn as_init(&self) -> (r: Option<&Init>)
        ensures
            r is Some <==> self is Init,
            r matches Some(i) ==> *self == PayloadInit::Init(*i),
    {
        match self {
            PayloadInit::Init(init) => Some(init),
            PayloadInit::InitOk => None,
        }
    }
}

/// One event consumed by a node: an envelope received from outside, a
/// node-internal event (such as a timer tick), or the shutdown signal.
#[derive(Debug)]
pub enum Event<Payload, InternalPayload = ()> {
    ExternalMessage(Message<Payload>),
    InternalMessage(InternalPayload),
    Shutdown,
}

/// A fatal condition a node reports from `step`; the process around the
/// node exits on any of these.
#[derive(Debug, Clone, Copy, PartialEq, Eq, Structural)]
pub enum NodeError {
    /// A reply-only payload kind arrived as a request.
    UnexpectedReply,
    /// The topology control payload has no entry for this node.
    MissingTopologyEntry,
    /// A gossip envelope arrived from a peer this node was never told about.
    UnknownPeer,
}

/// A node state machine: built once from the bootstrap payload, then fed
/// one event at a time. `step` returns the envelopes to send, in order;
/// the caller writes them out and treats any error as fatal.
pub trait Node<Payload, InternalMessage = ()>: Sized {
    /// The events this node handles; `step` may only be called on these.
    spec fn step_allows(self, input: Event<Payload, InternalMessage>) -> bool;

    /// Builds the node's initial state from the bootstrap control payload.
    fn from_init(init: &Init) -> Result<Self, NodeError>;

    /// Consumes one event; returns the envelopes to send, in order.
    fn step(&mut self, input: Event<Payload, InternalMessage>) -> Result<
        Vec<Message<Payload>>,
        NodeError,
    >
        requires
            old(self).step_allows(input),
    ;
}

} // verus!
