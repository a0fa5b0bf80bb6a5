//! Echo node: a stateless request/reply transform that answers every
//! `Echo` with an `EchoOk` carrying the same text.

use vstd::prelude::*;

use crate::Event;
use crate::Init;
use crate::Message;
use crate::Node;
use crate::NodeError;

verus! {

/// What an echo node can receive or send.
#[derive(Debug, PartialEq, Eq)]
pub enum Payload {
    Echo { echo: String },
    EchoOk { echo: String },
}

/// The echo node's state: only an outgoing message id counter.
pub struct EchoNode {
    pub message_id: usize,
}

/// The transition relation of the echo node's `step`.
pub open spec fn step_post(
    pre: EchoNode,
    input: Event<Payload, ()>,
    post: EchoNode,
    r: Result<Vec<Message<Payload>>, NodeError>,
) -> bool {
    match input {
        Event::ExternalMessage(req) => match req.body.payload {
            Payload::Echo { echo } => {
                &&& post == pre
                &&& (r matches Ok(out) && out@.len() == 1 && out@[0].src == req.dest
                    && out@[0].dest == req.src && out@[0].body.msg_id == Some(pre.message_id)
                    && out@[0].body.in_reply_to == req.body.msg_id
                    && (out@[0].body.payload matches Payload::EchoOk { echo: e } && e == echo))
            },
            Payload::EchoOk { .. } => {
                &&& post == pre
                &&& (r matches Err(e) && e == NodeError::UnexpectedReply)
            },
        },
        _ => true,
    }
}

impl Node<Payload> for EchoNode {
    /// Only external envelopes: this node has no internal events.
    open spec fn step_allows(self, input: Event<Payload, ()>) -> bool {
        input is ExternalMessage
    }

    fn from_init(init: &Init) -> (r: Result<Self, NodeError>)
        ensures
            r matches Ok(node) && node.message_id == 0,
    {
        Ok(EchoNode { message_id: 0 })
    }

    fn step(&mut self, input: Event<Payload, ()>) -> (r: Result<Vec<Message<Payload>>, NodeError>)
        ensures
            step_post(*old(self), input, *final(self), r),
    {
        match input {
            Event::ExternalMessage(msg) => {
                let reply_payload: Payload = match &msg.body.payload {
                    Payload::Echo { echo } => Payload::EchoOk { echo: echo.clone() },
                    Payload::EchoOk { .. } => {
                        return Err(NodeError::UnexpectedReply);
                    },
                };
                let reply = msg.into_reply(self.message_id, Some(reply_payload));
                Ok(vec![reply])
            },
            Event::InternalMessage(_) => Ok(Vec::new()),
            Event::Shutdown => Ok(Vec::new()),
        }
    }
}

} // verus!
