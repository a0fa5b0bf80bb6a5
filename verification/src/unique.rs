//! Unique-id node: answers every `Generate` with an identifier that is
//! unique to this node, formed from the node's id and a counter that
//! never repeats.

use vstd::prelude::*;
use vstd::string::StringExecFns;

use crate::Event;
use crate::Init;
use crate::Message;
use crate::Node;
use crate::NodeError;

verus! {

/// What a unique-id node can receive or send.
#[derive(Debug, PartialEq, Eq)]
pub enum Payload {
    Generate,
    GenerateOk { id: String },
}

/// The unique-id node's state: its identity and a counter.
pub struct UniqueNode {
    pub node_id: String,
    pub message_id: usize,
}

/// The decimal digit `d` as a character.
pub open spec fn digit_char(d: int) -> char {
    if d == 0 {
        '0'
    } else if d == 1 {
        '1'
    } else if d == 2 {
        '2'
    } else if d == 3 {
        '3'
    } else if d == 4 {
        '4'
    } else if d == 5 {
        '5'
    } else if d == 6 {
        '6'
    } else if d == 7 {
        '7'
    } else if d == 8 {
        '8'
    } else {
        '9'
    }
}

/// The decimal notation of `n`, most significant digit first.
pub open spec fn dec_str(n: int) -> Seq<char>
    recommends
        n >= 0,
    decreases n,
{
    if n < 10 {
        seq![digit_char(n)]
    } else {
        dec_str(n / 10).push(digit_char(n % 10))
    }
}

/// The identifier handed out for counter value `n`: the node's id, a
/// dash, and `n` in decimal.
pub open spec fn unique_id(node: Seq<char>, n: int) -> Seq<char> {
    node + seq!['-'] + dec_str(n)
}

/// The one-character string for the decimal digit `d`.
fn digit_str(d: usize) -> (r: &'static str)
    requires
        d < 10,
    ensures
        r@ == seq![digit_char(d as int)],
{
    proof {
        reveal_strlit("0");
        reveal_strlit("1");
        reveal_strlit("2");
        reveal_strlit("3");
        reveal_strlit("4");
        reveal_strlit("5");
        reveal_strlit("6");
        reveal_strlit("7");
        reveal_strlit("8");
        reveal_strlit("9");
    }
    if d == 0 {
        "0"
    } else if d == 1 {
        "1"
    } else if d == 2 {
        "2"
    } else if d == 3 {
        "3"
    } else if d == 4 {
        "4"
    } else if d == 5 {
        "5"
    } else if d == 6 {
        "6"
    } else if d == 7 {
        "7"
    } else if d == 8 {
        "8"
    } else {
        "9"
    }
}

/// Appends the decimal notation of `n` to `s`.
fn push_decimal(s: &mut String, n: usize)
    ensures
        final(s)@ == old(s)@ + dec_str(n as int),
    decreases n,
{
    if n < 10 {
        let d = digit_str(n);
        s.append(d);
    } else {
        proof {
            assert(n / 10 < n) by (nonlinear_arith)
                requires
                    n >= 10,
            ;
        }
        push_decimal(s, n / 10);
        let d = digit_str(n % 10);
        s.append(d);
        proof {
            assert(old(s)@ + dec_str((n / 10) as int) + seq![digit_char((n % 10) as int)]
                =~= old(s)@ + dec_str(n as int));
        }
    }
}

/// The transition relation of the unique-id node's `step`.
pub open spec fn step_post(
    pre: UniqueNode,
    input: Event<Payload, ()>,
    post: UniqueNode,
    r: Result<Vec<Message<Payload>>, NodeError>,
) -> bool {
    match input {
        Event::ExternalMessage(req) => match req.body.payload {
            Payload::Generate => {
                &&& post.node_id == pre.node_id
                &&& post.message_id == pre.message_id + 1
                &&& (r matches Ok(out) && out@.len() == 1 && out@[0].src == req.dest
                    && out@[0].dest == req.src && out@[0].body.msg_id == Some(post.message_id)
                    && out@[0].body.in_reply_to == req.body.msg_id
                    && (out@[0].body.payload matches Payload::GenerateOk { id } && id@
                        == unique_id(pre.node_id@, pre.message_id as int)))
            },
            Payload::GenerateOk { .. } => {
                &&& post == pre
                &&& (r matches Err(e) && e == NodeError::UnexpectedReply)
            },
        },
        _ => true,
    }
}

impl Node<Payload> for UniqueNode {
    /// Only external envelopes; a `Generate` moreover needs the counter
    /// not to run out.
    open spec fn step_allows(self, input: Event<Payload, ()>) -> bool {
        match input {
            Event::ExternalMessage(req) => match req.body.payload {
                Payload::Generate => self.message_id < usize::MAX,
                _ => true,
            },
            _ => false,
        }
    }

    fn from_init(init: &Init) -> (r: Result<Self, NodeError>)
        ensures
            r matches Ok(node) && node.node_id == init.node_id && node.message_id == 0,
    {
        Ok(UniqueNode { node_id: init.node_id.clone(), message_id: 0 })
    }

    fn step(&mut self, input: Event<Payload, ()>) -> (r: Result<Vec<Message<Payload>>, NodeError>)
        ensures
            step_post(*old(self), input, *final(self), r),
    {
        match input {
            Event::ExternalMessage(msg) => {
                let reply_payload: Payload = match &msg.body.payload {
                    Payload::Generate => {
                        let message_id = self.message_id;
                        self.message_id = self.message_id + 1;
                        let mut id = self.node_id.clone();
                        proof {
                            reveal_strlit("-");
                        }
                        id.append("-");
                        push_decimal(&mut id, message_id);
                        proof {
                            assert(id@ =~= unique_id(
                                old(self).node_id@,
                                old(self).message_id as int,
                            ));
                        }
                        Payload::GenerateOk { id }
                    },
                    Payload::GenerateOk { .. } => {
                        return Err(NodeError::UnexpectedReply);
                    },
                };
                let reply = msg.into_reply(self.message_id, Some(reply_payload));
                Ok(vec![reply])
            },
            Event::InternalMessage(_) => Ok(Vec::new()),
            Event::Shutdown => Ok(Vec::new()),
        }
    }
}

} // verus!
