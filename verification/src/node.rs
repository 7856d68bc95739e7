//! The node runtime: lifecycle state machine, reply-id counter, and handler
//! dispatch.

use vstd::prelude::*;

use crate::assoc::{
    assoc_position, entries_map, field_of, keys_distinct, lemma_entries_map_at,
    lemma_entries_map_dom, string_is,
};
use crate::error::NodeError;
use crate::json::{arr_of, clone_value, str_of, value_into_array, value_into_string};
use crate::message::{Body, Message};

verus! {

/// The lifecycle of a node: it starts unconfigured and becomes initialized
/// on its first `init` message. No transition leaves the initialized state.
#[derive(Debug, Clone, PartialEq)]
pub enum State {
    /// The node has yet to receive its `init` message.
    Start,
    /// The node knows its identity; this state is terminal.
    Initialized(InitializedNode),
}

/// The identity taken from the first `init` message: the node's own id and
/// the ids of all nodes in the cluster.
#[derive(Debug, Clone, PartialEq)]
pub struct InitializedNode {
    /// This node's own identifier.
    pub id: String,
    /// The identifiers announced in the `init` message, this node included.
    pub other_nodes: Vec<String>,
}

/// What a valid `init` body's open mapping yields: the `node_id` string and
/// the `node_ids` array of strings, or nothing when either field is absent
/// or of the wrong shape.
pub open spec fn init_fields(extra: Map<Seq<char>, serde_json::Value>) -> Option<
    (Seq<char>, Seq<Seq<char>>),
> {
    if extra.contains_key("node_id"@) && str_of(extra["node_id"@]) is Some && extra.contains_key(
        "node_ids"@,
    ) && arr_of(extra["node_ids"@]) is Some && (forall|i: int|
        0 <= i < arr_of(extra["node_ids"@])->Some_0.len() ==> str_of(
            #[trigger] arr_of(extra["node_ids"@])->Some_0[i],
        ) is Some) {
        Some(
            (
                str_of(extra["node_id"@])->Some_0,
                arr_of(extra["node_ids"@])->Some_0.map_values(
                    |w: serde_json::Value| str_of(w)->Some_0,
                ),
            ),
        )
    } else {
        None
    }
}

impl InitializedNode {
    /// The identity as sequences of characters.
    pub open spec fn view_fields(self) -> (Seq<char>, Seq<Seq<char>>) {
        (self.id@, self.other_nodes@.map_values(|s: String| s@))
    }

    /// Builds the identity from an `init` body: the open mapping must hold a
    /// `node_id` string and a `node_ids` array of strings; anything else is
    /// an `InvalidInit`.
    pub fn new(body: &Body) -> (r: Result<InitializedNode, NodeError>)
        requires
            body.wf(),
        ensures
            match r {
                Ok(inode) => body.typ@ == "init"@ && init_fields(body.extra_map()) == Some(
                    inode.view_fields(),
                ),
                Err(e) => e == NodeError::InvalidInit && (body.typ@ != "init"@ || init_fields(
                    body.extra_map(),
                ) is None),
            },
    {
        if !string_is(&body.typ, "init") {
            return Err(NodeError::InvalidInit);
        }
        let id_v = match assoc_position(&body.extra, "node_id") {
            Some(i) => &body.extra[i].1,
            None => {
                return Err(NodeError::InvalidInit);
            },
        };
        let id = match value_into_string(clone_value(id_v)) {
            Ok(s) => s,
            Err(_) => {
                return Err(NodeError::InvalidInit);
            },
        };
        let ids_v = match assoc_position(&body.extra, "node_ids") {
            Some(i) => &body.extra[i].1,
            None => {
                return Err(NodeError::InvalidInit);
            },
        };
        let arr = match value_into_array(clone_value(ids_v)) {
            Ok(a) => a,
            Err(_) => {
                return Err(NodeError::InvalidInit);
            },
        };
        let ghost a_seq = arr@;
        let mut other_nodes: Vec<String> = Vec::new();
        let n = arr.len();
        let mut i: usize = 0;
        while i < n
            invariant
                n == a_seq.len(),
                arr@ == a_seq,
                i <= n,
                other_nodes@.len() == i,
                body.typ@ == "init"@,
                body.wf(),
                (field_of(body.extra_map(), "node_id"@) matches Some(w) && str_of(w) == Some(
                    id@,
                )),
                (field_of(body.extra_map(), "node_ids"@) matches Some(w) && arr_of(w) == Some(
                    a_seq,
                )),
                forall|p: int|
                    0 <= p < i ==> str_of(#[trigger] a_seq[p]) is Some && other_nodes@[p]@
                        == str_of(a_seq[p])->Some_0,
            decreases n - i,
        {
            match value_into_string(clone_value(&arr[i])) {
                Ok(s) => other_nodes.push(s),
                Err(_) => {
                    return Err(NodeError::InvalidInit);
                },
            }
            i += 1;
        }
        let inode = InitializedNode { id, other_nodes };
        proof {
            assert(inode.other_nodes@.map_values(|s: String| s@) =~= a_seq.map_values(
                |w: serde_json::Value| str_of(w)->Some_0,
            ));
        }
        Ok(inode)
    }
}

/// One node of the runtime. It owns its lifecycle state and the reply-id
/// counter; the handler registry is fixed at construction and immutable
/// afterwards.
#[derive(Debug)]
pub struct Node<H> {
    state: State,
    msg_id: u64,
    handlers: Vec<(String, H)>,
}

/// A handler imposes no condition on its inputs: it can be invoked with any
/// request envelope and any reply id, as the dispatch contract asks.
pub open spec fn handler_total<H: Fn(Message, u64) -> Result<Message, NodeError>>(h: H) -> bool {
    forall|msg: Message, id: u64| call_requires(h, (msg, id))
}

/// The reply a node sends for an `init` message: addressed back to the
/// sender, of type `init_ok`, carrying the allocated reply id and answering
/// the request's `msg_id`, with no extra fields.
pub open spec fn is_init_ok_reply(req: Message, id: u64, rep: Message) -> bool {
    &&& rep.src == req.dest
    &&& rep.dest == req.src
    &&& rep.body.typ@ == "init_ok"@
    &&& rep.body.msg_id == Some(id)
    &&& rep.body.in_reply_to == req.body.msg_id
    &&& rep.body.extra@ == Seq::<(String, serde_json::Value)>::empty()
}

impl<H: Fn(Message, u64) -> Result<Message, NodeError>> Node<H> {
    /// The lifecycle state.
    pub closed spec fn lifecycle(&self) -> State {
        self.state
    }

    /// The id the next produced reply will consume.
    pub closed spec fn next_reply_id(&self) -> u64 {
        self.msg_id
    }

    /// The handler registry as a map from message type to handler.
    pub closed spec fn registry(&self) -> Map<Seq<char>, H> {
        entries_map(self.handlers@)
    }

    /// Registry keys are distinct and every registered handler accepts every
    /// call.
    pub closed spec fn wf(&self) -> bool {
        &&& keys_distinct(self.handlers@)
        &&& forall|k: Seq<char>|
            self.registry().contains_key(k) ==> handler_total(#[trigger] self.registry()[k])
    }

    /// Creates a node that will dispatch incoming messages to the given
    /// handlers. Registering the reserved type `init` is refused with
    /// `ReservedHandler` and no node is produced; otherwise the node starts
    /// in `Start` with its reply counter at zero.
    pub fn new(handlers: Vec<(String, H)>) -> (r: Result<Node<H>, NodeError>)
        requires
            keys_distinct(handlers@),
            forall|i: int| 0 <= i < handlers@.len() ==> handler_total(#[trigger] handlers@[i].1),
        ensures
            match r {
                Ok(node) => {
                    &&& !entries_map(handlers@).contains_key("init"@)
                    &&& node.wf()
                    &&& node.lifecycle() == State::Start
                    &&& node.next_reply_id() == 0
                    &&& node.registry() == entries_map(handlers@)
                },
                Err(e) => e == NodeError::ReservedHandler && entries_map(handlers@).contains_key(
                    "init"@,
                ),
            },
    {
        match assoc_position(&handlers, "init") {
            Some(_) => Err(NodeError::ReservedHandler),
            None => {
                let node = Node { state: State::Start, msg_id: 0, handlers };
                proof {
                    assert forall|k: Seq<char>|
                        node.registry().contains_key(k) implies handler_total(
                        #[trigger] node.registry()[k],
                    ) by {
                        lemma_entries_map_dom(node.handlers@, k);
                        let i = choose|i: int|
                            0 <= i < node.handlers@.len() && node.handlers@[i].0@ == k;
                        lemma_entries_map_at(node.handlers@, i);
                    }
                }
                Ok(node)
            },
        }
    }

    /// The current lifecycle state, readable but not writable from outside.
    pub fn state(&self) -> (s: &State)
        ensures
            *s == self.lifecycle(),
    {
        &self.state
    }

    /// Allocates the next reply id, post-incrementing the counter.
    fn reply_id(&mut self) -> (id: u64)
        requires
            old(self).msg_id < u64::MAX,
        ensures
            id == old(self).msg_id,
            final(self).msg_id == old(self).msg_id + 1,
            final(self).state == old(self).state,
            final(self).handlers == old(self).handlers,
    {
        let id = self.msg_id;
        self.msg_id = id + 1;
        id
    }

    /// Handles one message, following the lifecycle table: the first valid
    /// `init` initializes the node, later `init`s are acknowledged without
    /// touching the stored identity, and any other type is dispatched to its
    /// registered handler once the node is initialized. A reply id is
    /// consumed only by a call that produces a reply: an `init_ok`, or a
    /// handler invocation that succeeds.
    pub fn handle(&mut self, msg: Message) -> (r: Result<Message, NodeError>)
        requires
            old(self).wf(),
            msg.wf(),
            old(self).next_reply_id() < u64::MAX,
        ensures
            final(self).wf(),
            final(self).registry() == old(self).registry(),
            handle_spec(*old(self), msg, *final(self), r),
    {
        let r = if string_is(&msg.body.typ, "init") {
            let start = match &self.state {
                State::Start => true,
                State::Initialized(_) => false,
            };
            if start {
                match InitializedNode::new(&msg.body) {
                    Ok(inode) => {
                        self.state = State::Initialized(inode);
                        let id = self.reply_id();
                        Ok(init_reply(msg, id))
                    },
                    Err(e) => Err(e),
                }
            } else {
                let id = self.reply_id();
                Ok(init_reply(msg, id))
            }
        } else {
            let start = match &self.state {
                State::Start => true,
                State::Initialized(_) => false,
            };
            if start {
                Err(NodeError::NotReady)
            } else {
                match assoc_position(&self.handlers, msg.body.typ.as_str()) {
                    Some(idx) => {
                        let id = self.msg_id;
                        proof {
                            assert(old(self).registry().contains_key(msg.body.typ@));
                            assert(old(self).registry()[msg.body.typ@] == self.handlers@[
                                idx as int
                            ].1);
                            assert(handler_total(old(self).registry()[msg.body.typ@]));
                        }
                        let res = (self.handlers[idx].1)(msg, id);
                        // only a produced reply consumes the allocated id
                        if res.is_ok() {
                            self.msg_id = id + 1;
                        }
                        res
                    },
                    None => Err(NodeError::UnhandledType(msg.body.typ.clone())),
                }
            }
        };
        proof {
            self.lemma_wf_preserved(*old(self));
        }
        r
    }

    /// Well-formedness rests on the registry alone, so it survives every
    /// state and counter update.
    proof fn lemma_wf_preserved(&self, pre: Node<H>)
        requires
            pre.wf(),
            self.handlers == pre.handlers,
        ensures
            self.wf(),
    {
        assert forall|k: Seq<char>| self.registry().contains_key(k) implies handler_total(
            #[trigger] self.registry()[k],
        ) by {
            assert(self.registry() == pre.registry());
            assert(handler_total(pre.registry()[k]));
        }
    }
}

/// The transition relation of `Node::handle`: how one call changes the node
/// and what it returns, for every combination of lifecycle state and message
/// type.
pub open spec fn handle_spec<H: Fn(Message, u64) -> Result<Message, NodeError>>(
    pre: Node<H>,
    msg: Message,
    post: Node<H>,
    r: Result<Message, NodeError>,
) -> bool {
    &&& post.registry() == pre.registry()
    &&& if msg.body.typ@ == "init"@ {
        match pre.lifecycle() {
            State::Start => {
                match init_fields(msg.body.extra_map()) {
                    Some(f) => {
                        &&& post.lifecycle() matches State::Initialized(inode) && inode.view_fields()
                            == f
                        &&& post.next_reply_id() == pre.next_reply_id() + 1
                        &&& (r matches Ok(rep) && is_init_ok_reply(msg, pre.next_reply_id(), rep))
                    },
                    None => {
                        &&& post.lifecycle() == State::Start
                        &&& post.next_reply_id() == pre.next_reply_id()
                        &&& r == Err::<Message, NodeError>(NodeError::InvalidInit)
                    },
                }
            },
            State::Initialized(_) => {
                &&& post.lifecycle() == pre.lifecycle()
                &&& post.next_reply_id() == pre.next_reply_id() + 1
                &&& (r matches Ok(rep) && is_init_ok_reply(msg, pre.next_reply_id(), rep))
            },
        }
    } else {
        match pre.lifecycle() {
            State::Start => {
                &&& post.lifecycle() == State::Start
                &&& post.next_reply_id() == pre.next_reply_id()
                &&& r == Err::<Message, NodeError>(NodeError::NotReady)
            },
            State::Initialized(_) => {
                if pre.registry().contains_key(msg.body.typ@) {
                    &&& post.lifecycle() == pre.lifecycle()
                    &&& (r is Ok ==> post.next_reply_id() == pre.next_reply_id() + 1)
                    &&& (r is Err ==> post.next_reply_id() == pre.next_reply_id())
                    &&& call_ensures(
                        pre.registry()[msg.body.typ@],
                        (msg, pre.next_reply_id()),
                        r,
                    )
                } else {
                    &&& post.lifecycle() == pre.lifecycle()
                    &&& post.next_reply_id() == pre.next_reply_id()
                    &&& (r matches Err(e) && e matches NodeError::UnhandledType(t) && t@
                        == msg.body.typ@)
                }
            },
        }
    }
}

/// Builds the `init_ok` acknowledgement for an `init` request.
fn init_reply(msg: Message, msg_id: u64) -> (r: Message)
    ensures
        is_init_ok_reply(msg, msg_id, r),
{
    let body = Body {
        typ: "init_ok".to_owned(),
        msg_id: Some(msg_id),
        in_reply_to: msg.body.msg_id,
        extra: Vec::new(),
    };
    Message { src: msg.dest, dest: msg.src, body }
}

/// Answers an `echo` request: the reply is addressed back to the sender,
/// typed `echo_ok`, stamped with the allocated reply id, answers the
/// request's `msg_id`, and carries the body's other fields unchanged.
pub fn echo_reply(msg: Message, msg_id: u64) -> (r: Result<Message, NodeError>)
    ensures
        (r matches Ok(rep) && {
            &&& rep.src == msg.dest
            &&& rep.dest == msg.src
            &&& rep.body.typ@ == "echo_ok"@
            &&& rep.body.msg_id == Some(msg_id)
            &&& rep.body.in_reply_to == msg.body.msg_id
            &&& rep.body.extra == msg.body.extra
        }),
{
    let body = Body {
        typ: "echo_ok".to_owned(),
        msg_id: Some(msg_id),
        in_reply_to: msg.body.msg_id,
        extra: msg.body.extra,
    };
    Ok(Message { src: msg.dest, dest: msg.src, body })
}

/// A message other than `init` handed to a fresh node is refused with
/// `NotReady`, even when a handler for its very type is registered.
pub fn message_before_init_returns_error() -> (ok: bool)
    ensures
        ok,
{
    let identity = |m: Message, _i: u64| -> (r: Result<Message, NodeError>)
        ensures
            r == Ok::<Message, NodeError>(m),
        { Ok(m) };
    let mut handlers = Vec::new();
    handlers.push(("id".to_owned(), identity));
    proof {
        reveal_strlit("id");
        reveal_strlit("init");
        assert("id"@.len() == 2 && "init"@.len() == 4);
        assert(handlers@.len() == 1);
        assert(keys_distinct(handlers@));
        assert(handlers@[0].1 == identity);
        assert(forall|m: Message, i: u64| call_requires(identity, (m, i)));
        assert(handler_total(identity));
        lemma_entries_map_dom(handlers@, "init"@);
    }
    let mut node = match Node::new(handlers) {
        Ok(n) => n,
        Err(_) => {
            return false;
        },
    };
    let msg = Message {
        src: "c1".to_owned(),
        dest: "n1".to_owned(),
        body: Body { typ: "id".to_owned(), msg_id: None, in_reply_to: None, extra: Vec::new() },
    };
    let r = node.handle(msg);
    match r {
        Err(NodeError::NotReady) => true,
        _ => false,
    }
}

/// A node still in `Start` refuses every message that is not an `init` with
/// `NotReady`, whatever its registry holds, and nothing about it changes.
pub proof fn lemma_not_ready_before_init<H: Fn(Message, u64) -> Result<Message, NodeError>>(
    pre: Node<H>,
    msg: Message,
    post: Node<H>,
    r: Result<Message, NodeError>,
)
    requires
        pre.lifecycle() == State::Start,
        msg.body.typ@ != "init"@,
        handle_spec(pre, msg, post, r),
    ensures
        r == Err::<Message, NodeError>(NodeError::NotReady),
        post.lifecycle() == State::Start,
        post.next_reply_id() == pre.next_reply_id(),
{
}

/// A call that returns an error produces no reply and changes nothing: the
/// lifecycle state, the reply-id counter and the registry all stay as they
/// were.
pub proof fn lemma_error_leaves_node_unchanged<H: Fn(Message, u64) -> Result<Message, NodeError>>(
    pre: Node<H>,
    msg: Message,
    post: Node<H>,
    r: Result<Message, NodeError>,
)
    requires
        handle_spec(pre, msg, post, r),
        r is Err,
    ensures
        post.lifecycle() == pre.lifecycle(),
        post.next_reply_id() == pre.next_reply_id(),
        post.registry() == pre.registry(),
{
}

/// The initialized state is terminal: once a node knows its identity, no
/// message of any type changes it.
pub proof fn lemma_initialized_is_terminal<H: Fn(Message, u64) -> Result<Message, NodeError>>(
    pre: Node<H>,
    msg: Message,
    post: Node<H>,
    r: Result<Message, NodeError>,
)
    requires
        pre.lifecycle() matches State::Initialized(_),
        handle_spec(pre, msg, post, r),
    ensures
        post.lifecycle() == pre.lifecycle(),
{
}

/// Once initialized, a node answers every further `init` with `init_ok` but
/// keeps its stored identity unchanged: the first `init` wins.
pub proof fn lemma_reinit_keeps_identity<H: Fn(Message, u64) -> Result<Message, NodeError>>(
    pre: Node<H>,
    msg: Message,
    post: Node<H>,
    r: Result<Message, NodeError>,
)
    requires
        pre.lifecycle() matches State::Initialized(_),
        msg.body.typ@ == "init"@,
        handle_spec(pre, msg, post, r),
    ensures
        post.lifecycle() == pre.lifecycle(),
        r matches Ok(rep) && is_init_ok_reply(msg, pre.next_reply_id(), rep),
{
}

/// Reply ids are handed out in order, one per produced reply: across two
/// consecutive successful `handle` calls the allocated ids differ by one.
pub proof fn lemma_reply_ids_consecutive<H: Fn(Message, u64) -> Result<Message, NodeError>>(
    n0: Node<H>,
    msg1: Message,
    n1: Node<H>,
    r1: Result<Message, NodeError>,
    msg2: Message,
    n2: Node<H>,
    r2: Result<Message, NodeError>,
)
    requires
        handle_spec(n0, msg1, n1, r1),
        r1 is Ok,
        handle_spec(n1, msg2, n2, r2),
        r2 is Ok,
    ensures
        n1.next_reply_id() == n0.next_reply_id() + 1,
        n2.next_reply_id() == n1.next_reply_id() + 1,
{
}

} // verus!
