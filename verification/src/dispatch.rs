//! The coordinator's side of one connection: which handler a request goes
//! to, and what the connection holds on to until it ends.
//!
//! The coordinator itself is not part of this crate. `dispatch` says what is
//! to be done with a request; the caller has the coordinator do it and
//! reports back what the connection must remember.

use std::collections::BTreeSet;
use vstd::prelude::*;
use vstd::std_specs::iter::IteratorSpec;
use crate::error::Error;
use crate::executor::ExecutorId;
use crate::message::SectionView;
use crate::rpc::{RequestBuf, RequestBufView, RequestId, Responder, response_sections};
use crate::text::str_eq;
use crate::transport::Sender;

verus! {

/// Something that a connection holds on to and that the coordinator must
/// release when the connection ends.
#[derive(Clone, Copy, Debug, PartialEq, Eq, Structural)]
pub enum State {
    /// The connection is the one of this executor.
    Executor(ExecutorId),
}

/// The token of the executor with this id.
pub open spec fn executor_token(id: u64) -> State {
    State::Executor(ExecutorId(id))
}

/// The requests that the coordinator handles.
#[derive(Clone, Copy, Debug, PartialEq, Eq, Structural)]
pub enum Handler {
    /// Submits a query; answered with its id.
    Submission,
    /// Binds a worker group of a query to the connection.
    AddWorkerGroup,
    /// Registers the peer as an executor; answered with its id.
    AddExecutor,
}

impl Handler {
    /// The name under which requests for this handler arrive.
    pub open spec fn spec_name(self) -> Seq<char> {
        match self {
            Handler::Submission => "Submission"@,
            Handler::AddWorkerGroup => "AddWorkerGroup"@,
            Handler::AddExecutor => "AddExecutor"@,
        }
    }

    /// The handler that a request name stands for, if any.
    pub open spec fn spec_by_name(name: Seq<char>) -> Option<Handler> {
        if name == Handler::Submission.spec_name() {
            Some(Handler::Submission)
        } else if name == Handler::AddWorkerGroup.spec_name() {
            Some(Handler::AddWorkerGroup)
        } else if name == Handler::AddExecutor.spec_name() {
            Some(Handler::AddExecutor)
        } else {
            None
        }
    }

    /// The name under which requests for this handler arrive.
    pub fn name(self) -> (name: &'static str)
        ensures
            name@ == self.spec_name(),
    {
        match self {
            Handler::Submission => "Submission",
            Handler::AddWorkerGroup => "AddWorkerGroup",
            Handler::AddExecutor => "AddExecutor",
        }
    }

    /// Finds the handler for a request name.
    pub fn by_name(name: &str) -> (handler: Option<Handler>)
        ensures
            handler == Handler::spec_by_name(name@),
    {
        if str_eq(name, Handler::Submission.name()) {
            Some(Handler::Submission)
        } else if str_eq(name, Handler::AddWorkerGroup.name()) {
            Some(Handler::AddWorkerGroup)
        } else if str_eq(name, Handler::AddExecutor.name()) {
            Some(Handler::AddExecutor)
        } else {
            None
        }
    }
}

/// What is to be done with a request: hand its payload to this handler, and
/// answer through this responder.
#[derive(Debug)]
pub struct Action {
    pub handler: Handler,
    pub payload: Vec<u8>,
    pub resp: Responder,
}

/// What `dispatch` makes of a request: the handler, the payload and the id
/// to answer under. A name without a handler is an unknown request; a
/// request without a payload is a decoding error.
pub open spec fn routed(req: RequestBufView) -> Result<(Handler, Seq<u8>, RequestId), Error> {
    match Handler::spec_by_name(req.name) {
        None => Err(Error::UnknownRequest),
        Some(handler) => if req.msg.len() > 0 && req.msg[0] is Bytes {
            Ok((handler, req.msg[0]->Bytes_0, req.id))
        } else {
            Err(Error::Decoding)
        },
    }
}

/// The per-connection state of the coordinator: the tokens that the
/// connection holds.
///
/// Its view is the set of executors that were registered over this
/// connection.
#[derive(Debug)]
pub struct Dispatch {
    associated: BTreeSet<u64>,
}

impl View for Dispatch {
    type V = Set<u64>;

    closed spec fn view(&self) -> Set<u64> {
        self.associated@
    }
}

impl Dispatch {
    /// The state of a new connection: it holds nothing.
    pub fn new() -> (dispatch: Dispatch)
        ensures
            dispatch@ == Set::<u64>::empty(),
    {
        Dispatch { associated: BTreeSet::new() }
    }

    /// Routes a request by its name.
    ///
    /// A name that no handler is registered for is an error that is fatal
    /// for this connection, and so is a request without a payload. Either
    /// way the tokens of the connection stay as they are.
    pub fn dispatch(&mut self, req: RequestBuf) -> (res: Result<Action, Error>)
        ensures
            final(self)@ == old(self)@,
            match res {
                Ok(action) => routed(req@) == Ok::<(Handler, Seq<u8>, RequestId), Error>(
                    (action.handler, action.payload@, action.resp@),
                ),
                Err(e) => routed(req@) == Err::<(Handler, Seq<u8>, RequestId), Error>(e),
            },
    {
        let handler = match Handler::by_name(req.name()) {
            Some(handler) => handler,
            None => {
                return Err(Error::UnknownRequest);
            },
        };
        match req.decode() {
            Ok((payload, resp)) => Ok(Action { handler, payload, resp }),
            Err(e) => Err(e),
        }
    }

    /// Records that the coordinator has registered the peer as executor
    /// `id`, and answers the request with `reply`, the id as the peer reads
    /// it. From now on the connection holds the token of that executor.
    pub fn executor_added(
        &mut self,
        id: ExecutorId,
        resp: Responder,
        reply: Vec<u8>,
        origin: &mut Sender,
    )
        ensures
            final(self)@ == old(self)@.insert(id.0),
            final(origin)@ == (if reply@.len() < u32::MAX {
                old(origin)@.push(response_sections(resp@, Ok(reply@)))
            } else {
                old(origin)@
            }),
    {
        broadcast use vstd::std_specs::btree::group_btree_axioms;

        let _ = self.associated.insert(id.0);
        resp.respond(Ok(reply), origin);
    }

    /// Whether the connection holds the token of this executor.
    pub fn holds(&self, id: ExecutorId) -> (held: bool)
        ensures
            held == self@.contains(id.0),
    {
        broadcast use vstd::std_specs::btree::group_btree_axioms;

        self.associated.contains(&id.0)
    }

    /// Ends the connection and lists the tokens that it held, for the
    /// coordinator to release: each token that was held, and each once.
    pub fn release(self) -> (tokens: Vec<State>)
        ensures
            tokens@.len() == self@.len(),
            tokens@.no_duplicates(),
            forall|id: u64| self@.contains(id) <==> tokens@.contains(#[trigger] executor_token(id)),
            forall|i: int| 0 <= i < tokens@.len() ==> self@.contains((#[trigger] tokens@[i]->Executor_0).0),
    {
        broadcast use vstd::std_specs::btree::group_btree_axioms;

        let mut tokens: Vec<State> = Vec::new();
        let ghost ids = vstd::std_specs::btree::spec_btree_keys_iter(&self.associated).remaining();
        for id in it: self.associated.iter()
            invariant
                it.seq() == ids,
                tokens@.len() == it.index(),
                forall|j: int|
                    0 <= j < tokens@.len() ==> tokens@[j] == State::Executor(
                        ExecutorId(*ids[j]),
                    ),
        {
            tokens.push(State::Executor(ExecutorId(*id)));
        }
        proof {
            let plain = ids.unref();
            assert(plain.to_set() == self@);
            assert(plain.len() == ids.len());
            assert forall|id: u64| self@.contains(id) implies tokens@.contains(
                #[trigger] executor_token(id),
            ) by {
                assert(plain.contains(id));
                let k = choose|k: int| 0 <= k < plain.len() && plain[k] == id;
                assert(tokens@[k] == State::Executor(ExecutorId(id)));
            }
            assert forall|id: u64|
                tokens@.contains(#[trigger] executor_token(id)) implies self@.contains(id) by {
                let k = choose|k: int|
                    0 <= k < tokens@.len() && tokens@[k] == State::Executor(ExecutorId(id));
                assert(plain[k] == id);
                assert(plain.contains(id));
            }
            assert forall|i: int| 0 <= i < tokens@.len() implies self@.contains(
                (#[trigger] tokens@[i]->Executor_0).0,
            ) by {
                assert(plain[i] == (tokens@[i]->Executor_0).0);
                assert(plain.contains(plain[i]));
            }
            assert forall|i: int, j: int|
                0 <= i < tokens@.len() && 0 <= j < tokens@.len() && i != j implies tokens@[i]
                != tokens@[j] by {
                assert(ids[i] != ids[j]);
            }
        }
        tokens
    }
}

/// The three names that the coordinator knows are told apart: a request
/// that arrives under the name of a handler, with a payload, is routed to
/// that handler with that payload, to be answered under its id.
pub proof fn lemma_known_names_are_routed(
    handler: Handler,
    id: RequestId,
    payload: Seq<u8>,
    rest: Seq<SectionView>,
)
    ensures
        Handler::spec_by_name(handler.spec_name()) == Some(handler),
        routed(
            RequestBufView {
                id,
                name: handler.spec_name(),
                msg: seq![SectionView::Bytes(payload)] + rest,
            },
        ) == Ok::<(Handler, Seq<u8>, RequestId), Error>((handler, payload, id)),
{
    reveal_strlit("Submission");
    reveal_strlit("AddWorkerGroup");
    reveal_strlit("AddExecutor");
    assert("Submission"@.len() != "AddWorkerGroup"@.len());
    assert("Submission"@.len() != "AddExecutor"@.len());
    assert("AddWorkerGroup"@.len() != "AddExecutor"@.len());
    let msg = seq![SectionView::Bytes(payload)] + rest;
    assert(msg[0] == SectionView::Bytes(payload));
}

/// A name that is none of the three that the coordinator knows is refused
/// as an unknown request, whatever the request carries.
pub proof fn lemma_unknown_name_is_refused(req: RequestBufView)
    requires
        req.name != Handler::Submission.spec_name(),
        req.name != Handler::AddWorkerGroup.spec_name(),
        req.name != Handler::AddExecutor.spec_name(),
    ensures
        routed(req) == Err::<(Handler, Seq<u8>, RequestId), Error>(Error::UnknownRequest),
{
}

} // verus!
