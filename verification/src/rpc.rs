//! Requests and responses multiplexed over one channel.

use std::collections::HashMap;
use vstd::prelude::*;
use vstd::utf8::encode_utf8;
use crate::error::Error;
use crate::message::{FrameParse, MessageBuf, SectionView, fits_frame, frame_bytes, parse_frame};
use crate::message::lemma_frame_round_trip;
use crate::transport::{Async, Listener, Network, Queue, QueueView, Sender, poll_view};

verus! {

/// Identifies a request among those that one endpoint has issued.
pub type RequestId = u32;

/// The leading byte of every frame: what kind of message follows.
#[derive(Clone, Copy, Debug, PartialEq, Eq, Structural)]
pub enum Type {
    Request,
    Response,
}

impl Type {
    /// The byte that stands for this kind on the wire.
    pub open spec fn spec_to_u8(self) -> u8 {
        match self {
            Type::Request => 0u8,
            Type::Response => 1u8,
        }
    }

    /// The kind that a byte stands for, if any.
    pub open spec fn spec_from_u8(num: u8) -> Option<Type> {
        if num == 0 {
            Some(Type::Request)
        } else if num == 1 {
            Some(Type::Response)
        } else {
            None
        }
    }

    /// The byte that stands for this kind on the wire.
    #[verifier::when_used_as_spec(spec_to_u8)]
    pub fn to_u8(self) -> (num: u8)
        ensures
            num == self.spec_to_u8(),
    {
        match self {
            Type::Request => 0,
            Type::Response => 1,
        }
    }

    /// Reads a kind byte; any byte other than the two known ones is a
    /// framing error.
    pub fn from_u8(num: u8) -> (res: Result<Type, Error>)
        ensures
            res == match Type::spec_from_u8(num) {
                Some(ty) => Ok::<Type, Error>(ty),
                None => Err::<Type, Error>(Error::Framing),
            },
    {
        match num {
            0 => Ok(Type::Request),
            1 => Ok(Type::Response),
            _ => Err(Error::Framing),
        }
    }
}

/// The sections of a request frame: kind, id, name, payload.
pub open spec fn request_sections(id: RequestId, name: Seq<char>, payload: Seq<u8>) -> Seq<
    SectionView,
> {
    seq![
        SectionView::U8(Type::Request.spec_to_u8()),
        SectionView::U32(id),
        SectionView::Str(name),
        SectionView::Bytes(payload),
    ]
}

/// The payload of a response: a byte that tells success (0) from a handler's
/// error (1), then the bytes of the one or the other.
pub open spec fn outcome_bytes(outcome: Result<Seq<u8>, Seq<u8>>) -> Seq<u8> {
    match outcome {
        Ok(success) => seq![0u8] + success,
        Err(error) => seq![1u8] + error,
    }
}

/// Reads the payload of a response, or `None` where it is empty or starts
/// with an unknown byte.
pub open spec fn parse_outcome(bytes: Seq<u8>) -> Option<Result<Seq<u8>, Seq<u8>>> {
    if bytes.len() == 0 {
        None
    } else if bytes[0] == 0 {
        Some(Ok(bytes.skip(1)))
    } else if bytes[0] == 1 {
        Some(Err(bytes.skip(1)))
    } else {
        None
    }
}

/// The bytes that an outcome holds besides its leading byte.
pub open spec fn outcome_len(outcome: Result<Seq<u8>, Seq<u8>>) -> nat {
    match outcome {
        Ok(success) => success.len(),
        Err(error) => error.len(),
    }
}

/// The sections of a response frame: kind, id, payload.
pub open spec fn response_sections(id: RequestId, outcome: Result<Seq<u8>, Seq<u8>>) -> Seq<
    SectionView,
> {
    seq![
        SectionView::U8(Type::Response.spec_to_u8()),
        SectionView::U32(id),
        SectionView::Bytes(outcome_bytes(outcome)),
    ]
}

/// What the head of an inbound frame says.
pub ghost enum Header {
    /// A request of the peer, with the sections that follow its name.
    Request { id: RequestId, name: Seq<char>, rest: Seq<SectionView> },
    /// A response to a request of ours, with the sections that follow its id.
    Response { id: RequestId, rest: Seq<SectionView> },
}

/// Reads the head of an inbound frame: a kind byte, an id, and for a request
/// its name. A byte that is no kind is a framing error; a section that is
/// absent or of another type is a decoding error.
pub open spec fn parse_header(ss: Seq<SectionView>) -> Result<Header, Error> {
    if !(ss.len() > 0 && ss[0] is U8) {
        Err(Error::Decoding)
    } else {
        match Type::spec_from_u8(ss[0]->U8_0) {
            None => Err(Error::Framing),
            Some(ty) => if !(ss.len() > 1 && ss[1] is U32) {
                Err(Error::Decoding)
            } else {
                match ty {
                    Type::Response => Ok(Header::Response { id: ss[1]->U32_0, rest: ss.skip(2) }),
                    Type::Request => if !(ss.len() > 2 && ss[2] is Str) {
                        Err(Error::Decoding)
                    } else {
                        Ok(
                            Header::Request {
                                id: ss[1]->U32_0,
                                name: ss[2]->Str_0,
                                rest: ss.skip(3),
                            },
                        )
                    },
                }
            },
        }
    }
}

/// Writes an outcome as the payload of a response.
fn encode_outcome(outcome: Result<Vec<u8>, Vec<u8>>) -> (bytes: Vec<u8>)
    ensures
        bytes@ == outcome_bytes(
            match outcome {
                Ok(success) => Ok(success@),
                Err(error) => Err(error@),
            },
        ),
{
    let mut bytes: Vec<u8> = Vec::new();
    match outcome {
        Ok(success) => {
            let mut success = success;
            bytes.push(0);
            bytes.append(&mut success);
        },
        Err(error) => {
            let mut error = error;
            bytes.push(1);
            bytes.append(&mut error);
        },
    }
    bytes
}

/// Reads the payload of a response.
fn decode_outcome(bytes: Vec<u8>) -> (res: Option<Result<Vec<u8>, Vec<u8>>>)
    ensures
        match parse_outcome(bytes@) {
            Some(Ok(success)) => res matches Some(Ok(v)) && v@ == success,
            Some(Err(error)) => res matches Some(Err(v)) && v@ == error,
            None => res is None,
        },
{
    let ghost given = bytes@;
    let mut bytes = bytes;
    if bytes.len() == 0 {
        return None;
    }
    let tag = bytes.remove(0);
    assert(bytes@ =~= given.skip(1));
    if tag == 0 {
        Some(Ok(bytes))
    } else if tag == 1 {
        Some(Err(bytes))
    } else {
        None
    }
}

/// A request as the receiving side holds it: id and name are read, the
/// payload is still in the frame.
pub ghost struct RequestBufView {
    pub id: RequestId,
    pub name: Seq<char>,
    pub msg: Seq<SectionView>,
}

/// A request of the peer that waits to be decoded and answered.
///
/// It stands for one obligation to respond: `decode` turns it into the
/// payload and a [`Responder`]. Dropping it sends nothing.
#[derive(Debug)]
pub struct RequestBuf {
    id: RequestId,
    name: String,
    msg: MessageBuf,
}

impl View for RequestBuf {
    type V = RequestBufView;

    closed spec fn view(&self) -> RequestBufView {
        RequestBufView { id: self.id, name: self.name@, msg: self.msg@ }
    }
}

impl RequestBuf {
    /// The id under which the peer issued the request.
    pub fn id(&self) -> (id: RequestId)
        ensures
            id == self@.id,
    {
        self.id
    }

    /// The name of the request, by which its handler is found.
    pub fn name(&self) -> (name: &str)
        ensures
            name@ == self@.name,
    {
        self.name.as_str()
    }

    /// Takes the payload out of the frame and gives it with the handle to
    /// respond through. Fails with a decoding error where the frame holds no
    /// payload.
    pub fn decode(self) -> (res: Result<(Vec<u8>, Responder), Error>)
        ensures
            match res {
                Ok((payload, responder)) => self@.msg.len() > 0 && self@.msg[0]
                    == SectionView::Bytes(payload@) && responder@ == self@.id,
                Err(e) => e == Error::Decoding && !(self@.msg.len() > 0 && self@.msg[0] is Bytes),
            },
    {
        let mut msg = self.msg;
        match msg.pop_bytes() {
            Ok(payload) => Ok((payload, Responder { id: self.id })),
            Err(e) => Err(e),
        }
    }
}

/// The obligation to respond to one request. Responding uses it up.
#[derive(Debug)]
pub struct Responder {
    id: RequestId,
}

impl View for Responder {
    type V = RequestId;

    closed spec fn view(&self) -> RequestId {
        self.id
    }
}

impl Responder {
    /// Sends the response, success or a handler's error, through the
    /// channel that the request came from, under the request's id.
    ///
    /// Nothing is reported: on a closed channel the frame is dropped, and a
    /// payload of `u32::MAX` bytes or more is not sent at all.
    pub fn respond(self, res: Result<Vec<u8>, Vec<u8>>, origin: &mut Sender)
        ensures
            ({
                let outcome = match res {
                    Ok(success) => Ok::<Seq<u8>, Seq<u8>>(success@),
                    Err(error) => Err::<Seq<u8>, Seq<u8>>(error@),
                };
                final(origin)@ == (if outcome_len(outcome) < u32::MAX {
                    old(origin)@.push(response_sections(self@, outcome))
                } else {
                    old(origin)@
                })
            }),
    {
        let payload = encode_outcome(res);
        let mut msg = MessageBuf::empty();
        let _ = msg.push_u8(Type::Response.to_u8());
        let _ = msg.push_u32(self.id);
        match msg.push_bytes(payload) {
            Ok(_) => {
                assert(msg@ =~= response_sections(
                    self@,
                    match res {
                        Ok(success) => Ok::<Seq<u8>, Seq<u8>>(success@),
                        Err(error) => Err::<Seq<u8>, Seq<u8>>(error@),
                    },
                ));
                origin.send(msg);
            },
            Err(_) => {},
        }
    }
}

/// The receiving end of a single-shot completion reports this when the
/// sending end was dropped without a value.
#[derive(Clone, Copy, Debug, PartialEq, Eq, Structural)]
pub struct Canceled;

/// How a response ends for the caller: with the success payload, not yet,
/// with the handler's error (`Err(Ok(..))`), or with a transport error
/// (`Err(Err(..))`).
pub open spec fn resolved(received: Result<Async<Seq<SectionView>>, Canceled>) -> Result<
    Async<Seq<u8>>,
    Result<Seq<u8>, Error>,
> {
    match received {
        Err(_) => Err(Err(Error::Cancelled)),
        Ok(Async::NotReady) => Ok(Async::NotReady),
        Ok(Async::Ready(ss)) => if !(ss.len() > 0 && ss[0] is Bytes) {
            Err(Err(Error::Decoding))
        } else {
            match parse_outcome(ss[0]->Bytes_0) {
                Some(Ok(success)) => Ok(Async::Ready(success)),
                Some(Err(error)) => Err(Ok(error)),
                None => Err(Err(Error::Decoding)),
            }
        },
    }
}

/// What the receiving end of a completion reported, the frame taken as its
/// sections.
pub open spec fn received_view(received: Result<Async<MessageBuf>, Canceled>) -> Result<
    Async<Seq<SectionView>>,
    Canceled,
> {
    match received {
        Ok(Async::Ready(msg)) => Ok(Async::Ready(msg@)),
        Ok(Async::NotReady) => Ok(Async::NotReady),
        Err(c) => Err(c),
    }
}

/// How a response ended, the payloads taken as byte sequences.
pub open spec fn resolved_view(res: Result<Async<Vec<u8>>, Result<Vec<u8>, Error>>) -> Result<
    Async<Seq<u8>>,
    Result<Seq<u8>, Error>,
> {
    match res {
        Ok(Async::Ready(success)) => Ok(Async::Ready(success@)),
        Ok(Async::NotReady) => Ok(Async::NotReady),
        Err(Ok(error)) => Err(Ok(error@)),
        Err(Err(e)) => Err(Err(e)),
    }
}

/// Turns what the receiving end of a completion reported into the caller's
/// result: the success payload, the handler's error, or a transport error
/// where the payload cannot be decoded or the request was cancelled.
pub fn resolve(received: Result<Async<MessageBuf>, Canceled>) -> (res: Result<
    Async<Vec<u8>>,
    Result<Vec<u8>, Error>,
>)
    ensures
        resolved_view(res) == resolved(received_view(received)),
{
    match received {
        Err(_) => Err(Err(Error::Cancelled)),
        Ok(Async::NotReady) => Ok(Async::NotReady),
        Ok(Async::Ready(msg)) => {
            let mut msg = msg;
            match msg.pop_bytes() {
                Err(_) => Err(Err(Error::Decoding)),
                Ok(payload) => match decode_outcome(payload) {
                    Some(Ok(success)) => Ok(Async::Ready(success)),
                    Some(Err(error)) => Err(Ok(error)),
                    None => Err(Err(Error::Decoding)),
                },
            }
        },
    }
}

/// The caller's handle on one request that was issued: it names the entry
/// of the pending table that waits for the response.
#[derive(Debug)]
pub struct Response {
    id: RequestId,
}

impl View for Response {
    type V = RequestId;

    closed spec fn view(&self) -> RequestId {
        self.id
    }
}

impl Response {
    /// The id under which the request was issued.
    pub fn id(&self) -> (id: RequestId)
        ensures
            id == self@,
    {
        self.id
    }

    /// Turns what the receiving end of the completion reported into the
    /// caller's result: the success payload, the handler's error, or a
    /// transport error where the payload cannot be decoded or the request
    /// was cancelled.
    pub fn poll(&self, received: Result<Async<MessageBuf>, Canceled>) -> (res: Result<
        Async<Vec<u8>>,
        Result<Vec<u8>, Error>,
    >)
        ensures
            resolved_view(res) == resolved(received_view(received)),
    {
        resolve(received)
    }

    /// The result of a response that has arrived and is no transport error:
    /// the success payload or the handler's error.
    pub fn wait_unwrap(self, received: MessageBuf) -> (res: Result<Vec<u8>, Vec<u8>>)
        requires
            !(resolved(Ok(Async::Ready(received@))) matches Err(Err(_))),
        ensures
            match res {
                Ok(success) => resolved(Ok(Async::Ready(received@))) == Ok::<
                    Async<Seq<u8>>,
                    Result<Seq<u8>, Error>,
                >(Async::Ready(success@)),
                Err(error) => resolved(Ok(Async::Ready(received@))) == Err::<
                    Async<Seq<u8>>,
                    Result<Seq<u8>, Error>,
                >(Ok(error@)),
            },
    {
        match self.poll(Ok(Async::Ready(received))) {
            Ok(Async::Ready(success)) => Ok(success),
            Err(Ok(error)) => Err(error),
            _ => {
                assert(false);
                Err(Vec::new())
            },
        }
    }

    /// Gives the request up: its entry leaves the pending table, so a
    /// response that arrives later finds none and is dropped. Hands out the
    /// completion that was registered, if it was still there.
    pub fn cancel<T>(self, outgoing: &mut Outgoing<T>) -> (tx: Option<T>)
        ensures
            final(outgoing)@.pending == old(outgoing)@.pending.remove(self@),
            final(outgoing)@.next_id == old(outgoing)@.next_id,
            tx == (if old(outgoing)@.pending.contains_key(self@) {
                Some(old(outgoing)@.pending[self@])
            } else {
                None
            }),
    {
        broadcast use vstd::std_specs::hash::group_hash_axioms;

        outgoing.pending.remove(&self.id)
    }
}

/// The state from which requests are issued.
pub ghost struct OutgoingView<T> {
    /// The id that the next request gets.
    pub next_id: RequestId,
    /// The pending table: for each request that waits for its response,
    /// the completion to fulfil with it.
    pub pending: Map<RequestId, T>,
}

/// Why a request cannot be issued, if it cannot: the channel is closed, or
/// the name or the payload is too long for a frame.
pub open spec fn request_refused(closed: bool, name: Seq<char>, payload: Seq<u8>) -> Option<
    Error,
> {
    if closed {
        Some(Error::Cancelled)
    } else if encode_utf8(name).len() > u32::MAX || payload.len() > u32::MAX {
        Some(Error::Encoding)
    } else {
        None
    }
}

/// The id after `id`: one more, and 0 after the largest.
pub open spec fn next_request_id(id: RequestId) -> RequestId {
    if id == u32::MAX {
        0u32
    } else {
        (id + 1) as u32
    }
}

/// Issues requests and holds the table of those that wait for a response.
///
/// `T` is the sending end of a single-shot completion; the table keeps one
/// for each pending request, under the request's id.
#[derive(Debug)]
pub struct Outgoing<T> {
    next_id: RequestId,
    pending: HashMap<RequestId, T>,
}

impl<T> View for Outgoing<T> {
    type V = OutgoingView<T>;

    closed spec fn view(&self) -> OutgoingView<T> {
        OutgoingView { next_id: self.next_id, pending: self.pending@ }
    }
}

impl<T> Outgoing<T> {
    /// A fresh state: ids start at 0 and nothing is pending.
    pub fn new() -> (outgoing: Outgoing<T>)
        ensures
            outgoing@.next_id == 0,
            outgoing@.pending == Map::<RequestId, T>::empty(),
    {
        Outgoing { next_id: 0, pending: HashMap::new() }
    }

    /// The number of requests that wait for a response.
    pub fn pending_len(&self) -> (n: usize)
        ensures
            n == self@.pending.len(),
    {
        broadcast use vstd::std_specs::hash::group_hash_axioms;

        self.pending.len()
    }

    /// Whether a request with this id waits for a response.
    pub fn is_pending(&self, id: RequestId) -> (pending: bool)
        ensures
            pending == self@.pending.contains_key(id),
    {
        broadcast use vstd::std_specs::hash::group_hash_axioms;

        self.pending.contains_key(&id)
    }

    /// Issues a request: gives it the next id, registers `tx` under that id
    /// in the pending table, and only then queues the request frame on the
    /// channel.
    ///
    /// Gives the handle of the request, and the completion that `tx`
    /// displaced in the table if the id was still pending there (ids repeat
    /// after `u32::MAX`); dropping it cancels the older request.
    ///
    /// A request that cannot be issued leaves everything as it was and hands
    /// `tx` back with the reason.
    pub fn request(&mut self, sender: &mut Sender, name: &str, payload: Vec<u8>, tx: T) -> (res:
        Result<(Response, Option<T>), (Error, T)>)
        ensures
            match res {
                Ok((response, displaced)) => {
                    &&& request_refused(old(sender)@.closed, name@, payload@) is None
                    &&& response@ == old(self)@.next_id
                    &&& final(self)@.next_id == next_request_id(old(self)@.next_id)
                    &&& final(self)@.pending == old(self)@.pending.insert(response@, tx)
                    &&& displaced == (if old(self)@.pending.contains_key(response@) {
                        Some(old(self)@.pending[response@])
                    } else {
                        None
                    })
                    &&& final(sender)@ == old(sender)@.push(
                        request_sections(response@, name@, payload@),
                    )
                },
                Err((e, back)) => {
                    &&& request_refused(old(sender)@.closed, name@, payload@) == Some(e)
                    &&& back == tx
                    &&& final(self)@ == old(self)@
                    &&& final(sender)@ == old(sender)@
                },
            },
    {
        broadcast use vstd::std_specs::hash::group_hash_axioms;

        if sender.is_closed() {
            return Err((Error::Cancelled, tx));
        }
        let id = self.next_id;
        let mut msg = MessageBuf::empty();
        let _ = msg.push_u8(Type::Request.to_u8());
        let _ = msg.push_u32(id);
        if msg.push_str(name).is_err() {
            return Err((Error::Encoding, tx));
        }
        if msg.push_bytes(payload).is_err() {
            return Err((Error::Encoding, tx));
        }
        assert(msg@ =~= request_sections(id, name@, payload@));
        self.next_id = id.wrapping_add(1);
        let displaced = self.pending.insert(id, tx);
        sender.send(msg);
        Ok((Response { id }, displaced))
    }

    /// Empties the pending table when the connection is gone, and hands out
    /// what it held. Dropping the completions fails every request that
    /// still waited with a transport error.
    pub fn close(&mut self) -> (pending: HashMap<RequestId, T>)
        ensures
            pending@ == old(self)@.pending,
            final(self)@.pending == Map::<RequestId, T>::empty(),
            final(self)@.next_id == old(self)@.next_id,
    {
        let mut pending: HashMap<RequestId, T> = HashMap::new();
        std::mem::swap(&mut self.pending, &mut pending);
        pending
    }
}

/// The requests of the peer that wait for the user, oldest first.
///
/// The stream ends in good order when the peer has shut down; an error says
/// that the channel failed, and nothing follows it.
#[derive(Debug)]
pub struct Incoming {
    queue: Queue<RequestBuf>,
}

impl View for Incoming {
    type V = QueueView<RequestBufView>;

    closed spec fn view(&self) -> QueueView<RequestBufView> {
        QueueView {
            items: self.queue@.items.map_values(|buf: RequestBuf| buf@),
            failure: self.queue@.failure,
            closed: self.queue@.closed,
        }
    }
}

impl Incoming {
    /// An open stream without requests.
    pub fn new() -> (incoming: Incoming)
        ensures
            incoming@ == QueueView::<RequestBufView>::fresh(),
    {
        let incoming = Incoming { queue: Queue::new() };
        assert(incoming@.items =~= Seq::<RequestBufView>::empty());
        incoming
    }

    /// The next request. After the last one, the error that ended the
    /// channel is reported once, and then the end of the stream.
    pub fn poll(&mut self) -> (res: Result<Async<Option<RequestBuf>>, Error>)
        ensures
            poll_view(res) == old(self)@.polled(),
            final(self)@ == old(self)@.after_poll(),
    {
        let res = self.queue.poll();
        assert(self@.items =~= old(self)@.after_poll().items);
        res
    }

    /// Stops taking requests in: those that arrive from now on are dropped.
    pub fn close(&mut self)
        ensures
            final(self)@ == old(self)@.close(),
            old(self)@.closed ==> final(self)@ == old(self)@,
    {
        self.queue.close();
    }

    /// Queues a request, unless the stream is closed.
    fn push(&mut self, buf: RequestBuf)
        ensures
            final(self)@ == old(self)@.push(buf@),
    {
        let _ = self.queue.push(buf);
        assert(self@.items =~= old(self)@.push(buf@).items);
    }

    /// Ends the stream with an error.
    fn fail(&mut self, err: Error)
        ensures
            final(self)@ == old(self)@.fail(err),
    {
        self.queue.fail(err);
    }
}

/// What became of one inbound frame.
#[derive(Debug)]
pub enum Decoded<T> {
    /// It was a request: it stands in the queue of incoming requests, or
    /// was dropped where that queue is closed.
    Request,
    /// It was the response to a pending request: this completion is to be
    /// fulfilled with the rest of the frame.
    Completed(T, MessageBuf),
    /// It was a response to a request that is not pending, because it was
    /// cancelled or never issued: the frame was dropped.
    Discarded,
}

/// What became of one inbound frame, the frame taken as its sections.
pub ghost enum DecodedView<T> {
    Request,
    Completed(T, Seq<SectionView>),
    Discarded,
}

impl<T> View for Decoded<T> {
    type V = DecodedView<T>;

    open spec fn view(&self) -> DecodedView<T> {
        match self {
            Decoded::Request => DecodedView::Request,
            Decoded::Completed(tx, msg) => DecodedView::Completed(*tx, msg@),
            Decoded::Discarded => DecodedView::Discarded,
        }
    }
}

/// What becomes of an inbound frame with these sections, given the pending
/// table: responses are matched to their request by id alone.
pub open spec fn decoded<T>(ss: Seq<SectionView>, pending: Map<RequestId, T>) -> Result<
    DecodedView<T>,
    Error,
> {
    match parse_header(ss) {
        Err(e) => Err(e),
        Ok(Header::Request { .. }) => Ok(DecodedView::Request),
        Ok(Header::Response { id, rest }) => if pending.contains_key(id) {
            Ok(DecodedView::Completed(pending[id], rest))
        } else {
            Ok(DecodedView::Discarded)
        },
    }
}

/// The pending table after an inbound frame: a response takes the entry of
/// its id out, anything else leaves the table as it is.
pub open spec fn pending_after<T>(ss: Seq<SectionView>, pending: Map<RequestId, T>) -> Map<
    RequestId,
    T,
> {
    match parse_header(ss) {
        Ok(Header::Response { id, rest }) => pending.remove(id),
        _ => pending,
    }
}

/// The queue of incoming requests after an inbound frame: a request is
/// added, anything else leaves the queue as it is.
pub open spec fn incoming_after(ss: Seq<SectionView>, q: QueueView<RequestBufView>) -> QueueView<
    RequestBufView,
> {
    match parse_header(ss) {
        Ok(Header::Request { id, name, rest }) => q.push(RequestBufView { id, name, msg: rest }),
        _ => q,
    }
}

/// What one step of the resolver's loop decided.
#[derive(Debug)]
pub enum Step<T> {
    /// A frame was taken in; the loop reads the next one.
    Continue(Decoded<T>),
    /// The channel has ended or failed and the loop ends. The completions
    /// of all requests that still waited are handed out: dropping them
    /// fails those requests with a transport error.
    Stop(HashMap<RequestId, T>),
}

/// The decisions of the loop that reads inbound frames and tells requests
/// of the peer from responses to our own requests.
pub struct Resolver;

impl Resolver {
    /// Takes one inbound frame in.
    ///
    /// A request is queued for the user with its id and name read and its
    /// payload still in the frame. A response takes the entry of its id out
    /// of the pending table and hands out the completion with the rest of
    /// the frame; without such an entry the frame is dropped. A frame whose
    /// head cannot be read is an error and changes nothing.
    pub fn decode<T>(msg: MessageBuf, outgoing: &mut Outgoing<T>, incoming: &mut Incoming) -> (res:
        Result<Decoded<T>, Error>)
        ensures
            match res {
                Ok(d) => decoded(msg@, old(outgoing)@.pending) == Ok::<DecodedView<T>, Error>(d@),
                Err(e) => decoded(msg@, old(outgoing)@.pending) == Err::<DecodedView<T>, Error>(e),
            },
            final(outgoing)@.pending == pending_after(msg@, old(outgoing)@.pending),
            final(outgoing)@.next_id == old(outgoing)@.next_id,
            final(incoming)@ == incoming_after(msg@, old(incoming)@),
    {
        broadcast use vstd::std_specs::hash::group_hash_axioms;

        let mut msg = msg;
        let ghost given = msg@;
        let kind = match msg.pop_u8() {
            Ok(kind) => kind,
            Err(e) => {
                return Err(e);
            },
        };
        let ty = match Type::from_u8(kind) {
            Ok(ty) => ty,
            Err(e) => {
                return Err(e);
            },
        };
        let id = match msg.pop_u32() {
            Ok(id) => id,
            Err(e) => {
                return Err(e);
            },
        };
        assert(msg@ =~= given.skip(2));
        match ty {
            Type::Request => {
                let name = match msg.pop_string() {
                    Ok(name) => name,
                    Err(e) => {
                        return Err(e);
                    },
                };
                assert(msg@ =~= given.skip(3));
                incoming.push(RequestBuf { id, name, msg });
                Ok(Decoded::Request)
            },
            Type::Response => {
                match outgoing.pending.remove(&id) {
                    Some(tx) => Ok(Decoded::Completed(tx, msg)),
                    None => Ok(Decoded::Discarded),
                }
            },
        }
    }

    /// One turn of the loop: takes what the attempt to read a frame gave
    /// and says whether the loop goes on.
    ///
    /// A frame is decoded. The end of the stream ends the queue of incoming
    /// requests in good order. A read error, or a frame that cannot be
    /// decoded, ends that queue with the error, which its user sees once.
    /// Whenever the loop ends, the channel is shut down and the pending
    /// table is emptied.
    pub fn dispatch<T>(
        event: Result<Option<MessageBuf>, Error>,
        outgoing: &mut Outgoing<T>,
        sender: &mut Sender,
        incoming: &mut Incoming,
    ) -> (step: Step<T>)
        ensures
            final(outgoing)@.next_id == old(outgoing)@.next_id,
            match step {
                Step::Continue(d) => {
                    &&& event matches Ok(Some(msg))
                    &&& decoded(msg@, old(outgoing)@.pending) == Ok::<DecodedView<T>, Error>(d@)
                    &&& final(outgoing)@.pending == pending_after(msg@, old(outgoing)@.pending)
                    &&& final(incoming)@ == incoming_after(msg@, old(incoming)@)
                    &&& final(sender)@ == old(sender)@
                },
                Step::Stop(pending) => {
                    &&& pending@ == old(outgoing)@.pending
                    &&& final(outgoing)@.pending == Map::<RequestId, T>::empty()
                    &&& final(sender)@ == old(sender)@.shutdown()
                    &&& final(incoming)@ == (match event {
                        Ok(Some(msg)) => old(incoming)@.fail(
                            decoded(msg@, old(outgoing)@.pending)->Err_0,
                        ),
                        Ok(None) => old(incoming)@.close(),
                        Err(e) => old(incoming)@.fail(e),
                    })
                    &&& event matches Ok(Some(msg)) ==> decoded(msg@, old(outgoing)@.pending) is Err
                },
            },
    {
        let res = match event {
            Ok(Some(msg)) => Resolver::decode(msg, outgoing, incoming),
            Ok(None) => {
                incoming.close();
                sender.shutdown();
                return Step::Stop(outgoing.close());
            },
            Err(e) => Err(e),
        };
        match res {
            Ok(d) => Step::Continue(d),
            Err(e) => {
                incoming.fail(e);
                sender.shutdown();
                Step::Stop(outgoing.close())
            },
        }
    }
}

/// The two handles of a multiplexer over a fresh channel: the state from
/// which requests are issued, and the queue of the peer's requests.
pub fn multiplex<T>() -> (pair: (Outgoing<T>, Incoming))
    ensures
        pair.0@.next_id == 0,
        pair.0@.pending == Map::<RequestId, T>::empty(),
        pair.1@ == QueueView::<RequestBufView>::fresh(),
{
    (Outgoing::new(), Incoming::new())
}

/// A bound listener whose connections are multiplexers.
#[derive(Debug)]
pub struct Server<T> {
    listener: Listener<(Outgoing<T>, Incoming)>,
}

impl<T> View for Server<T> {
    type V = QueueView<(Outgoing<T>, Incoming)>;

    closed spec fn view(&self) -> QueueView<(Outgoing<T>, Incoming)> {
        self.listener@
    }
}

impl<T> Server<T> {
    /// The host name under which the server is announced.
    pub closed spec fn spec_external(&self) -> Seq<char> {
        self.listener.spec_external()
    }

    /// The port that the server is bound to.
    pub closed spec fn spec_port(&self) -> u16 {
        self.listener.spec_port()
    }

    /// A server that is bound to `port` and has accepted nothing yet. It
    /// is announced under the network's host name.
    pub fn new(network: &Network, port: u16) -> (server: Server<T>)
        ensures
            server.spec_external() == network@,
            server.spec_port() == port,
            server@ == QueueView::<(Outgoing<T>, Incoming)>::fresh(),
    {
        Server { listener: Listener::new(network, port) }
    }

    /// The address to announce: the configured host name and the port that
    /// was bound.
    pub fn external_addr(&self) -> (addr: (&str, u16))
        ensures
            addr.0@ == self.spec_external(),
            addr.1 == self.spec_port(),
    {
        self.listener.external_addr()
    }

    /// Takes in what one attempt to accept gave. A connection gets a fresh
    /// multiplexer, which is queued for the user; an error ends the stream
    /// of connections. Says whether the accept loop goes on.
    pub fn accept(&mut self, conn: Result<(), Error>) -> (more: bool)
        ensures
            final(self).spec_external() == old(self).spec_external(),
            final(self).spec_port() == old(self).spec_port(),
            more == (conn is Ok && !old(self)@.closed),
            final(self)@.failure == (match conn {
                Err(e) if !old(self)@.closed => Some(e),
                _ => old(self)@.failure,
            }),
            final(self)@.closed == (old(self)@.closed || conn is Err),
            match conn {
                Ok(_) if !old(self)@.closed => {
                    &&& final(self)@.items.len() == old(self)@.items.len() + 1
                    &&& final(self)@.items.drop_last() == old(self)@.items
                    &&& final(self)@.items.last().0@.next_id == 0
                    &&& final(self)@.items.last().0@.pending == Map::<RequestId, T>::empty()
                    &&& final(self)@.items.last().1@ == QueueView::<RequestBufView>::fresh()
                },
                _ => final(self)@.items == old(self)@.items,
            },
    {
        match conn {
            Ok(_) => {
                let pair = multiplex();
                let more = self.listener.accept(Ok(pair));
                proof {
                    if !old(self)@.closed {
                        assert(self@.items.drop_last() =~= old(self)@.items);
                    }
                }
                more
            },
            Err(e) => self.listener.accept(Err(e)),
        }
    }

    /// The next accepted connection. After the last one, an accept error is
    /// reported once, and then the end of the stream.
    pub fn poll(&mut self) -> (res: Result<Async<Option<(Outgoing<T>, Incoming)>>, Error>)
        ensures
            res == old(self)@.polled(),
            final(self)@ == old(self)@.after_poll(),
            final(self).spec_external() == old(self).spec_external(),
            final(self).spec_port() == old(self).spec_port(),
    {
        self.listener.poll()
    }
}

impl Network {
    /// The multiplexer of a connection to a remote endpoint, given how the
    /// attempt to connect ended: fresh handles where it succeeded, its error
    /// where it did not.
    pub fn client<T>(&self, connected: Result<(), Error>) -> (res: Result<
        (Outgoing<T>, Incoming),
        Error,
    >)
        ensures
            match connected {
                Ok(_) => res matches Ok(pair) && pair.0@.next_id == 0 && pair.0@.pending
                    == Map::<RequestId, T>::empty() && pair.1@ == QueueView::<
                    RequestBufView,
                >::fresh(),
                Err(err) => res matches Err(e) && e == err,
            },
    {
        match connected {
            Ok(_) => Ok(multiplex()),
            Err(err) => Err(err),
        }
    }

    /// A server, given how the attempt to bind ended: with the port that
    /// was bound, or with an error.
    pub fn server<T>(&self, bound: Result<u16, Error>) -> (res: Result<Server<T>, Error>)
        ensures
            match bound {
                Ok(port) => res matches Ok(server) && server.spec_external() == self@
                    && server.spec_port() == port && server@ == QueueView::<
                    (Outgoing<T>, Incoming),
                >::fresh(),
                Err(err) => res matches Err(e) && e == err,
            },
    {
        match bound {
            Ok(port) => Ok(Server::new(self, port)),
            Err(err) => Err(err),
        }
    }
}

/// What a response's handle makes of an outcome that arrives intact.
pub open spec fn outcome_result(outcome: Result<Seq<u8>, Seq<u8>>) -> Result<
    Async<Seq<u8>>,
    Result<Seq<u8>, Error>,
> {
    match outcome {
        Ok(success) => Ok(Async::Ready(success)),
        Err(error) => Err(Ok(error)),
    }
}

/// A response reaches the request it answers, and no other.
///
/// Once a request has registered its completion `tx` under `id`, the
/// response frame that a responder builds for `id` is handed to `tx`, and
/// the request's handle resolves to exactly the outcome that the responder
/// was given. A response frame for any other id is handed to what is
/// registered under that other id, or dropped: it never reaches `tx`'s
/// entry, and it leaves that entry in the table.
pub proof fn lemma_response_reaches_its_request<T>(
    pending: Map<RequestId, T>,
    id: RequestId,
    tx: T,
    outcome: Result<Seq<u8>, Seq<u8>>,
    other: RequestId,
    other_outcome: Result<Seq<u8>, Seq<u8>>,
)
    requires
        other != id,
    ensures
        ({
            let table = pending.insert(id, tx);
            let rest = seq![SectionView::Bytes(outcome_bytes(outcome))];
            &&& decoded(response_sections(id, outcome), table) == Ok::<DecodedView<T>, Error>(
                DecodedView::Completed(tx, rest),
            )
            &&& resolved(Ok(Async::Ready(rest))) == outcome_result(outcome)
            &&& decoded(response_sections(other, other_outcome), table) == (if pending.contains_key(
                other,
            ) {
                Ok::<DecodedView<T>, Error>(
                    DecodedView::Completed(
                        pending[other],
                        seq![SectionView::Bytes(outcome_bytes(other_outcome))],
                    ),
                )
            } else {
                Ok::<DecodedView<T>, Error>(DecodedView::Discarded)
            })
            &&& pending_after(response_sections(other, other_outcome), table).contains_key(id)
            &&& pending_after(response_sections(other, other_outcome), table)[id] == tx
        }),
{
    let table = pending.insert(id, tx);
    let frame = response_sections(id, outcome);
    let rest = seq![SectionView::Bytes(outcome_bytes(outcome))];
    assert(frame.skip(2) =~= rest);
    let payload = outcome_bytes(outcome);
    match outcome {
        Ok(success) => {
            assert(payload.skip(1) =~= success);
        },
        Err(error) => {
            assert(payload.skip(1) =~= error);
        },
    }
    let other_frame = response_sections(other, other_outcome);
    assert(other_frame.skip(2) =~= seq![SectionView::Bytes(outcome_bytes(other_outcome))]);
}

/// The pending table holds at most one entry for an id, and no entry stays
/// behind once its request is done.
///
/// Registering under an id that is pending replaces the entry, so the table
/// never holds two for one id. The entry of an id is gone after the request
/// was cancelled, and gone after its response has arrived; neither touches
/// the entry of any other id.
pub proof fn lemma_pending_entry_lifetime<T>(
    pending: Map<RequestId, T>,
    id: RequestId,
    tx: T,
    later: T,
    outcome: Result<Seq<u8>, Seq<u8>>,
    other: RequestId,
)
    requires
        other != id,
    ensures
        pending.insert(id, tx).insert(id, later) == pending.insert(id, later),
        pending.insert(id, tx).dom() == pending.dom().insert(id),
        !pending.insert(id, tx).remove(id).contains_key(id),
        !pending_after(response_sections(id, outcome), pending.insert(id, tx)).contains_key(id),
        pending.insert(id, tx).remove(id).contains_key(other) == pending.contains_key(other),
        pending_after(response_sections(id, outcome), pending.insert(id, tx)).contains_key(other)
            == pending.contains_key(other),
{
    assert(pending.insert(id, tx).insert(id, later) =~= pending.insert(id, later));
    assert(pending.insert(id, tx).dom() =~= pending.dom().insert(id));
    let frame = response_sections(id, outcome);
    assert(parse_header(frame) is Ok);
}

/// A response whose id is not pending, because it comes late, twice, or
/// unasked, is dropped: the pending table and the queue of incoming
/// requests stay exactly as they were.
pub proof fn lemma_unmatched_response_is_discarded<T>(
    pending: Map<RequestId, T>,
    incoming: QueueView<RequestBufView>,
    id: RequestId,
    outcome: Result<Seq<u8>, Seq<u8>>,
)
    requires
        !pending.contains_key(id),
    ensures
        decoded(response_sections(id, outcome), pending) == Ok::<DecodedView<T>, Error>(
            DecodedView::Discarded,
        ),
        pending_after(response_sections(id, outcome), pending) == pending,
        incoming_after(response_sections(id, outcome), incoming) == incoming,
{
    let frame = response_sections(id, outcome);
    assert(parse_header(frame) is Ok);
    assert(pending.remove(id) =~= pending);
}

/// A request that is cancelled before its response arrives leaves nothing
/// behind: the pending table is what it was before the request was issued,
/// and the late response is dropped.
pub proof fn lemma_cancelled_request_leaves_no_trace<T>(
    pending: Map<RequestId, T>,
    id: RequestId,
    tx: T,
    outcome: Result<Seq<u8>, Seq<u8>>,
)
    requires
        !pending.contains_key(id),
    ensures
        pending.insert(id, tx).remove(id) == pending,
        decoded(response_sections(id, outcome), pending.insert(id, tx).remove(id)) == Ok::<
            DecodedView<T>,
            Error,
        >(DecodedView::Discarded),
        pending_after(response_sections(id, outcome), pending.insert(id, tx).remove(id))
            == pending,
{
    assert(pending.insert(id, tx).remove(id) =~= pending);
    lemma_unmatched_response_is_discarded(
        pending,
        QueueView::<RequestBufView>::fresh(),
        id,
        outcome,
    );
}

/// The request that a frame announces, as the receiving side will hold it.
pub open spec fn announced(id: RequestId, name: Seq<char>, payload: Seq<u8>) -> RequestBufView {
    RequestBufView { id, name, msg: seq![SectionView::Bytes(payload)] }
}

/// The queue of incoming requests after a run of inbound frames.
pub open spec fn incoming_after_all(
    frames: Seq<Seq<SectionView>>,
    q: QueueView<RequestBufView>,
) -> QueueView<RequestBufView>
    decreases frames.len(),
{
    if frames.len() == 0 {
        q
    } else {
        incoming_after(frames.last(), incoming_after_all(frames.drop_last(), q))
    }
}

/// A request frame puts exactly the request it announces into the queue of
/// incoming requests, and touches no pending entry.
pub proof fn lemma_request_is_queued<T>(
    pending: Map<RequestId, T>,
    q: QueueView<RequestBufView>,
    id: RequestId,
    name: Seq<char>,
    payload: Seq<u8>,
)
    ensures
        decoded(request_sections(id, name, payload), pending) == Ok::<DecodedView<T>, Error>(
            DecodedView::Request,
        ),
        pending_after(request_sections(id, name, payload), pending) == pending,
        incoming_after(request_sections(id, name, payload), q) == q.push(
            announced(id, name, payload),
        ),
{
    let frame = request_sections(id, name, payload);
    assert(frame.skip(3) =~= seq![SectionView::Bytes(payload)]);
}

/// When the peer sends some requests and then closes the stream, the
/// receiving side sees exactly those requests, in order, and then the end
/// of the stream.
///
/// `reqs` are the requests by id, name and payload, and the queue starts
/// out fresh. After their frames and the close, poll number `k` gives
/// request `k`, and every poll after the last request reports the end of
/// the stream.
pub proof fn lemma_requests_then_end_of_stream(
    reqs: Seq<(RequestId, Seq<char>, Seq<u8>)>,
    k: nat,
)
    requires
        k <= reqs.len(),
    ensures
        ({
            let frames = reqs.map_values(
                |r: (RequestId, Seq<char>, Seq<u8>)| request_sections(r.0, r.1, r.2),
            );
            let seen = incoming_after_all(frames, QueueView::<RequestBufView>::fresh()).close();
            &&& seen.items.len() == reqs.len()
            &&& k < reqs.len() ==> seen.after_polls(k).polled() == Ok::<
                Async<Option<RequestBufView>>,
                Error,
            >(Async::Ready(Some(announced(reqs[k as int].0, reqs[k as int].1, reqs[k as int].2))))
            &&& k == reqs.len() ==> seen.after_polls(k).polled() == Ok::<
                Async<Option<RequestBufView>>,
                Error,
            >(Async::Ready(None)) && seen.after_polls(k + 1) == seen.after_polls(k)
        }),
{
    let frames = reqs.map_values(
        |r: (RequestId, Seq<char>, Seq<u8>)| request_sections(r.0, r.1, r.2),
    );
    let fresh = QueueView::<RequestBufView>::fresh();
    lemma_requests_are_queued(reqs, fresh);
    let seen = incoming_after_all(frames, fresh).close();
    crate::transport::lemma_queue_drains(seen, k);
}

/// A run of request frames adds exactly the requests that they announce to
/// an open queue of incoming requests, in order, and leaves it open.
pub proof fn lemma_requests_are_queued(
    reqs: Seq<(RequestId, Seq<char>, Seq<u8>)>,
    q: QueueView<RequestBufView>,
)
    requires
        !q.closed,
    ensures
        ({
            let frames = reqs.map_values(
                |r: (RequestId, Seq<char>, Seq<u8>)| request_sections(r.0, r.1, r.2),
            );
            let after = incoming_after_all(frames, q);
            &&& after.items == q.items + reqs.map_values(
                |r: (RequestId, Seq<char>, Seq<u8>)| announced(r.0, r.1, r.2),
            )
            &&& after.failure == q.failure
            &&& !after.closed
        }),
    decreases reqs.len(),
{
    let to_frame = |r: (RequestId, Seq<char>, Seq<u8>)| request_sections(r.0, r.1, r.2);
    let to_view = |r: (RequestId, Seq<char>, Seq<u8>)| announced(r.0, r.1, r.2);
    let frames = reqs.map_values(to_frame);
    if reqs.len() == 0 {
        assert(incoming_after_all(frames, q).items =~= q.items + reqs.map_values(to_view));
    } else {
        let init = reqs.drop_last();
        let last = reqs.last();
        lemma_requests_are_queued(init, q);
        assert(frames.drop_last() =~= init.map_values(to_frame));
        assert(frames.last() == request_sections(last.0, last.1, last.2));
        lemma_request_is_queued(
            Map::<RequestId, int>::empty(),
            incoming_after_all(frames.drop_last(), q),
            last.0,
            last.1,
            last.2,
        );
        assert(incoming_after_all(frames, q).items =~= q.items + reqs.map_values(to_view));
    }
}

/// A call comes back with what the peer's handler gave, whatever else is
/// pending.
///
/// The caller registers `tx` under `id` and its request frame goes over the
/// wire; the peer reads exactly that request, with its name and payload.
/// The peer's response frame for `id` goes over the wire; the caller reads
/// it, hands the rest of it to `tx`, and the handle of the request resolves
/// to the outcome that the peer's handler gave.
pub proof fn lemma_call_round_trip<T>(
    pending: Map<RequestId, T>,
    id: RequestId,
    tx: T,
    name: Seq<char>,
    payload: Seq<u8>,
    outcome: Result<Seq<u8>, Seq<u8>>,
)
    requires
        fits_frame(request_sections(id, name, payload)),
        fits_frame(response_sections(id, outcome)),
    ensures
        ({
            let request = request_sections(id, name, payload);
            let response = response_sections(id, outcome);
            let rest = seq![SectionView::Bytes(outcome_bytes(outcome))];
            &&& parse_frame(frame_bytes(request)) == FrameParse::Frame(
                request,
                frame_bytes(request).len() as int,
            )
            &&& incoming_after(request, QueueView::<RequestBufView>::fresh()).items == seq![
                announced(id, name, payload),
            ]
            &&& parse_frame(frame_bytes(response)) == FrameParse::Frame(
                response,
                frame_bytes(response).len() as int,
            )
            &&& decoded(response, pending.insert(id, tx)) == Ok::<DecodedView<T>, Error>(
                DecodedView::Completed(tx, rest),
            )
            &&& resolved(Ok(Async::Ready(rest))) == outcome_result(outcome)
        }),
{
    let request = request_sections(id, name, payload);
    let response = response_sections(id, outcome);
    lemma_frame_round_trip(request, Seq::empty());
    assert(frame_bytes(request) + Seq::<u8>::empty() =~= frame_bytes(request));
    lemma_frame_round_trip(response, Seq::empty());
    assert(frame_bytes(response) + Seq::<u8>::empty() =~= frame_bytes(response));
    lemma_request_is_queued(pending, QueueView::<RequestBufView>::fresh(), id, name, payload);
    assert(QueueView::<RequestBufView>::fresh().push(announced(id, name, payload)).items =~= seq![
        announced(id, name, payload),
    ]);
    lemma_response_reaches_its_request(
        pending,
        id,
        tx,
        outcome,
        if id == 0 {
            1u32
        } else {
            0u32
        },
        outcome,
    );
}

} // verus!
