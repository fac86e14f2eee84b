//! Channels of frames: the two queues that stand between a connection's
//! users and the code that moves bytes.
//!
//! A channel has an outbound half, the [`Sender`], which users fill and a
//! writer empties, and an inbound half, the [`Receiver`], which a reader fills
//! and users empty. Both are first-in first-out. Once a half is closed it
//! takes nothing more; what it still holds can be taken, then it reports the
//! end of the stream.

use std::collections::VecDeque;
use vstd::prelude::*;
use vstd::slice::slice_subrange;
use crate::error::Error;
use crate::message::{FrameParse, MessageBuf, SectionView, fits_frame, frame_bytes, parse_frame};
use crate::message::lemma_frame_round_trip;

verus! {

/// Whether a value is there yet.
#[derive(Debug)]
pub enum Async<T> {
    Ready(T),
    NotReady,
}

/// What a queue holds.
pub ghost struct QueueView<T> {
    /// The items that wait to be taken, oldest first.
    pub items: Seq<T>,
    /// The error that ends the stream, until it has been reported.
    pub failure: Option<Error>,
    /// No further item is taken in.
    pub closed: bool,
}

impl<T> QueueView<T> {
    /// An open queue that holds nothing.
    pub open spec fn fresh() -> QueueView<T> {
        QueueView { items: Seq::empty(), failure: None, closed: false }
    }

    /// The queue after an attempt to add an item.
    pub open spec fn push(self, item: T) -> QueueView<T> {
        if self.closed {
            self
        } else {
            QueueView { items: self.items.push(item), ..self }
        }
    }

    /// The queue after its producer has ended it in good order.
    pub open spec fn close(self) -> QueueView<T> {
        QueueView { closed: true, ..self }
    }

    /// The queue after its producer has ended it with an error.
    pub open spec fn fail(self, err: Error) -> QueueView<T> {
        if self.closed {
            self
        } else {
            QueueView { failure: Some(err), closed: true, ..self }
        }
    }

    /// The queue after it was closed and emptied.
    pub open spec fn shutdown(self) -> QueueView<T> {
        QueueView { items: Seq::empty(), failure: None, closed: true }
    }

    /// The queue after one poll.
    pub open spec fn after_poll(self) -> QueueView<T> {
        if self.items.len() > 0 {
            QueueView { items: self.items.drop_first(), ..self }
        } else {
            QueueView { failure: None, ..self }
        }
    }

    /// The queue after `n` polls.
    pub open spec fn after_polls(self, n: nat) -> QueueView<T>
        decreases n,
    {
        if n == 0 {
            self
        } else {
            self.after_poll().after_polls((n - 1) as nat)
        }
    }

    /// What one poll reports.
    pub open spec fn polled(self) -> Result<Async<Option<T>>, Error> {
        if self.items.len() > 0 {
            Ok(Async::Ready(Some(self.items[0])))
        } else if self.failure is Some {
            Err(self.failure->0)
        } else if self.closed {
            Ok(Async::Ready(None))
        } else {
            Ok(Async::NotReady)
        }
    }
}

/// A first-in first-out queue between one producer and one consumer, which
/// the producer can end, in good order or with an error.
///
/// The consumer sees every item that was taken in, in order, then the error
/// once if there was one, then the end of the stream.
#[derive(Debug)]
pub struct Queue<T> {
    items: VecDeque<T>,
    failure: Option<Error>,
    closed: bool,
}

impl<T> View for Queue<T> {
    type V = QueueView<T>;

    closed spec fn view(&self) -> QueueView<T> {
        QueueView { items: self.items@, failure: self.failure, closed: self.closed }
    }
}

impl<T> Queue<T> {
    /// An open queue that holds nothing.
    pub fn new() -> (queue: Queue<T>)
        ensures
            queue@ == QueueView::<T>::fresh(),
    {
        Queue { items: VecDeque::new(), failure: None, closed: false }
    }

    /// Adds an item at the tail and says so; a closed queue drops the item
    /// and stays as it is.
    pub fn push(&mut self, item: T) -> (taken: bool)
        ensures
            taken == !old(self)@.closed,
            final(self)@ == old(self)@.push(item),
    {
        if self.closed {
            return false;
        }
        self.items.push_back(item);
        true
    }

    /// Ends the queue in good order. Items that wait stay; closing a closed
    /// queue changes nothing.
    pub fn close(&mut self)
        ensures
            final(self)@ == old(self)@.close(),
            old(self)@.closed ==> final(self)@ == old(self)@,
    {
        self.closed = true;
    }

    /// Ends the queue with an error, which the consumer sees once, after
    /// the items that wait. A closed queue stays as it is.
    pub fn fail(&mut self, err: Error)
        ensures
            final(self)@ == old(self)@.fail(err),
    {
        if !self.closed {
            self.failure = Some(err);
            self.closed = true;
        }
    }

    /// Closes the queue and drops what it holds.
    pub fn shutdown(&mut self)
        ensures
            final(self)@ == old(self)@.shutdown(),
    {
        self.items.clear();
        self.failure = None;
        self.closed = true;
    }

    /// Whether the queue takes no further item.
    pub fn is_closed(&self) -> (closed: bool)
        ensures
            closed == self@.closed,
    {
        self.closed
    }

    /// The number of items that wait.
    pub fn len(&self) -> (n: usize)
        ensures
            n == self@.items.len(),
    {
        self.items.len()
    }

    /// Takes the oldest item. Without one, reports the error that ended the
    /// queue (once), then the end of the stream; an open queue without items
    /// is not ready.
    pub fn poll(&mut self) -> (res: Result<Async<Option<T>>, Error>)
        ensures
            res == old(self)@.polled(),
            final(self)@ == old(self)@.after_poll(),
    {
        match self.items.pop_front() {
            Some(item) => {
                assert(self.items@ =~= old(self).items@.drop_first());
                Ok(Async::Ready(Some(item)))
            },
            None => {
                match self.failure.take() {
                    Some(err) => Err(err),
                    None => {
                        if self.closed {
                            Ok(Async::Ready(None))
                        } else {
                            Ok(Async::NotReady)
                        }
                    },
                }
            },
        }
    }
}

/// Closing is idempotent: a second close, or a second shutdown, leaves the
/// queue as the first one left it.
pub proof fn lemma_close_idempotent<T>(q: QueueView<T>)
    ensures
        q.close().close() == q.close(),
        q.shutdown().shutdown() == q.shutdown(),
        q.shutdown().close() == q.shutdown(),
{
}

/// A closed queue takes nothing in, and once it is empty and its error has
/// been reported, every poll reports the end of the stream and changes
/// nothing.
pub proof fn lemma_closed_queue<T>(q: QueueView<T>, item: T)
    requires
        q.closed,
    ensures
        q.push(item) == q,
        q.items.len() == 0 && q.failure is None ==> q.polled() == Ok::<Async<Option<T>>, Error>(
            Async::Ready(None),
        ) && q.after_poll() == q,
{
}

/// A queue hands its items out in the order in which they stand: the poll
/// after `n` earlier ones gives item `n`. Once all items are taken, a queue
/// that was closed in good order reports the end of the stream, and keeps
/// doing so.
pub proof fn lemma_queue_drains<T>(q: QueueView<T>, n: nat)
    requires
        n <= q.items.len(),
    ensures
        q.after_polls(n).items == q.items.skip(n as int),
        q.after_polls(n).failure == q.failure,
        q.after_polls(n).closed == q.closed,
        n < q.items.len() ==> q.after_polls(n).polled() == Ok::<Async<Option<T>>, Error>(
            Async::Ready(Some(q.items[n as int])),
        ),
        n == q.items.len() && q.closed && q.failure is None ==> q.after_polls(n).polled() == Ok::<
            Async<Option<T>>,
            Error,
        >(Async::Ready(None)) && q.after_polls(n + 1) == q.after_polls(n),
    decreases n,
{
    if n == 0 {
        assert(q.items.skip(0) =~= q.items);
        if q.items.len() == 0 && q.closed && q.failure is None {
            assert(q.after_poll() == q);
            assert(q.after_polls(1) == q.after_poll().after_polls(0));
        }
    } else {
        let next = q.after_poll();
        lemma_queue_drains(next, (n - 1) as nat);
        assert(next.items.skip(n - 1) =~= q.items.skip(n as int));
        assert(q.after_polls(n + 1) == next.after_polls(n));
    }
}

/// The items of an open queue come out in the order in which they went in:
/// after `push`, a poll of a queue that held nothing gives that item.
pub proof fn lemma_queue_fifo<T>(q: QueueView<T>, a: T, b: T)
    requires
        !q.closed,
        q.items.len() == 0,
    ensures
        q.push(a).push(b).polled() == Ok::<Async<Option<T>>, Error>(Async::Ready(Some(a))),
        q.push(a).push(b).after_poll().polled() == Ok::<Async<Option<T>>, Error>(
            Async::Ready(Some(b)),
        ),
{
    let q2 = q.push(a).push(b);
    assert(q2.items[0] == a);
    assert(q2.after_poll().items[0] == b);
}

/// The sections of each frame of a run.
pub open spec fn frames_view(frames: Seq<MessageBuf>) -> Seq<Seq<SectionView>> {
    frames.map_values(|msg: MessageBuf| msg@)
}

/// What a queue of frames holds, each frame taken as its sections.
pub open spec fn frame_queue_view(q: QueueView<MessageBuf>) -> QueueView<Seq<SectionView>> {
    QueueView { items: frames_view(q.items), failure: q.failure, closed: q.closed }
}

/// What a poll reported, the item taken as its view.
pub open spec fn poll_view<T: View>(res: Result<Async<Option<T>>, Error>) -> Result<
    Async<Option<T::V>>,
    Error,
> {
    match res {
        Ok(Async::Ready(Some(item))) => Ok(Async::Ready(Some(item@))),
        Ok(Async::Ready(None)) => Ok(Async::Ready(None)),
        Ok(Async::NotReady) => Ok(Async::NotReady),
        Err(err) => Err(err),
    }
}

/// What an attempt to read a frame gave, the frame taken as its sections.
pub open spec fn message_view(message: Result<Option<MessageBuf>, Error>) -> Result<
    Option<Seq<SectionView>>,
    Error,
> {
    match message {
        Ok(Some(msg)) => Ok(Some(msg@)),
        Ok(None) => Ok(None),
        Err(err) => Err(err),
    }
}

/// The bytes of a run of frames, one frame after the other.
pub open spec fn frames_bytes(frames: Seq<Seq<SectionView>>) -> Seq<u8>
    decreases frames.len(),
{
    if frames.len() == 0 {
        Seq::empty()
    } else {
        frame_bytes(frames[0]) + frames_bytes(frames.drop_first())
    }
}

/// How many frames at the head of a run can be written: the frames before
/// the first one that does not fit.
pub open spec fn fitting_prefix(frames: Seq<Seq<SectionView>>) -> nat
    decreases frames.len(),
{
    if frames.len() == 0 || !fits_frame(frames[0]) {
        0
    } else {
        1 + fitting_prefix(frames.drop_first())
    }
}

/// The outbound half after the writer has written what it could: emptied
/// where every frame fit, shut down where one did not.
pub open spec fn flushed(q: QueueView<Seq<SectionView>>) -> QueueView<Seq<SectionView>> {
    if fitting_prefix(q.items) == q.items.len() {
        QueueView { items: Seq::empty(), ..q }
    } else {
        q.shutdown()
    }
}

/// The inbound half after the reader has read a byte stream to its end:
/// every frame up to the first that cannot be read is taken in, then the
/// half is closed, in good order at the end of the stream and with the
/// error otherwise. A half that is closed takes nothing in.
pub open spec fn received(q: QueueView<Seq<SectionView>>, stream: Seq<u8>) -> QueueView<
    Seq<SectionView>,
>
    decreases stream.len(),
{
    match parse_frame(stream) {
        FrameParse::End => q.close(),
        FrameParse::Short => q.fail(Error::Io),
        FrameParse::Malformed => q.fail(Error::Framing),
        FrameParse::Frame(ss, n) => if q.closed {
            q
        } else {
            received(q.push(ss), stream.skip(n))
        },
    }
}

/// The outbound half of a channel: frames that wait to be written.
///
/// Users add frames with `send`; the writer takes them with `take`, oldest
/// first, so frames are written in the order in which they were sent.
#[derive(Debug)]
pub struct Sender {
    queue: Queue<MessageBuf>,
}

impl View for Sender {
    type V = QueueView<Seq<SectionView>>;

    closed spec fn view(&self) -> QueueView<Seq<SectionView>> {
        frame_queue_view(self.queue@)
    }
}

impl Sender {
    /// An open half without frames.
    pub fn new() -> (sender: Sender)
        ensures
            sender@ == QueueView::<Seq<SectionView>>::fresh(),
    {
        let sender = Sender { queue: Queue::new() };
        assert(sender@.items =~= Seq::<Seq<SectionView>>::empty());
        sender
    }

    /// Queues a frame for writing. Never fails: once the half is closed the
    /// frame is dropped without a word.
    pub fn send(&mut self, msg: MessageBuf)
        ensures
            final(self)@ == old(self)@.push(msg@),
    {
        let _ = self.queue.push(msg);
        assert(self@.items =~= old(self)@.push(msg@).items);
    }

    /// Whether the half is closed, so that frames sent now are dropped.
    pub fn is_closed(&self) -> (closed: bool)
        ensures
            closed == self@.closed,
    {
        self.queue.is_closed()
    }

    /// The next frame to write. `Ready(None)` says that the half is closed
    /// and all its frames have been taken: the writer is done.
    pub fn take(&mut self) -> (res: Result<Async<Option<MessageBuf>>, Error>)
        ensures
            poll_view(res) == old(self)@.polled(),
            final(self)@ == old(self)@.after_poll(),
    {
        let res = self.queue.poll();
        assert(self@.items =~= old(self)@.after_poll().items);
        res
    }

    /// The writer's loop over the frames that wait: writes them to the byte
    /// stream, oldest first. A frame that cannot be written ends the loop
    /// and shuts the half down, so that what waits behind it is dropped.
    /// Says whether the writer goes on: it is done after a failure, and
    /// once the half is closed and empty.
    pub fn flush(&mut self, stream: &mut Vec<u8>) -> (more: bool)
        ensures
            final(stream)@ == old(stream)@ + frames_bytes(
                old(self)@.items.take(fitting_prefix(old(self)@.items) as int),
            ),
            final(self)@ == flushed(old(self)@),
            more == (fitting_prefix(old(self)@.items) == old(self)@.items.len()
                && !old(self)@.closed),
    {
        let ghost frames = self@.items;
        let ghost failure = self@.failure;
        let ghost closed = self@.closed;
        let ghost k = fitting_prefix(frames);
        let ghost mut done: int = 0;
        proof {
            assert(frames.skip(0) =~= frames);
            assert(frames.take(0) =~= Seq::<Seq<SectionView>>::empty());
            assert(stream@ + frames_bytes(frames.take(0)) =~= stream@);
        }
        while self.queue.len() > 0
            invariant
                frames == old(self)@.items,
                failure == old(self)@.failure,
                closed == old(self)@.closed,
                k == fitting_prefix(frames),
                0 <= done <= frames.len(),
                self@.items == frames.skip(done),
                self@.failure == failure,
                self@.closed == closed,
                k == done + fitting_prefix(frames.skip(done)),
                stream@ == old(stream)@ + frames_bytes(frames.take(done)),
            decreases frames.len() - done,
        {
            let ghost before = stream@;
            let ghost rest = frames.skip(done);
            let ghost waiting = self.queue@.items;
            assert(frames_view(waiting) == rest);
            match self.queue.poll() {
                Ok(Async::Ready(Some(msg))) => {
                    assert(msg@ == rest[0]) by {
                        assert(frames_view(waiting)[0] == waiting[0]@);
                    }
                    assert(self@.items =~= rest.drop_first());
                    assert(rest.drop_first() =~= frames.skip(done + 1));
                    match msg.write(stream) {
                        Ok(_) => {
                            proof {
                                lemma_frames_bytes_push(frames.take(done), rest[0]);
                                assert(frames.take(done).push(rest[0]) =~= frames.take(done + 1));
                                assert(stream@ =~= old(stream)@ + frames_bytes(
                                    frames.take(done + 1),
                                ));
                                done = done + 1;
                            }
                        },
                        Err(_) => {
                            self.queue.shutdown();
                            proof {
                                assert(!fits_frame(rest[0]));
                                assert(fitting_prefix(rest) == 0);
                                assert(k == done);
                                assert(self@.items =~= Seq::<Seq<SectionView>>::empty());
                                assert(self@ == old(self)@.shutdown());
                            }
                            return false;
                        },
                    }
                },
                _ => {
                    return false;
                },
            }
        }
        proof {
            assert(frames.skip(done).len() == 0);
            assert(self@.items =~= Seq::<Seq<SectionView>>::empty());
            assert(frames.take(done) =~= frames.take(k as int));
        }
        !self.queue.is_closed()
    }

    /// Ends the half in good order: frames that wait are still written.
    /// Closing a closed half changes nothing.
    pub fn close(&mut self)
        ensures
            final(self)@ == old(self)@.close(),
            old(self)@.closed ==> final(self)@ == old(self)@,
    {
        self.queue.close()
    }

    /// Ends the half after a failed write: frames that wait are dropped.
    pub fn shutdown(&mut self)
        ensures
            final(self)@ == old(self)@.shutdown(),
    {
        self.queue.shutdown();
        assert(self@.items =~= Seq::<Seq<SectionView>>::empty());
    }
}

/// What the reader learns from one attempt to read a frame, and what the
/// inbound half makes of it.
pub open spec fn delivered(
    q: QueueView<Seq<SectionView>>,
    message: Result<Option<Seq<SectionView>>, Error>,
) -> QueueView<Seq<SectionView>> {
    match message {
        Ok(Some(msg)) => q.push(msg),
        Ok(None) => q.close(),
        Err(err) => q.fail(err),
    }
}

/// The inbound half of a channel: frames that were read and wait for the
/// user.
#[derive(Debug)]
pub struct Receiver {
    queue: Queue<MessageBuf>,
}

impl View for Receiver {
    type V = QueueView<Seq<SectionView>>;

    closed spec fn view(&self) -> QueueView<Seq<SectionView>> {
        frame_queue_view(self.queue@)
    }
}

impl Receiver {
    /// An open half without frames.
    pub fn new() -> (receiver: Receiver)
        ensures
            receiver@ == QueueView::<Seq<SectionView>>::fresh(),
    {
        let receiver = Receiver { queue: Queue::new() };
        assert(receiver@.items =~= Seq::<Seq<SectionView>>::empty());
        receiver
    }

    /// Takes in what one attempt to read a frame gave: a frame, the end of
    /// the stream, or an error. Says whether the reader goes on: it stops
    /// at the end of the stream, at an error, and once the half is closed.
    pub fn deliver(&mut self, message: Result<Option<MessageBuf>, Error>) -> (more: bool)
        ensures
            final(self)@ == delivered(old(self)@, message_view(message)),
            more == (message matches Ok(Some(_)) && !old(self)@.closed),
    {
        match message {
            Ok(Some(msg)) => {
                let taken = self.queue.push(msg);
                assert(self@.items =~= old(self)@.push(msg@).items);
                taken
            },
            Ok(None) => {
                self.queue.close();
                false
            },
            Err(err) => {
                self.queue.fail(err);
                false
            },
        }
    }

    /// The reader's loop over a byte stream that ends after `stream`: takes
    /// in frame after frame until the stream ends, a frame cannot be read,
    /// or the half is closed.
    pub fn read_from(&mut self, stream: &[u8])
        ensures
            final(self)@ == received(old(self)@, stream@),
    {
        let len = stream.len();
        let mut pos: usize = 0;
        assert(stream@.skip(0) =~= stream@);
        loop
            invariant_except_break
                pos <= len,
                len == stream@.len(),
                received(old(self)@, stream@) == received(self@, stream@.skip(pos as int)),
            ensures
                self@ == received(old(self)@, stream@),
            decreases len - pos,
        {
            let ghost tail = stream@.skip(pos as int);
            assert(stream@.subrange(pos as int, len as int) =~= tail);
            let message = match MessageBuf::read(slice_subrange(stream, pos, len)) {
                Ok(Some((msg, taken))) => {
                    assert(tail.skip(taken as int) =~= stream@.skip(pos + taken));
                    pos = pos + taken;
                    Ok(Some(msg))
                },
                Ok(None) => Ok(None),
                Err(e) => Err(e),
            };
            if !self.deliver(message) {
                break;
            }
        }
    }

    /// Ends the half. Frames that wait can still be taken; closing a closed
    /// half changes nothing.
    pub fn close(&mut self)
        ensures
            final(self)@ == old(self)@.close(),
            old(self)@.closed ==> final(self)@ == old(self)@,
    {
        self.queue.close()
    }

    /// The next frame. After the last one, a read error is reported once,
    /// and then the end of the stream.
    pub fn poll(&mut self) -> (res: Result<Async<Option<MessageBuf>>, Error>)
        ensures
            poll_view(res) == old(self)@.polled(),
            final(self)@ == old(self)@.after_poll(),
    {
        let res = self.queue.poll();
        assert(self@.items =~= old(self)@.after_poll().items);
        res
    }
}

/// Shuts a channel down after an I/O failure: both halves are closed, and
/// frames that wait to be written are dropped. Doing it twice is the same
/// as doing it once.
pub fn shutdown(sender: &mut Sender, receiver: &mut Receiver)
    ensures
        final(sender)@ == old(sender)@.shutdown(),
        final(receiver)@ == old(receiver)@.close(),
{
    sender.shutdown();
    receiver.close();
}

/// The name under which this host is announced to others, when none is
/// given.
pub open spec fn default_hostname() -> Seq<char> {
    "localhost"@
}

/// The address that listeners bind to: every interface of the host.
pub open spec fn bind_address() -> Seq<char> {
    "0.0.0.0"@
}

/// The entry point of the transport: it knows the name under which this
/// host is announced.
#[derive(Clone, Debug)]
pub struct Network {
    external: String,
}

impl View for Network {
    type V = Seq<char>;

    closed spec fn view(&self) -> Seq<char> {
        self.external@
    }
}

impl Network {
    /// Sets the transport up. The host is announced under `external`, or as
    /// `localhost` where none is given. This cannot fail.
    pub fn init(external: Option<String>) -> (res: Result<Network, Error>)
        ensures
            res matches Ok(network) && network@ == (match external {
                Some(name) => name@,
                None => default_hostname(),
            }),
    {
        let external = match external {
            Some(name) => name,
            None => "localhost".to_owned(),
        };
        Ok(Network { external })
    }

    /// The name under which this host is announced.
    pub fn hostname(&self) -> (name: &str)
        ensures
            name@ == self@,
    {
        self.external.as_str()
    }

    /// The two halves of a channel for a stream that was just connected:
    /// both open, both empty.
    pub fn channel(&self) -> (pair: (Sender, Receiver))
        ensures
            pair.0@ == QueueView::<Seq<SectionView>>::fresh(),
            pair.1@ == QueueView::<Seq<SectionView>>::fresh(),
    {
        (Sender::new(), Receiver::new())
    }

    /// A channel to a remote endpoint, given how the attempt to connect to
    /// it ended: the channel where it succeeded, its error where it did not.
    pub fn connect(&self, connected: Result<(), Error>) -> (res: Result<(Sender, Receiver), Error>)
        ensures
            match connected {
                Ok(_) => res matches Ok(pair) && pair.0@ == QueueView::<Seq<SectionView>>::fresh()
                    && pair.1@ == QueueView::<Seq<SectionView>>::fresh(),
                Err(err) => res matches Err(e) && e == err,
            },
    {
        match connected {
            Ok(_) => Ok(self.channel()),
            Err(err) => Err(err),
        }
    }

    /// The address to bind a listener to: every interface, and the port
    /// that was asked for, or 0 (any free port) where none was.
    pub fn bind_to(port: Option<u16>) -> (addr: (&'static str, u16))
        ensures
            addr.0@ == bind_address(),
            addr.1 == (match port {
                Some(p) => p,
                None => 0u16,
            }),
    {
        let port = match port {
            Some(p) => p,
            None => 0,
        };
        ("0.0.0.0", port)
    }

    /// A listener, given how the attempt to bind ended: with the port that
    /// was bound, or with an error.
    pub fn listen<C>(&self, bound: Result<u16, Error>) -> (res: Result<Listener<C>, Error>)
        ensures
            match bound {
                Ok(port) => res matches Ok(listener) && listener.spec_external() == self@
                    && listener.spec_port() == port && listener@ == QueueView::<C>::fresh(),
                Err(err) => res matches Err(e) && e == err,
            },
    {
        match bound {
            Ok(port) => Ok(Listener::new(self, port)),
            Err(err) => Err(err),
        }
    }
}

/// What the accept loop learns from one attempt to accept a connection,
/// and what the listener makes of it.
pub open spec fn accepted<C>(q: QueueView<C>, conn: Result<C, Error>) -> QueueView<C> {
    match conn {
        Ok(c) => q.push(c),
        Err(err) => q.fail(err),
    }
}

/// A bound listener: the connections that were accepted and wait for the
/// user, and the address under which the listener is announced.
///
/// `C` is what stands for a connection: the two halves of its channel, or
/// the handles of a multiplexer.
#[derive(Debug)]
pub struct Listener<C> {
    external: String,
    port: u16,
    queue: Queue<C>,
}

impl<C> View for Listener<C> {
    type V = QueueView<C>;

    closed spec fn view(&self) -> QueueView<C> {
        self.queue@
    }
}

impl<C> Listener<C> {
    /// The host name under which the listener is announced.
    pub closed spec fn spec_external(&self) -> Seq<char> {
        self.external@
    }

    /// The port that the listener is bound to.
    pub closed spec fn spec_port(&self) -> u16 {
        self.port
    }

    /// A listener that is bound to `port` and has accepted nothing yet. It
    /// is announced under the network's host name.
    pub fn new(network: &Network, port: u16) -> (listener: Listener<C>)
        ensures
            listener.spec_external() == network@,
            listener.spec_port() == port,
            listener@ == QueueView::<C>::fresh(),
    {
        Listener { external: network.hostname().to_owned(), port, queue: Queue::new() }
    }

    /// The address to announce: the configured host name and the port that
    /// was bound. The name is for announcing only, not for binding.
    pub fn external_addr(&self) -> (addr: (&str, u16))
        ensures
            addr.0@ == self.spec_external(),
            addr.1 == self.spec_port(),
    {
        (self.external.as_str(), self.port)
    }

    /// Takes in what one attempt to accept gave: a connection or an error.
    /// Says whether the accept loop goes on: an error ends the stream of
    /// connections, and so does a listener that nobody listens to.
    pub fn accept(&mut self, conn: Result<C, Error>) -> (more: bool)
        ensures
            final(self)@ == accepted(old(self)@, conn),
            final(self).spec_external() == old(self).spec_external(),
            final(self).spec_port() == old(self).spec_port(),
            more == (conn is Ok && !old(self)@.closed),
    {
        match conn {
            Ok(c) => self.queue.push(c),
            Err(err) => {
                self.queue.fail(err);
                false
            },
        }
    }

    /// Stops listening. Connections that wait can still be taken.
    pub fn close(&mut self)
        ensures
            final(self)@ == old(self)@.close(),
            final(self).spec_external() == old(self).spec_external(),
            final(self).spec_port() == old(self).spec_port(),
    {
        self.queue.close()
    }

    /// The next accepted connection. After the last one, an accept error is
    /// reported once, and then the end of the stream.
    pub fn poll(&mut self) -> (res: Result<Async<Option<C>>, Error>)
        ensures
            res == old(self)@.polled(),
            final(self)@ == old(self)@.after_poll(),
            final(self).spec_external() == old(self).spec_external(),
            final(self).spec_port() == old(self).spec_port(),
    {
        self.queue.poll()
    }
}

/// The bytes of a run of frames with one more frame at its end are the
/// bytes of the run, then the bytes of that frame.
pub proof fn lemma_frames_bytes_push(frames: Seq<Seq<SectionView>>, last: Seq<SectionView>)
    ensures
        frames_bytes(frames.push(last)) == frames_bytes(frames) + frame_bytes(last),
    decreases frames.len(),
{
    let all = frames.push(last);
    if frames.len() == 0 {
        assert(all[0] == last);
        assert(all.drop_first().len() == 0);
        assert(frames_bytes(all.drop_first()) =~= Seq::<u8>::empty());
        assert(frames_bytes(all) =~= frames_bytes(frames) + frame_bytes(last));
    } else {
        lemma_frames_bytes_push(frames.drop_first(), last);
        assert(all.drop_first() =~= frames.drop_first().push(last));
        assert(frames_bytes(all) =~= frames_bytes(frames) + frame_bytes(last));
    }
}

/// Frames reach the other end of a channel in the order in which they were
/// sent.
///
/// When every frame of a run fits, the bytes that the writer makes of the
/// run are read back by the reader, into an open inbound half, as exactly
/// those frames in the same order, behind what the half already held; the
/// end of the byte stream then closes the half in good order.
pub proof fn lemma_channel_keeps_order(
    frames: Seq<Seq<SectionView>>,
    q: QueueView<Seq<SectionView>>,
)
    requires
        fitting_prefix(frames) == frames.len(),
        !q.closed,
    ensures
        received(q, frames_bytes(frames)) == (QueueView {
            items: q.items + frames,
            closed: true,
            ..q
        }),
    decreases frames.len(),
{
    let stream = frames_bytes(frames);
    if frames.len() == 0 {
        assert(q.items + frames =~= q.items);
    } else {
        let rest = frames.drop_first();
        lemma_frame_round_trip(frames[0], frames_bytes(rest));
        let n = frame_bytes(frames[0]).len() as int;
        assert(stream.skip(n) =~= frames_bytes(rest));
        lemma_channel_keeps_order(rest, q.push(frames[0]));
        assert(q.push(frames[0]).items + rest =~= q.items + frames);
    }
}

} // verus!
