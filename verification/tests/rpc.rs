use timely_query::error::Error;
use timely_query::message::MessageBuf;
use timely_query::rpc::{
    multiplex, Canceled, Decoded, Incoming, Outgoing, RequestBuf, Resolver, Response, Server, Step,
    Type,
};
use timely_query::transport::{Async, Network, Sender};

/// One end of a connection. The completion of a request is the index of a
/// slot in `slots`; fulfilling it puts the frame there, dropping it marks the
/// slot as cancelled.
struct Endpoint {
    outgoing: Outgoing<usize>,
    incoming: Incoming,
    tx: Sender,
    slots: Vec<Slot>,
}

enum Slot {
    Waiting,
    Fulfilled(MessageBuf),
    Cancelled,
    Taken,
}

impl Endpoint {
    fn new() -> Endpoint {
        let (outgoing, incoming) = multiplex();
        Endpoint { outgoing, incoming, tx: Sender::new(), slots: Vec::new() }
    }

    fn request(&mut self, name: &str, payload: Vec<u8>) -> (Response, usize) {
        let slot = self.slots.len();
        self.slots.push(Slot::Waiting);
        match self.outgoing.request(&mut self.tx, name, payload, slot) {
            Ok((response, displaced)) => {
                if let Some(old) = displaced {
                    self.slots[old] = Slot::Cancelled;
                }
                (response, slot)
            }
            Err((_, back)) => {
                self.slots[back] = Slot::Cancelled;
                panic!("request refused");
            }
        }
    }

    fn ping(&mut self, x: i32) -> (Response, usize) {
        self.request("Ping", x.to_le_bytes().to_vec())
    }

    fn received(&mut self, slot: usize) -> Result<Async<MessageBuf>, Canceled> {
        match std::mem::replace(&mut self.slots[slot], Slot::Taken) {
            Slot::Waiting => {
                self.slots[slot] = Slot::Waiting;
                Ok(Async::NotReady)
            }
            Slot::Fulfilled(msg) => Ok(Async::Ready(msg)),
            Slot::Cancelled => Err(Canceled),
            Slot::Taken => panic!("polled twice"),
        }
    }

    fn poll(&mut self, response: &Response, slot: usize) -> Result<Async<Vec<u8>>, Result<Vec<u8>, Error>> {
        let received = self.received(slot);
        response.poll(received)
    }

    fn cancel(&mut self, response: Response, slot: usize) {
        if response.cancel(&mut self.outgoing).is_some() {
            self.slots[slot] = Slot::Cancelled;
        }
    }

    /// Feeds one event of the reading side into this endpoint.
    fn inbound(&mut self, event: Result<Option<MessageBuf>, Error>) -> bool {
        match Resolver::dispatch(event, &mut self.outgoing, &mut self.tx, &mut self.incoming) {
            Step::Continue(Decoded::Completed(slot, msg)) => {
                self.slots[slot] = Slot::Fulfilled(msg);
                true
            }
            Step::Continue(_) => true,
            Step::Stop(pending) => {
                for (_, slot) in pending {
                    self.slots[slot] = Slot::Cancelled;
                }
                false
            }
        }
    }

    fn next_request(&mut self) -> Option<RequestBuf> {
        match self.incoming.poll() {
            Ok(Async::Ready(req)) => req,
            Ok(Async::NotReady) => panic!("no request"),
            Err(e) => panic!("incoming failed: {:?}", e),
        }
    }
}

/// Moves every frame that `from` has queued over a byte stream to `to`.
fn carry(from: &mut Endpoint, to: &mut Endpoint) {
    let mut wire = Vec::new();
    loop {
        match from.tx.take() {
            Ok(Async::Ready(Some(msg))) => msg.write(&mut wire).unwrap(),
            _ => break,
        }
    }
    let mut at = 0;
    while at < wire.len() {
        let (msg, taken) = MessageBuf::read(&wire[at..]).unwrap().unwrap();
        at += taken;
        assert!(to.inbound(Ok(Some(msg))));
    }
}

fn number(bytes: &[u8]) -> i32 {
    let mut word = [0u8; 4];
    word.copy_from_slice(bytes);
    i32::from_le_bytes(word)
}

/// The server's handler: answers `Ping(x)` with `Pong(x + 1)`.
fn serve_one(server: &mut Endpoint) {
    let req = server.next_request().unwrap();
    assert_eq!(req.name(), "Ping");
    let (payload, responder) = req.decode().unwrap();
    let pong = number(&payload) + 1;
    responder.respond(Ok(pong.to_le_bytes().to_vec()), &mut server.tx);
}

fn pong(res: Result<Async<Vec<u8>>, Result<Vec<u8>, Error>>) -> i32 {
    match res {
        Ok(Async::Ready(bytes)) => number(&bytes),
        other => panic!("no pong: {:?}", other),
    }
}

#[test]
fn simple_ping() {
    let mut client = Endpoint::new();
    let mut server = Endpoint::new();

    let (response, slot) = client.ping(5);
    assert!(matches!(client.poll(&response, slot), Ok(Async::NotReady)));
    carry(&mut client, &mut server);
    serve_one(&mut server);
    carry(&mut server, &mut client);

    assert_eq!(pong(client.poll(&response, slot)), 6);
    assert_eq!(client.outgoing.pending_len(), 0);
}

#[test]
fn concurrent_fan_out() {
    let mut client = Endpoint::new();
    let mut server = Endpoint::new();

    let (r1, s1) = client.ping(1);
    let (r2, s2) = client.ping(2);
    let (r3, s3) = client.ping(3);
    assert_eq!((r1.id(), r2.id(), r3.id()), (0, 1, 2));
    assert_eq!(client.outgoing.pending_len(), 3);
    carry(&mut client, &mut server);

    // the server answers in reverse order
    let a = server.next_request().unwrap();
    let b = server.next_request().unwrap();
    let c = server.next_request().unwrap();
    for req in vec![c, b, a] {
        let (payload, responder) = req.decode().unwrap();
        responder.respond(Ok((number(&payload) + 1).to_le_bytes().to_vec()), &mut server.tx);
    }
    carry(&mut server, &mut client);

    assert_eq!(pong(client.poll(&r1, s1)), 2);
    assert_eq!(pong(client.poll(&r2, s2)), 3);
    assert_eq!(pong(client.poll(&r3, s3)), 4);
    assert_eq!(client.outgoing.pending_len(), 0);
}

#[test]
fn cancellation() {
    let mut client = Endpoint::new();
    let mut server = Endpoint::new();

    let (dropped, slot) = client.ping(10);
    let id = dropped.id();
    client.cancel(dropped, slot);
    assert!(!client.outgoing.is_pending(id));
    assert_eq!(client.outgoing.pending_len(), 0);

    // the server still computes and responds
    carry(&mut client, &mut server);
    serve_one(&mut server);
    let frame = match server.tx.take() {
        Ok(Async::Ready(Some(frame))) => frame,
        _ => panic!("no response frame"),
    };
    match Resolver::decode(frame, &mut client.outgoing, &mut client.incoming) {
        Ok(Decoded::Discarded) => {}
        other => panic!("late response was not discarded: {:?}", other),
    }

    let (response, slot) = client.ping(20);
    carry(&mut client, &mut server);
    serve_one(&mut server);
    carry(&mut server, &mut client);
    assert_eq!(pong(client.poll(&response, slot)), 21);
    assert_eq!(client.outgoing.pending_len(), 0);
}

#[test]
fn server_disconnect_mid_call() {
    let mut client = Endpoint::new();
    let mut server = Endpoint::new();

    let (response, slot) = client.ping(0);
    carry(&mut client, &mut server);
    // the server reads the request, and closes without a response
    let req = server.next_request().unwrap();
    assert_eq!(req.name(), "Ping");
    drop(req);

    assert!(!client.inbound(Ok(None)));
    assert!(matches!(client.poll(&response, slot), Err(Err(Error::Cancelled))));
    assert_eq!(client.outgoing.pending_len(), 0);

    // new requests on the same connection fail as well
    match client.outgoing.request(&mut client.tx, "Ping", vec![0, 0, 0, 0], 99) {
        Err((Error::Cancelled, 99)) => {}
        other => panic!("request on a closed connection: {:?}", other.map(|r| r.0)),
    }
    assert_eq!(client.outgoing.pending_len(), 0);
    let late = Response::poll(&response, Err(Canceled));
    assert!(matches!(late, Err(Err(Error::Cancelled))));
}

#[test]
fn peer_closes_after_requests() {
    let mut client = Endpoint::new();
    let mut server = Endpoint::new();

    let mut handles = Vec::new();
    for x in 0..4 {
        handles.push(client.ping(x));
    }
    carry(&mut client, &mut server);
    assert!(!server.inbound(Ok(None)));
    assert!(!client.inbound(Ok(None)));

    for x in 0..4 {
        let req = server.next_request().unwrap();
        assert_eq!(req.id(), x as u32);
        let (payload, _) = req.decode().unwrap();
        assert_eq!(number(&payload), x);
    }
    assert!(server.next_request().is_none());
    assert!(server.next_request().is_none());

    for (response, slot) in handles {
        assert!(matches!(client.poll(&response, slot), Err(Err(Error::Cancelled))));
    }
}

#[test]
fn unmatched_response_is_discarded() {
    let mut client = Endpoint::new();
    let mut server = Endpoint::new();

    let (response, slot) = client.ping(1);
    carry(&mut client, &mut server);
    let req = server.next_request().unwrap();
    let (_, responder) = req.decode().unwrap();
    responder.respond(Ok(2i32.to_le_bytes().to_vec()), &mut server.tx);

    // a response that nobody asked for
    let mut stray = MessageBuf::empty();
    stray.push_u8(Type::Response.to_u8()).unwrap();
    stray.push_u32(77).unwrap();
    stray.push_bytes(vec![0, 9, 9, 9, 9]).unwrap();
    match Resolver::decode(stray, &mut client.outgoing, &mut client.incoming) {
        Ok(Decoded::Discarded) => {}
        other => panic!("stray response: {:?}", other),
    }
    assert!(client.outgoing.is_pending(response.id()));

    carry(&mut server, &mut client);
    assert_eq!(pong(client.poll(&response, slot)), 2);

    // the same response a second time
    let mut again = MessageBuf::empty();
    again.push_u8(Type::Response.to_u8()).unwrap();
    again.push_u32(response.id()).unwrap();
    again.push_bytes(vec![0, 3, 0, 0, 0]).unwrap();
    match Resolver::decode(again, &mut client.outgoing, &mut client.incoming) {
        Ok(Decoded::Discarded) => {}
        other => panic!("duplicate response: {:?}", other),
    }
}

#[test]
fn application_error_is_not_a_transport_error() {
    let mut client = Endpoint::new();
    let mut server = Endpoint::new();

    let (response, slot) = client.ping(1);
    carry(&mut client, &mut server);
    let req = server.next_request().unwrap();
    let (_, responder) = req.decode().unwrap();
    responder.respond(Err(vec![42]), &mut server.tx);
    carry(&mut server, &mut client);

    assert!(matches!(client.poll(&response, slot), Err(Ok(ref e)) if e == &vec![42u8]));

    // the connection stays usable
    let (response, slot) = client.ping(7);
    carry(&mut client, &mut server);
    serve_one(&mut server);
    carry(&mut server, &mut client);
    assert_eq!(pong(client.poll(&response, slot)), 8);
}

#[test]
fn undecodable_response_fails_that_response_only() {
    let mut client = Endpoint::new();
    let (first, s1) = client.ping(1);
    let (second, s2) = client.ping(2);

    // a response whose payload starts with an unknown byte
    let mut bad = MessageBuf::empty();
    bad.push_u8(1).unwrap();
    bad.push_u32(first.id()).unwrap();
    bad.push_bytes(vec![7, 1, 2]).unwrap();
    assert!(client.inbound(Ok(Some(bad))));
    assert!(matches!(client.poll(&first, s1), Err(Err(Error::Decoding))));

    // a response without a payload
    let mut empty = MessageBuf::empty();
    empty.push_u8(1).unwrap();
    empty.push_u32(second.id()).unwrap();
    assert!(client.inbound(Ok(Some(empty))));
    assert!(matches!(client.poll(&second, s2), Err(Err(Error::Decoding))));

    let (third, s3) = client.ping(3);
    let mut good = MessageBuf::empty();
    good.push_u8(1).unwrap();
    good.push_u32(third.id()).unwrap();
    good.push_bytes(vec![0, 4, 0, 0, 0]).unwrap();
    assert!(client.inbound(Ok(Some(good))));
    assert_eq!(pong(client.poll(&third, s3)), 4);
}

#[test]
fn wait_unwrap_gives_success_or_handler_error() {
    let mut client = Endpoint::new();
    let (response, _) = client.ping(1);
    let mut ok = MessageBuf::empty();
    ok.push_bytes(vec![0, 1, 2]).unwrap();
    assert_eq!(response.wait_unwrap(ok), Ok(vec![1, 2]));

    let (response, _) = client.ping(1);
    let mut err = MessageBuf::empty();
    err.push_bytes(vec![1, 5]).unwrap();
    assert_eq!(response.wait_unwrap(err), Err(vec![5]));
}

#[test]
fn kind_bytes() {
    assert_eq!(Type::from_u8(0), Ok(Type::Request));
    assert_eq!(Type::from_u8(1), Ok(Type::Response));
    assert_eq!(Type::from_u8(2), Err(Error::Framing));
    assert_eq!(Type::from_u8(255), Err(Error::Framing));
    assert_eq!(Type::Request.to_u8(), 0);
    assert_eq!(Type::Response.to_u8(), 1);
}

#[test]
fn request_frame_is_kind_id_name_payload() {
    let mut client = Endpoint::new();
    let (response, _) = client.request("Ping", vec![1, 2, 3]);
    assert_eq!(response.id(), 0);
    let mut frame = match client.tx.take() {
        Ok(Async::Ready(Some(frame))) => frame,
        _ => panic!("no frame"),
    };
    assert_eq!(frame.pop_u8(), Ok(0));
    assert_eq!(frame.pop_u32(), Ok(0));
    assert_eq!(frame.pop_string(), Ok(String::from("Ping")));
    assert_eq!(frame.pop_bytes(), Ok(vec![1, 2, 3]));
    assert_eq!(frame.len(), 0);

    let (response, _) = client.request("Ping", vec![]);
    assert_eq!(response.id(), 1);
}

#[test]
fn response_frame_is_kind_id_outcome() {
    let mut server = Endpoint::new();
    let mut request = MessageBuf::empty();
    request.push_u8(0).unwrap();
    request.push_u32(31).unwrap();
    request.push_str("Ping").unwrap();
    request.push_bytes(vec![]).unwrap();
    assert!(server.inbound(Ok(Some(request))));
    let (_, responder) = server.next_request().unwrap().decode().unwrap();
    responder.respond(Err(vec![8, 9]), &mut server.tx);

    let mut frame = match server.tx.take() {
        Ok(Async::Ready(Some(frame))) => frame,
        _ => panic!("no frame"),
    };
    assert_eq!(frame.pop_u8(), Ok(1));
    assert_eq!(frame.pop_u32(), Ok(31));
    assert_eq!(frame.pop_bytes(), Ok(vec![1, 8, 9]));
    assert_eq!(frame.len(), 0);
}

#[test]
fn bad_frames_end_the_connection() {
    for case in 0..4 {
        let mut endpoint = Endpoint::new();
        let (response, slot) = endpoint.ping(1);
        let mut frame = MessageBuf::empty();
        let expected = match case {
            0 => Error::Decoding,
            1 => {
                frame.push_u8(9).unwrap();
                Error::Framing
            }
            2 => {
                frame.push_u8(0).unwrap();
                frame.push_str("no id").unwrap();
                Error::Decoding
            }
            _ => {
                frame.push_u8(0).unwrap();
                frame.push_u32(1).unwrap();
                frame.push_u32(2).unwrap();
                Error::Decoding
            }
        };
        assert!(!endpoint.inbound(Ok(Some(frame))));
        match endpoint.incoming.poll() {
            Err(e) => assert_eq!(e, expected),
            other => panic!("no error on incoming: {:?}", other),
        }
        assert!(matches!(endpoint.incoming.poll(), Ok(Async::Ready(None))));
        assert!(matches!(endpoint.poll(&response, slot), Err(Err(Error::Cancelled))));
        assert!(endpoint.tx.is_closed());
    }
}

#[test]
fn read_error_is_surfaced_once_on_incoming() {
    let mut endpoint = Endpoint::new();
    assert!(!endpoint.inbound(Err(Error::Io)));
    assert!(matches!(endpoint.incoming.poll(), Err(Error::Io)));
    assert!(matches!(endpoint.incoming.poll(), Ok(Async::Ready(None))));
}

#[test]
fn request_without_payload_cannot_be_decoded() {
    let mut server = Endpoint::new();
    let mut request = MessageBuf::empty();
    request.push_u8(0).unwrap();
    request.push_u32(3).unwrap();
    request.push_str("Ping").unwrap();
    assert!(server.inbound(Ok(Some(request))));
    let req = server.next_request().unwrap();
    assert!(matches!(req.decode(), Err(Error::Decoding)));
}

#[test]
fn requests_to_a_closed_incoming_are_dropped() {
    let mut server = Endpoint::new();
    server.incoming.close();
    let mut request = MessageBuf::empty();
    request.push_u8(0).unwrap();
    request.push_u32(3).unwrap();
    request.push_str("Ping").unwrap();
    request.push_bytes(vec![]).unwrap();
    assert!(server.inbound(Ok(Some(request))));
    assert!(server.next_request().is_none());
}

#[test]
fn server_hands_out_fresh_multiplexers() {
    let network = Network::init(Some(String::from("host"))).unwrap();
    let mut server: Server<usize> = network.server(Ok(9189)).unwrap();
    assert_eq!(server.external_addr(), ("host", 9189));
    assert!(server.accept(Ok(())));
    assert!(!server.accept(Err(Error::Io)));
    match server.poll() {
        Ok(Async::Ready(Some((outgoing, _incoming)))) => assert_eq!(outgoing.pending_len(), 0),
        _ => panic!("no connection"),
    }
    assert!(matches!(server.poll(), Err(Error::Io)));
    assert!(matches!(server.poll(), Ok(Async::Ready(None))));

    let client: Result<(Outgoing<usize>, Incoming), Error> = network.client(Err(Error::Io));
    assert!(matches!(client, Err(Error::Io)));
    let client: Result<(Outgoing<usize>, Incoming), Error> = network.client(Ok(()));
    assert!(client.is_ok());
}
