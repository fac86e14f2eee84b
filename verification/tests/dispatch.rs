use timely_query::dispatch::{Dispatch, Handler, State};
use timely_query::executor::ExecutorId;
use timely_query::error::Error;
use timely_query::message::MessageBuf;
use timely_query::rpc::{multiplex, Incoming, Outgoing, RequestBuf, Resolver};
use timely_query::transport::{Async, Sender};

fn request(id: u32, name: &str, payload: Option<Vec<u8>>) -> RequestBuf {
    let (mut outgoing, mut incoming): (Outgoing<u8>, Incoming) = multiplex();
    let mut frame = MessageBuf::empty();
    frame.push_u8(0).unwrap();
    frame.push_u32(id).unwrap();
    frame.push_str(name).unwrap();
    if let Some(payload) = payload {
        frame.push_bytes(payload).unwrap();
    }
    Resolver::decode(frame, &mut outgoing, &mut incoming).unwrap();
    match incoming.poll() {
        Ok(Async::Ready(Some(req))) => req,
        _ => panic!("no request"),
    }
}

#[test]
fn known_names_are_routed() {
    let mut dispatch = Dispatch::new();
    for (name, handler) in vec![
        ("Submission", Handler::Submission),
        ("AddWorkerGroup", Handler::AddWorkerGroup),
        ("AddExecutor", Handler::AddExecutor),
    ] {
        assert_eq!(handler.name(), name);
        let action = dispatch.dispatch(request(4, name, Some(vec![1, 2]))).unwrap();
        assert_eq!(action.handler, handler);
        assert_eq!(action.payload, vec![1, 2]);
    }
}

#[test]
fn unknown_name_is_fatal_for_the_connection() {
    let mut dispatch = Dispatch::new();
    let mut origin = Sender::new();
    let action = dispatch.dispatch(request(1, "AddExecutor", Some(vec![]))).unwrap();
    dispatch.executor_added(ExecutorId(5), action.resp, vec![5], &mut origin);

    for name in vec!["Ping", "", "submission", "AddExecutor ", "AddExecutors"] {
        let res = dispatch.dispatch(request(2, name, Some(vec![])));
        assert!(matches!(res, Err(Error::UnknownRequest)));
    }
    // the tokens of the connection are still there to be released
    assert!(dispatch.holds(ExecutorId(5)));

    // another connection is not affected
    let mut other = Dispatch::new();
    assert!(other.dispatch(request(2, "Submission", Some(vec![]))).is_ok());
}

#[test]
fn request_without_payload_is_invalid() {
    let mut dispatch = Dispatch::new();
    let res = dispatch.dispatch(request(2, "Submission", None));
    assert!(matches!(res, Err(Error::Decoding)));
}

#[test]
fn dispatch_resource_release() {
    let mut dispatch = Dispatch::new();
    let mut origin = Sender::new();

    // the connection sends AddExecutor and receives an executor id
    let action = dispatch.dispatch(request(7, "AddExecutor", Some(vec![0xaa]))).unwrap();
    assert_eq!(action.handler, Handler::AddExecutor);
    let id = ExecutorId(3);
    dispatch.executor_added(id, action.resp, vec![3, 0, 0, 0, 0, 0, 0, 0], &mut origin);
    assert!(dispatch.holds(id));

    let mut reply = match origin.take() {
        Ok(Async::Ready(Some(frame))) => frame,
        _ => panic!("no reply"),
    };
    assert_eq!(reply.pop_u8(), Ok(1));
    assert_eq!(reply.pop_u32(), Ok(7));
    assert_eq!(reply.pop_bytes(), Ok(vec![0, 3, 0, 0, 0, 0, 0, 0, 0]));

    // the connection is closed: the executor is removed exactly once
    let released = dispatch.release();
    assert_eq!(released, vec![State::Executor(id)]);
}

#[test]
fn release_lists_each_token_once() {
    let mut dispatch = Dispatch::new();
    let mut origin = Sender::new();
    for id in vec![9u64, 2, 9, 5, 2] {
        let action = dispatch.dispatch(request(1, "AddExecutor", Some(vec![]))).unwrap();
        dispatch.executor_added(ExecutorId(id), action.resp, vec![], &mut origin);
    }
    let mut released = dispatch.release();
    released.sort_by_key(|s| match s {
        State::Executor(id) => id.0,
    });
    assert_eq!(
        released,
        vec![
            State::Executor(ExecutorId(2)),
            State::Executor(ExecutorId(5)),
            State::Executor(ExecutorId(9)),
        ]
    );
    assert!(Dispatch::new().release().is_empty());
}

#[test]
fn handlers_by_name() {
    assert_eq!(Handler::by_name("Submission"), Some(Handler::Submission));
    assert_eq!(Handler::by_name("AddWorkerGroup"), Some(Handler::AddWorkerGroup));
    assert_eq!(Handler::by_name("AddExecutor"), Some(Handler::AddExecutor));
    assert_eq!(Handler::by_name("Remove"), None);
}
