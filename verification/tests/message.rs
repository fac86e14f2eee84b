use timely_query::error::Error;
use timely_query::message::{MessageBuf, Section, LEN_BYTES, TAG_BYTES, TAG_STR, TAG_U32, TAG_U8};

fn round_trip(msg: &MessageBuf) -> MessageBuf {
    let mut stream = Vec::new();
    msg.write(&mut stream).unwrap();
    let (back, taken) = MessageBuf::read(&stream).unwrap().unwrap();
    assert_eq!(taken, stream.len());
    back
}

#[test]
fn frame_round_trip() {
    let mut msg = MessageBuf::empty();
    msg.push_u8(1).unwrap();
    msg.push_u32(42).unwrap();
    msg.push_str("hello").unwrap();

    let mut back = round_trip(&msg);
    assert_eq!(back.len(), 3);
    assert_eq!(back.pop_u8(), Ok(1));
    assert_eq!(back.pop_u32(), Ok(42));
    assert_eq!(back.pop_string(), Ok(String::from("hello")));
    assert_eq!(back.pop_u8(), Err(Error::Decoding));
    assert_eq!(back.pop_string(), Err(Error::Decoding));
}

#[test]
fn frame_bytes_are_as_documented() {
    let mut msg = MessageBuf::empty();
    msg.push_u8(7).unwrap();
    msg.push_u32(0x01020304).unwrap();
    msg.push_str("hé").unwrap();
    msg.push_bytes(vec![9, 8]).unwrap();

    let body = msg.to_bytes().unwrap();
    let expected: Vec<u8> = vec![
        TAG_U8, 7,
        TAG_U32, 4, 3, 2, 1,
        TAG_STR, 3, 0, 0, 0, b'h', 0xc3, 0xa9,
        TAG_BYTES, 2, 0, 0, 0, 9, 8,
    ];
    assert_eq!(body, expected);

    let mut stream = vec![0xff];
    msg.write(&mut stream).unwrap();
    assert_eq!(stream[0], 0xff);
    assert_eq!(&stream[1..1 + LEN_BYTES], &[22, 0, 0, 0]);
    assert_eq!(&stream[1 + LEN_BYTES..], &expected[..]);
    assert_eq!(MessageBuf::frame_len(&stream[1..]), Some(26));
}

#[test]
fn empty_frame_round_trip() {
    let msg = MessageBuf::empty();
    let mut stream = Vec::new();
    msg.write(&mut stream).unwrap();
    assert_eq!(stream, vec![0, 0, 0, 0]);
    let (mut back, taken) = MessageBuf::read(&stream).unwrap().unwrap();
    assert_eq!(taken, 4);
    assert_eq!(back.len(), 0);
    assert!(back.pop().is_none());
}

#[test]
fn pop_order_is_push_order() {
    let mut msg = MessageBuf::empty();
    for i in 0..10u32 {
        msg.push_u32(i).unwrap();
    }
    for i in 0..10u32 {
        assert_eq!(msg.pop_u32(), Ok(i));
    }
    assert_eq!(msg.pop_u32(), Err(Error::Decoding));
}

#[test]
fn pop_of_another_type_fails_and_keeps_the_section() {
    let mut msg = MessageBuf::empty();
    msg.push_u32(5).unwrap();
    assert_eq!(msg.pop_u8(), Err(Error::Decoding));
    assert_eq!(msg.pop_string(), Err(Error::Decoding));
    assert_eq!(msg.pop_bytes(), Err(Error::Decoding));
    assert_eq!(msg.head_tag(), TAG_U32);
    assert_eq!(msg.pop_u32(), Ok(5));
    assert_eq!(msg.head_tag(), 0);
}

#[test]
fn generic_push_and_pop() {
    let mut msg = MessageBuf::empty();
    msg.push(Section::Bytes(vec![1, 2, 3])).unwrap();
    msg.push(Section::Str(String::from("x"))).unwrap();
    match msg.pop() {
        Some(Section::Bytes(b)) => assert_eq!(b, vec![1, 2, 3]),
        other => panic!("unexpected section {:?}", other),
    }
    match msg.pop() {
        Some(Section::Str(s)) => assert_eq!(s, "x"),
        other => panic!("unexpected section {:?}", other),
    }
    assert!(msg.pop().is_none());
}

#[test]
fn read_reports_end_of_stream() {
    assert!(matches!(MessageBuf::read(&[]), Ok(None)));
    assert_eq!(MessageBuf::frame_len(&[1, 2, 3]), None);
}

#[test]
fn read_reports_short_streams_as_io_errors() {
    assert!(matches!(MessageBuf::read(&[2, 0]), Err(Error::Io)));
    assert!(matches!(MessageBuf::read(&[2, 0, 0, 0, TAG_U8]), Err(Error::Io)));
}

#[test]
fn read_reports_malformed_frames_as_framing_errors() {
    // unknown tag
    assert!(matches!(MessageBuf::read(&[2, 0, 0, 0, 9, 9]), Err(Error::Framing)));
    // a u32 section that is cut off
    assert!(matches!(MessageBuf::read(&[3, 0, 0, 0, TAG_U32, 1, 2]), Err(Error::Framing)));
    // a string that is not UTF-8
    assert!(matches!(
        MessageBuf::read(&[6, 0, 0, 0, TAG_STR, 1, 0, 0, 0, 0xff]),
        Err(Error::Framing)
    ));
    // a byte block that claims more than is there
    assert!(matches!(
        MessageBuf::from_bytes(&[TAG_BYTES, 5, 0, 0, 0, 1]),
        Err(Error::Framing)
    ));
}

#[test]
fn read_takes_one_frame_and_leaves_the_rest() {
    let mut first = MessageBuf::empty();
    first.push_str("Ping").unwrap();
    let mut second = MessageBuf::empty();
    second.push_str("Pong").unwrap();

    let mut stream = Vec::new();
    first.write(&mut stream).unwrap();
    second.write(&mut stream).unwrap();

    let (mut a, taken) = MessageBuf::read(&stream).unwrap().unwrap();
    assert_eq!(a.pop_string(), Ok(String::from("Ping")));
    let (mut b, rest) = MessageBuf::read(&stream[taken..]).unwrap().unwrap();
    assert_eq!(b.pop_string(), Ok(String::from("Pong")));
    assert_eq!(taken + rest, stream.len());
    assert!(matches!(MessageBuf::read(&stream[taken + rest..]), Ok(None)));
}

#[test]
fn strings_keep_their_characters() {
    let text = "naïve — 日本語 🦀";
    let mut msg = MessageBuf::empty();
    msg.push_str(text).unwrap();
    let mut back = round_trip(&msg);
    assert_eq!(back.pop_string(), Ok(String::from(text)));
}
