//! The client's half of the protocol: commands encoded to request bytes,
//! and the server's reply frames read back.

use mini_redis::clients::{apply_unsubscribe_ack, check_subscribe_ack, parse_message_frame};
use mini_redis::cmd::subscribe::{make_message_frame, make_subscribe_frame, make_unsubscribe_frame};
use mini_redis::cmd::{Applied, Command, Get, Ping, SetCmd};
use mini_redis::db::Db;
use mini_redis::frame::Frame;

fn respond_to(db: &mut Db, request: Frame) -> Frame {
    let bytes = request.encode();
    let (frame, used) = Frame::parse(&bytes, 0).expect("one whole frame");
    assert_eq!(used, bytes.len());
    let command = Command::from_frame(frame).expect("a valid command");
    match command.apply(db, 0).expect("an applicable command") {
        Applied::Respond { response, .. } => response,
        Applied::BeginSubscribe { .. } => panic!("expected a direct response"),
    }
}

#[test]
fn ping_pong_without_message() {
    let mut db = Db::new();
    let response = respond_to(&mut db, Ping::new(None).into_frame());
    match response {
        Frame::Simple(s) => assert_eq!(s, "PONG"),
        other => panic!("unexpected reply {:?}", other),
    }
}

#[test]
fn ping_pong_with_message() {
    let mut db = Db::new();
    let payload = "你好世界".as_bytes().to_vec();
    let response = respond_to(&mut db, Ping::new(Some(payload.clone())).into_frame());
    match response {
        Frame::Bulk(value) => assert_eq!(value, payload),
        other => panic!("unexpected reply {:?}", other),
    }
}

#[test]
fn client_key_value_get_set() {
    let mut db = Db::new();

    let set = SetCmd::new("hello", b"world".to_vec(), None);
    match respond_to(&mut db, set.into_frame()) {
        Frame::Simple(s) => assert_eq!(s, "OK"),
        other => panic!("unexpected reply {:?}", other),
    }

    let get = Get::new("hello");
    match respond_to(&mut db, get.into_frame()) {
        Frame::Bulk(value) => assert_eq!(value, b"world".to_vec()),
        other => panic!("unexpected reply {:?}", other),
    }
}

#[test]
fn receive_message_subscribed_channel() {
    let mut db = Db::new();
    let mut rx = db.subscribe(String::from("hello"));

    let ack = make_subscribe_frame(String::from("hello"), 1);
    assert!(check_subscribe_ack(&ack, "hello"));

    db.publish("hello", b"world".to_vec());
    let payload = rx.try_recv().unwrap();
    let message = parse_message_frame(make_message_frame(String::from("hello"), payload)).unwrap();
    assert_eq!(message.channel, "hello");
    assert_eq!(message.content, b"world".to_vec());
}

#[test]
fn receive_message_multiple_subscribed_channels() {
    let mut db = Db::new();
    let mut rx_hello = db.subscribe(String::from("hello"));
    let mut rx_world = db.subscribe(String::from("world"));

    db.publish("hello", b"world".to_vec());
    db.publish("world", b"howdy?".to_vec());

    let first =
        parse_message_frame(make_message_frame(String::from("hello"), rx_hello.try_recv().unwrap()))
            .unwrap();
    assert_eq!(first.channel, "hello");
    assert_eq!(first.content, b"world".to_vec());

    let second =
        parse_message_frame(make_message_frame(String::from("world"), rx_world.try_recv().unwrap()))
            .unwrap();
    assert_eq!(second.channel, "world");
    assert_eq!(second.content, b"howdy?".to_vec());
}

#[test]
fn unsubscribes_from_channels() {
    let mut subscribed = vec![String::from("hello"), String::from("world")];

    let ack = make_unsubscribe_frame(String::from("hello"), 1);
    apply_unsubscribe_ack(&mut subscribed, &ack).unwrap();
    assert_eq!(subscribed, vec![String::from("world")]);

    // Acknowledging a channel that is not subscribed is refused.
    let bogus = make_unsubscribe_frame(String::from("hello"), 0);
    assert!(apply_unsubscribe_ack(&mut subscribed, &bogus).is_err());
}
