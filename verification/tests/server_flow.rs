//! One connection against the store, at the byte level: request bytes in,
//! response bytes out, with the clock supplied explicitly.

use mini_redis::cmd::{Applied, Command};
use mini_redis::db::Db;
use mini_redis::frame::Frame;

fn respond(db: &mut Db, input: &[u8], now_ms: u64) -> Vec<u8> {
    let (frame, used) = Frame::parse(input, 0).expect("one whole frame");
    assert_eq!(used, input.len());
    let command = Command::from_frame(frame).expect("a valid command");
    match command.apply(db, now_ms).expect("an applicable command") {
        Applied::Respond { response, .. } => response.encode(),
        Applied::BeginSubscribe { .. } => panic!("expected a direct response"),
    }
}

#[test]
fn server_key_value_get_set() {
    let mut db = Db::new();

    assert_eq!(
        respond(&mut db, b"*2\r\n$3\r\nGET\r\n$5\r\nhello\r\n", 0),
        b"$-1\r\n"
    );
    assert_eq!(
        respond(&mut db, b"*3\r\n$3\r\nSET\r\n$5\r\nhello\r\n$5\r\nworld\r\n", 0),
        b"+OK\r\n"
    );
    assert_eq!(
        respond(&mut db, b"*2\r\n$3\r\nGET\r\n$5\r\nhello\r\n", 0),
        b"$5\r\nworld\r\n"
    );
}

#[test]
fn key_value_timeout() {
    let mut db = Db::new();

    assert_eq!(
        respond(
            &mut db,
            b"*5\r\n$3\r\nSET\r\n$5\r\nhello\r\n$5\r\nworld\r\n+EX\r\n:1\r\n",
            0
        ),
        b"+OK\r\n"
    );

    // Within the second the value stands.
    assert_eq!(
        respond(&mut db, b"*2\r\n$3\r\nGET\r\n$5\r\nhello\r\n", 500),
        b"$5\r\nworld\r\n"
    );

    // Once the second has passed the reaper removes it.
    let next = db.purge_expired_keys(1000);
    assert_eq!(next, None);
    assert_eq!(
        respond(&mut db, b"*2\r\n$3\r\nGET\r\n$5\r\nhello\r\n", 1000),
        b"$-1\r\n"
    );
}

#[test]
fn send_error_unknown_command() {
    let mut db = Db::new();

    assert_eq!(
        respond(&mut db, b"*2\r\n$3\r\nFOO\r\n$5\r\nhello\r\n", 0),
        b"-ERR unknown command 'foo'\r\n"
    );
}

#[test]
fn set_option_word_is_case_insensitive() {
    let mut db = Db::new();

    assert_eq!(
        respond(
            &mut db,
            b"*5\r\n$3\r\nSET\r\n$5\r\nhello\r\n$5\r\nworld\r\n+ex\r\n:1\r\n",
            0
        ),
        b"+OK\r\n"
    );
    assert_eq!(db.purge_expired_keys(999), Some(1000));
    assert_eq!(db.purge_expired_keys(1000), None);
}

#[test]
fn set_rejects_other_options() {
    let mut db = Db::new();
    let input = b"*5\r\n$3\r\nSET\r\n$5\r\nhello\r\n$5\r\nworld\r\n+NX\r\n:1\r\n";
    let (frame, _) = Frame::parse(input, 0).unwrap();
    assert!(Command::from_frame(frame).is_err());
}

#[test]
fn set_with_px_milliseconds() {
    let mut db = Db::new();
    assert_eq!(
        respond(
            &mut db,
            b"*5\r\n$3\r\nSET\r\n$5\r\nhello\r\n$5\r\nworld\r\n+PX\r\n:250\r\n",
            0
        ),
        b"+OK\r\n"
    );
    assert_eq!(
        respond(&mut db, b"*2\r\n$3\r\nGET\r\n$5\r\nhello\r\n", 100),
        b"$5\r\nworld\r\n"
    );
    db.purge_expired_keys(250);
    assert_eq!(
        respond(&mut db, b"*2\r\n$3\r\nGET\r\n$5\r\nhello\r\n", 250),
        b"$-1\r\n"
    );
}

#[test]
fn extra_arguments_close_the_connection() {
    let (frame, _) = Frame::parse(b"*3\r\n$3\r\nGET\r\n$5\r\nhello\r\n$5\r\nworld\r\n", 0).unwrap();
    assert!(Command::from_frame(frame).is_err());
}

#[test]
fn unsubscribe_outside_subscribed_state_is_an_error() {
    let mut db = Db::new();
    let (frame, _) = Frame::parse(b"*2\r\n$11\r\nUNSUBSCRIBE\r\n$5\r\nhello\r\n", 0).unwrap();
    let command = Command::from_frame(frame).unwrap();
    assert!(command.apply(&mut db, 0).is_err());
}
