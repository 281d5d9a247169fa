//! The frame codec at the byte level: decoding, encoding, the round trip,
//! and the decimal reader's edges.

use mini_redis::db::Db;
use mini_redis::frame::{Error, Frame};
use mini_redis::num::duration_from_ms_str;
use mini_redis::parse::Parse;
use mini_redis::subscription::Subscriptions;

fn parse_whole(input: &[u8]) -> Frame {
    let end = Frame::check(input, 0).expect("a complete frame");
    assert_eq!(end, input.len());
    let (frame, used) = Frame::parse(input, 0).expect("a parsable frame");
    assert_eq!(used, input.len());
    frame
}

#[test]
fn decode_simple_frames() {
    assert_eq!(parse_whole(b"+OK\r\n"), Frame::Simple(String::from("OK")));
    assert_eq!(parse_whole(b"-oops\r\n"), Frame::Error(String::from("oops")));
    assert_eq!(parse_whole(b":1234\r\n"), Frame::Integer(1234));
    assert_eq!(parse_whole(b"$5\r\nworld\r\n"), Frame::Bulk(b"world".to_vec()));
    assert_eq!(parse_whole(b"$-1\r\n"), Frame::Null);
    assert_eq!(
        parse_whole(b"*2\r\n$3\r\nGET\r\n$5\r\nhello\r\n"),
        Frame::Array(vec![
            Frame::Bulk(b"GET".to_vec()),
            Frame::Bulk(b"hello".to_vec())
        ])
    );
}

#[test]
fn encode_parse_round_trip() {
    let mut frame = Frame::array();
    frame.push_bulk(b"subscribe".to_vec());
    frame.push_bulk(b"hello".to_vec());
    frame.push_int(1);
    let bytes = frame.encode();
    assert_eq!(bytes, b"*3\r\n$9\r\nsubscribe\r\n$5\r\nhello\r\n:1\r\n");

    let (reparsed, used) = Frame::parse(&bytes, 0).unwrap();
    assert_eq!(used, bytes.len());
    assert_eq!(reparsed, frame);
    assert_eq!(reparsed.encode(), bytes);
}

#[test]
fn decode_incomplete_buffers() {
    for input in [
        &b""[..],
        &b"+OK"[..],
        &b"$5\r\nwor"[..],
        &b"$5\r\nworld"[..],
        &b"*2\r\n$3\r\nGET\r\n"[..],
        &b"$-1\r"[..],
    ] {
        assert!(matches!(Frame::check(input, 0), Err(Error::Incomplete)));
        assert!(matches!(Frame::parse(input, 0), Err(Error::Incomplete)));
    }
}

#[test]
fn decode_protocol_errors() {
    assert!(matches!(Frame::check(b"@oops\r\n", 0), Err(Error::Other(_))));
    assert!(matches!(Frame::parse(b"@oops\r\n", 0), Err(Error::Other(_))));
    assert!(matches!(Frame::check(b":12ab\r\n", 0), Ok(7)));
    // A malformed nil sentinel: the cheap check pass skips its four bytes,
    // the parse pass rejects it.
    assert!(matches!(Frame::check(b"$-2\r\n", 0), Ok(5)));
    assert!(matches!(Frame::parse(b"$-2\r\n", 0), Err(Error::Other(_))));
}

#[test]
fn decode_pipelined_frames() {
    let input = b"+OK\r\n:7\r\n";
    let (first, used) = Frame::parse(input, 0).unwrap();
    assert_eq!(first, Frame::Simple(String::from("OK")));
    let (second, end) = Frame::parse(input, used).unwrap();
    assert_eq!(second, Frame::Integer(7));
    assert_eq!(end, input.len());
}

#[test]
fn decimal_reader_edges() {
    // Leading zeros and a leading plus are read; the canonical encoder
    // never writes them back.
    assert_eq!(parse_whole(b":007\r\n"), Frame::Integer(7));
    assert_eq!(parse_whole(b":+5\r\n"), Frame::Integer(5));
    assert_eq!(
        parse_whole(b":18446744073709551615\r\n"),
        Frame::Integer(u64::MAX)
    );
    assert!(matches!(
        Frame::parse(b":18446744073709551616\r\n", 0),
        Err(Error::Other(_))
    ));
    assert_eq!(Frame::Integer(7).encode(), b":7\r\n");
    assert_eq!(
        Frame::Integer(u64::MAX).encode(),
        b":18446744073709551615\r\n"
    );
}

#[test]
fn bulk_payload_may_hold_line_breaks() {
    let frame = parse_whole(b"$6\r\nab\r\ncd\r\n");
    assert_eq!(frame, Frame::Bulk(b"ab\r\ncd".to_vec()));
    assert_eq!(frame.encode(), b"$6\r\nab\r\ncd\r\n");
}

#[test]
fn bulk_with_invalid_utf8_is_no_string() {
    let frame = parse_whole(b"*1\r\n$2\r\n\xff\xfe\r\n");
    let mut cursor = Parse::new(frame).unwrap();
    assert!(cursor.next_string().is_err());

    let frame = parse_whole(b"*1\r\n$2\r\n\xff\xfe\r\n");
    let mut cursor = Parse::new(frame).unwrap();
    assert_eq!(cursor.next_bytes().unwrap(), b"\xff\xfe".to_vec());
}

#[test]
fn cursor_reports_leftovers() {
    let frame = parse_whole(b"*2\r\n$1\r\na\r\n:3\r\n");
    let mut cursor = Parse::new(frame).unwrap();
    assert_eq!(cursor.next_string().unwrap(), "a");
    assert!(cursor.finish().is_err());

    // `next_int` on the bulk `a` fails with a protocol error, not with an
    // end-of-stream; the argument is consumed either way.
    let frame = parse_whole(b"*1\r\n$1\r\na\r\n");
    let mut cursor = Parse::new(frame).unwrap();
    assert!(matches!(
        cursor.next_int(),
        Err(mini_redis::parse::ParseError::Other(_))
    ));
    assert!(cursor.finish().is_ok());
}

#[test]
fn duration_text_is_read_strictly() {
    assert_eq!(duration_from_ms_str("123"), Some(123));
    assert_eq!(duration_from_ms_str("+7"), Some(7));
    assert_eq!(duration_from_ms_str("0"), Some(0));
    assert_eq!(duration_from_ms_str(""), None);
    assert_eq!(duration_from_ms_str("+"), None);
    assert_eq!(duration_from_ms_str("12a"), None);
    assert_eq!(duration_from_ms_str("-3"), None);
    assert_eq!(duration_from_ms_str("18446744073709551616"), None);
}

#[test]
fn subscription_set_counts() {
    let mut subs = Subscriptions::new();
    assert_eq!(subs.insert(String::from("hello")), 1);
    assert_eq!(subs.insert(String::from("world")), 2);
    // Subscribing twice to one channel does not double it.
    assert_eq!(subs.insert(String::from("hello")), 2);
    assert!(subs.contains("hello"));
    assert_eq!(subs.remove("hello"), 1);
    assert!(!subs.contains("hello"));
    // Leaving a channel that is not subscribed changes nothing.
    assert_eq!(subs.remove("hello"), 1);
    assert_eq!(subs.remove("world"), 0);
}

#[test]
fn store_set_reports_earliest_expiration() {
    let mut db = Db::new();
    // The first expiration on record always wakes the reaper.
    assert!(db.set(String::from("a"), b"1".to_vec(), Some(500), 0));
    // A later expiration does not.
    assert!(!db.set(String::from("b"), b"2".to_vec(), Some(900), 0));
    // An earlier one does again.
    assert!(db.set(String::from("c"), b"3".to_vec(), Some(100), 0));
    assert_eq!(db.next_expiration(), Some(100));

    // The reaper removes what lapsed and reports what is next.
    assert_eq!(db.purge_expired_keys(100), Some(500));
    assert_eq!(db.get("c"), None);
    assert_eq!(db.get("a"), Some(b"1".to_vec()));

    // Overwriting discards the old expiration.
    assert!(!db.set(String::from("a"), b"9".to_vec(), None, 200));
    assert_eq!(db.purge_expired_keys(10_000), None);
    assert_eq!(db.get("a"), Some(b"9".to_vec()));
    assert_eq!(db.get("b"), None);
}

#[test]
fn equal_instants_are_both_purged() {
    let mut db = Db::new();
    db.set(String::from("b"), b"2".to_vec(), Some(100), 0);
    db.set(String::from("a"), b"1".to_vec(), Some(100), 0);
    db.set(String::from("c"), b"3".to_vec(), Some(200), 0);
    assert_eq!(db.purge_expired_keys(100), Some(200));
    assert_eq!(db.get("a"), None);
    assert_eq!(db.get("b"), None);
    assert_eq!(db.get("c"), Some(b"3".to_vec()));
}

#[test]
fn store_shutdown_stops_the_reaper() {
    let mut db = Db::new();
    db.set(String::from("a"), b"1".to_vec(), Some(5), 0);
    db.shutdown_purge_task();
    assert!(db.is_shutdown());
    // After shutdown the purge does nothing and reports nothing.
    assert_eq!(db.purge_expired_keys(10), None);
    assert_eq!(db.get("a"), Some(b"1".to_vec()));
}
