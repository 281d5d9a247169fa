//! The pub/sub flow: subscriptions, fan-out through real broadcast
//! channels, and the subscribed sub-state's restricted command set.

use mini_redis::cmd::subscribe::{
    handle_command, make_message_frame, make_subscribe_frame, make_unsubscribe_frame,
    SubscribedAction,
};
use mini_redis::cmd::{Applied, Command};
use mini_redis::db::Db;
use mini_redis::frame::Frame;
use mini_redis::subscription::Subscriptions;
use tokio::sync::broadcast::Receiver;

struct TestSubscriber {
    subs: Subscriptions,
    receivers: Vec<(String, Receiver<Vec<u8>>)>,
}

impl TestSubscriber {
    fn new() -> TestSubscriber {
        TestSubscriber { subs: Subscriptions::new(), receivers: Vec::new() }
    }

    /// Feeds one frame of request bytes to the subscribed sub-state and
    /// returns the bytes written back.
    fn handle(&mut self, db: &mut Db, input: &[u8]) -> Vec<u8> {
        let (frame, used) = Frame::parse(input, 0).expect("one whole frame");
        assert_eq!(used, input.len());
        match handle_command(frame, &self.subs).expect("an accepted frame") {
            SubscribedAction::Subscribe(channels) => {
                let mut out = Vec::new();
                for channel in channels {
                    let rx = db.subscribe(channel.clone());
                    self.receivers.retain(|(name, _)| *name != channel);
                    self.receivers.push((channel.clone(), rx));
                    let count = self.subs.insert(channel.clone());
                    out.extend_from_slice(&make_subscribe_frame(channel, count as u64).encode());
                }
                out
            }
            SubscribedAction::Unsubscribe(channels) => {
                let mut out = Vec::new();
                for channel in channels {
                    self.receivers.retain(|(name, _)| *name != channel);
                    let count = self.subs.remove(&channel);
                    out.extend_from_slice(&make_unsubscribe_frame(channel, count as u64).encode());
                }
                out
            }
            SubscribedAction::Respond(frame) => frame.encode(),
        }
    }

    /// The next broadcast payload on `channel`, delivered as the wire frame
    /// the server would write.
    fn next_message(&mut self, channel: &str) -> Vec<u8> {
        let (name, rx) = self
            .receivers
            .iter_mut()
            .find(|(name, _)| name == channel)
            .expect("a subscribed channel");
        let payload = rx.try_recv().expect("a delivered message");
        make_message_frame(name.clone(), payload).encode()
    }

    fn no_message(&mut self, channel: &str) -> bool {
        match self.receivers.iter_mut().find(|(name, _)| name == channel) {
            None => true,
            Some((_, rx)) => rx.try_recv().is_err(),
        }
    }
}

fn publish(db: &mut Db, input: &[u8]) -> Vec<u8> {
    let (frame, used) = Frame::parse(input, 0).expect("one whole frame");
    assert_eq!(used, input.len());
    let command = Command::from_frame(frame).expect("a valid command");
    match command.apply(db, 0).expect("an applicable command") {
        Applied::Respond { response, .. } => response.encode(),
        Applied::BeginSubscribe { .. } => panic!("expected a direct response"),
    }
}

#[test]
fn pub_sub() {
    let mut db = Db::new();

    // No subscribers yet: a publish reaches nobody.
    assert_eq!(
        publish(&mut db, b"*3\r\n$7\r\nPUBLISH\r\n$5\r\nhello\r\n$5\r\nworld\r\n"),
        b":0\r\n"
    );

    let mut sub1 = TestSubscriber::new();
    assert_eq!(
        sub1.handle(&mut db, b"*2\r\n$9\r\nSUBSCRIBE\r\n$5\r\nhello\r\n"),
        &b"*3\r\n$9\r\nsubscribe\r\n$5\r\nhello\r\n:1\r\n"[..]
    );

    assert_eq!(
        publish(&mut db, b"*3\r\n$7\r\nPUBLISH\r\n$5\r\nhello\r\n$5\r\nworld\r\n"),
        b":1\r\n"
    );
    assert_eq!(
        sub1.next_message("hello"),
        &b"*3\r\n$7\r\nmessage\r\n$5\r\nhello\r\n$5\r\nworld\r\n"[..]
    );

    let mut sub2 = TestSubscriber::new();
    assert_eq!(
        sub2.handle(&mut db, b"*3\r\n$9\r\nSUBSCRIBE\r\n$5\r\nhello\r\n$3\r\nfoo\r\n"),
        &b"*3\r\n$9\r\nsubscribe\r\n$5\r\nhello\r\n:1\r\n*3\r\n$9\r\nsubscribe\r\n$3\r\nfoo\r\n:2\r\n"[..]
    );

    assert_eq!(
        publish(&mut db, b"*3\r\n$7\r\nPUBLISH\r\n$5\r\nhello\r\n$5\r\njazzy\r\n"),
        b":2\r\n"
    );
    assert_eq!(
        publish(&mut db, b"*3\r\n$7\r\nPUBLISH\r\n$3\r\nfoo\r\n$3\r\nbar\r\n"),
        b":1\r\n"
    );

    assert_eq!(
        sub1.next_message("hello"),
        &b"*3\r\n$7\r\nmessage\r\n$5\r\nhello\r\n$5\r\njazzy\r\n"[..]
    );
    assert_eq!(
        sub2.next_message("hello"),
        &b"*3\r\n$7\r\nmessage\r\n$5\r\nhello\r\n$5\r\njazzy\r\n"[..]
    );

    // The first subscriber is not on `foo` and sees nothing more.
    assert!(sub1.no_message("foo"));
    assert!(sub1.no_message("hello"));

    assert_eq!(
        sub2.next_message("foo"),
        &b"*3\r\n$7\r\nmessage\r\n$3\r\nfoo\r\n$3\r\nbar\r\n"[..]
    );
}

#[test]
fn manage_subscription() {
    let mut db = Db::new();

    let mut sub = TestSubscriber::new();
    assert_eq!(
        sub.handle(&mut db, b"*2\r\n$9\r\nSUBSCRIBE\r\n$5\r\nhello\r\n"),
        &b"*3\r\n$9\r\nsubscribe\r\n$5\r\nhello\r\n:1\r\n"[..]
    );
    assert_eq!(
        sub.handle(&mut db, b"*2\r\n$9\r\nSUBSCRIBE\r\n$3\r\nfoo\r\n"),
        &b"*3\r\n$9\r\nsubscribe\r\n$3\r\nfoo\r\n:2\r\n"[..]
    );
    assert_eq!(
        sub.handle(&mut db, b"*2\r\n$11\r\nUNSUBSCRIBE\r\n$5\r\nhello\r\n"),
        &b"*3\r\n$11\r\nunsubscribe\r\n$5\r\nhello\r\n:1\r\n"[..]
    );

    // The connection left `hello`: a publish there reaches nobody, one on
    // `foo` still reaches it.
    assert_eq!(
        publish(&mut db, b"*3\r\n$7\r\nPUBLISH\r\n$5\r\nhello\r\n$5\r\nworld\r\n"),
        b":0\r\n"
    );
    assert_eq!(
        publish(&mut db, b"*3\r\n$7\r\nPUBLISH\r\n$3\r\nfoo\r\n$3\r\nbar\r\n"),
        b":1\r\n"
    );
    assert_eq!(
        sub.next_message("foo"),
        &b"*3\r\n$7\r\nmessage\r\n$3\r\nfoo\r\n$3\r\nbar\r\n"[..]
    );
    assert!(sub.no_message("foo"));
    assert!(sub.no_message("hello"));

    // An unsubscribe that names no channel leaves every channel.
    assert_eq!(
        sub.handle(&mut db, b"*1\r\n$11\r\nunsubscribe\r\n"),
        &b"*3\r\n$11\r\nunsubscribe\r\n$3\r\nfoo\r\n:0\r\n"[..]
    );
    assert_eq!(sub.subs.len(), 0);
}

#[test]
fn send_error_get_set_after_subscribe() {
    let mut db = Db::new();

    let mut sub = TestSubscriber::new();
    assert_eq!(
        sub.handle(&mut db, b"*2\r\n$9\r\nsubscribe\r\n$5\r\nhello\r\n"),
        &b"*3\r\n$9\r\nsubscribe\r\n$5\r\nhello\r\n:1\r\n"[..]
    );

    assert_eq!(
        sub.handle(&mut db, b"*3\r\n$3\r\nSET\r\n$5\r\nhello\r\n$5\r\nworld\r\n"),
        b"-ERR unknown command 'set'\r\n"
    );
    assert_eq!(
        sub.handle(&mut db, b"*2\r\n$3\r\nGET\r\n$5\r\nhello\r\n"),
        b"-ERR unknown command 'get'\r\n"
    );

    // A publish is refused too, under the command's canonical short name.
    assert_eq!(
        sub.handle(&mut db, b"*3\r\n$7\r\nPUBLISH\r\n$5\r\nhello\r\n$5\r\nworld\r\n"),
        b"-ERR unknown command 'pub'\r\n"
    );

    // The subscription stands as before.
    assert_eq!(sub.subs.len(), 1);
    assert!(sub.subs.contains("hello"));
}
