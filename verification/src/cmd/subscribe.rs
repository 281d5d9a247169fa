//! Entering and leaving pub/sub channels, and the frames of the subscribed
//! sub-state.

use vstd::prelude::*;
use vstd::string::{StringExecFns, StrSliceExecFns};
use vstd::utf8::encode_utf8;
use crate::cmd::{Command, Unknown};
use crate::frame::{Frame, FrameModel};
use crate::parse::{Parse, ParseError, frame_as_string, frame_as_bytes};
use crate::subscription::Subscriptions;
use crate::text::lower_of;

verus! {

/// Subscribes the connection to one or more channels.
#[derive(Debug)]
pub struct Subscribe {
    pub channels: Vec<String>,
}

/// Unsubscribes the connection from the named channels, or from all of them
/// when none is named.
#[derive(Debug)]
pub struct Unsubscribe {
    pub channels: Vec<String>,
}

/// The bulk frames that spell a list of channel names.
pub open spec fn channel_bulks(s: Seq<String>) -> Seq<FrameModel> {
    Seq::new(s.len(), |i: int| FrameModel::Bulk(encode_utf8(s[i]@)))
}

/// Drains the cursor into strings appended to `init`; every remaining
/// argument must be readable as a string.
fn parse_all_strings(parse: &mut Parse, init: Vec<String>) -> (r: Result<Vec<String>, ParseError>)
    ensures
        ({
            let rem = old(parse).remaining();
            &&& (r matches Ok(chs) ==> chs@.len() == init@.len() + rem.len() && (forall|i: int|
                0 <= i < init@.len() ==> chs@[i] == init@[i]) && (forall|i: int|
                0 <= i < rem.len() ==> frame_as_string(#[trigger] rem[i]) is Some && chs@[init@.len()
                    + i]@ == frame_as_string(rem[i])->0) && final(parse).remaining().len() == 0)
            &&& ((forall|i: int| 0 <= i < rem.len() ==> frame_as_string(#[trigger] rem[i]) is Some)
                ==> r is Ok)
            &&& (r matches Err(e) ==> e is Other)
        }),
{
    let mut channels = init;
    let ghost rem = parse.remaining();
    let ghost base = channels@.len() as int;
    while parse.remaining_count() > 0
        invariant
            rem == old(parse).remaining(),
            base == init@.len(),
            channels@.len() == base + rem.len() - parse.remaining().len(),
            parse.remaining().len() <= rem.len(),
            parse.remaining() == rem.skip(channels@.len() - base),
            forall|i: int| 0 <= i < base ==> channels@[i] == init@[i],
            forall|i: int|
                0 <= i < channels@.len() - base ==> frame_as_string(#[trigger] rem[i]) is Some
                    && channels@[base + i]@ == frame_as_string(rem[i])->0,
        decreases parse.remaining().len(),
    {
        let ghost k = channels@.len() - base;
        proof {
            assert(parse.remaining()[0] == rem[k]);
        }
        match parse.next_string() {
            Ok(s) => {
                channels.push(s);
                proof {
                    assert(rem.skip(k).drop_first() =~= rem.skip(k + 1));
                }
            },
            Err(e) => {
                proof {
                    assert(frame_as_string(rem[k]) is None);
                }
                return Err(e);
            },
        }
    }
    Ok(channels)
}

impl Subscribe {
    pub fn new(channels: Vec<String>) -> (s: Subscribe)
        ensures
            s.channels == channels,
    {
        Subscribe { channels }
    }

    /// Reads the channel names; at least one must stand there, and every
    /// argument must be a string.
    pub fn parse_frames(parse: &mut Parse) -> (r: Result<Subscribe, ParseError>)
        ensures
            ({
                let rem = old(parse).remaining();
                &&& rem.len() == 0 ==> (r matches Err(e) && e is EndOfStream)
                &&& (r matches Ok(s) ==> rem.len() >= 1 && s.channels@.len() == rem.len() && (
                forall|i: int|
                    0 <= i < rem.len() ==> frame_as_string(#[trigger] rem[i]) is Some
                        && s.channels@[i]@ == frame_as_string(rem[i])->0) && final(parse).remaining().len() == 0)
                &&& (rem.len() >= 1 && (forall|i: int|
                    0 <= i < rem.len() ==> frame_as_string(#[trigger] rem[i]) is Some) ==> r is Ok)
                &&& (rem.len() >= 1 ==> (r matches Err(e) ==> e is Other))
            }),
    {
        let first = match parse.next_string() {
            Ok(s) => s,
            Err(e) => {
                return Err(e);
            },
        };
        let mut init: Vec<String> = Vec::new();
        init.push(first);
        let ghost rem = old(parse).remaining();
        match parse_all_strings(parse, init) {
            Ok(channels) => {
                proof {
                    assert forall|i: int| 0 <= i < rem.len() implies frame_as_string(
                        #[trigger] rem[i],
                    ) is Some && channels@[i]@ == frame_as_string(rem[i])->0 by {
                        if i > 0 {
                            assert(rem.drop_first()[i - 1] == rem[i]);
                        }
                    }
                }
                Ok(Subscribe { channels })
            },
            Err(e) => Err(e),
        }
    }

    /// The frame a client sends for this command.
    pub fn into_frame(self) -> (r: Frame)
        ensures
            r@ == FrameModel::Array(
                seq![FrameModel::Bulk(encode_utf8("subscribe"@))] + channel_bulks(self.channels@),
            ),
    {
        let ghost chans = self.channels@;
        let mut frame = Frame::array();
        frame.push_bulk("subscribe".as_bytes_vec());
        let ghost header = seq![FrameModel::Bulk(encode_utf8("subscribe"@))];
        proof {
            assert(Seq::<FrameModel>::empty().push(FrameModel::Bulk(encode_utf8("subscribe"@)))
                =~= header);
        }
        let n = self.channels.len();
        let mut i: usize = 0;
        let mut channels = self.channels;
        proof {
            assert(header + channel_bulks(chans.take(0)) =~= header);
        }
        while i < n
            invariant
                n == channels@.len(),
                0 <= i <= n,
                channels@ == chans,
                frame@ == FrameModel::Array(header + channel_bulks(chans.take(i as int))),
            decreases n - i,
        {
            let ghost before = header + channel_bulks(chans.take(i as int));
            let name = channels[i].as_str().as_bytes_vec();
            frame.push_bulk(name);
            proof {
                assert(before.push(FrameModel::Bulk(encode_utf8(chans[i as int]@))) =~= header
                    + channel_bulks(chans.take(i + 1)));
            }
            i += 1;
        }
        proof {
            assert(chans.take(n as int) =~= chans);
        }
        frame
    }
}

impl Unsubscribe {
    pub fn new(channels: &[String]) -> (u: Unsubscribe)
        ensures
            u.channels@.len() == channels@.len(),
            forall|i: int|
                0 <= i < channels@.len() ==> (#[trigger] u.channels@[i])@ == channels@[i]@,
    {
        let n = channels.len();
        let mut copy: Vec<String> = Vec::new();
        let mut i: usize = 0;
        while i < n
            invariant
                n == channels@.len(),
                0 <= i <= n,
                copy@.len() == i,
                forall|j: int| 0 <= j < i ==> (#[trigger] copy@[j])@ == channels@[j]@,
            decreases n - i,
        {
            copy.push(channels[i].clone());
            i += 1;
        }
        Unsubscribe { channels: copy }
    }

    /// Reads the channel names; none at all is allowed, and every argument
    /// must be a string.
    pub fn parse_frames(parse: &mut Parse) -> (r: Result<Unsubscribe, ParseError>)
        ensures
            ({
                let rem = old(parse).remaining();
                &&& (r matches Ok(u) ==> u.channels@.len() == rem.len() && (forall|i: int|
                    0 <= i < rem.len() ==> frame_as_string(#[trigger] rem[i]) is Some
                        && u.channels@[i]@ == frame_as_string(rem[i])->0) && final(parse).remaining().len() == 0)
                &&& ((forall|i: int|
                    0 <= i < rem.len() ==> frame_as_string(#[trigger] rem[i]) is Some) ==> r is Ok)
                &&& (r matches Err(e) ==> e is Other)
            }),
    {
        match parse_all_strings(parse, Vec::new()) {
            Ok(channels) => Ok(Unsubscribe { channels }),
            Err(e) => Err(e),
        }
    }

    /// The frame a client sends for this command.
    pub fn into_frame(self) -> (r: Frame)
        ensures
            r@ == FrameModel::Array(
                seq![FrameModel::Bulk(encode_utf8("unsubscribe"@))] + channel_bulks(
                    self.channels@,
                ),
            ),
    {
        let ghost chans = self.channels@;
        let mut frame = Frame::array();
        frame.push_bulk("unsubscribe".as_bytes_vec());
        let ghost header = seq![FrameModel::Bulk(encode_utf8("unsubscribe"@))];
        proof {
            assert(Seq::<FrameModel>::empty().push(
                FrameModel::Bulk(encode_utf8("unsubscribe"@)),
            ) =~= header);
        }
        let n = self.channels.len();
        let mut i: usize = 0;
        let mut channels = self.channels;
        proof {
            assert(header + channel_bulks(chans.take(0)) =~= header);
        }
        while i < n
            invariant
                n == channels@.len(),
                0 <= i <= n,
                channels@ == chans,
                frame@ == FrameModel::Array(header + channel_bulks(chans.take(i as int))),
            decreases n - i,
        {
            let ghost before = header + channel_bulks(chans.take(i as int));
            let name = channels[i].as_str().as_bytes_vec();
            frame.push_bulk(name);
            proof {
                assert(before.push(FrameModel::Bulk(encode_utf8(chans[i as int]@))) =~= header
                    + channel_bulks(chans.take(i + 1)));
            }
            i += 1;
        }
        proof {
            assert(chans.take(n as int) =~= chans);
        }
        frame
    }
}

/// The acknowledgement of one new subscription: the channel, and how many
/// channels this connection is subscribed to now.
pub fn make_subscribe_frame(channel_name: String, num_subs: u64) -> (r: Frame)
    ensures
        r@ == FrameModel::Array(
            seq![
                FrameModel::Bulk(encode_utf8("subscribe"@)),
                FrameModel::Bulk(encode_utf8(channel_name@)),
                FrameModel::Integer(num_subs),
            ],
        ),
{
    let ghost chan = channel_name@;
    let mut frame = Frame::array();
    frame.push_bulk("subscribe".as_bytes_vec());
    frame.push_bulk(channel_name.as_str().as_bytes_vec());
    frame.push_int(num_subs);
    proof {
        assert(Seq::<FrameModel>::empty().push(FrameModel::Bulk(encode_utf8("subscribe"@))).push(
            FrameModel::Bulk(encode_utf8(chan)),
        ).push(FrameModel::Integer(num_subs)) =~= seq![
            FrameModel::Bulk(encode_utf8("subscribe"@)),
            FrameModel::Bulk(encode_utf8(chan)),
            FrameModel::Integer(num_subs),
        ]);
    }
    frame
}

/// The acknowledgement of one ended subscription, with the count after the
/// removal.
pub fn make_unsubscribe_frame(channel_name: String, num_subs: u64) -> (r: Frame)
    ensures
        r@ == FrameModel::Array(
            seq![
                FrameModel::Bulk(encode_utf8("unsubscribe"@)),
                FrameModel::Bulk(encode_utf8(channel_name@)),
                FrameModel::Integer(num_subs),
            ],
        ),
{
    let ghost chan = channel_name@;
    let mut frame = Frame::array();
    frame.push_bulk("unsubscribe".as_bytes_vec());
    frame.push_bulk(channel_name.as_str().as_bytes_vec());
    frame.push_int(num_subs);
    proof {
        assert(Seq::<FrameModel>::empty().push(
            FrameModel::Bulk(encode_utf8("unsubscribe"@)),
        ).push(FrameModel::Bulk(encode_utf8(chan))).push(FrameModel::Integer(num_subs)) =~= seq![
            FrameModel::Bulk(encode_utf8("unsubscribe"@)),
            FrameModel::Bulk(encode_utf8(chan)),
            FrameModel::Integer(num_subs),
        ]);
    }
    frame
}

/// A message delivered to a subscriber: the channel it came in on and its
/// payload.
pub fn make_message_frame(channel_name: String, msg: Vec<u8>) -> (r: Frame)
    ensures
        r@ == FrameModel::Array(
            seq![
                FrameModel::Bulk(encode_utf8("message"@)),
                FrameModel::Bulk(encode_utf8(channel_name@)),
                FrameModel::Bulk(msg@),
            ],
        ),
{
    let ghost chan = channel_name@;
    let ghost payload = msg@;
    let mut frame = Frame::array();
    frame.push_bulk("message".as_bytes_vec());
    frame.push_bulk(channel_name.as_str().as_bytes_vec());
    frame.push_bulk(msg);
    proof {
        assert(Seq::<FrameModel>::empty().push(FrameModel::Bulk(encode_utf8("message"@))).push(
            FrameModel::Bulk(encode_utf8(chan)),
        ).push(FrameModel::Bulk(payload)) =~= seq![
            FrameModel::Bulk(encode_utf8("message"@)),
            FrameModel::Bulk(encode_utf8(chan)),
            FrameModel::Bulk(payload),
        ]);
    }
    frame
}

/// What a command received in the subscribed sub-state asks for: new
/// subscriptions, the resolved list of channels to leave, or one reply
/// frame for anything else.
pub enum SubscribedAction {
    Subscribe(Vec<String>),
    Unsubscribe(Vec<String>),
    Respond(Frame),
}

/// Decides what a frame received in the subscribed sub-state asks for. Only
/// `SUBSCRIBE` and `UNSUBSCRIBE` are honored there; an `UNSUBSCRIBE` that
/// names no channel resolves to every channel the connection is subscribed
/// to; any other recognized or unrecognized command draws the unknown
/// command reply, and the connection stays subscribed.
pub fn handle_command(frame: Frame, subscriptions: &Subscriptions) -> (r: Result<
    SubscribedAction,
    ParseError,
>)
    ensures
        !(frame@ is Array) ==> r is Err,
        frame@ is Array ==> ({
            let parts = frame@->Array_0;
            &&& parts.len() == 0 ==> r is Err
            &&& (parts.len() >= 1 ==> (frame_as_string(parts[0]) matches Some(raw) ==> ({
                let name = lower_of(raw);
                let rest = parts.drop_first();
                &&& (name == "subscribe"@ && rest.len() >= 1 && (forall|i: int|
                    0 <= i < rest.len() ==> frame_as_string(#[trigger] rest[i]) is Some) ==> (
                r matches Ok(a) && a matches SubscribedAction::Subscribe(chs) && chs@.len()
                    == rest.len() && (forall|i: int|
                    0 <= i < rest.len() ==> (#[trigger] chs@[i])@ == frame_as_string(rest[i])->0)))
                &&& (name == "unsubscribe"@ && (forall|i: int|
                    0 <= i < rest.len() ==> frame_as_string(#[trigger] rest[i]) is Some) ==> (
                r matches Ok(a) && a matches SubscribedAction::Unsubscribe(list) && (rest.len()
                    == 0 ==> list@.len() == subscriptions@.len() && (forall|i: int|
                    0 <= i < list@.len() ==> (#[trigger] list@[i])@ == subscriptions@[i])) && (
                rest.len() >= 1 ==> list@.len() == rest.len() && (forall|i: int|
                    0 <= i < rest.len() ==> (#[trigger] list@[i])@ == frame_as_string(
                        rest[i],
                    )->0))))
                &&& (name == "get"@ && rest.len() == 1 && frame_as_string(rest[0]) is Some ==> (
                r matches Ok(a) && a matches SubscribedAction::Respond(f) && f@
                    == FrameModel::Error("ERR unknown command '"@ + "get"@ + "'"@)))
                &&& (name == "set"@ && rest.len() == 2 && frame_as_string(rest[0]) is Some
                    && frame_as_bytes(rest[1]) is Some ==> (r matches Ok(a) && a matches
                SubscribedAction::Respond(f) && f@ == FrameModel::Error(
                    "ERR unknown command '"@ + "set"@ + "'"@,
                )))
                &&& (name == "publish"@ && rest.len() == 2 && frame_as_string(rest[0]) is Some
                    && frame_as_bytes(rest[1]) is Some ==> (r matches Ok(a) && a matches
                SubscribedAction::Respond(f) && f@ == FrameModel::Error(
                    "ERR unknown command '"@ + "pub"@ + "'"@,
                )))
                &&& (name == "ping"@ && rest.len() == 0 ==> (r matches Ok(a) && a matches
                SubscribedAction::Respond(f) && f@ == FrameModel::Error(
                    "ERR unknown command '"@ + "ping"@ + "'"@,
                )))
                &&& (name != "get"@ && name != "publish"@ && name != "set"@ && name
                    != "subscribe"@ && name != "unsubscribe"@ && name != "ping"@ ==> (r matches
                Ok(a) && a matches SubscribedAction::Respond(f) && f@ == FrameModel::Error(
                    "ERR unknown command '"@ + name + "'"@,
                )))
            })))
        }),
{
    match Command::from_frame(frame) {
        Err(e) => Err(e),
        Ok(cmd) => match cmd {
            Command::Subscribe(sub) => Ok(SubscribedAction::Subscribe(sub.channels)),
            Command::Unsubscribe(unsub) => {
                if unsub.channels.len() == 0 {
                    Ok(SubscribedAction::Unsubscribe(subscriptions.channel_names()))
                } else {
                    Ok(SubscribedAction::Unsubscribe(unsub.channels))
                }
            },
            other => {
                let unknown = Unknown::new(other.get_name());
                Ok(SubscribedAction::Respond(unknown.apply()))
            },
        },
    }
}

} // verus!
