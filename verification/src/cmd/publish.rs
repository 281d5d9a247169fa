//! Sending a message into a pub/sub channel.

use vstd::prelude::*;
use vstd::string::{StringExecFns, StrSliceExecFns};
use vstd::utf8::encode_utf8;
use crate::db::Db;
use crate::frame::{Frame, FrameModel};
use crate::parse::{Parse, ParseError, frame_as_string, frame_as_bytes};

verus! {

/// Posts a message on a channel, without knowledge of the subscribers.
#[derive(Debug)]
pub struct Publish {
    pub channel: String,
    pub message: Vec<u8>,
}

impl Publish {
    pub fn new(channel: &str, message: Vec<u8>) -> (p: Publish)
        ensures
            p.channel@ == channel@,
            p.message == message,
    {
        Publish { channel: String::from_str(channel), message }
    }

    /// Reads the channel name and the payload, both mandatory.
    pub fn parse_frames(parse: &mut Parse) -> (r: Result<Publish, ParseError>)
        ensures
            ({
                let rem = old(parse).remaining();
                &&& rem.len() == 0 ==> (r matches Err(e) && e is EndOfStream)
                &&& rem.len() >= 1 && frame_as_string(rem[0]) is None ==> (r matches Err(e) && e
                    is Other)
                &&& rem.len() == 1 && frame_as_string(rem[0]) is Some ==> (r matches Err(e) && e
                    is EndOfStream)
                &&& rem.len() >= 2 && frame_as_string(rem[0]) is Some && frame_as_bytes(rem[1])
                    is None ==> (r matches Err(e) && e is Other)
                &&& rem.len() >= 2 && frame_as_string(rem[0]) is Some && frame_as_bytes(rem[1])
                    is Some ==> (r matches Ok(p) && p.channel@ == frame_as_string(rem[0])->0
                    && p.message@ == frame_as_bytes(rem[1])->0 && final(parse).remaining()
                    == rem.skip(2))
            }),
    {
        let channel = match parse.next_string() {
            Ok(s) => s,
            Err(e) => {
                return Err(e);
            },
        };
        let message = match parse.next_bytes() {
            Ok(b) => b,
            Err(e) => {
                return Err(e);
            },
        };
        proof {
            assert(old(parse).remaining().drop_first().drop_first() =~= old(parse).remaining().skip(2));
        }
        Ok(Publish { channel, message })
    }

    /// Applies the command: sends the payload and replies with the number
    /// of receivers it reached.
    pub fn apply(self, db: &Db) -> (r: Frame)
        requires
            db.wf(),
        ensures
            r@ is Integer,
            !db.channels().contains(self.channel@) ==> r@ == FrameModel::Integer(0),
    {
        let n = db.publish(self.channel.as_str(), self.message);
        Frame::Integer(n as u64)
    }

    /// The frame a client sends for this command.
    pub fn into_frame(self) -> (r: Frame)
        ensures
            r@ == FrameModel::Array(
                seq![
                    FrameModel::Bulk(encode_utf8("publish"@)),
                    FrameModel::Bulk(encode_utf8(self.channel@)),
                    FrameModel::Bulk(self.message@),
                ],
            ),
    {
        let ghost chan_view = self.channel@;
        let ghost msg_view = self.message@;
        let mut frame = Frame::array();
        frame.push_bulk("publish".as_bytes_vec());
        frame.push_bulk(self.channel.as_str().as_bytes_vec());
        frame.push_bulk(self.message);
        proof {
            assert(Seq::<FrameModel>::empty().push(
                FrameModel::Bulk(encode_utf8("publish"@)),
            ).push(FrameModel::Bulk(encode_utf8(chan_view))).push(FrameModel::Bulk(msg_view))
                =~= seq![
                FrameModel::Bulk(encode_utf8("publish"@)),
                FrameModel::Bulk(encode_utf8(chan_view)),
                FrameModel::Bulk(msg_view),
            ]);
        }
        frame
    }
}

} // verus!
