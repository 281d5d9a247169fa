//! The liveness probe: echoed back with or without a payload.

use vstd::prelude::*;
use vstd::string::{StringExecFns, StrSliceExecFns};
use vstd::utf8::encode_utf8;
use crate::frame::{Frame, FrameModel};
use crate::parse::{Parse, ParseError, frame_as_bytes};

verus! {

/// Replies `PONG` without an argument, or echoes the argument as bulk.
#[derive(Debug)]
pub struct Ping {
    pub msg: Option<Vec<u8>>,
}

impl Ping {
    pub fn new(msg: Option<Vec<u8>>) -> (p: Ping)
        ensures
            p.msg == msg,
    {
        Ping { msg }
    }

    /// Reads the optional payload; a missing argument is not an error.
    pub fn parse_frames(parse: &mut Parse) -> (r: Result<Ping, ParseError>)
        ensures
            old(parse).remaining().len() == 0 ==> (r matches Ok(p) && p.msg is None && *final(parse) == *old(parse)),
            old(parse).remaining().len() > 0 ==> final(parse).remaining() == old(parse).remaining().drop_first() && match frame_as_bytes(old(parse).remaining()[0]) {
                Some(d) => r matches Ok(p) && p.msg matches Some(m) && m@ == d,
                None => r matches Err(e) && e is Other,
            },
    {
        match parse.next_bytes() {
            Ok(m) => Ok(Ping { msg: Some(m) }),
            Err(e) => match e {
                ParseError::EndOfStream => Ok(Ping { msg: None }),
                other => Err(other),
            },
        }
    }

    /// The reply: `PONG`, or the payload echoed as bulk.
    pub fn apply(self) -> (r: Frame)
        ensures
            self.msg is None ==> r@ == FrameModel::Simple("PONG"@),
            self.msg matches Some(m) ==> r@ == FrameModel::Bulk(m@),
    {
        match self.msg {
            None => Frame::Simple(String::from_str("PONG")),
            Some(m) => Frame::Bulk(m),
        }
    }

    /// The frame a client sends for this command.
    pub fn into_frame(self) -> (r: Frame)
        ensures
            self.msg is None ==> r@ == FrameModel::Array(
                seq![FrameModel::Bulk(encode_utf8("ping"@))],
            ),
            self.msg matches Some(m) ==> r@ == FrameModel::Array(
                seq![FrameModel::Bulk(encode_utf8("ping"@)), FrameModel::Bulk(m@)],
            ),
    {
        let mut frame = Frame::array();
        frame.push_bulk("ping".as_bytes_vec());
        match self.msg {
            None => {
                proof {
                    assert(Seq::<FrameModel>::empty().push(
                        FrameModel::Bulk(encode_utf8("ping"@)),
                    ) =~= seq![FrameModel::Bulk(encode_utf8("ping"@))]);
                }
            },
            Some(m) => {
                let ghost m_view = m@;
                frame.push_bulk(m);
                proof {
                    assert(Seq::<FrameModel>::empty().push(
                        FrameModel::Bulk(encode_utf8("ping"@)),
                    ).push(FrameModel::Bulk(m_view)) =~= seq![
                        FrameModel::Bulk(encode_utf8("ping"@)),
                        FrameModel::Bulk(m_view),
                    ]);
                }
            },
        }
        frame
    }
}

} // verus!
