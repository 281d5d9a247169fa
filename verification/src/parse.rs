//! A cursor over the frames of one array command.
//!
//! Commands arrive as array frames. `Parse` is initialized with such a frame
//! and hands its children out one by one, converted to strings, raw bytes or
//! integers as each command expects.

use vstd::prelude::*;
use vstd::utf8::{encode_utf8, decode_utf8, valid_utf8};
use vstd::string::{StringExecFns, StrSliceExecFns};
use crate::frame::{Frame, FrameModel, frames_view, lemma_frames_view_index};
use crate::num::spec_atoi_u64;
use crate::text::string_from_utf8;

verus! {

/// A cursor over the children of an array frame.
pub struct Parse {
    parts: Vec<Frame>,
}

/// An error while pulling the next command argument. Only `EndOfStream` is
/// handled at runtime (an optional argument was missing); any other error
/// closes the connection.
#[derive(Debug)]
pub enum ParseError {
    EndOfStream,
    Other(String),
}

/// The characters a frame can stand for: a simple frame's text, or a bulk
/// frame's bytes decoded as UTF-8.
pub open spec fn frame_as_string(v: FrameModel) -> Option<Seq<char>> {
    match v {
        FrameModel::Simple(t) => Some(t),
        FrameModel::Bulk(d) => if valid_utf8(d) {
            Some(decode_utf8(d))
        } else {
            None
        },
        _ => None,
    }
}

/// The raw bytes a frame can stand for: a simple frame's text encoded as
/// UTF-8, or a bulk frame's bytes.
pub open spec fn frame_as_bytes(v: FrameModel) -> Option<Seq<u8>> {
    match v {
        FrameModel::Simple(t) => Some(encode_utf8(t)),
        FrameModel::Bulk(d) => Some(d),
        _ => None,
    }
}

/// The integer a frame can stand for: an integer frame's value, or a simple
/// or bulk frame's bytes read as a decimal number.
pub open spec fn frame_as_int(v: FrameModel) -> Option<u64> {
    match v {
        FrameModel::Integer(n) => Some(n),
        FrameModel::Simple(t) => spec_atoi_u64(encode_utf8(t)),
        FrameModel::Bulk(d) => spec_atoi_u64(d),
        _ => None,
    }
}

fn parse_other_error(msg: &str) -> (e: ParseError)
    ensures
        e is Other,
{
    ParseError::Other(String::from_str(msg))
}

impl Parse {
    /// The frames not yet consumed.
    pub closed spec fn remaining(self) -> Seq<FrameModel> {
        frames_view(self.parts@)
    }

    /// Wraps the children of `frame` in a cursor; any other frame than an
    /// array is refused.
    pub fn new(frame: Frame) -> (r: Result<Parse, ParseError>)
        ensures
            frame@ is Array ==> (r matches Ok(p) && p.remaining() == frame@->Array_0),
            !(frame@ is Array) ==> (r matches Err(e) && e is Other),
    {
        match frame {
            Frame::Array(items) => Ok(Parse { parts: items }),
            _ => Err(parse_other_error("protocol error; expected an array frame")),
        }
    }

    /// How many arguments are left.
    pub fn remaining_count(&self) -> (n: usize)
        ensures
            n == self.remaining().len(),
    {
        proof {
            lemma_frames_view_index(self.parts@);
        }
        self.parts.len()
    }

    /// The next frame, consumed from the front.
    fn next(&mut self) -> (r: Result<Frame, ParseError>)
        ensures
            old(self).remaining().len() == 0 ==> (r matches Err(e) && e is EndOfStream
                && *final(self) == *old(self)),
            old(self).remaining().len() > 0 ==> (r matches Ok(f) && f@ == old(self).remaining()[0] && final(self).remaining() == old(self).remaining().drop_first()),
    {
        proof {
            lemma_frames_view_index(self.parts@);
        }
        if self.parts.len() == 0 {
            Err(ParseError::EndOfStream)
        } else {
            let f = self.parts.remove(0);
            proof {
                assert(old(self).parts@.remove(0) =~= old(self).parts@.drop_first());
                lemma_frames_view_index(old(self).parts@.drop_first());
                assert(frames_view(old(self).parts@.drop_first()) =~= frames_view(
                    old(self).parts@,
                ).drop_first());
            }
            Ok(f)
        }
    }

    /// The next argument as a string. A simple frame is its text; a bulk
    /// frame must hold valid UTF-8.
    pub fn next_string(&mut self) -> (r: Result<String, ParseError>)
        ensures
            old(self).remaining().len() == 0 ==> (r matches Err(e) && e is EndOfStream
                && *final(self) == *old(self)),
            old(self).remaining().len() > 0 ==> final(self).remaining() == old(self).remaining().drop_first() && match frame_as_string(old(self).remaining()[0]) {
                Some(t) => r matches Ok(s) && s@ == t,
                None => r matches Err(e) && e is Other,
            },
    {
        let f = match self.next() {
            Ok(f) => f,
            Err(e) => {
                return Err(e);
            },
        };
        match f {
            Frame::Simple(s) => Ok(s),
            Frame::Bulk(d) => match string_from_utf8(d) {
                Some(s) => Ok(s),
                None => Err(parse_other_error("protocol error; invalid string")),
            },
            _ => Err(parse_other_error("protocol error; expected a string frame")),
        }
    }

    /// The next argument as raw bytes. Simple and bulk frames qualify.
    pub fn next_bytes(&mut self) -> (r: Result<Vec<u8>, ParseError>)
        ensures
            old(self).remaining().len() == 0 ==> (r matches Err(e) && e is EndOfStream
                && *final(self) == *old(self)),
            old(self).remaining().len() > 0 ==> final(self).remaining() == old(self).remaining().drop_first() && match frame_as_bytes(old(self).remaining()[0]) {
                Some(d) => r matches Ok(b) && b@ == d,
                None => r matches Err(e) && e is Other,
            },
    {
        let f = match self.next() {
            Ok(f) => f,
            Err(e) => {
                return Err(e);
            },
        };
        match f {
            Frame::Simple(s) => Ok(s.as_str().as_bytes_vec()),
            Frame::Bulk(d) => Ok(d),
            _ => Err(parse_other_error("protocol error; expected a string frame")),
        }
    }

    /// The next argument as an unsigned integer. An integer frame is its
    /// value; simple and bulk frames are read as decimal.
    pub fn next_int(&mut self) -> (r: Result<u64, ParseError>)
        ensures
            old(self).remaining().len() == 0 ==> (r matches Err(e) && e is EndOfStream
                && *final(self) == *old(self)),
            old(self).remaining().len() > 0 ==> final(self).remaining() == old(self).remaining().drop_first() && match frame_as_int(old(self).remaining()[0]) {
                Some(n) => r matches Ok(v) && v == n,
                None => r matches Err(e) && e is Other,
            },
    {
        let f = match self.next() {
            Ok(f) => f,
            Err(e) => {
                return Err(e);
            },
        };
        match f {
            Frame::Integer(v) => Ok(v),
            Frame::Simple(s) => match crate::num::atoi_u64(s.as_str().as_bytes()) {
                Some(v) => Ok(v),
                None => Err(parse_other_error("protocol error; invalid number")),
            },
            Frame::Bulk(d) => match crate::num::atoi_u64(d.as_slice()) {
                Some(v) => Ok(v),
                None => Err(parse_other_error("protocol error; invalid number")),
            },
            _ => Err(parse_other_error("protocol error; expected an int frame")),
        }
    }

    /// Succeeds exactly when no argument remains.
    pub fn finish(&mut self) -> (r: Result<(), ParseError>)
        ensures
            old(self).remaining().len() == 0 ==> (r is Ok && *final(self) == *old(self)),
            old(self).remaining().len() > 0 ==> (r matches Err(e) && e is Other && final(self).remaining() == old(self).remaining().drop_first()),
    {
        match self.next() {
            Err(_) => Ok(()),
            Ok(_) => Err(parse_other_error("protocol error; expected end of frame")),
        }
    }
}

} // verus!
