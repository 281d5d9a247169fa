//! Reading a value by key.

use vstd::prelude::*;
use vstd::string::{StringExecFns, StrSliceExecFns};
use vstd::utf8::encode_utf8;
use crate::db::Db;
use crate::frame::{Frame, FrameModel};
use crate::parse::{Parse, ParseError, frame_as_string};

verus! {

/// Fetches the value stored at a key; a missing key answers `Null`.
#[derive(Debug)]
pub struct Get {
    pub key: String,
}

impl Get {
    pub fn new(key: &str) -> (g: Get)
        ensures
            g.key@ == key@,
    {
        Get { key: String::from_str(key) }
    }

    /// The key to fetch.
    pub fn key(&self) -> (r: &str)
        ensures
            r@ == self.key@,
    {
        self.key.as_str()
    }

    /// Reads the key; it is the one mandatory argument.
    pub fn parse_frames(parse: &mut Parse) -> (r: Result<Get, ParseError>)
        ensures
            old(parse).remaining().len() == 0 ==> (r matches Err(e) && e is EndOfStream && *final(parse) == *old(parse)),
            old(parse).remaining().len() > 0 ==> final(parse).remaining() == old(parse).remaining().drop_first() && match frame_as_string(old(parse).remaining()[0]) {
                Some(t) => r matches Ok(g) && g.key@ == t,
                None => r matches Err(e) && e is Other,
            },
    {
        match parse.next_string() {
            Ok(key) => Ok(Get { key }),
            Err(e) => Err(e),
        }
    }

    /// The reply: the stored bytes as bulk, or `Null` for a missing key.
    pub fn apply(self, db: &Db) -> (r: Frame)
        requires
            db.wf(),
        ensures
            db.entries_map().contains_key(self.key@) ==> r@ == FrameModel::Bulk(
                db.entries_map()[self.key@].0,
            ),
            !db.entries_map().contains_key(self.key@) ==> r@ == FrameModel::Null,
    {
        match db.get(self.key.as_str()) {
            Some(value) => Frame::Bulk(value),
            None => Frame::Null,
        }
    }

    /// The frame a client sends for this command.
    pub fn into_frame(self) -> (r: Frame)
        ensures
            r@ == FrameModel::Array(
                seq![
                    FrameModel::Bulk(encode_utf8("get"@)),
                    FrameModel::Bulk(encode_utf8(self.key@)),
                ],
            ),
    {
        let ghost key_view = self.key@;
        let mut frame = Frame::array();
        frame.push_bulk("get".as_bytes_vec());
        frame.push_bulk(self.key.as_str().as_bytes_vec());
        proof {
            assert(Seq::<FrameModel>::empty().push(FrameModel::Bulk(encode_utf8("get"@))).push(
                FrameModel::Bulk(encode_utf8(key_view)),
            ) =~= seq![
                FrameModel::Bulk(encode_utf8("get"@)),
                FrameModel::Bulk(encode_utf8(key_view)),
            ]);
        }
        frame
    }
}

} // verus!
