//! Storing a value at a key, with an optional time-to-live.

use vstd::prelude::*;
use vstd::string::{StringExecFns, StrSliceExecFns};
use vstd::utf8::encode_utf8;
use crate::db::{Db, expires_at_of};
use crate::frame::{Frame, FrameModel};
use crate::parse::{Parse, ParseError, frame_as_string, frame_as_bytes, frame_as_int};
use crate::text::{to_uppercase, upper_of, str_eq};

verus! {

/// Milliseconds for a time-to-live given in seconds; a product beyond
/// `u64::MAX` saturates.
pub open spec fn secs_to_ms(n: u64) -> u64 {
    if n > u64::MAX / 1000 {
        u64::MAX as u64
    } else {
        (n * 1000) as u64
    }
}

/// Stores `value` at `key`, overwriting any earlier value; `EX seconds` or
/// `PX milliseconds` bounds its life.
#[derive(Debug)]
pub struct SetCmd {
    pub key: String,
    pub value: Vec<u8>,
    pub expire: Option<u64>,
}

impl SetCmd {
    /// A store of `value` at `key`, lapsing after `expire` milliseconds if
    /// that is set.
    pub fn new(key: &str, value: Vec<u8>, expire: Option<u64>) -> (s: SetCmd)
        ensures
            s.key@ == key@,
            s.value == value,
            s.expire == expire,
    {
        SetCmd { key: String::from_str(key), value, expire }
    }

    /// The key to store at.
    pub fn key(&self) -> (r: &str)
        ensures
            r@ == self.key@,
    {
        self.key.as_str()
    }

    /// The bytes to store.
    pub fn value(&self) -> (r: &Vec<u8>)
        ensures
            r == self.value,
    {
        &self.value
    }

    /// The time-to-live in milliseconds, if one was given.
    pub fn expire(&self) -> (r: Option<u64>)
        ensures
            r == self.expire,
    {
        self.expire
    }

    /// Reads key and value, then the optional `EX`/`PX` option with its
    /// number; any other option word is refused.
    pub fn parse_frames(parse: &mut Parse) -> (r: Result<SetCmd, ParseError>)
        ensures
            ({
                let rem = old(parse).remaining();
                &&& rem.len() == 0 ==> (r matches Err(e) && e is EndOfStream)
                &&& rem.len() >= 1 && frame_as_string(rem[0]) is None ==> (r matches Err(e) && e
                    is Other)
                &&& rem.len() == 1 && frame_as_string(rem[0]) is Some ==> (r matches Err(e) && e
                    is EndOfStream)
                &&& rem.len() >= 2 && frame_as_string(rem[0]) is Some && frame_as_bytes(rem[1])
                    is None ==> (r matches Err(e) && e is Other)
                &&& rem.len() == 2 && frame_as_string(rem[0]) is Some && frame_as_bytes(rem[1])
                    is Some ==> (r matches Ok(s) && s.key@ == frame_as_string(rem[0])->0
                    && s.value@ == frame_as_bytes(rem[1])->0 && s.expire is None && final(parse).remaining() == rem.skip(2))
                &&& rem.len() >= 3 && frame_as_string(rem[0]) is Some && frame_as_bytes(rem[1])
                    is Some ==> match frame_as_string(rem[2]) {
                    None => r matches Err(e) && e is Other,
                    Some(opt) => {
                        if upper_of(opt) == "EX"@ || upper_of(opt) == "PX"@ {
                            if rem.len() == 3 {
                                r matches Err(e) && e is EndOfStream
                            } else {
                                match frame_as_int(rem[3]) {
                                    None => r matches Err(e) && e is Other,
                                    Some(n) => r matches Ok(s) && s.key@ == frame_as_string(
                                        rem[0],
                                    )->0 && s.value@ == frame_as_bytes(rem[1])->0 && s.expire
                                        == Some(
                                        if upper_of(opt) == "EX"@ {
                                            secs_to_ms(n)
                                        } else {
                                            n
                                        },
                                    ) && final(parse).remaining() == rem.skip(4),
                                }
                            }
                        } else {
                            r matches Err(e) && e is Other
                        }
                    },
                }
            }),
    {
        let key = match parse.next_string() {
            Ok(s) => s,
            Err(e) => {
                return Err(e);
            },
        };
        let value = match parse.next_bytes() {
            Ok(b) => b,
            Err(e) => {
                return Err(e);
            },
        };
        proof {
            assert(old(parse).remaining().drop_first().drop_first() =~= old(parse).remaining().skip(2));
        }
        let mut expire: Option<u64> = None;
        match parse.next_string() {
            Ok(opt) => {
                let upper = to_uppercase(opt.as_str());
                proof {
                    assert(old(parse).remaining().skip(2).drop_first() =~= old(parse).remaining().skip(3));
                }
                if str_eq(upper.as_str(), "EX") {
                    let secs = match parse.next_int() {
                        Ok(n) => n,
                        Err(e) => {
                            return Err(e);
                        },
                    };
                    proof {
                        assert(old(parse).remaining().skip(3).drop_first() =~= old(parse).remaining().skip(4));
                        if secs <= u64::MAX / 1000 {
                            assert(secs * 1000 <= (u64::MAX / 1000) * 1000 <= u64::MAX)
                                by (nonlinear_arith)
                                requires
                                    secs <= u64::MAX / 1000,
                            ;
                        }
                    }
                    if secs > u64::MAX / 1000 {
                        expire = Some(u64::MAX);
                    } else {
                        expire = Some(secs * 1000);
                    }
                } else if str_eq(upper.as_str(), "PX") {
                    let ms = match parse.next_int() {
                        Ok(n) => n,
                        Err(e) => {
                            return Err(e);
                        },
                    };
                    proof {
                        assert(old(parse).remaining().skip(3).drop_first() =~= old(parse).remaining().skip(4));
                    }
                    expire = Some(ms);
                } else {
                    return Err(ParseError::Other(
                        String::from_str("`SET` supports only the expiration option"),
                    ));
                }
            },
            Err(e) => match e {
                ParseError::EndOfStream => {},
                other => {
                    return Err(other);
                },
            },
        }
        Ok(SetCmd { key, value, expire })
    }

    /// Applies the command: stores the value and answers `OK`. The second
    /// part of the result says whether the reaper must be woken.
    pub fn apply(self, db: &mut Db, now_ms: u64) -> (r: (Frame, bool))
        requires
            old(db).wf(),
        ensures
            final(db).wf(),
            final(db).entries_map() == old(db).entries_map().insert(
                self.key@,
                (self.value@, expires_at_of(self.expire, now_ms)),
            ),
            final(db).channels() == old(db).channels(),
            final(db).shutdown_state() == old(db).shutdown_state(),
            r.0@ == FrameModel::Simple("OK"@),
            r.1 == (match expires_at_of(self.expire, now_ms) {
                Some(w) => match old(db).spec_next_expiration() {
                    Some(m) => w < m,
                    None => true,
                },
                None => false,
            }),
    {
        let notify = db.set(self.key, self.value, self.expire, now_ms);
        (Frame::Simple(String::from_str("OK")), notify)
    }

    /// The frame a client sends for this command: `PX` and milliseconds
    /// carry the time-to-live, when one is set.
    pub fn into_frame(self) -> (r: Frame)
        ensures
            self.expire is None ==> r@ == FrameModel::Array(
                seq![
                    FrameModel::Bulk(encode_utf8("set"@)),
                    FrameModel::Bulk(encode_utf8(self.key@)),
                    FrameModel::Bulk(self.value@),
                ],
            ),
            self.expire matches Some(ms) ==> r@ == FrameModel::Array(
                seq![
                    FrameModel::Bulk(encode_utf8("set"@)),
                    FrameModel::Bulk(encode_utf8(self.key@)),
                    FrameModel::Bulk(self.value@),
                    FrameModel::Bulk(encode_utf8("px"@)),
                    FrameModel::Integer(ms),
                ],
            ),
    {
        let ghost key_view = self.key@;
        let ghost value_view = self.value@;
        let mut frame = Frame::array();
        frame.push_bulk("set".as_bytes_vec());
        frame.push_bulk(self.key.as_str().as_bytes_vec());
        frame.push_bulk(self.value);
        proof {
            assert(Seq::<FrameModel>::empty().push(FrameModel::Bulk(encode_utf8("set"@))).push(
                FrameModel::Bulk(encode_utf8(key_view)),
            ).push(FrameModel::Bulk(value_view)) =~= seq![
                FrameModel::Bulk(encode_utf8("set"@)),
                FrameModel::Bulk(encode_utf8(key_view)),
                FrameModel::Bulk(value_view),
            ]);
        }
        match self.expire {
            None => frame,
            Some(ms) => {
                frame.push_bulk("px".as_bytes_vec());
                frame.push_int(ms);
                proof {
                    assert(seq![
                        FrameModel::Bulk(encode_utf8("set"@)),
                        FrameModel::Bulk(encode_utf8(key_view)),
                        FrameModel::Bulk(value_view),
                    ].push(FrameModel::Bulk(encode_utf8("px"@))).push(FrameModel::Integer(ms))
                        =~= seq![
                        FrameModel::Bulk(encode_utf8("set"@)),
                        FrameModel::Bulk(encode_utf8(key_view)),
                        FrameModel::Bulk(value_view),
                        FrameModel::Bulk(encode_utf8("px"@)),
                        FrameModel::Integer(ms),
                    ]);
                }
                frame
            },
        }
    }
}

} // verus!
