//! The commands of the protocol: parsing from an array frame, application
//! to the store, and encoding back to a frame.

pub mod get;
pub mod ping;
pub mod publish;
pub mod set;
pub mod subscribe;
pub mod unknown;

pub use get::Get;
pub use ping::Ping;
pub use publish::Publish;
pub use set::SetCmd;
pub use subscribe::{Subscribe, Unsubscribe};
pub use unknown::Unknown;

use vstd::prelude::*;
use vstd::string::StringExecFns;
use crate::db::{Db, expires_at_of};
use crate::frame::{Frame, FrameModel};
use crate::parse::{Parse, ParseError, frame_as_string, frame_as_bytes, frame_as_int};
use crate::text::{to_lowercase, lower_of, upper_of, str_eq};
use crate::cmd::set::secs_to_ms;

verus! {

/// One parsed command.
#[derive(Debug)]
pub enum Command {
    Get(Get),
    Publish(Publish),
    SetCmd(SetCmd),
    Subscribe(Subscribe),
    Unsubscribe(Unsubscribe),
    Ping(Ping),
    Unknown(Unknown),
}

/// What applying a command asks of the connection: write one response, or
/// enter the subscribed sub-state on the given channels.
pub enum Applied {
    Respond { response: Frame, notify_reaper: bool },
    BeginSubscribe { channels: Vec<String> },
}

impl Command {
    /// Reads one command out of an array frame: the first child names the
    /// command, case-insensitively; the rest are its arguments, and none
    /// may be left over. An unrecognized name parses to `Unknown` with the
    /// leftovers ignored.
    pub fn from_frame(frame: Frame) -> (r: Result<Command, ParseError>)
        ensures
            !(frame@ is Array) ==> (r matches Err(e) && e is Other),
            frame@ is Array ==> ({
                let parts = frame@->Array_0;
                &&& parts.len() == 0 ==> (r matches Err(e) && e is EndOfStream)
                &&& parts.len() >= 1 && frame_as_string(parts[0]) is None ==> (r matches Err(e)
                    && e is Other)
                &&& (parts.len() >= 1 ==> (frame_as_string(parts[0]) matches Some(raw) ==> ({
                    let name = lower_of(raw);
                    let rest = parts.drop_first();
                    &&& name == "get"@ ==> ({
                        &&& rest.len() == 0 ==> (r matches Err(e) && e is EndOfStream)
                        &&& rest.len() >= 1 && frame_as_string(rest[0]) is None ==> (r matches
                        Err(e) && e is Other)
                        &&& rest.len() == 1 && frame_as_string(rest[0]) is Some ==> (r matches
                        Ok(c) && c matches Command::Get(g) && g.key@ == frame_as_string(
                            rest[0],
                        )->0)
                        &&& rest.len() > 1 && frame_as_string(rest[0]) is Some ==> (r matches
                        Err(e) && e is Other)
                    })
                    &&& name == "publish"@ ==> ({
                        &&& rest.len() == 0 ==> (r matches Err(e) && e is EndOfStream)
                        &&& rest.len() >= 1 && frame_as_string(rest[0]) is None ==> (r matches
                        Err(e) && e is Other)
                        &&& rest.len() == 1 && frame_as_string(rest[0]) is Some ==> (r matches
                        Err(e) && e is EndOfStream)
                        &&& rest.len() >= 2 && frame_as_string(rest[0]) is Some
                            && frame_as_bytes(rest[1]) is None ==> (r matches Err(e) && e
                            is Other)
                        &&& rest.len() == 2 && frame_as_string(rest[0]) is Some
                            && frame_as_bytes(rest[1]) is Some ==> (r matches Ok(c) && c matches
                        Command::Publish(p) && p.channel@ == frame_as_string(rest[0])->0
                            && p.message@ == frame_as_bytes(rest[1])->0)
                        &&& rest.len() > 2 && frame_as_string(rest[0]) is Some
                            && frame_as_bytes(rest[1]) is Some ==> (r matches Err(e) && e
                            is Other)
                    })
                    &&& name == "set"@ ==> ({
                        &&& rest.len() == 0 ==> (r matches Err(e) && e is EndOfStream)
                        &&& rest.len() >= 1 && frame_as_string(rest[0]) is None ==> (r matches
                        Err(e) && e is Other)
                        &&& rest.len() == 1 && frame_as_string(rest[0]) is Some ==> (r matches
                        Err(e) && e is EndOfStream)
                        &&& rest.len() >= 2 && frame_as_string(rest[0]) is Some
                            && frame_as_bytes(rest[1]) is None ==> (r matches Err(e) && e
                            is Other)
                        &&& rest.len() == 2 && frame_as_string(rest[0]) is Some
                            && frame_as_bytes(rest[1]) is Some ==> (r matches Ok(c) && c matches
                        Command::SetCmd(s) && s.key@ == frame_as_string(rest[0])->0 && s.value@
                            == frame_as_bytes(rest[1])->0 && s.expire is None)
                        &&& rest.len() >= 3 && frame_as_string(rest[0]) is Some
                            && frame_as_bytes(rest[1]) is Some ==> match frame_as_string(
                            rest[2],
                        ) {
                            None => r matches Err(e) && e is Other,
                            Some(opt) => {
                                if upper_of(opt) == "EX"@ || upper_of(opt) == "PX"@ {
                                    if rest.len() == 3 {
                                        r matches Err(e) && e is EndOfStream
                                    } else {
                                        match frame_as_int(rest[3]) {
                                            None => r matches Err(e) && e is Other,
                                            Some(n) => {
                                                if rest.len() == 4 {
                                                    r matches Ok(c) && c matches Command::SetCmd(s)
                                                        && s.key@ == frame_as_string(rest[0])->0
                                                        && s.value@ == frame_as_bytes(rest[1])->0
                                                        && s.expire == Some(
                                                        if upper_of(opt) == "EX"@ {
                                                            secs_to_ms(n)
                                                        } else {
                                                            n
                                                        },
                                                    )
                                                } else {
                                                    r matches Err(e) && e is Other
                                                }
                                            },
                                        }
                                    }
                                } else {
                                    r matches Err(e) && e is Other
                                }
                            },
                        }
                    })
                    &&& name == "subscribe"@ ==> ({
                        &&& rest.len() == 0 ==> (r matches Err(e) && e is EndOfStream)
                        &&& rest.len() >= 1 && (forall|i: int|
                            0 <= i < rest.len() ==> frame_as_string(#[trigger] rest[i]) is Some)
                            ==> (r matches Ok(c) && c matches Command::Subscribe(s)
                            && s.channels@.len() == rest.len() && (forall|i: int|
                            0 <= i < rest.len() ==> (#[trigger] s.channels@[i])@
                                == frame_as_string(rest[i])->0))
                        &&& rest.len() >= 1 ==> (r matches Err(e) ==> e is Other)
                    })
                    &&& name == "unsubscribe"@ ==> ({
                        &&& (forall|i: int|
                            0 <= i < rest.len() ==> frame_as_string(#[trigger] rest[i]) is Some)
                            ==> (r matches Ok(c) && c matches Command::Unsubscribe(u)
                            && u.channels@.len() == rest.len() && (forall|i: int|
                            0 <= i < rest.len() ==> (#[trigger] u.channels@[i])@
                                == frame_as_string(rest[i])->0))
                        &&& (r matches Err(e) ==> e is Other)
                    })
                    &&& name == "ping"@ ==> ({
                        &&& rest.len() == 0 ==> (r matches Ok(c) && c matches Command::Ping(p)
                            && p.msg is None)
                        &&& rest.len() >= 1 && frame_as_bytes(rest[0]) is None ==> (r matches
                        Err(e) && e is Other)
                        &&& rest.len() == 1 && frame_as_bytes(rest[0]) is Some ==> (r matches
                        Ok(c) && c matches Command::Ping(p) && p.msg matches Some(m) && m@
                            == frame_as_bytes(rest[0])->0)
                        &&& rest.len() > 1 && frame_as_bytes(rest[0]) is Some ==> (r matches
                        Err(e) && e is Other)
                    })
                    &&& (name != "get"@ && name != "publish"@ && name != "set"@ && name
                        != "subscribe"@ && name != "unsubscribe"@ && name != "ping"@) ==> (
                    r matches Ok(c) && c matches Command::Unknown(u) && u.command_name@ == name)
                })))
            }),
    {
        proof {
            reveal_strlit("get");
            reveal_strlit("publish");
            reveal_strlit("set");
            reveal_strlit("subscribe");
            reveal_strlit("unsubscribe");
            reveal_strlit("ping");
            assert("get"@.len() == 3 && "get"@[0] == 'g');
            assert("publish"@.len() == 7);
            assert("set"@.len() == 3 && "set"@[0] == 's');
            assert("subscribe"@.len() == 9);
            assert("unsubscribe"@.len() == 11);
            assert("ping"@.len() == 4);
        }
        let mut parse = match Parse::new(frame) {
            Ok(p) => p,
            Err(e) => {
                return Err(e);
            },
        };
        let raw = match parse.next_string() {
            Ok(s) => s,
            Err(e) => {
                return Err(e);
            },
        };
        let name = to_lowercase(raw.as_str());
        let command = if str_eq(name.as_str(), "get") {
            match Get::parse_frames(&mut parse) {
                Ok(c) => Command::Get(c),
                Err(e) => {
                    return Err(e);
                },
            }
        } else if str_eq(name.as_str(), "publish") {
            match Publish::parse_frames(&mut parse) {
                Ok(c) => Command::Publish(c),
                Err(e) => {
                    return Err(e);
                },
            }
        } else if str_eq(name.as_str(), "set") {
            match SetCmd::parse_frames(&mut parse) {
                Ok(c) => Command::SetCmd(c),
                Err(e) => {
                    return Err(e);
                },
            }
        } else if str_eq(name.as_str(), "subscribe") {
            match Subscribe::parse_frames(&mut parse) {
                Ok(c) => Command::Subscribe(c),
                Err(e) => {
                    return Err(e);
                },
            }
        } else if str_eq(name.as_str(), "unsubscribe") {
            match Unsubscribe::parse_frames(&mut parse) {
                Ok(c) => Command::Unsubscribe(c),
                Err(e) => {
                    return Err(e);
                },
            }
        } else if str_eq(name.as_str(), "ping") {
            match Ping::parse_frames(&mut parse) {
                Ok(c) => Command::Ping(c),
                Err(e) => {
                    return Err(e);
                },
            }
        } else {
            return Ok(Command::Unknown(Unknown::new(name.as_str())));
        };
        match parse.finish() {
            Ok(()) => Ok(command),
            Err(e) => Err(e),
        }
    }

    /// Applies the command to the store. Most commands ask for one response
    /// frame to be written; `SUBSCRIBE` asks the connection to enter the
    /// subscribed sub-state; `UNSUBSCRIBE` is an error outside of it.
    pub fn apply(self, db: &mut Db, now_ms: u64) -> (r: Result<Applied, String>)
        requires
            old(db).wf(),
        ensures
            final(db).wf(),
            match self {
                Command::Get(g) => *final(db) == *old(db) && (r matches Ok(a) && a matches
                    Applied::Respond { response, notify_reaper } && !notify_reaper && (old(
                    db,
                ).entries_map().contains_key(g.key@) ==> response@ == FrameModel::Bulk(
                    old(db).entries_map()[g.key@].0,
                )) && (!old(db).entries_map().contains_key(g.key@) ==> response@
                    == FrameModel::Null)),
                Command::SetCmd(s) => final(db).entries_map() == old(db).entries_map().insert(
                    s.key@,
                    (s.value@, expires_at_of(s.expire, now_ms)),
                ) && final(db).channels() == old(db).channels() && final(db).shutdown_state()
                    == old(db).shutdown_state() && (r matches Ok(a) && a matches
                    Applied::Respond { response, notify_reaper } && response@
                    == FrameModel::Simple("OK"@) && notify_reaper == (match expires_at_of(
                    s.expire,
                    now_ms,
                ) {
                    Some(w) => match old(db).spec_next_expiration() {
                        Some(m) => w < m,
                        None => true,
                    },
                    None => false,
                })),
                Command::Publish(p) => *final(db) == *old(db) && (r matches Ok(a) && a matches
                    Applied::Respond { response, notify_reaper } && !notify_reaper && response@
                    is Integer && (!old(db).channels().contains(p.channel@) ==> response@
                    == FrameModel::Integer(0))),
                Command::Subscribe(s) => *final(db) == *old(db) && (r matches Ok(a) && a matches
                    Applied::BeginSubscribe { channels } && channels == s.channels),
                Command::Unsubscribe(_) => *final(db) == *old(db) && r is Err,
                Command::Ping(p) => *final(db) == *old(db) && (r matches Ok(a) && a matches
                    Applied::Respond { response, notify_reaper } && !notify_reaper && (p.msg
                    is None ==> response@ == FrameModel::Simple("PONG"@)) && (p.msg matches Some(
                    m,
                ) ==> response@ == FrameModel::Bulk(m@))),
                Command::Unknown(u) => *final(db) == *old(db) && (r matches Ok(a) && a matches
                    Applied::Respond { response, notify_reaper } && !notify_reaper && response@
                    == FrameModel::Error("ERR unknown command '"@ + u.command_name@ + "'"@)),
            },
    {
        match self {
            Command::Get(cmd) => {
                let response = cmd.apply(db);
                Ok(Applied::Respond { response, notify_reaper: false })
            },
            Command::SetCmd(cmd) => {
                let (response, notify_reaper) = cmd.apply(db, now_ms);
                Ok(Applied::Respond { response, notify_reaper })
            },
            Command::Publish(cmd) => {
                let response = cmd.apply(db);
                Ok(Applied::Respond { response, notify_reaper: false })
            },
            Command::Subscribe(cmd) => Ok(Applied::BeginSubscribe { channels: cmd.channels }),
            Command::Unsubscribe(_) => Err(
                String::from_str("`UNSUBSCRIBE` is not supported in this context"),
            ),
            Command::Ping(cmd) => {
                let response = cmd.apply();
                Ok(Applied::Respond { response, notify_reaper: false })
            },
            Command::Unknown(cmd) => {
                let response = cmd.apply();
                Ok(Applied::Respond { response, notify_reaper: false })
            },
        }
    }

    /// The canonical name of the command.
    pub fn get_name(&self) -> (r: &str)
        ensures
            match *self {
                Command::Get(_) => r@ == "get"@,
                Command::Publish(_) => r@ == "pub"@,
                Command::SetCmd(_) => r@ == "set"@,
                Command::Subscribe(_) => r@ == "subscribe"@,
                Command::Unsubscribe(_) => r@ == "unsubscribe"@,
                Command::Ping(_) => r@ == "ping"@,
                Command::Unknown(u) => r@ == u.command_name@,
            },
    {
        match self {
            Command::Get(_) => "get",
            Command::Publish(_) => "pub",
            Command::SetCmd(_) => "set",
            Command::Subscribe(_) => "subscribe",
            Command::Unsubscribe(_) => "unsubscribe",
            Command::Ping(_) => "ping",
            Command::Unknown(cmd) => cmd.get_name(),
        }
    }
}

} // verus!
