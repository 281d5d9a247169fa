//! What a client makes of the server's frames: pub/sub messages, and the
//! acknowledgements of subscribing and unsubscribing.

use vstd::prelude::*;
use vstd::string::StrSliceExecFns;
use crate::frame::{Frame, FrameModel, frame_is_text};
use crate::parse::{frame_as_string, frame_as_bytes};
use crate::text::string_from_utf8;

verus! {

/// A message received on a subscribed channel.
#[derive(Debug)]
pub struct Message {
    pub channel: String,
    pub content: Vec<u8>,
}

/// Reads a delivered pub/sub message out of a frame: an array of exactly
/// the word `message`, the channel, and the payload.
pub fn parse_message_frame(frame: Frame) -> (r: Result<Message, String>)
    ensures
        ({
            let fm = frame@;
            let ok = fm matches FrameModel::Array(parts) && parts.len() == 3 && frame_is_text(
                parts[0],
                "message"@,
            ) && frame_as_string(parts[1]) is Some && frame_as_bytes(parts[2]) is Some;
            &&& ok ==> (r matches Ok(m) && m.channel@ == frame_as_string(fm->Array_0[1])->0
                && m.content@ == frame_as_bytes(fm->Array_0[2])->0)
            &&& !ok ==> r is Err
        }),
{
    let ghost fm = frame@;
    let mut parts = match frame {
        Frame::Array(parts) => parts,
        _ => {
            proof {
                assert(!(fm is Array));
            }
            return Err(String::from_str("unexpected frame"));
        },
    };
    let ghost parts0 = parts@;
    proof {
        crate::frame::lemma_frames_view_index(parts0);
    }
    if parts.len() != 3 {
        return Err(String::from_str("unexpected frame"));
    }
    let head = parts.remove(0);
    let ghost parts1 = parts@;
    let channel_frame = parts.remove(0);
    let content_frame = parts.remove(0);
    proof {
        crate::frame::lemma_frames_view_index(parts0);
        parts0.remove_ensures(0);
        parts1.remove_ensures(0);
        assert(head == parts0[0]);
        assert(channel_frame == parts0[1]);
        assert(content_frame == parts0[2]);
    }
    if !head.is_text("message") {
        return Err(String::from_str("unexpected frame"));
    }
    let channel = match channel_frame {
        Frame::Simple(s) => s,
        Frame::Bulk(d) => match string_from_utf8(d) {
            Some(s) => s,
            None => {
                return Err(String::from_str("unexpected frame"));
            },
        },
        _ => {
            return Err(String::from_str("unexpected frame"));
        },
    };
    let content = match content_frame {
        Frame::Simple(s) => s.as_str().as_bytes_vec(),
        Frame::Bulk(d) => d,
        _ => {
            return Err(String::from_str("unexpected frame"));
        },
    };
    Ok(Message { channel, content })
}

/// Whether a frame acknowledges a subscription to `channel`: an array
/// opening with the word `subscribe` and the channel.
pub fn check_subscribe_ack(frame: &Frame, channel: &str) -> (r: bool)
    ensures
        r == (frame@ matches FrameModel::Array(parts) && parts.len() >= 2 && frame_is_text(
            parts[0],
            "subscribe"@,
        ) && frame_is_text(parts[1], channel@)),
{
    match frame {
        Frame::Array(parts) => {
            proof {
                crate::frame::lemma_frames_view_index(parts@);
            }
            parts.len() >= 2 && parts[0].is_text("subscribe") && parts[1].is_text(channel)
        },
        _ => false,
    }
}

/// Applies one unsubscribe acknowledgement to the client's list of
/// subscribed channels: the named channel must stand in the list exactly
/// once, and leaves it.
pub fn apply_unsubscribe_ack(subscribed: &mut Vec<String>, frame: &Frame) -> (r: Result<
    (),
    String,
>)
    ensures
        ({
            let fm = frame@;
            let shape_ok = fm matches FrameModel::Array(parts) && parts.len() >= 2
                && frame_is_text(parts[0], "unsubscribe"@);
            &&& !shape_ok ==> (r is Err && final(subscribed)@ == old(subscribed)@)
            &&& shape_ok ==> ({
                let ch = fm->Array_0[1];
                &&& old(subscribed)@.len() == 0 ==> (r is Err && final(subscribed)@ == old(subscribed)@)
                &&& old(subscribed)@.len() > 0 ==> final(subscribed)@ == old(subscribed)@.filter(|c: String| !frame_is_text(ch, c@)) && (r is Ok <==> final(subscribed)@.len() == old(subscribed)@.len() - 1)
            })
        }),
{
    let shape_ok = match frame {
        Frame::Array(parts) => {
            proof {
                crate::frame::lemma_frames_view_index(parts@);
            }
            parts.len() >= 2 && parts[0].is_text("unsubscribe")
        },
        _ => false,
    };
    if !shape_ok {
        return Err(String::from_str("unexpected frame"));
    }
    let channel_frame: &Frame = match frame {
        Frame::Array(parts) => {
            proof {
                crate::frame::lemma_frames_view_index(parts@);
            }
            &parts[1]
        },
        _ => {
            return Err(String::from_str("unexpected frame"));
        },
    };
    let ghost ch = frame@->Array_0[1];
    let len = subscribed.len();
    if len == 0 {
        return Err(String::from_str("unexpected frame"));
    }
    let mut kept: Vec<String> = Vec::new();
    let mut i: usize = 0;
    proof {
        reveal(Seq::filter);
        assert(old(subscribed)@.take(0) =~= Seq::<String>::empty());
        assert(kept@ =~= old(subscribed)@.take(0).filter(|c: String| !frame_is_text(ch, c@)));
    }
    while i < len
        invariant
            len == subscribed@.len(),
            subscribed@ == old(subscribed)@,
            channel_frame@ == ch,
            0 <= i <= len,
            kept@ == old(subscribed)@.take(i as int).filter(|c: String| !frame_is_text(ch, c@)),
        decreases len - i,
    {
        let ghost pre = old(subscribed)@.take(i as int);
        if !channel_frame.is_text(subscribed[i].as_str()) {
            kept.push(subscribed[i].clone());
        }
        proof {
            reveal(Seq::filter);
            assert(old(subscribed)@.take(i + 1).drop_last() =~= pre);
            assert(old(subscribed)@.take(i + 1).last() == old(subscribed)@[i as int]);
        }
        i += 1;
    }
    proof {
        assert(old(subscribed)@.take(len as int) =~= old(subscribed)@);
    }
    let new_len = kept.len();
    *subscribed = kept;
    if new_len == len - 1 {
        Ok(())
    } else {
        Err(String::from_str("unexpected frame"))
    }
}

} // verus!
