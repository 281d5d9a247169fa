//! Protocol frames and their codec.
//!
//! A frame is one unit of the wire protocol. The on-wire form of every frame
//! is specified by [`frame_bytes`]; the decoder is specified by [`spec_parse`]
//! and [`spec_check`], which the executable [`Frame::parse`] and
//! [`Frame::check`] follow exactly. Encoding a well-formed frame and parsing
//! the result returns the frame and consumes exactly its bytes
//! ([`lemma_frame_round_trip`]).

use vstd::prelude::*;
use vstd::utf8::{encode_utf8, decode_utf8, valid_utf8};
use vstd::utf8::{encode_utf8_valid_utf8, encode_utf8_decode_utf8};
use vstd::slice::slice_to_vec;
use vstd::string::StringExecFns;
use crate::num::{
    dec_digits, is_digit, spec_atoi_u64, lemma_dec_digits, lemma_atoi_all_digits, atoi_u64,
    u64_to_dec,
};

verus! {

/// A frame of the wire protocol.
#[derive(Debug, PartialEq, Eq)]
pub enum Frame {
    Simple(String),
    Error(String),
    Integer(u64),
    Bulk(Vec<u8>),
    Null,
    Array(Vec<Frame>),
}

/// The mathematical model of a frame: strings as character sequences, byte
/// strings as byte sequences.
pub enum FrameModel {
    Simple(Seq<char>),
    Error(Seq<char>),
    Integer(u64),
    Bulk(Seq<u8>),
    Null,
    Array(Seq<FrameModel>),
}

/// The model of each frame of a sequence.
pub open spec fn frames_view(s: Seq<Frame>) -> Seq<FrameModel>
    decreases s,
{
    if s.len() == 0 {
        Seq::empty()
    } else {
        seq![frame_view(s[0])] + frames_view(s.drop_first())
    }
}

/// The model of a frame.
pub open spec fn frame_view(f: Frame) -> FrameModel
    decreases f,
{
    match f {
        Frame::Simple(s) => FrameModel::Simple(s@),
        Frame::Error(s) => FrameModel::Error(s@),
        Frame::Integer(n) => FrameModel::Integer(n),
        Frame::Bulk(d) => FrameModel::Bulk(d@),
        Frame::Null => FrameModel::Null,
        Frame::Array(items) => FrameModel::Array(frames_view(items@)),
    }
}

impl View for Frame {
    type V = FrameModel;

    open spec fn view(&self) -> FrameModel {
        frame_view(*self)
    }
}

pub proof fn lemma_frames_view_index(s: Seq<Frame>)
    ensures
        frames_view(s).len() == s.len(),
        forall|i: int| 0 <= i < s.len() ==> frames_view(s)[i] == frame_view(#[trigger] s[i]),
    decreases s,
{
    if s.len() != 0 {
        lemma_frames_view_index(s.drop_first());
        assert forall|i: int| 0 <= i < s.len() implies frames_view(s)[i] == frame_view(
            #[trigger] s[i],
        ) by {
            if i > 0 {
                assert(frames_view(s)[i] == frames_view(s.drop_first())[i - 1]);
                assert(s.drop_first()[i - 1] == s[i]);
            }
        }
    }
}

pub proof fn lemma_frames_view_push(s: Seq<Frame>, f: Frame)
    ensures
        frames_view(s.push(f)) == frames_view(s).push(frame_view(f)),
    decreases s,
{
    if s.len() == 0 {
        assert(s.push(f).drop_first() =~= Seq::<Frame>::empty());
        assert(s.push(f)[0] == f);
        assert(frames_view(s.push(f)) == seq![frame_view(f)] + frames_view(
            s.push(f).drop_first(),
        ));
        assert(frames_view(s.push(f)) =~= frames_view(s).push(frame_view(f)));
    } else {
        assert(s.push(f).drop_first() =~= s.drop_first().push(f));
        lemma_frames_view_push(s.drop_first(), f);
        assert(s.push(f)[0] == s[0]);
        assert(frames_view(s.push(f)) == seq![frame_view(s[0])] + frames_view(
            s.drop_first().push(f),
        ));
        assert(frames_view(s.push(f)) =~= frames_view(s).push(frame_view(f)));
    }
}

/// The two line-terminator bytes.
pub open spec fn crlf() -> Seq<u8> {
    seq![13u8, 10u8]
}

/// A byte sequence that may stand on a protocol line: no CR, no LF.
pub open spec fn line_ok(s: Seq<u8>) -> bool {
    forall|i: int| 0 <= i < s.len() ==> s[i] != 13 && s[i] != 10
}

/// The on-wire encoding of a frame.
pub open spec fn frame_bytes(v: FrameModel) -> Seq<u8>
    decreases v,
{
    match v {
        FrameModel::Simple(t) => seq![43u8] + encode_utf8(t) + crlf(),
        FrameModel::Error(t) => seq![45u8] + encode_utf8(t) + crlf(),
        FrameModel::Integer(n) => seq![58u8] + dec_digits(n as nat) + crlf(),
        FrameModel::Bulk(d) => seq![36u8] + dec_digits(d.len()) + crlf() + d + crlf(),
        FrameModel::Null => seq![36u8, 45u8, 49u8, 13u8, 10u8],
        FrameModel::Array(items) => seq![42u8] + dec_digits(items.len()) + crlf()
            + frames_bytes(items),
    }
}

/// The concatenated encodings of a sequence of frames.
pub open spec fn frames_bytes(s: Seq<FrameModel>) -> Seq<u8>
    decreases s,
{
    if s.len() == 0 {
        Seq::empty()
    } else {
        frame_bytes(s[0]) + frames_bytes(s.drop_first())
    }
}

pub proof fn lemma_frames_bytes_push(s: Seq<FrameModel>, v: FrameModel)
    ensures
        frames_bytes(s.push(v)) == frames_bytes(s) + frame_bytes(v),
    decreases s,
{
    if s.len() == 0 {
        assert(s.push(v).drop_first() =~= Seq::<FrameModel>::empty());
        assert(s.push(v)[0] == v);
        assert(frames_bytes(s.push(v)) == frame_bytes(v) + frames_bytes(
            s.push(v).drop_first(),
        ));
        assert(frames_bytes(s.push(v)) =~= frames_bytes(s) + frame_bytes(v));
    } else {
        assert(s.push(v).drop_first() =~= s.drop_first().push(v));
        lemma_frames_bytes_push(s.drop_first(), v);
        assert(s.push(v)[0] == s[0]);
        assert(frames_bytes(s.push(v)) == frame_bytes(s[0]) + frames_bytes(
            s.drop_first().push(v),
        ));
        assert(frames_bytes(s.push(v)) =~= frames_bytes(s) + frame_bytes(v));
    }
}

/// A frame that the encoder and decoder agree on: line frames carry no line
/// terminator, and lengths fit the machine.
pub open spec fn frame_wf(v: FrameModel) -> bool
    decreases v,
{
    match v {
        FrameModel::Simple(t) => line_ok(encode_utf8(t)),
        FrameModel::Error(t) => line_ok(encode_utf8(t)),
        FrameModel::Integer(_) => true,
        FrameModel::Bulk(d) => d.len() <= usize::MAX,
        FrameModel::Null => true,
        FrameModel::Array(items) => items.len() <= usize::MAX && frames_wf(items),
    }
}

pub open spec fn frames_wf(s: Seq<FrameModel>) -> bool
    decreases s,
{
    if s.len() == 0 {
        true
    } else {
        frame_wf(s[0]) && frames_wf(s.drop_first())
    }
}

impl Frame {
    /// An empty array frame, ready for [`Frame::push_bulk`] and
    /// [`Frame::push_int`].
    pub fn array() -> (f: Frame)
        ensures
            f@ == FrameModel::Array(Seq::<FrameModel>::empty()),
    {
        let f = Frame::Array(Vec::new());
        proof {
            assert(frames_view(Seq::<Frame>::empty()) =~= Seq::<FrameModel>::empty());
        }
        f
    }

    /// Appends a bulk frame to an array frame.
    pub fn push_bulk(&mut self, bytes: Vec<u8>)
        requires
            old(self)@ is Array,
        ensures
            final(self)@ == FrameModel::Array(old(self)@->Array_0.push(FrameModel::Bulk(bytes@))),
    {
        let ghost old_items = self@->Array_0;
        match self {
            Frame::Array(vec) => {
                let ghost v0 = vec@;
                vec.push(Frame::Bulk(bytes));
                proof {
                    lemma_frames_view_push(v0, Frame::Bulk(bytes));
                    assert(frames_view(v0) == old_items);
                }
            },
            _ => {
                proof {
                    assert(false);
                }
            },
        }
    }

    /// Appends an integer frame to an array frame.
    pub fn push_int(&mut self, value: u64)
        requires
            old(self)@ is Array,
        ensures
            final(self)@ == FrameModel::Array(
                old(self)@->Array_0.push(FrameModel::Integer(value)),
            ),
    {
        let ghost old_items = self@->Array_0;
        match self {
            Frame::Array(vec) => {
                let ghost v0 = vec@;
                vec.push(Frame::Integer(value));
                proof {
                    lemma_frames_view_push(v0, Frame::Integer(value));
                    assert(frames_view(v0) == old_items);
                }
            },
            _ => {
                proof {
                    assert(false);
                }
            },
        }
    }

    /// Writes the frame in its on-wire form.
    pub fn encode(&self) -> (r: Vec<u8>)
        ensures
            r@ == frame_bytes(self@),
        decreases *self,
    {
        let mut out: Vec<u8> = Vec::new();
        match self {
            Frame::Simple(s) => {
                out.push(43);
                let mut body = s.as_str().as_bytes_vec();
                out.append(&mut body);
                out.push(13);
                out.push(10);
                proof {
                    assert(out@ =~= frame_bytes(self@));
                }
            },
            Frame::Error(s) => {
                out.push(45);
                let mut body = s.as_str().as_bytes_vec();
                out.append(&mut body);
                out.push(13);
                out.push(10);
                proof {
                    assert(out@ =~= frame_bytes(self@));
                }
            },
            Frame::Integer(n) => {
                out.push(58);
                let mut digits = u64_to_dec(*n);
                out.append(&mut digits);
                out.push(13);
                out.push(10);
                proof {
                    assert(out@ =~= frame_bytes(self@));
                }
            },
            Frame::Bulk(d) => {
                out.push(36);
                let mut digits = u64_to_dec(d.len() as u64);
                out.append(&mut digits);
                out.push(13);
                out.push(10);
                let mut body = slice_to_vec(d.as_slice());
                out.append(&mut body);
                out.push(13);
                out.push(10);
                proof {
                    assert(out@ =~= frame_bytes(self@));
                }
            },
            Frame::Null => {
                out.push(36);
                out.push(45);
                out.push(49);
                out.push(13);
                out.push(10);
                proof {
                    assert(out@ =~= frame_bytes(self@));
                }
            },
            Frame::Array(items) => {
                out.push(42);
                let mut digits = u64_to_dec(items.len() as u64);
                out.append(&mut digits);
                out.push(13);
                out.push(10);
                let ghost header = out@;
                let n = items.len();
                let mut i: usize = 0;
                proof {
                    assert(items@.take(0) =~= Seq::<Frame>::empty());
                    assert(out@ =~= header + frames_bytes(frames_view(items@.take(0))));
                }
                while i < n
                    invariant
                        n == items@.len(),
                        0 <= i <= n,
                        *self == Frame::Array(*items),
                        out@ == header + frames_bytes(frames_view(items@.take(i as int))),
                    decreases n - i,
                {
                    proof {
                        assert((*self)->Array_0 == *items);
                        assert(decreases_to!(*self => (*self)->Array_0));
                        assert(decreases_to!(*items => items@));
                        assert(decreases_to!(items@ => items@[i as int]));
                    }
                    let mut child = items[i].encode();
                    out.append(&mut child);
                    proof {
                        let pre = items@.take(i as int);
                        assert(items@.take(i + 1) =~= pre.push(items@[i as int]));
                        lemma_frames_view_push(pre, items@[i as int]);
                        lemma_frames_bytes_push(frames_view(pre), frame_view(items@[i as int]));
                        assert(out@ =~= header + frames_bytes(
                            frames_view(items@.take(i + 1)),
                        ));
                    }
                    i += 1;
                }
                proof {
                    assert(items@.take(n as int) =~= items@);
                    lemma_frames_view_index(items@);
                    assert(out@ =~= frame_bytes(self@));
                }
            },
        }
        out
    }
}

/// What a decoding pass reports: a value and the position right after it,
/// a need for more bytes, or a protocol violation.
pub enum Decoded<T> {
    Done(T, int),
    Incomplete,
    Invalid,
}

/// A decoding error. `Incomplete` asks the caller for more bytes; `Other`
/// ends the connection.
#[derive(Debug)]
pub enum Error {
    Incomplete,
    Other(String),
}

/// The first position at or after `pos` where a CRLF pair starts.
pub open spec fn find_crlf(b: Seq<u8>, pos: int) -> Option<int>
    decreases b.len() - pos,
{
    if pos + 2 > b.len() {
        None
    } else if b[pos] == 13 && b[pos + 1] == 10 {
        Some(pos)
    } else {
        find_crlf(b, pos + 1)
    }
}

pub proof fn lemma_find_crlf_some(b: Seq<u8>, pos: int)
    requires
        0 <= pos,
        find_crlf(b, pos) is Some,
    ensures
        pos <= find_crlf(b, pos)->0,
        find_crlf(b, pos)->0 + 2 <= b.len(),
        b[find_crlf(b, pos)->0] == 13,
        b[find_crlf(b, pos)->0 + 1] == 10,
    decreases b.len() - pos,
{
    if pos + 2 <= b.len() && !(b[pos] == 13 && b[pos + 1] == 10) {
        lemma_find_crlf_some(b, pos + 1);
    }
}

/// Where the text before a CRLF holds neither CR nor LF, the scan finds
/// exactly the terminator that follows it.
pub proof fn lemma_find_crlf_at(b: Seq<u8>, pos: int, k: int)
    requires
        0 <= pos,
        0 <= k,
        pos + k + 2 <= b.len(),
        forall|j: int| pos <= j < pos + k ==> b[j] != 13 && b[j] != 10,
        b[pos + k] == 13,
        b[pos + k + 1] == 10,
    ensures
        find_crlf(b, pos) == Some(pos + k),
    decreases k,
{
    if k > 0 {
        lemma_find_crlf_at(b, pos + 1, k - 1);
    }
}

/// One line: the bytes up to the next CRLF, and the position after it.
pub open spec fn spec_get_line(b: Seq<u8>, pos: int) -> Decoded<Seq<u8>> {
    match find_crlf(b, pos) {
        Some(i) => Decoded::Done(b.subrange(pos, i), i + 2),
        None => Decoded::Incomplete,
    }
}

/// One decimal line, read back by [`spec_atoi_u64`].
pub open spec fn spec_get_decimal(b: Seq<u8>, pos: int) -> Decoded<u64> {
    match spec_get_line(b, pos) {
        Decoded::Done(line, end) => match spec_atoi_u64(line) {
            Some(n) => Decoded::Done(n, end),
            None => Decoded::Invalid,
        },
        Decoded::Incomplete => Decoded::Incomplete,
        Decoded::Invalid => Decoded::Invalid,
    }
}

pub proof fn lemma_spec_get_line_advances(b: Seq<u8>, pos: int)
    requires
        0 <= pos,
        spec_get_line(b, pos) is Done,
    ensures
        pos + 2 <= spec_get_line(b, pos)->Done_1 <= b.len(),
        spec_get_line(b, pos)->Done_0.len() == spec_get_line(b, pos)->Done_1 - 2 - pos,
{
    lemma_find_crlf_some(b, pos);
}

/// Whether one whole frame stands at `pos`, and where it ends.
pub open spec fn spec_check(b: Seq<u8>, pos: int) -> Decoded<()>
    decreases b.len() - pos, 1int,
{
    if pos < 0 || pos >= b.len() {
        Decoded::Incomplete
    } else {
        let t = b[pos];
        let p = pos + 1;
        if t == 43 || t == 45 {
            match spec_get_line(b, p) {
                Decoded::Done(_, end) => Decoded::Done((), end),
                Decoded::Incomplete => Decoded::Incomplete,
                Decoded::Invalid => Decoded::Invalid,
            }
        } else if t == 58 {
            match spec_get_decimal(b, p) {
                Decoded::Done(_, end) => Decoded::Done((), end),
                Decoded::Incomplete => Decoded::Incomplete,
                Decoded::Invalid => Decoded::Invalid,
            }
        } else if t == 36 {
            if p >= b.len() {
                Decoded::Incomplete
            } else if b[p] == 45 {
                if b.len() - p < 4 {
                    Decoded::Incomplete
                } else {
                    Decoded::Done((), p + 4)
                }
            } else {
                match spec_get_decimal(b, p) {
                    Decoded::Done(n, end) => if n > usize::MAX {
                        Decoded::Invalid
                    } else if b.len() - end < n + 2 {
                        Decoded::Incomplete
                    } else {
                        Decoded::Done((), end + n + 2)
                    },
                    Decoded::Incomplete => Decoded::Incomplete,
                    Decoded::Invalid => Decoded::Invalid,
                }
            }
        } else if t == 42 {
            match spec_get_decimal(b, p) {
                Decoded::Done(n, end) => if pos < end <= b.len() {
                    spec_check_items(b, end, n as int)
                } else {
                    Decoded::Invalid
                },
                Decoded::Incomplete => Decoded::Incomplete,
                Decoded::Invalid => Decoded::Invalid,
            }
        } else {
            Decoded::Invalid
        }
    }
}

/// Whether `n` whole frames stand one after another at `pos`.
pub open spec fn spec_check_items(b: Seq<u8>, pos: int, n: int) -> Decoded<()>
    decreases b.len() - pos, 2 + n,
{
    if n <= 0 {
        Decoded::Done((), pos)
    } else {
        match spec_check(b, pos) {
            Decoded::Done(_, end) => if pos < end <= b.len() {
                spec_check_items(b, end, n - 1)
            } else {
                Decoded::Invalid
            },
            Decoded::Incomplete => Decoded::Incomplete,
            Decoded::Invalid => Decoded::Invalid,
        }
    }
}

/// The frame standing at `pos`, and where it ends.
pub open spec fn spec_parse(b: Seq<u8>, pos: int) -> Decoded<FrameModel>
    decreases b.len() - pos, 1int,
{
    if pos < 0 || pos >= b.len() {
        Decoded::Incomplete
    } else {
        let t = b[pos];
        let p = pos + 1;
        if t == 43 || t == 45 {
            match spec_get_line(b, p) {
                Decoded::Done(line, end) => if valid_utf8(line) {
                    if t == 43 {
                        Decoded::Done(FrameModel::Simple(decode_utf8(line)), end)
                    } else {
                        Decoded::Done(FrameModel::Error(decode_utf8(line)), end)
                    }
                } else {
                    Decoded::Invalid
                },
                Decoded::Incomplete => Decoded::Incomplete,
                Decoded::Invalid => Decoded::Invalid,
            }
        } else if t == 58 {
            match spec_get_decimal(b, p) {
                Decoded::Done(n, end) => Decoded::Done(FrameModel::Integer(n), end),
                Decoded::Incomplete => Decoded::Incomplete,
                Decoded::Invalid => Decoded::Invalid,
            }
        } else if t == 36 {
            if p >= b.len() {
                Decoded::Incomplete
            } else if b[p] == 45 {
                match spec_get_line(b, p) {
                    Decoded::Done(line, end) => if line == seq![45u8, 49u8] {
                        Decoded::Done(FrameModel::Null, end)
                    } else {
                        Decoded::Invalid
                    },
                    Decoded::Incomplete => Decoded::Incomplete,
                    Decoded::Invalid => Decoded::Invalid,
                }
            } else {
                match spec_get_decimal(b, p) {
                    Decoded::Done(n, end) => if n > usize::MAX {
                        Decoded::Invalid
                    } else if b.len() - end < n + 2 {
                        Decoded::Incomplete
                    } else {
                        Decoded::Done(
                            FrameModel::Bulk(b.subrange(end, end + n)),
                            end + n + 2,
                        )
                    },
                    Decoded::Incomplete => Decoded::Incomplete,
                    Decoded::Invalid => Decoded::Invalid,
                }
            }
        } else if t == 42 {
            match spec_get_decimal(b, p) {
                Decoded::Done(n, end) => if n > usize::MAX {
                    Decoded::Invalid
                } else if pos < end <= b.len() {
                    match spec_parse_items(b, end, n as int) {
                        Decoded::Done(items, e2) => Decoded::Done(FrameModel::Array(items), e2),
                        Decoded::Incomplete => Decoded::Incomplete,
                        Decoded::Invalid => Decoded::Invalid,
                    }
                } else {
                    Decoded::Invalid
                },
                Decoded::Incomplete => Decoded::Incomplete,
                Decoded::Invalid => Decoded::Invalid,
            }
        } else {
            Decoded::Invalid
        }
    }
}

/// The `n` frames standing one after another at `pos`.
pub open spec fn spec_parse_items(b: Seq<u8>, pos: int, n: int) -> Decoded<Seq<FrameModel>>
    decreases b.len() - pos, 2 + n,
{
    if n <= 0 {
        Decoded::Done(Seq::empty(), pos)
    } else {
        match spec_parse(b, pos) {
            Decoded::Done(v, end) => if pos < end <= b.len() {
                match spec_parse_items(b, end, n - 1) {
                    Decoded::Done(rest, e2) => Decoded::Done(seq![v] + rest, e2),
                    Decoded::Incomplete => Decoded::Incomplete,
                    Decoded::Invalid => Decoded::Invalid,
                }
            } else {
                Decoded::Invalid
            },
            Decoded::Incomplete => Decoded::Incomplete,
            Decoded::Invalid => Decoded::Invalid,
        }
    }
}

/// A completed check ends after the position it started at, within the
/// buffer.
pub proof fn lemma_spec_check_advances(b: Seq<u8>, pos: int)
    requires
        spec_check(b, pos) is Done,
    ensures
        pos < spec_check(b, pos)->Done_1 <= b.len(),
    decreases b.len() - pos, 1int,
{
    let p = pos + 1;
    if pos < b.len() {
        let t = b[pos];
        if t == 43 || t == 45 || t == 58 || (t == 36 && p < b.len() && b[p] != 45) || t == 42 {
            if spec_get_line(b, p) is Done {
                lemma_spec_get_line_advances(b, p);
            }
        }
        if t == 42 {
            match spec_get_decimal(b, p) {
                Decoded::Done(n, end) => {
                    if pos < end <= b.len() {
                        lemma_spec_check_items_advances(b, end, n as int);
                    }
                },
                _ => {},
            }
        }
    }
}

pub proof fn lemma_spec_check_items_advances(b: Seq<u8>, pos: int, n: int)
    requires
        spec_check_items(b, pos, n) is Done,
    ensures
        pos <= spec_check_items(b, pos, n)->Done_1 <= b.len() || (n <= 0
            && spec_check_items(b, pos, n)->Done_1 == pos),
    decreases b.len() - pos, 2 + n,
{
    if n > 0 {
        match spec_check(b, pos) {
            Decoded::Done(_, end) => {
                if pos < end <= b.len() {
                    lemma_spec_check_items_advances(b, end, n - 1);
                }
            },
            _ => {},
        }
    }
}

/// A completed parse ends after the position it started at, within the
/// buffer.
pub proof fn lemma_spec_parse_advances(b: Seq<u8>, pos: int)
    requires
        spec_parse(b, pos) is Done,
    ensures
        pos < spec_parse(b, pos)->Done_1 <= b.len(),
    decreases b.len() - pos, 1int,
{
    let p = pos + 1;
    if pos < b.len() {
        let t = b[pos];
        if spec_get_line(b, p) is Done {
            lemma_spec_get_line_advances(b, p);
        }
        if t == 42 {
            match spec_get_decimal(b, p) {
                Decoded::Done(n, end) => {
                    if n <= usize::MAX && pos < end <= b.len() {
                        lemma_spec_parse_items_advances(b, end, n as int);
                    }
                },
                _ => {},
            }
        }
    }
}

pub proof fn lemma_spec_parse_items_advances(b: Seq<u8>, pos: int, n: int)
    requires
        spec_parse_items(b, pos, n) is Done,
    ensures
        pos <= spec_parse_items(b, pos, n)->Done_1 <= b.len() || (n <= 0
            && spec_parse_items(b, pos, n)->Done_1 == pos),
    decreases b.len() - pos, 2 + n,
{
    if n > 0 {
        match spec_parse(b, pos) {
            Decoded::Done(_, end) => {
                if pos < end <= b.len() {
                    lemma_spec_parse_items_advances(b, end, n - 1);
                }
            },
            _ => {},
        }
    }
}

/// The parse pass consumes exactly the bytes the check pass covers: where
/// a frame parses, the check accepts it and ends at the same position.
pub proof fn lemma_parse_agrees_with_check(b: Seq<u8>, pos: int)
    requires
        spec_parse(b, pos) is Done,
    ensures
        spec_check(b, pos) == Decoded::<()>::Done((), spec_parse(b, pos)->Done_1),
    decreases b.len() - pos, 1int,
{
    let p = pos + 1;
    if pos < b.len() {
        let t = b[pos];
        if t == 36 && p < b.len() && b[p] == 45 {
            match spec_get_line(b, p) {
                Decoded::Done(line, end) => {
                    if line == seq![45u8, 49u8] {
                        lemma_spec_get_line_advances(b, p);
                        lemma_find_crlf_some(b, p);
                        let i = find_crlf(b, p)->0;
                        assert(line.len() == 2);
                        assert(end == p + 4);
                    }
                },
                _ => {},
            }
        }
        if t == 42 {
            match spec_get_decimal(b, p) {
                Decoded::Done(n, end) => {
                    if n <= usize::MAX && pos < end <= b.len() {
                        lemma_parse_items_agree_with_check(b, end, n as int);
                    }
                },
                _ => {},
            }
        }
    }
}

pub proof fn lemma_parse_items_agree_with_check(b: Seq<u8>, pos: int, n: int)
    requires
        spec_parse_items(b, pos, n) is Done,
    ensures
        spec_check_items(b, pos, n) == Decoded::<()>::Done(
            (),
            spec_parse_items(b, pos, n)->Done_1,
        ),
    decreases b.len() - pos, 2 + n,
{
    if n > 0 {
        match spec_parse(b, pos) {
            Decoded::Done(v, end) => {
                if pos < end <= b.len() {
                    lemma_parse_agrees_with_check(b, pos);
                    lemma_parse_items_agree_with_check(b, end, n - 1);
                }
            },
            _ => {},
        }
    }
}

/// Decoding an encoded well-formed frame embedded in a larger buffer yields
/// that frame and ends right after its bytes.
pub proof fn lemma_round_trip_at(v: FrameModel, b: Seq<u8>, pos: int)
    requires
        frame_wf(v),
        0 <= pos,
        pos + frame_bytes(v).len() <= b.len(),
        b.subrange(pos, pos + frame_bytes(v).len() as int) == frame_bytes(v),
    ensures
        spec_parse(b, pos) == Decoded::<FrameModel>::Done(v, pos + frame_bytes(v).len()),
    decreases v,
{
    let enc = frame_bytes(v);
    assert forall|j: int| 0 <= j < enc.len() implies b[pos + j] == enc[j] by {
        assert(b.subrange(pos, pos + enc.len() as int)[j] == b[pos + j]);
    }
    let p = pos + 1;
    match v {
        FrameModel::Simple(t) | FrameModel::Error(t) => {
            let text = encode_utf8(t);
            let k = text.len() as int;
            assert(b[pos] == 43 || b[pos] == 45) by {
                assert(enc[0] == 43 || enc[0] == 45);
            }
            assert forall|j: int| p <= j < p + k implies b[j] != 13 && b[j] != 10 by {
                assert(enc[1 + (j - p)] == text[j - p]);
            }
            assert(b[p + k] == 13 && b[p + k + 1] == 10) by {
                assert(enc[1 + k] == 13 && enc[1 + k + 1] == 10);
            }
            lemma_find_crlf_at(b, p, k);
            assert(b.subrange(p, p + k) =~= text) by {
                assert forall|j: int| 0 <= j < k implies b.subrange(p, p + k)[j] == text[j] by {
                    assert(b[p + j] == enc[1 + j]);
                }
            }
            encode_utf8_valid_utf8(t);
            encode_utf8_decode_utf8(t);
            assert(spec_get_line(b, p) == Decoded::<Seq<u8>>::Done(text, p + k + 2));
            assert(valid_utf8(text));
            assert(decode_utf8(text) == t);
            if v is Simple {
                assert(b[pos] == 43) by {
                    assert(enc[0] == 43);
                }
            } else {
                assert(b[pos] == 45) by {
                    assert(enc[0] == 45);
                }
            }
        },
        FrameModel::Integer(n) => {
            lemma_dec_digits(n as nat);
            let digits = dec_digits(n as nat);
            let k = digits.len() as int;
            assert forall|j: int| p <= j < p + k implies b[j] != 13 && b[j] != 10 by {
                assert(enc[1 + (j - p)] == digits[j - p]);
                assert(is_digit(digits[j - p]));
            }
            assert(b[p + k] == 13 && b[p + k + 1] == 10) by {
                assert(enc[1 + k] == 13 && enc[1 + k + 1] == 10);
            }
            lemma_find_crlf_at(b, p, k);
            assert(b.subrange(p, p + k) =~= digits) by {
                assert forall|j: int| 0 <= j < k implies b.subrange(p, p + k)[j] == digits[j] by {
                    assert(b[p + j] == enc[1 + j]);
                }
            }
            lemma_atoi_all_digits(digits);
            assert(b[pos] == enc[0] && enc[0] == 58);
        },
        FrameModel::Bulk(d) => {
            lemma_dec_digits(d.len());
            let digits = dec_digits(d.len());
            let k = digits.len() as int;
            assert(b[pos] == 36) by {
                assert(enc[0] == 36);
            }
            assert(is_digit(b[p])) by {
                assert(enc[1] == digits[0]);
            }
            assert forall|j: int| p <= j < p + k implies b[j] != 13 && b[j] != 10 by {
                assert(enc[1 + (j - p)] == digits[j - p]);
                assert(is_digit(digits[j - p]));
            }
            assert(b[p + k] == 13 && b[p + k + 1] == 10) by {
                assert(enc[1 + k] == 13 && enc[1 + k + 1] == 10);
            }
            lemma_find_crlf_at(b, p, k);
            assert(b.subrange(p, p + k) =~= digits) by {
                assert forall|j: int| 0 <= j < k implies b.subrange(p, p + k)[j] == digits[j] by {
                    assert(b[p + j] == enc[1 + j]);
                }
            }
            lemma_atoi_all_digits(digits);
            let end = p + k + 2;
            assert(b.subrange(end, end + d.len() as int) =~= d) by {
                assert forall|j: int| 0 <= j < d.len() implies b.subrange(
                    end,
                    end + d.len() as int,
                )[j] == d[j] by {
                    assert(b[end + j] == enc[3 + k + j]);
                    assert(enc[3 + k + j] == d[j]);
                }
            }
        },
        FrameModel::Null => {
            assert(b[pos] == 36 && b[p] == 45 && b[pos + 2] == 49 && b[pos + 3] == 13 && b[pos
                + 4] == 10) by {
                assert(enc[0] == 36 && enc[1] == 45 && enc[2] == 49 && enc[3] == 13 && enc[4]
                    == 10);
            }
            lemma_find_crlf_at(b, p, 2);
            assert(b.subrange(p, p + 2) =~= seq![45u8, 49u8]);
        },
        FrameModel::Array(items) => {
            lemma_dec_digits(items.len());
            let digits = dec_digits(items.len());
            let k = digits.len() as int;
            assert(b[pos] == 42) by {
                assert(enc[0] == 42);
            }
            assert forall|j: int| p <= j < p + k implies b[j] != 13 && b[j] != 10 by {
                assert(enc[1 + (j - p)] == digits[j - p]);
                assert(is_digit(digits[j - p]));
            }
            assert(b[p + k] == 13 && b[p + k + 1] == 10) by {
                assert(enc[1 + k] == 13 && enc[1 + k + 1] == 10);
            }
            lemma_find_crlf_at(b, p, k);
            assert(b.subrange(p, p + k) =~= digits) by {
                assert forall|j: int| 0 <= j < k implies b.subrange(p, p + k)[j] == digits[j] by {
                    assert(b[p + j] == enc[1 + j]);
                }
            }
            lemma_atoi_all_digits(digits);
            let end = p + k + 2;
            let body = frames_bytes(items);
            assert(b.subrange(end, end + body.len() as int) =~= body) by {
                assert forall|j: int| 0 <= j < body.len() implies b.subrange(
                    end,
                    end + body.len() as int,
                )[j] == body[j] by {
                    assert(b[end + j] == enc[3 + k + j]);
                    assert(enc[3 + k + j] == body[j]);
                }
            }
            assert(decreases_to!(v => v->Array_0));
            lemma_round_trip_items(items, b, end);
        },
    }
}

/// Decoding the concatenated encodings of well-formed frames yields those
/// frames in order.
pub proof fn lemma_round_trip_items(s: Seq<FrameModel>, b: Seq<u8>, pos: int)
    requires
        frames_wf(s),
        0 <= pos,
        pos + frames_bytes(s).len() <= b.len(),
        b.subrange(pos, pos + frames_bytes(s).len() as int) == frames_bytes(s),
    ensures
        spec_parse_items(b, pos, s.len() as int) == Decoded::<Seq<FrameModel>>::Done(
            s,
            pos + frames_bytes(s).len(),
        ),
    decreases s,
{
    if s.len() == 0 {
        assert(spec_parse_items(b, pos, 0) == Decoded::<Seq<FrameModel>>::Done(
            Seq::<FrameModel>::empty(),
            pos,
        ));
        assert(s =~= Seq::<FrameModel>::empty());
    } else {
        let whole = frames_bytes(s);
        let head = frame_bytes(s[0]);
        let tail = frames_bytes(s.drop_first());
        assert(whole == head + tail);
        assert forall|j: int| 0 <= j < whole.len() implies b[pos + j] == whole[j] by {
            assert(b.subrange(pos, pos + whole.len() as int)[j] == b[pos + j]);
        }
        assert(b.subrange(pos, pos + head.len() as int) =~= head) by {
            assert forall|j: int| 0 <= j < head.len() implies b.subrange(
                pos,
                pos + head.len() as int,
            )[j] == head[j] by {
                assert(b[pos + j] == whole[j]);
            }
        }
        lemma_round_trip_at(s[0], b, pos);
        let mid = pos + head.len() as int;
        lemma_spec_parse_advances(b, pos);
        assert(b.subrange(mid, mid + tail.len() as int) =~= tail) by {
            assert forall|j: int| 0 <= j < tail.len() implies b.subrange(
                mid,
                mid + tail.len() as int,
            )[j] == tail[j] by {
                assert(b[mid + j] == whole[head.len() + j]);
                assert(whole[head.len() + j] == tail[j]);
            }
        }
        lemma_round_trip_items(s.drop_first(), b, mid);
        assert(seq![s[0]] + s.drop_first() =~= s);
    }
}

/// Encoding a well-formed frame and then decoding gives back the frame and
/// consumes exactly its bytes, whatever bytes follow; the check pass
/// accepts the same bytes.
pub proof fn lemma_frame_round_trip(v: FrameModel, rest: Seq<u8>)
    requires
        frame_wf(v),
    ensures
        spec_parse(frame_bytes(v) + rest, 0) == Decoded::<FrameModel>::Done(
            v,
            frame_bytes(v).len() as int,
        ),
        spec_check(frame_bytes(v) + rest, 0) == Decoded::<()>::Done(
            (),
            frame_bytes(v).len() as int,
        ),
{
    let b = frame_bytes(v) + rest;
    assert(b.subrange(0, frame_bytes(v).len() as int) =~= frame_bytes(v));
    lemma_round_trip_at(v, b, 0);
    lemma_parse_agrees_with_check(b, 0);
}

/// A frame that spells the text `t`: a simple frame holding those
/// characters, or a bulk frame holding their UTF-8 bytes.
pub open spec fn frame_is_text(v: FrameModel, t: Seq<char>) -> bool {
    ||| v matches FrameModel::Simple(s) && s == t
    ||| v matches FrameModel::Bulk(d) && d == encode_utf8(t)
}

impl Frame {
    /// Whether the frame spells the string `s`.
    pub fn is_text(&self, s: &str) -> (r: bool)
        ensures
            r == frame_is_text(self@, s@),
    {
        match self {
            Frame::Simple(t) => crate::text::str_eq(t.as_str(), s),
            Frame::Bulk(d) => crate::text::bytes_eq(d.as_slice(), s.as_bytes()),
            _ => false,
        }
    }
}

/// A protocol error that ends the connection.
fn proto_error(msg: &str) -> (e: Error)
    ensures
        e is Other,
{
    Error::Other(String::from_str(msg))
}

/// The byte at `pos`, without consuming it.
pub fn peek_u8(src: &[u8], pos: usize) -> (r: Result<u8, Error>)
    ensures
        pos < src@.len() ==> (r matches Ok(b) && b == src@[pos as int]),
        pos >= src@.len() ==> (r matches Err(e) && e is Incomplete),
{
    if pos < src.len() {
        Ok(src[pos])
    } else {
        Err(Error::Incomplete)
    }
}

/// The byte at `pos`, and the position after it.
pub fn get_u8(src: &[u8], pos: usize) -> (r: Result<(u8, usize), Error>)
    requires
        pos <= src@.len(),
    ensures
        pos < src@.len() ==> (r matches Ok((b, p)) && b == src@[pos as int] && p == pos + 1),
        pos >= src@.len() ==> (r matches Err(e) && e is Incomplete),
{
    if pos < src.len() {
        Ok((src[pos], pos + 1))
    } else {
        Err(Error::Incomplete)
    }
}

/// The position `n` bytes further, if that many are buffered.
pub fn skip(src: &[u8], pos: usize, n: usize) -> (r: Result<usize, Error>)
    requires
        pos <= src@.len(),
    ensures
        src@.len() - pos >= n ==> (r matches Ok(p) && p == pos + n),
        src@.len() - pos < n ==> (r matches Err(e) && e is Incomplete),
{
    if src.len() - pos < n {
        Err(Error::Incomplete)
    } else {
        Ok(pos + n)
    }
}

/// The line starting at `pos`, up to the next CRLF, and the position after
/// the terminator.
pub fn get_line<'a>(src: &'a [u8], pos: usize) -> (r: Result<(&'a [u8], usize), Error>)
    requires
        pos <= src@.len(),
    ensures
        match spec_get_line(src@, pos as int) {
            Decoded::Done(line, end) => r matches Ok((l, e)) && l@ == line && e == end,
            Decoded::Incomplete => r matches Err(e) && e is Incomplete,
            Decoded::Invalid => false,
        },
{
    let n = src.len();
    let mut i = pos;
    while i < n && i + 1 < n
        invariant
            pos <= i,
            i <= n,
            n == src@.len(),
            find_crlf(src@, pos as int) == find_crlf(src@, i as int),
        decreases n - i,
    {
        if src[i] == 13 && src[i + 1] == 10 {
            let line = vstd::slice::slice_subrange(src, pos, i);
            proof {
                assert(find_crlf(src@, i as int) == Some(i as int));
            }
            return Ok((line, i + 2));
        }
        proof {
            assert(find_crlf(src@, i as int) == find_crlf(src@, i + 1));
        }
        i += 1;
    }
    proof {
        assert(find_crlf(src@, i as int) is None);
    }
    Err(Error::Incomplete)
}

/// The decimal number on the line starting at `pos`, and the position after
/// the line.
pub fn get_decimal(src: &[u8], pos: usize) -> (r: Result<(u64, usize), Error>)
    requires
        pos <= src@.len(),
    ensures
        match spec_get_decimal(src@, pos as int) {
            Decoded::Done(n, end) => r matches Ok((v, e)) && v == n && e == end,
            Decoded::Incomplete => r matches Err(e) && e is Incomplete,
            Decoded::Invalid => r matches Err(e) && e is Other,
        },
{
    let (line, next) = match get_line(src, pos) {
        Ok(x) => x,
        Err(e) => {
            return Err(e);
        },
    };
    match atoi_u64(line) {
        Some(v) => Ok((v, next)),
        None => Err(proto_error("protocol error; invalid frame format")),
    }
}

impl Frame {
    /// Checks that one whole frame can be decoded from `src` at `pos`;
    /// returns the position right after it.
    pub fn check(src: &[u8], pos: usize) -> (r: Result<usize, Error>)
        requires
            pos <= src@.len(),
        ensures
            match spec_check(src@, pos as int) {
                Decoded::Done(_, end) => r matches Ok(e) && e == end,
                Decoded::Incomplete => r matches Err(e) && e is Incomplete,
                Decoded::Invalid => r matches Err(e) && e is Other,
            },
        decreases src@.len() - pos,
    {
        let (t, p) = match get_u8(src, pos) {
            Ok(x) => x,
            Err(e) => {
                return Err(e);
            },
        };
        if t == 43 || t == 45 {
            match get_line(src, p) {
                Ok((_, end)) => Ok(end),
                Err(e) => Err(e),
            }
        } else if t == 58 {
            match get_decimal(src, p) {
                Ok((_, end)) => Ok(end),
                Err(e) => Err(e),
            }
        } else if t == 36 {
            let b = match peek_u8(src, p) {
                Ok(b) => b,
                Err(e) => {
                    return Err(e);
                },
            };
            if b == 45 {
                skip(src, p, 4)
            } else {
                let (n, end) = match get_decimal(src, p) {
                    Ok(x) => x,
                    Err(e) => {
                        return Err(e);
                    },
                };
                proof {
                    lemma_spec_get_line_advances(src@, p as int);
                }
                if n > usize::MAX as u64 {
                    return Err(proto_error("protocol error; invalid frame format"));
                }
                let len = n as usize;
                let remaining = src.len() - end;
                if remaining < len || remaining - len < 2 {
                    Err(Error::Incomplete)
                } else {
                    Ok(end + len + 2)
                }
            }
        } else if t == 42 {
            let (n, end0) = match get_decimal(src, p) {
                Ok(x) => x,
                Err(e) => {
                    return Err(e);
                },
            };
            proof {
                lemma_spec_get_line_advances(src@, p as int);
            }
            let mut cur = end0;
            let mut i: u64 = 0;
            while i < n
                invariant
                    pos <= src@.len(),
                    pos < cur <= src@.len(),
                    i <= n,
                    spec_check(src@, pos as int) == spec_check_items(
                        src@,
                        cur as int,
                        n - i,
                    ),
                decreases n - i,
            {
                let next = match Frame::check(src, cur) {
                    Ok(e) => e,
                    Err(err) => {
                        return Err(err);
                    },
                };
                proof {
                    lemma_spec_check_advances(src@, cur as int);
                }
                cur = next;
                i += 1;
            }
            Ok(cur)
        } else {
            Err(proto_error("protocol error; invalid frame type byte"))
        }
    }

    /// Decodes one whole frame from `src` at `pos`; returns the frame and
    /// the position right after it. A buffer that [`Frame::check`] accepted
    /// holds such a frame.
    pub fn parse(src: &[u8], pos: usize) -> (r: Result<(Frame, usize), Error>)
        requires
            pos <= src@.len(),
        ensures
            match spec_parse(src@, pos as int) {
                Decoded::Done(v, end) => r matches Ok((f, e)) && f@ == v && e == end,
                Decoded::Incomplete => r matches Err(e) && e is Incomplete,
                Decoded::Invalid => r matches Err(e) && e is Other,
            },
        decreases src@.len() - pos,
    {
        let (t, p) = match get_u8(src, pos) {
            Ok(x) => x,
            Err(e) => {
                return Err(e);
            },
        };
        if t == 43 || t == 45 {
            let (line, end) = match get_line(src, p) {
                Ok(x) => x,
                Err(e) => {
                    return Err(e);
                },
            };
            let bytes = slice_to_vec(line);
            match crate::text::string_from_utf8(bytes) {
                Some(s) => {
                    if t == 43 {
                        Ok((Frame::Simple(s), end))
                    } else {
                        Ok((Frame::Error(s), end))
                    }
                },
                None => Err(proto_error("protocol error; invalid frame format")),
            }
        } else if t == 58 {
            match get_decimal(src, p) {
                Ok((n, end)) => Ok((Frame::Integer(n), end)),
                Err(e) => Err(e),
            }
        } else if t == 36 {
            let b = match peek_u8(src, p) {
                Ok(b) => b,
                Err(e) => {
                    return Err(e);
                },
            };
            if b == 45 {
                let (line, end) = match get_line(src, p) {
                    Ok(x) => x,
                    Err(e) => {
                        return Err(e);
                    },
                };
                if line.len() == 2 && line[0] == 45 && line[1] == 49 {
                    proof {
                        assert(line@ =~= seq![45u8, 49u8]);
                    }
                    Ok((Frame::Null, end))
                } else {
                    proof {
                        if line@.len() == 2 {
                            assert(line@ != seq![45u8, 49u8]) by {
                                if line@ == seq![45u8, 49u8] {
                                    assert(line@[0] == 45 && line@[1] == 49);
                                }
                            }
                        }
                    }
                    Err(proto_error("protocol error; invalid frame format"))
                }
            } else {
                let (n, end) = match get_decimal(src, p) {
                    Ok(x) => x,
                    Err(e) => {
                        return Err(e);
                    },
                };
                proof {
                    lemma_spec_get_line_advances(src@, p as int);
                }
                if n > usize::MAX as u64 {
                    return Err(proto_error("protocol error; invalid frame format"));
                }
                let len = n as usize;
                let remaining = src.len() - end;
                if remaining < len || remaining - len < 2 {
                    Err(Error::Incomplete)
                } else {
                    let data = slice_to_vec(vstd::slice::slice_subrange(src, end, end + len));
                    Ok((Frame::Bulk(data), end + len + 2))
                }
            }
        } else if t == 42 {
            let (n, end0) = match get_decimal(src, p) {
                Ok(x) => x,
                Err(e) => {
                    return Err(e);
                },
            };
            proof {
                lemma_spec_get_line_advances(src@, p as int);
            }
            if n > usize::MAX as u64 {
                return Err(proto_error("protocol error; invalid frame format"));
            }
            let cnt = n as usize;
            let mut out: Vec<Frame> = Vec::new();
            let mut cur = end0;
            let mut i: usize = 0;
            proof {
                assert(frames_view(out@) =~= Seq::<FrameModel>::empty());
                match spec_parse_items(src@, end0 as int, n as int) {
                    Decoded::Done(rest, e2) => {
                        assert(frames_view(out@) + rest =~= rest);
                    },
                    _ => {},
                }
            }
            while i < cnt
                invariant
                    pos <= src@.len(),
                    pos < cur <= src@.len(),
                    i <= cnt,
                    cnt == n,
                    match spec_parse_items(src@, cur as int, cnt - i) {
                        Decoded::Done(rest, e2) => spec_parse(src@, pos as int)
                            == Decoded::<FrameModel>::Done(
                            FrameModel::Array(frames_view(out@) + rest),
                            e2,
                        ),
                        Decoded::Incomplete => spec_parse(src@, pos as int) is Incomplete,
                        Decoded::Invalid => spec_parse(src@, pos as int) is Invalid,
                    },
                decreases cnt - i,
            {
                let (f, next) = match Frame::parse(src, cur) {
                    Ok(x) => x,
                    Err(err) => {
                        return Err(err);
                    },
                };
                proof {
                    lemma_spec_parse_advances(src@, cur as int);
                }
                let ghost out0 = out@;
                let ghost v = f@;
                out.push(f);
                proof {
                    lemma_frames_view_push(out0, f);
                    match spec_parse_items(src@, next as int, cnt - i - 1) {
                        Decoded::Done(rest, e2) => {
                            assert(frames_view(out0) + (seq![v] + rest) =~= frames_view(
                                out0.push(f),
                            ) + rest);
                        },
                        _ => {},
                    }
                }
                cur = next;
                i += 1;
            }
            proof {
                match spec_parse_items(src@, cur as int, 0) {
                    Decoded::Done(rest, e2) => {
                        assert(frames_view(out@) + rest =~= frames_view(out@));
                    },
                    _ => {},
                }
            }
            Ok((Frame::Array(out), cur))
        } else {
            Err(proto_error("protocol error; invalid frame type byte"))
        }
    }
}

} // verus!
