//! The incremental frame parser.
//!
//! `parse_frame` states the grammar over a byte sequence: it yields a frame and
//! the number of bytes it took, `None` where the bytes end before the frame does,
//! or the error that the first bytes of a frame already show.
use bytes::BytesMut;
use vstd::prelude::*;

use crate::buf::{bytes_mut_advance, bytes_mut_empty, bytes_mut_extend, bytes_mut_slice, bytes_mut_view};
use crate::data_type::GString;
use crate::decimal::{i64_of, parse_i64, parse_usize, usize_of};
use crate::frame::{
    frame_views, FrameView, GFrame, ARRAY_FIRST_BYTE, BULK_STRING_FIRST_BYTE, CR, INTEGER_FIRST_BYTE, LF,
    NULL_FIRST_BYTE, SIMPLE_ERROR_FIRST_BYTE, SIMPLE_STRING_FIRST_BYTE,
};

verus! {

#[derive(Debug, Clone, Copy, PartialEq, Eq, Structural)]
pub enum ParseError {
    InvalidUtf8,
    InvalidFirstByte,
    InvalidInteger,
    InvalidArray,
    InvalidNull,
}

/// The spec-level outcome of parsing one frame: the frame and the bytes it took.
pub type Parsed = Result<Option<(FrameView, int)>, ParseError>;

/// The first carriage return and line feed pair at or after `from`.
pub open spec fn find_crlf(s: Seq<u8>, from: int) -> Option<nat>
    decreases s.len() - from,
{
    if from < 0 || from + 1 >= s.len() {
        None
    } else if s[from] == CR && s[from + 1] == LF {
        Some(from as nat)
    } else {
        find_crlf(s, from + 1)
    }
}

/// One frame from the start of `s`.
pub open spec fn parse_frame(s: Seq<u8>) -> Parsed
    decreases s.len(), 0int,
{
    if s.len() == 0 {
        Ok(None)
    } else if s[0] == NULL_FIRST_BYTE {
        if s.len() < 3 {
            Ok(None)
        } else if s[1] == CR && s[2] == LF {
            Ok(Some((FrameView::Null, 3)))
        } else {
            Err(ParseError::InvalidNull)
        }
    } else if s[0] == SIMPLE_STRING_FIRST_BYTE || s[0] == SIMPLE_ERROR_FIRST_BYTE || s[0]
        == INTEGER_FIRST_BYTE || s[0] == BULK_STRING_FIRST_BYTE || s[0] == ARRAY_FIRST_BYTE {
        match find_crlf(s, 1) {
            None => Ok(None),
            Some(end) => {
                let e = end as int;
                let line = s.subrange(1, e);
                if s[0] == SIMPLE_STRING_FIRST_BYTE {
                    Ok(Some((FrameView::SimpleString(line), e + 2)))
                } else if s[0] == SIMPLE_ERROR_FIRST_BYTE {
                    Ok(Some((FrameView::SimpleError(line), e + 2)))
                } else if s[0] == INTEGER_FIRST_BYTE {
                    match i64_of(line) {
                        Some(n) => Ok(Some((FrameView::Integer(n), e + 2))),
                        None => Err(ParseError::InvalidInteger),
                    }
                } else if s[0] == BULK_STRING_FIRST_BYTE {
                    match usize_of(line) {
                        Some(n) => if s.len() < e + 2 + n + 2 {
                            Ok(None)
                        } else {
                            Ok(Some((FrameView::BulkString(s.subrange(e + 2, e + 2 + n)), e + 4 + n)))
                        },
                        None => Err(ParseError::InvalidInteger),
                    }
                } else {
                    match usize_of(line) {
                        Some(n) => match parse_items(s, e + 2, n as nat) {
                            Ok(Some((items, end))) => Ok(Some((FrameView::Array(items), end))),
                            Ok(None) => Ok(None),
                            Err(x) => Err(x),
                        },
                        None => Err(ParseError::InvalidInteger),
                    }
                }
            },
        }
    } else {
        Err(ParseError::InvalidFirstByte)
    }
}

/// `n` frames, one after the other, from offset `p` of `s`; with the offset where they end.
pub open spec fn parse_items(s: Seq<u8>, p: int, n: nat) -> Result<
    Option<(Seq<FrameView>, int)>,
    ParseError,
>
    decreases (if 0 <= p <= s.len() {
        s.len() - p
    } else {
        0
    }), n + 1,
{
    if p < 0 || p > s.len() {
        Ok(None)
    } else if n == 0 {
        Ok(Some((Seq::empty(), p)))
    } else {
        match parse_frame(s.subrange(p, s.len() as int)) {
            Ok(Some((f, k))) => if 0 < k && p + k <= s.len() {
                match parse_items(s, p + k, (n - 1) as nat) {
                    Ok(Some((rest, end))) => Ok(Some((seq![f] + rest, end))),
                    Ok(None) => Ok(None),
                    Err(x) => Err(x),
                }
            } else {
                Ok(None)
            },
            Ok(None) => Ok(None),
            Err(x) => Err(x),
        }
    }
}

/// `first` put in front of the frames of `r`.
pub open spec fn prepend(first: Seq<FrameView>, r: Result<Option<(Seq<FrameView>, int)>, ParseError>) -> Result<
    Option<(Seq<FrameView>, int)>,
    ParseError,
> {
    match r {
        Ok(Some((rest, end))) => Ok(Some((first + rest, end))),
        Ok(None) => Ok(None),
        Err(x) => Err(x),
    }
}

/// A line ends at `j`: a carriage return there, a line feed after it.
pub open spec fn crlf_at(s: Seq<u8>, j: int) -> bool {
    0 <= j && j + 1 < s.len() && s[j] == CR && s[j + 1] == LF
}

pub proof fn lemma_find_crlf(s: Seq<u8>, from: int)
    requires
        0 <= from,
    ensures
        match find_crlf(s, from) {
            Some(e) => from <= e && crlf_at(s, e as int) && forall|j: int|
                from <= j < e ==> !#[trigger] crlf_at(s, j),
            None => forall|j: int| from <= j ==> !#[trigger] crlf_at(s, j),
        },
    decreases s.len() - from,
{
    if from + 1 < s.len() && !(s[from] == CR && s[from + 1] == LF) {
        lemma_find_crlf(s, from + 1);
    }
    if from + 1 >= s.len() {
        assert forall|j: int| from <= j implies !#[trigger] crlf_at(s, j) by {}
    }
}

/// A parsed frame takes at least one byte and no more than there are.
pub proof fn lemma_parse_frame_bounds(s: Seq<u8>)
    ensures
        parse_frame(s) matches Ok(Some((f, k))) ==> 0 < k <= s.len(),
{
    if s.len() > 0 && s[0] != NULL_FIRST_BYTE {
        lemma_find_crlf(s, 1);
        if s[0] == ARRAY_FIRST_BYTE {
            if let Some(end) = find_crlf(s, 1) {
                let e = end as int;
                if let Some(n) = usize_of(s.subrange(1, e)) {
                    lemma_parse_items_bounds(s, e + 2, n as nat);
                }
            }
        }
    }
}

pub proof fn lemma_parse_items_bounds(s: Seq<u8>, p: int, n: nat)
    requires
        0 <= p <= s.len(),
    ensures
        parse_items(s, p, n) matches Ok(Some((fs, end))) ==> p <= end <= s.len() && fs.len() == n,
    decreases n,
{
    if n > 0 {
        if let Ok(Some((f, k))) = parse_frame(s.subrange(p, s.len() as int)) {
            if 0 < k && p + k <= s.len() {
                lemma_parse_items_bounds(s, p + k, (n - 1) as nat);
            }
        }
    }
}

/// A frame parsed from the front of a buffer, with the number of bytes it took.
pub struct ParsedFrame {
    pub frame: GFrame,
    pub advance_by: usize,
}

/// `r` is what `parse_frame` says of the same bytes.
pub open spec fn parsed_as(r: Result<Option<ParsedFrame>, ParseError>, spec: Parsed) -> bool {
    match spec {
        Ok(Some((f, k))) => r matches Ok(Some(p)) && p.frame@ == f && p.advance_by == k,
        Ok(None) => r matches Ok(None),
        Err(e) => r == Err::<Option<ParsedFrame>, ParseError>(e),
    }
}

/// Position of the first line end after the type byte.
fn find_line_end(buf: &[u8]) -> (r: Option<usize>)
    ensures
        r matches Some(e) ==> find_crlf(buf@, 1) == Some(e as nat),
        r is None ==> find_crlf(buf@, 1) is None,
        buf@.len() <= usize::MAX,
{
    if buf.len() < 2 {
        return None;
    }
    let mut i: usize = 1;
    while i < buf.len() - 1
        invariant
            1 <= i,
            buf@.len() >= 2,
            find_crlf(buf@, 1) == find_crlf(buf@, i as int),
        decreases buf@.len() - i,
    {
        if buf[i] == CR && buf[i + 1] == LF {
            return Some(i);
        }
        i = i + 1;
    }
    None
}

/// One frame from the front of `buf`, dispatched on its first byte.
pub fn parse_buf(buf: &[u8]) -> (r: Result<Option<ParsedFrame>, ParseError>)
    ensures
        parsed_as(r, parse_frame(buf@)),
    decreases buf@.len(), 1int,
{
    if buf.len() == 0 {
        return Ok(None);
    }
    let first = buf[0];
    if first == SIMPLE_STRING_FIRST_BYTE {
        parse_simple_string(buf)
    } else if first == SIMPLE_ERROR_FIRST_BYTE {
        parse_simple_error(buf)
    } else if first == INTEGER_FIRST_BYTE {
        parse_integer(buf)
    } else if first == BULK_STRING_FIRST_BYTE {
        parse_bulk_string(buf)
    } else if first == ARRAY_FIRST_BYTE {
        parse_array(buf)
    } else if first == NULL_FIRST_BYTE {
        parse_null(buf)
    } else {
        Err(ParseError::InvalidFirstByte)
    }
}

fn parse_simple_string(buf: &[u8]) -> (r: Result<Option<ParsedFrame>, ParseError>)
    requires
        buf@.len() > 0,
        buf@[0] == SIMPLE_STRING_FIRST_BYTE,
    ensures
        parsed_as(r, parse_frame(buf@)),
{
    proof {
        lemma_find_crlf(buf@, 1);
    }
    match find_line_end(buf) {
        Some(end_index) => {
            let value = GString::copy_from_slice(&buf[1..end_index]);
            Ok(Some(ParsedFrame { frame: GFrame::SimpleString(value), advance_by: end_index + 2 }))
        },
        None => Ok(None),
    }
}

fn parse_simple_error(buf: &[u8]) -> (r: Result<Option<ParsedFrame>, ParseError>)
    requires
        buf@.len() > 0,
        buf@[0] == SIMPLE_ERROR_FIRST_BYTE,
    ensures
        parsed_as(r, parse_frame(buf@)),
{
    proof {
        lemma_find_crlf(buf@, 1);
    }
    match find_line_end(buf) {
        Some(end_index) => {
            let value = GString::copy_from_slice(&buf[1..end_index]);
            Ok(Some(ParsedFrame { frame: GFrame::SimpleError(value), advance_by: end_index + 2 }))
        },
        None => Ok(None),
    }
}

/// An integer frame from the front of `buf`, which starts with its type byte.
pub fn parse_integer(buf: &[u8]) -> (r: Result<Option<ParsedFrame>, ParseError>)
    requires
        buf@.len() > 0,
        buf@[0] == INTEGER_FIRST_BYTE,
    ensures
        parsed_as(r, parse_frame(buf@)),
{
    proof {
        lemma_find_crlf(buf@, 1);
    }
    match find_line_end(buf) {
        Some(end_index) => match parse_i64(&buf[1..end_index]) {
            Some(value) => Ok(Some(ParsedFrame { frame: GFrame::Integer(value), advance_by: end_index + 2 })),
            None => Err(ParseError::InvalidInteger),
        },
        None => Ok(None),
    }
}

fn parse_bulk_string(buf: &[u8]) -> (r: Result<Option<ParsedFrame>, ParseError>)
    requires
        buf@.len() > 0,
        buf@[0] == BULK_STRING_FIRST_BYTE,
    ensures
        parsed_as(r, parse_frame(buf@)),
{
    proof {
        lemma_find_crlf(buf@, 1);
    }
    match find_line_end(buf) {
        Some(end_index) => match parse_usize(&buf[1..end_index]) {
            Some(length) => {
                let start = end_index + 2;
                let remaining = buf.len() - start;
                if remaining < 2 || remaining - 2 < length {
                    Ok(None)
                } else {
                    let value = GString::copy_from_slice(&buf[start..start + length]);
                    Ok(Some(ParsedFrame { frame: GFrame::BulkString(value), advance_by: start + length + 2 }))
                }
            },
            None => Err(ParseError::InvalidInteger),
        },
        None => Ok(None),
    }
}

/// An array frame from the front of `buf`, which starts with its type byte.
/// Nothing is taken unless every element is there.
pub fn parse_array(buf: &[u8]) -> (r: Result<Option<ParsedFrame>, ParseError>)
    requires
        buf@.len() > 0,
        buf@[0] == ARRAY_FIRST_BYTE,
    ensures
        parsed_as(r, parse_frame(buf@)),
    decreases buf@.len(), 0int,
{
    proof {
        lemma_find_crlf(buf@, 1);
    }
    let end_index = match find_line_end(buf) {
        Some(e) => e,
        None => return Ok(None),
    };
    let count = match parse_usize(&buf[1..end_index]) {
        Some(n) => n,
        None => return Err(ParseError::InvalidInteger),
    };
    let ghost s = buf@;
    let ghost start = end_index + 2;
    let mut advance_by: usize = end_index + 2;
    let mut frames: Vec<GFrame> = Vec::new();
    let mut i: usize = 0;
    while i < count
        invariant
            s == buf@,
            find_crlf(s, 1) == Some(end_index as nat),
            s.len() > 0 && s[0] == ARRAY_FIRST_BYTE,
            1 <= end_index,
            end_index + 2 <= s.len(),
            usize_of(s.subrange(1, end_index as int)) == Some(count),
            start == end_index + 2,
            start <= advance_by <= s.len(),
            i <= count,
            frames@.len() == i,
            parse_items(s, start, count as nat) == prepend(
                frame_views(frames@),
                parse_items(s, advance_by as int, (count - i) as nat),
            ),
        decreases count - i,
    {
        let rest = &buf[advance_by..buf.len()];
        assert(rest@ == s.subrange(advance_by as int, s.len() as int));
        match parse_buf(rest) {
            Ok(Some(parsed)) => {
                proof {
                    lemma_parse_frame_bounds(rest@);
                    let f = parsed.frame@;
                    let k = parsed.advance_by as int;
                    let tail = parse_items(s, advance_by + k, (count - i - 1) as nat);
                    assert(parse_items(s, advance_by as int, (count - i) as nat) == prepend(seq![f], tail));
                    assert(frame_views(frames@.push(parsed.frame)) =~= frame_views(frames@) + seq![f]);
                    match tail {
                        Ok(Some((xs, end))) => {
                            assert(frame_views(frames@) + (seq![f] + xs) =~= (frame_views(frames@) + seq![f]) + xs);
                        },
                        _ => {},
                    }
                }
                advance_by = advance_by + parsed.advance_by;
                frames.push(parsed.frame);
            },
            Ok(None) => {
                assert(parse_items(s, advance_by as int, (count - i) as nat) is Ok);
                return Ok(None);
            },
            Err(error) => {
                assert(parse_items(s, advance_by as int, (count - i) as nat) == Err::<
                    Option<(Seq<FrameView>, int)>,
                    ParseError,
                >(error));
                return Err(error);
            },
        }
        i = i + 1;
    }
    assert(frame_views(frames@) + Seq::<FrameView>::empty() =~= frame_views(frames@));
    let frame = GFrame::Array(frames);
    proof {
        assert(frame@->Array_0 =~= frame_views(frames@));
    }
    Ok(Some(ParsedFrame { frame, advance_by }))
}

/// A null frame from the front of `buf`, which starts with its type byte.
pub fn parse_null(buf: &[u8]) -> (r: Result<Option<ParsedFrame>, ParseError>)
    requires
        buf@.len() > 0,
        buf@[0] == NULL_FIRST_BYTE,
    ensures
        parsed_as(r, parse_frame(buf@)),
{
    if buf.len() < 3 {
        return Ok(None);
    }
    if buf[1] != CR || buf[2] != LF {
        return Err(ParseError::InvalidNull);
    }
    Ok(Some(ParsedFrame { frame: GFrame::Null, advance_by: 3 }))
}

} // verus!

verus! {

/// An incremental parser: bytes are pushed as they arrive and frames taken
/// from the front as soon as they are complete.
pub struct Parser {
    buf: BytesMut,
}

impl View for Parser {
    type V = Seq<u8>;

    /// The bytes received and not yet taken by a frame.
    closed spec fn view(&self) -> Seq<u8> {
        bytes_mut_view(self.buf)
    }
}

impl Parser {
    pub fn new() -> (r: Parser)
        ensures
            r@ == Seq::<u8>::empty(),
    {
        Parser { buf: bytes_mut_empty() }
    }

    /// Takes the next frame off the front of the buffer. Where the buffer
    /// holds no complete frame, or an invalid one, it stays as it is.
    pub fn parse(&mut self) -> (r: Result<Option<GFrame>, ParseError>)
        ensures
            match parse_frame(old(self)@) {
                Ok(Some((f, k))) => r matches Ok(Some(frame)) && frame@ == f && final(self)@
                    == old(self)@.subrange(k, old(self)@.len() as int),
                Ok(None) => r matches Ok(None) && final(self)@ == old(self)@,
                Err(e) => r == Err::<Option<GFrame>, ParseError>(e) && final(self)@ == old(self)@,
            },
    {
        let result = parse_buf(bytes_mut_slice(&self.buf));
        match result {
            Ok(Some(parsed_frame)) => {
                proof {
                    lemma_parse_frame_bounds(self@);
                }
                bytes_mut_advance(&mut self.buf, parsed_frame.advance_by);
                Ok(Some(parsed_frame.frame))
            },
            Ok(None) => Ok(None),
            Err(error) => Err(error),
        }
    }

    /// The bytes received and not yet taken by a frame.
    pub fn buf(&self) -> (r: &[u8])
        ensures
            r@ == self@,
    {
        bytes_mut_slice(&self.buf)
    }

    /// Appends newly received bytes.
    pub fn extend_from_slice(&mut self, data: &[u8])
        ensures
            final(self)@ == old(self)@ + data@,
    {
        bytes_mut_extend(&mut self.buf, data)
    }
}

impl Default for Parser {
    fn default() -> (r: Parser)
        ensures
            r@ == Seq::<u8>::empty(),
    {
        Parser::new()
    }
}

} // verus!
