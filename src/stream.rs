//! The decisions of a duplex frame stream over a byte transport: when the
//! transport ends, and what waits to be written.
use bytes::BytesMut;
use vstd::prelude::*;

use crate::buf::{bytes_mut_advance, bytes_mut_empty, bytes_mut_extend, bytes_mut_slice, bytes_mut_view};
use crate::frame::{encode, GFrame};
use crate::parser::{ParseError, Parser};

verus! {

#[verifier::external_type_specification]
#[verifier::external_body]
pub struct ExIoError(std::io::Error);

#[derive(Debug)]
pub enum FrameStreamError {
    UnexpectedEof,
    Io(std::io::Error),
    Parsing(ParseError),
}

impl Parser {
    /// What a frame source yields once its transport reports the end of input:
    /// the end of the stream where no bytes are left over, an error where a
    /// frame was cut short.
    pub fn end_of_input(&self) -> (r: Option<FrameStreamError>)
        ensures
            r is None <==> self@.len() == 0,
            r is Some ==> r->0 is UnexpectedEof,
    {
        if self.buf().len() == 0 {
            None
        } else {
            Some(FrameStreamError::UnexpectedEof)
        }
    }
}

/// Encoded frames waiting to be written to the transport.
pub struct OutboundBuffer {
    buf: BytesMut,
}

impl View for OutboundBuffer {
    type V = Seq<u8>;

    closed spec fn view(&self) -> Seq<u8> {
        bytes_mut_view(self.buf)
    }
}

impl OutboundBuffer {
    pub fn new() -> (r: OutboundBuffer)
        ensures
            r@ == Seq::<u8>::empty(),
    {
        OutboundBuffer { buf: bytes_mut_empty() }
    }

    /// Queues the encoding of `frame` behind what already waits.
    pub fn push_frame(&mut self, frame: &GFrame)
        ensures
            final(self)@ == old(self)@ + encode(frame@),
    {
        let mut out: Vec<u8> = Vec::new();
        frame.write_to(&mut out);
        assert(out@ =~= encode(frame@));
        bytes_mut_extend(&mut self.buf, out.as_slice());
    }

    /// The bytes still to be written.
    pub fn pending(&self) -> (r: &[u8])
        ensures
            r@ == self@,
    {
        bytes_mut_slice(&self.buf)
    }

    /// Drops the first `n` bytes, which the transport has taken.
    pub fn consume(&mut self, n: usize)
        requires
            n <= old(self)@.len(),
        ensures
            final(self)@ == old(self)@.subrange(n as int, old(self)@.len() as int),
    {
        bytes_mut_advance(&mut self.buf, n)
    }

    pub fn is_empty(&self) -> (r: bool)
        ensures
            r == (self@.len() == 0),
    {
        self.pending().len() == 0
    }
}

impl Default for OutboundBuffer {
    fn default() -> (r: OutboundBuffer)
        ensures
            r@ == Seq::<u8>::empty(),
    {
        OutboundBuffer::new()
    }
}

} // verus!
