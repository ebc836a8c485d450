//! Reading a batch of bytes and taking every complete frame it finishes.
use vstd::prelude::*;

use crate::frame::{frame_views, FrameView, GFrame};
use crate::parser::{lemma_parse_frame_bounds, parse_frame, ParseError, Parser};

verus! {

#[derive(Debug)]
pub enum DriverError {
    Parsing(ParseError),
    ReadError(String),
    InputTooLong,
}

/// Successive parses of `s` until one asks for more bytes: the frames taken
/// and the bytes left; or the first error, with the bytes left when it came.
pub open spec fn drain(s: Seq<u8>) -> Result<(Seq<FrameView>, Seq<u8>), (ParseError, Seq<u8>)>
    decreases s.len(),
{
    match parse_frame(s) {
        Ok(Some((f, k))) => if 0 < k <= s.len() {
            match drain(s.subrange(k, s.len() as int)) {
                Ok((fs, rest)) => Ok((seq![f] + fs, rest)),
                Err(x) => Err(x),
            }
        } else {
            Ok((Seq::empty(), s))
        },
        Ok(None) => Ok((Seq::empty(), s)),
        Err(e) => Err((e, s)),
    }
}

/// `first` put in front of the frames of `r`.
pub open spec fn prepend_drained(
    first: Seq<FrameView>,
    r: Result<(Seq<FrameView>, Seq<u8>), (ParseError, Seq<u8>)>,
) -> Result<(Seq<FrameView>, Seq<u8>), (ParseError, Seq<u8>)> {
    match r {
        Ok((fs, rest)) => Ok((first + fs, rest)),
        Err(x) => Err(x),
    }
}

pub struct Driver {
    parser: Parser,
}

impl View for Driver {
    type V = Seq<u8>;

    /// The bytes received and not yet taken by a frame.
    closed spec fn view(&self) -> Seq<u8> {
        self.parser@
    }
}

impl Driver {
    pub fn new() -> (r: Driver)
        ensures
            r@ == Seq::<u8>::empty(),
    {
        Driver { parser: Parser::new() }
    }

    /// Appends `data` and takes every frame that is then complete, in order.
    /// On a parse error the frames of this batch are dropped and the bytes
    /// from the bad frame on are kept.
    pub fn handle(&mut self, data: &[u8]) -> (r: Result<Vec<GFrame>, DriverError>)
        ensures
            match drain(old(self)@ + data@) {
                Ok((fs, rest)) => r matches Ok(frames) && frame_views(frames@) == fs && final(self)@ == rest,
                Err((e, rest)) => r matches Err(DriverError::Parsing(x)) && x == e && final(self)@ == rest,
            },
    {
        self.parser.extend_from_slice(data);
        let ghost all = self.parser@;
        let mut frames: Vec<GFrame> = Vec::new();
        loop
            invariant
                all == old(self)@ + data@,
                drain(all) == prepend_drained(frame_views(frames@), drain(self.parser@)),
            ensures
                match drain(all) {
                    Ok((fs, rest)) => frame_views(frames@) == fs && self.parser@ == rest,
                    Err(_) => false,
                },
            decreases self.parser@.len(),
        {
            let ghost before = self.parser@;
            proof {
                lemma_parse_frame_bounds(before);
            }
            match self.parser.parse() {
                Ok(Some(frame)) => {
                    proof {
                        let f = frame@;
                        assert(frame_views(frames@.push(frame)) =~= frame_views(frames@) + seq![f]);
                        match drain(self.parser@) {
                            Ok((fs, rest)) => {
                                assert(frame_views(frames@) + (seq![f] + fs) =~= (frame_views(frames@)
                                    + seq![f]) + fs);
                            },
                            Err(_) => {},
                        }
                    }
                    frames.push(frame);
                },
                Ok(None) => {
                    assert(frame_views(frames@) + Seq::<FrameView>::empty() =~= frame_views(frames@));
                    break;
                },
                Err(error) => {
                    return Err(DriverError::Parsing(error));
                },
            }
        }
        Ok(frames)
    }

    /// Drops every byte received and not yet taken.
    pub fn reset(&mut self)
        ensures
            final(self)@ == Seq::<u8>::empty(),
    {
        self.parser = Parser::new();
    }
}

impl Default for Driver {
    fn default() -> (r: Driver)
        ensures
            r@ == Seq::<u8>::empty(),
    {
        Driver::new()
    }
}

} // verus!
