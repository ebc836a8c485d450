//! Frames of the wire protocol and their encoding.
use bytes::Bytes;
use vstd::prelude::*;

use crate::buf::{bytes_from_vec, bytes_view};
use crate::data_type::{bytes_equal, GString};
use crate::decimal::{decimal, write_i64, write_usize};

verus! {

pub const CR: u8 = 13;
pub const LF: u8 = 10;
pub const SIMPLE_STRING_FIRST_BYTE: u8 = 43;
pub const SIMPLE_ERROR_FIRST_BYTE: u8 = 45;
pub const INTEGER_FIRST_BYTE: u8 = 58;
pub const BULK_STRING_FIRST_BYTE: u8 = 36;
pub const ARRAY_FIRST_BYTE: u8 = 42;
pub const NULL_FIRST_BYTE: u8 = 95;

/// One message of the wire protocol.
#[derive(Debug)]
pub enum GFrame {
    SimpleString(GString),
    SimpleError(GString),
    Integer(i64),
    BulkString(GString),
    Array(Vec<GFrame>),
    Null,
}

/// What a frame holds, with its byte strings as sequences.
pub enum FrameView {
    SimpleString(Seq<u8>),
    SimpleError(Seq<u8>),
    Integer(i64),
    BulkString(Seq<u8>),
    Array(Seq<FrameView>),
    Null,
}

impl GFrame {
    /// What this frame holds.
    pub open spec fn model(&self) -> FrameView
        decreases self,
    {
        match self {
            GFrame::SimpleString(s) => FrameView::SimpleString(s@),
            GFrame::SimpleError(s) => FrameView::SimpleError(s@),
            GFrame::Integer(n) => FrameView::Integer(*n),
            GFrame::BulkString(s) => FrameView::BulkString(s@),
            GFrame::Array(items) => FrameView::Array(
                Seq::new(
                    items@.len(),
                    |i: int|
                        if 0 <= i < items@.len() {
                            items[i].model()
                        } else {
                            FrameView::Null
                        },
                ),
            ),
            GFrame::Null => FrameView::Null,
        }
    }
}

impl View for GFrame {
    type V = FrameView;

    open spec fn view(&self) -> FrameView {
        self.model()
    }
}

/// The views of a sequence of frames.
pub open spec fn frame_views(items: Seq<GFrame>) -> Seq<FrameView> {
    Seq::new(items.len(), |i: int| items[i]@)
}

pub open spec fn crlf() -> Seq<u8> {
    seq![CR, LF]
}

/// Neither a carriage return nor a line feed occurs in `s`.
pub open spec fn single_line(s: Seq<u8>) -> bool {
    forall|i: int| 0 <= i < s.len() ==> #[trigger] s[i] != CR && s[i] != LF
}

/// A frame that the protocol can carry: simple strings and errors stay on one
/// line, and lengths fit in a `usize`, as they do for every frame in memory.
pub open spec fn well_formed(f: FrameView) -> bool
    decreases f,
{
    match f {
        FrameView::SimpleString(s) => single_line(s),
        FrameView::SimpleError(s) => single_line(s),
        FrameView::BulkString(b) => b.len() <= usize::MAX,
        FrameView::Array(items) => items.len() <= usize::MAX && forall|i: int|
            0 <= i < items.len() ==> well_formed(#[trigger] items[i]),
        _ => true,
    }
}

/// The bytes that carry a frame on the wire.
pub open spec fn encode(f: FrameView) -> Seq<u8>
    decreases f,
{
    match f {
        FrameView::SimpleString(s) => seq![SIMPLE_STRING_FIRST_BYTE] + s + crlf(),
        FrameView::SimpleError(s) => seq![SIMPLE_ERROR_FIRST_BYTE] + s + crlf(),
        FrameView::Integer(n) => seq![INTEGER_FIRST_BYTE] + decimal(n as int) + crlf(),
        FrameView::BulkString(b) => seq![BULK_STRING_FIRST_BYTE] + decimal(b.len() as int) + crlf()
            + b + crlf(),
        FrameView::Array(items) => seq![ARRAY_FIRST_BYTE] + decimal(items.len() as int) + crlf()
            + encode_all(items),
        FrameView::Null => seq![NULL_FIRST_BYTE] + crlf(),
    }
}

/// The encodings of `items`, one after the other.
pub open spec fn encode_all(items: Seq<FrameView>) -> Seq<u8>
    decreases items,
{
    if items.len() == 0 {
        Seq::empty()
    } else {
        encode(items[0]) + encode_all(items.subrange(1, items.len() as int))
    }
}

pub proof fn lemma_encode_all_push(items: Seq<FrameView>, f: FrameView)
    ensures
        encode_all(items.push(f)) == encode_all(items) + encode(f),
    decreases items.len(),
{
    let longer = items.push(f);
    if items.len() == 0 {
        assert(longer.subrange(1, longer.len() as int) =~= Seq::<FrameView>::empty());
        assert(encode_all(Seq::<FrameView>::empty()) =~= Seq::<u8>::empty());
        assert(encode_all(longer) =~= encode(f));
    } else {
        let rest = items.subrange(1, items.len() as int);
        assert(longer.subrange(1, longer.len() as int) =~= rest.push(f));
        lemma_encode_all_push(rest, f);
        assert(encode_all(longer) =~= encode_all(items) + encode(f));
    }
}

/// A frame's kind did not match the one asked for.
#[derive(Debug)]
pub struct InvalidFrameType;

impl GFrame {
    /// Appends the encoding of this frame.
    pub fn write_to(&self, out: &mut Vec<u8>)
        ensures
            final(out)@ == old(out)@ + encode(self@),
        decreases self,
    {
        match self {
            GFrame::SimpleString(s) => {
                out.push(SIMPLE_STRING_FIRST_BYTE);
                out.extend_from_slice(s.as_slice());
                out.push(CR);
                out.push(LF);
            },
            GFrame::SimpleError(s) => {
                out.push(SIMPLE_ERROR_FIRST_BYTE);
                out.extend_from_slice(s.as_slice());
                out.push(CR);
                out.push(LF);
            },
            GFrame::Integer(n) => {
                out.push(INTEGER_FIRST_BYTE);
                write_i64(out, *n);
                out.push(CR);
                out.push(LF);
            },
            GFrame::BulkString(s) => {
                out.push(BULK_STRING_FIRST_BYTE);
                write_usize(out, s.len());
                out.push(CR);
                out.push(LF);
                out.extend_from_slice(s.as_slice());
                out.push(CR);
                out.push(LF);
            },
            GFrame::Array(items) => {
                out.push(ARRAY_FIRST_BYTE);
                write_usize(out, items.len());
                out.push(CR);
                out.push(LF);
                let ghost start = out@;
                let ghost all = self@->Array_0;
                assert(all.len() == items@.len());
                assert forall|j: int| 0 <= j < all.len() implies #[trigger] all[j] == items@[j]@ by {
                    assert(all[j] == items[j].model());
                }
                let mut i: usize = 0;
                while i < items.len()
                    invariant
                        i <= items@.len(),
                        *self == GFrame::Array(*items),
                        all.len() == items@.len(),
                        forall|j: int| 0 <= j < all.len() ==> #[trigger] all[j] == items@[j]@,
                        out@ == start + encode_all(all.subrange(0, i as int)),
                    decreases items@.len() - i,
                {
                    let item = &items[i];
                    assert(decreases_to!(*self => self->Array_0));
                    assert(decreases_to!(*items => items[i as int]));
                    item.write_to(out);
                    proof {
                        lemma_encode_all_push(all.subrange(0, i as int), all[i as int]);
                        assert(all.subrange(0, i as int).push(all[i as int]) =~= all.subrange(
                            0,
                            i + 1,
                        ));
                    }
                    i = i + 1;
                }
                assert(all.subrange(0, i as int) =~= all);
            },
            GFrame::Null => {
                out.push(NULL_FIRST_BYTE);
                out.push(CR);
                out.push(LF);
            },
        }
        assert(out@ =~= old(out)@ + encode(self@));
    }

    /// The encoding of this frame.
    pub fn bytes(&self) -> (r: Bytes)
        ensures
            bytes_view(r) == encode(self@),
    {
        let mut out: Vec<u8> = Vec::new();
        self.write_to(&mut out);
        assert(out@ =~= encode(self@));
        bytes_from_vec(out)
    }
}

impl GFrame {
    pub fn as_simple_string(&self) -> (r: Result<GString, InvalidFrameType>)
        ensures
            match self@ {
                FrameView::SimpleString(s) => r matches Ok(v) && v@ == s,
                _ => r is Err,
            },
    {
        match self {
            GFrame::SimpleString(value) => Ok(value.clone()),
            _ => Err(InvalidFrameType),
        }
    }

    pub fn as_simple_error(&self) -> (r: Result<GString, InvalidFrameType>)
        ensures
            match self@ {
                FrameView::SimpleError(s) => r matches Ok(v) && v@ == s,
                _ => r is Err,
            },
    {
        match self {
            GFrame::SimpleError(value) => Ok(value.clone()),
            _ => Err(InvalidFrameType),
        }
    }

    pub fn as_integer(&self) -> (r: Result<i64, InvalidFrameType>)
        ensures
            match self@ {
                FrameView::Integer(n) => r == Ok::<i64, InvalidFrameType>(n),
                _ => r is Err,
            },
    {
        match self {
            GFrame::Integer(value) => Ok(*value),
            _ => Err(InvalidFrameType),
        }
    }

    pub fn as_bulk_string(&self) -> (r: Result<GString, InvalidFrameType>)
        ensures
            match self@ {
                FrameView::BulkString(s) => r matches Ok(v) && v@ == s,
                _ => r is Err,
            },
    {
        match self {
            GFrame::BulkString(value) => Ok(value.clone()),
            _ => Err(InvalidFrameType),
        }
    }

    pub fn as_array(&self) -> (r: Result<&Vec<GFrame>, InvalidFrameType>)
        ensures
            match self@ {
                FrameView::Array(items) => r matches Ok(v) && frame_views(v@) == items,
                _ => r is Err,
            },
    {
        match self {
            GFrame::Array(value) => {
                assert(frame_views(value@) =~= self@->Array_0);
                Ok(value)
            },
            _ => Err(InvalidFrameType),
        }
    }
}

/// Whether two frames hold the same thing.
pub fn frames_equal(a: &GFrame, b: &GFrame) -> (r: bool)
    ensures
        r == (a@ == b@),
    decreases a,
{
    match (a, b) {
        (GFrame::SimpleString(x), GFrame::SimpleString(y)) => bytes_equal(x.as_slice(), y.as_slice()),
        (GFrame::SimpleError(x), GFrame::SimpleError(y)) => bytes_equal(x.as_slice(), y.as_slice()),
        (GFrame::Integer(x), GFrame::Integer(y)) => *x == *y,
        (GFrame::BulkString(x), GFrame::BulkString(y)) => bytes_equal(x.as_slice(), y.as_slice()),
        (GFrame::Array(xs), GFrame::Array(ys)) => {
            let ghost va = a@->Array_0;
            let ghost vb = b@->Array_0;
            assert(va.len() == xs@.len() && vb.len() == ys@.len());
            if xs.len() != ys.len() {
                return false;
            }
            let mut i: usize = 0;
            while i < xs.len()
                invariant
                    *a == GFrame::Array(*xs),
                    xs@.len() == ys@.len(),
                    va == a@->Array_0,
                    vb == b@->Array_0,
                    va.len() == xs@.len() && vb.len() == ys@.len(),
                    forall|j: int| 0 <= j < xs@.len() ==> #[trigger] va[j] == xs@[j]@,
                    forall|j: int| 0 <= j < ys@.len() ==> #[trigger] vb[j] == ys@[j]@,
                    i <= xs@.len(),
                    forall|j: int| 0 <= j < i ==> va[j] == vb[j],
                decreases xs@.len() - i,
            {
                assert(decreases_to!(*a => a->Array_0));
                assert(decreases_to!(*xs => xs[i as int]));
                if !frames_equal(&xs[i], &ys[i]) {
                    assert(va[i as int] != vb[i as int]);
                    return false;
                }
                i = i + 1;
            }
            assert(va =~= vb);
            true
        },
        (GFrame::Null, GFrame::Null) => true,
        _ => false,
    }
}

impl PartialEq for GFrame {
    fn eq(&self, other: &GFrame) -> (r: bool) {
        frames_equal(self, other)
    }
}

impl vstd::std_specs::cmp::PartialEqSpecImpl for GFrame {
    open spec fn obeys_eq_spec() -> bool {
        true
    }

    open spec fn eq_spec(&self, other: &GFrame) -> bool {
        self@ == other@
    }
}

impl Eq for GFrame {
}

} // verus!
