//! What the encoder and the parser promise of each other.
use vstd::prelude::*;

use crate::decimal::{decimal, i64_of, lemma_decimal_round_trip, usize_of};
use crate::frame::{
    crlf, encode, encode_all, single_line, well_formed, FrameView, ARRAY_FIRST_BYTE,
    BULK_STRING_FIRST_BYTE, CR, INTEGER_FIRST_BYTE, LF, NULL_FIRST_BYTE, SIMPLE_ERROR_FIRST_BYTE,
    SIMPLE_STRING_FIRST_BYTE,
};
use crate::driver::drain;
use crate::parser::{crlf_at, find_crlf, lemma_find_crlf, parse_frame, parse_items};

verus! {

proof fn lemma_find_crlf_first(s: Seq<u8>, from: int, e: int)
    requires
        0 <= from <= e,
        crlf_at(s, e),
        forall|j: int| from <= j < e ==> !#[trigger] crlf_at(s, j),
    ensures
        find_crlf(s, from) == Some(e as nat),
    decreases e - from,
{
    if from < e {
        assert(!crlf_at(s, from));
        lemma_find_crlf_first(s, from + 1, e);
    }
}

/// A type byte, a line without line breaks and a line end: `find_crlf` stops at
/// that line end.
proof fn lemma_line(u: Seq<u8>, c: u8, body: Seq<u8>, tail: Seq<u8>)
    requires
        u == seq![c] + body + crlf() + tail,
        single_line(body),
    ensures
        u[0] == c,
        u.len() == body.len() as int + 3 + tail.len(),
        find_crlf(u, 1) == Some((body.len() as int + 1) as nat),
        u.subrange(1, body.len() as int + 1) == body,
        u.subrange(body.len() as int + 3, u.len() as int) == tail,
{
    let e = body.len() as int + 1;
    assert(u[e] == CR && u[e + 1] == LF);
    assert forall|j: int| 1 <= j < e implies !#[trigger] crlf_at(u, j) by {
        assert(u[j] == body[j - 1]);
    }
    lemma_find_crlf_first(u, 1, e);
    assert(u.subrange(1, e) =~= body);
    assert(u.subrange(body.len() as int + 3, u.len() as int) =~= tail);
}

/// The same line cut before its line feed: no line end yet.
proof fn lemma_line_cut(u: Seq<u8>, c: u8, body: Seq<u8>, tail: Seq<u8>, k: int)
    requires
        u == seq![c] + body + crlf() + tail,
        single_line(body),
        0 <= k < body.len() as int + 3,
    ensures
        find_crlf(u.subrange(0, k), 1) is None,
{
    let t = u.subrange(0, k);
    lemma_find_crlf(t, 1);
    if let Some(e) = find_crlf(t, 1) {
        if e < body.len() as int + 1 {
            assert(t[e as int] == body[e - 1]);
        }
    }
}

/// Parsing the encoding of a frame, whatever follows it, yields that frame
/// and takes exactly its encoding.
pub proof fn lemma_parse_encode(f: FrameView, rest: Seq<u8>)
    requires
        well_formed(f),
    ensures
        parse_frame(encode(f) + rest) == Ok::<Option<(FrameView, int)>, crate::parser::ParseError>(
            Some((f, encode(f).len() as int)),
        ),
    decreases f,
{
    let u = encode(f) + rest;
    match f {
        FrameView::SimpleString(s) => {
            lemma_line(u, SIMPLE_STRING_FIRST_BYTE, s, rest);
        },
        FrameView::SimpleError(s) => {
            lemma_line(u, SIMPLE_ERROR_FIRST_BYTE, s, rest);
        },
        FrameView::Integer(n) => {
            lemma_decimal_round_trip(n as int);
            lemma_line(u, INTEGER_FIRST_BYTE, decimal(n as int), rest);
            assert(i64_of(decimal(n as int)) == Some(n));
        },
        FrameView::BulkString(b) => {
            lemma_decimal_round_trip(b.len() as int);
            let tail = b + crlf() + rest;
            assert(u =~= seq![BULK_STRING_FIRST_BYTE] + decimal(b.len() as int) + crlf() + tail);
            lemma_line(u, BULK_STRING_FIRST_BYTE, decimal(b.len() as int), tail);
            let e = decimal(b.len() as int).len() as int + 1;
            assert(usize_of(decimal(b.len() as int)) == Some(b.len() as usize));
            assert(u.subrange(e + 2, e + 2 + b.len()) =~= b);
        },
        FrameView::Array(items) => {
            lemma_decimal_round_trip(items.len() as int);
            let tail = encode_all(items) + rest;
            assert(u =~= seq![ARRAY_FIRST_BYTE] + decimal(items.len() as int) + crlf() + tail);
            lemma_line(u, ARRAY_FIRST_BYTE, decimal(items.len() as int), tail);
            let e = decimal(items.len() as int).len() as int + 1;
            assert(usize_of(decimal(items.len() as int)) == Some(items.len() as usize));
            let ea = encode_all(items);
            assert(u.subrange(e + 2, e + 2 + ea.len()) =~= ea) by {
                assert forall|j: int| 0 <= j < ea.len() implies u.subrange(e + 2, e + 2 + ea.len())[j]
                    == ea[j] by {
                    assert(u.subrange(e + 2, u.len() as int)[j] == tail[j]);
                }
            }
            lemma_parse_items_encode(u, e + 2, items);
            assert(u.len() == encode(f).len() as int + rest.len());
        },
        FrameView::Null => {
            assert(u[0] == NULL_FIRST_BYTE && u[1] == CR && u[2] == LF);
        },
    }
}

/// Parsing the encodings of `items`, laid out from `p` on, yields those items.
pub proof fn lemma_parse_items_encode(u: Seq<u8>, p: int, items: Seq<FrameView>)
    requires
        0 <= p,
        p + encode_all(items).len() <= u.len(),
        u.subrange(p, p + encode_all(items).len()) == encode_all(items),
        forall|i: int| 0 <= i < items.len() ==> well_formed(#[trigger] items[i]),
    ensures
        parse_items(u, p, items.len()) == Ok::<
            Option<(Seq<FrameView>, int)>,
            crate::parser::ParseError,
        >(Some((items, p + encode_all(items).len()))),
    decreases items,
{
    if items.len() > 0 {
        let first = items[0];
        let others = items.subrange(1, items.len() as int);
        let e0 = encode(first);
        let after = u.subrange(p + e0.len(), u.len() as int);
        assert(encode_all(items) == e0 + encode_all(others));
        assert(u.subrange(p, u.len() as int) =~= e0 + after) by {
            assert forall|j: int| 0 <= j < e0.len() implies u.subrange(p, u.len() as int)[j] == e0[j] by {
                assert(u.subrange(p, p + encode_all(items).len())[j] == encode_all(items)[j]);
            }
        }
        lemma_parse_encode(first, after);
        assert(e0.len() > 0) by {
            lemma_encode_nonempty(first);
        }
        assert(u.subrange(p + e0.len(), p + e0.len() as int + encode_all(others).len()) =~= encode_all(
            others,
        )) by {
            assert(encode_all(items) == e0 + encode_all(others));
            assert forall|j: int| 0 <= j < encode_all(others).len() implies u.subrange(
                p + e0.len(),
                p + e0.len() as int + encode_all(others).len(),
            )[j] == encode_all(others)[j] by {
                assert(u.subrange(p, p + encode_all(items).len())[e0.len() as int + j] == encode_all(
                    items,
                )[e0.len() as int + j]);
            }
        }
        assert forall|i: int| 0 <= i < others.len() implies well_formed(#[trigger] others[i]) by {
            assert(others[i] == items[i + 1]);
        }
        lemma_parse_items_encode(u, p + e0.len(), others);
        assert(parse_frame(u.subrange(p, u.len() as int)) == Ok::<
            Option<(FrameView, int)>,
            crate::parser::ParseError,
        >(Some((first, e0.len() as int))));
        assert(seq![first] + others =~= items);
    } else {
        assert(items =~= Seq::<FrameView>::empty());
    }
}

pub proof fn lemma_encode_nonempty(f: FrameView)
    ensures
        encode(f).len() >= 3,
{
    match f {
        FrameView::Integer(n) => lemma_decimal_round_trip(n as int),
        FrameView::BulkString(b) => lemma_decimal_round_trip(b.len() as int),
        FrameView::Array(items) => lemma_decimal_round_trip(items.len() as int),
        _ => {},
    }
}

/// Round trip: the encoding of a frame parses back to that frame, taking all of it.
pub proof fn lemma_round_trip(f: FrameView)
    requires
        well_formed(f),
    ensures
        parse_frame(encode(f)) == Ok::<Option<(FrameView, int)>, crate::parser::ParseError>(
            Some((f, encode(f).len() as int)),
        ),
{
    lemma_parse_encode(f, Seq::empty());
    assert(encode(f) + Seq::<u8>::empty() =~= encode(f));
}

/// Two frames back to back: the first parse yields the first frame, and the
/// bytes it leaves yield the second.
pub proof fn lemma_two_frames(f1: FrameView, f2: FrameView)
    requires
        well_formed(f1),
        well_formed(f2),
    ensures
        ({
            let s = encode(f1) + encode(f2);
            let k = encode(f1).len() as int;
            &&& parse_frame(s) == Ok::<Option<(FrameView, int)>, crate::parser::ParseError>(
                Some((f1, k)),
            )
            &&& parse_frame(s.subrange(k, s.len() as int)) == Ok::<
                Option<(FrameView, int)>,
                crate::parser::ParseError,
            >(Some((f2, encode(f2).len() as int)))
        }),
{
    let s = encode(f1) + encode(f2);
    lemma_parse_encode(f1, encode(f2));
    assert(s.subrange(encode(f1).len() as int, s.len() as int) =~= encode(f2));
    lemma_round_trip(f2);
}

/// Any strict prefix of a frame's encoding is incomplete: the parser asks for
/// more bytes and reports no error.
pub proof fn lemma_truncated(f: FrameView, k: int)
    requires
        well_formed(f),
        0 <= k < encode(f).len(),
    ensures
        parse_frame(encode(f).subrange(0, k)) == Ok::<
            Option<(FrameView, int)>,
            crate::parser::ParseError,
        >(None),
    decreases f,
{
    let u = encode(f);
    let t = u.subrange(0, k);
    if k == 0 {
        return ;
    }
    match f {
        FrameView::SimpleString(s) => {
            assert(u =~= seq![SIMPLE_STRING_FIRST_BYTE] + s + crlf() + Seq::<u8>::empty());
            lemma_line_cut(u, SIMPLE_STRING_FIRST_BYTE, s, Seq::<u8>::empty(), k);
        },
        FrameView::SimpleError(s) => {
            assert(u =~= seq![SIMPLE_ERROR_FIRST_BYTE] + s + crlf() + Seq::<u8>::empty());
            lemma_line_cut(u, SIMPLE_ERROR_FIRST_BYTE, s, Seq::<u8>::empty(), k);
        },
        FrameView::Integer(n) => {
            lemma_decimal_round_trip(n as int);
            assert(u =~= seq![INTEGER_FIRST_BYTE] + decimal(n as int) + crlf() + Seq::<u8>::empty());
            lemma_line_cut(u, INTEGER_FIRST_BYTE, decimal(n as int), Seq::<u8>::empty(), k);
        },
        FrameView::BulkString(b) => {
            let d = decimal(b.len() as int);
            lemma_decimal_round_trip(b.len() as int);
            let tail = b + crlf();
            assert(u =~= seq![BULK_STRING_FIRST_BYTE] + d + crlf() + tail);
            if k < d.len() as int + 3 {
                lemma_line_cut(u, BULK_STRING_FIRST_BYTE, d, tail, k);
            } else {
                let cut = tail.subrange(0, k - d.len() - 3);
                assert(t =~= seq![BULK_STRING_FIRST_BYTE] + d + crlf() + cut);
                lemma_line(t, BULK_STRING_FIRST_BYTE, d, cut);
                assert(usize_of(d) == Some(b.len() as usize));
            }
        },
        FrameView::Array(items) => {
            let d = decimal(items.len() as int);
            lemma_decimal_round_trip(items.len() as int);
            let ea = encode_all(items);
            assert(u =~= seq![ARRAY_FIRST_BYTE] + d + crlf() + ea);
            if k < d.len() as int + 3 {
                lemma_line_cut(u, ARRAY_FIRST_BYTE, d, ea, k);
            } else {
                let h = d.len() as int + 3;
                let cut = ea.subrange(0, k - h);
                assert(t =~= seq![ARRAY_FIRST_BYTE] + d + crlf() + cut);
                lemma_line(t, ARRAY_FIRST_BYTE, d, cut);
                assert(usize_of(d) == Some(items.len() as usize));
                assert(t.subrange(h, t.len() as int) =~= ea.subrange(0, t.len() - h));
                lemma_items_truncated(t, h, items);
            }
        },
        FrameView::Null => {},
    }
}

/// The encodings of `items` from offset `p` on, cut short: incomplete.
proof fn lemma_items_truncated(t: Seq<u8>, p: int, items: Seq<FrameView>)
    requires
        0 <= p <= t.len(),
        t.len() - p < encode_all(items).len(),
        t.subrange(p, t.len() as int) == encode_all(items).subrange(0, t.len() - p),
        forall|i: int| 0 <= i < items.len() ==> well_formed(#[trigger] items[i]),
    ensures
        parse_items(t, p, items.len()) == Ok::<
            Option<(Seq<FrameView>, int)>,
            crate::parser::ParseError,
        >(None),
    decreases items,
{
    if items.len() == 0 {
        return ;
    }
    let first = items[0];
    let others = items.subrange(1, items.len() as int);
    let e0 = encode(first);
    let ea = encode_all(items);
    assert(ea == e0 + encode_all(others));
    let r = t.subrange(p, t.len() as int);
    let m = t.len() - p;
    if m < e0.len() {
        assert(r =~= e0.subrange(0, m));
        lemma_truncated(first, m);
    } else {
        let after = t.subrange(p + e0.len(), t.len() as int);
        assert(r =~= e0 + after) by {
            assert forall|j: int| 0 <= j < e0.len() implies r[j] == e0[j] by {
                assert(r[j] == ea.subrange(0, m)[j]);
            }
        }
        lemma_parse_encode(first, after);
        lemma_encode_nonempty(first);
        assert(after =~= encode_all(others).subrange(0, t.len() - (p + e0.len()))) by {
            assert forall|j: int| 0 <= j < after.len() implies after[j] == encode_all(others)[j] by {
                assert(r[e0.len() + j] == ea.subrange(0, m)[e0.len() + j]);
            }
        }
        assert forall|i: int| 0 <= i < others.len() implies well_formed(#[trigger] others[i]) by {
            assert(others[i] == items[i + 1]);
        }
        lemma_items_truncated(t, p + e0.len(), others);
    }
}

/// Feeding a frame's encoding in two parts: after the first part the parser
/// asks for more (and so keeps its buffer), and the two parts together are
/// parsed as the whole encoding is.
pub proof fn lemma_split_feed(f: FrameView, k: int)
    requires
        well_formed(f),
        0 <= k <= encode(f).len(),
    ensures
        ({
            let e = encode(f);
            let head = e.subrange(0, k);
            let rest = e.subrange(k, e.len() as int);
            &&& k < e.len() ==> parse_frame(head) == Ok::<
                Option<(FrameView, int)>,
                crate::parser::ParseError,
            >(None)
            &&& head + rest == e
            &&& parse_frame(head + rest) == parse_frame(e)
            &&& parse_frame(head + rest) == Ok::<
                Option<(FrameView, int)>,
                crate::parser::ParseError,
            >(Some((f, e.len() as int)))
        }),
{
    let e = encode(f);
    if k < e.len() {
        lemma_truncated(f, k);
    }
    assert(e.subrange(0, k) + e.subrange(k, e.len() as int) =~= e);
    lemma_round_trip(f);
}

/// Two encoded frames back to back drain to exactly those two frames,
/// leaving nothing behind.
pub proof fn lemma_drain_two(f1: FrameView, f2: FrameView)
    requires
        well_formed(f1),
        well_formed(f2),
    ensures
        drain(encode(f1) + encode(f2)) == Ok::<
            (Seq<FrameView>, Seq<u8>),
            (crate::parser::ParseError, Seq<u8>),
        >((seq![f1, f2], Seq::<u8>::empty())),
{
    let s = encode(f1) + encode(f2);
    lemma_two_frames(f1, f2);
    let after = s.subrange(encode(f1).len() as int, s.len() as int);
    assert(after =~= encode(f2));
    let e2 = encode(f2);
    let empty = e2.subrange(e2.len() as int, e2.len() as int);
    assert(empty =~= Seq::<u8>::empty());
    assert(drain(empty) == Ok::<(Seq<FrameView>, Seq<u8>), (crate::parser::ParseError, Seq<u8>)>(
        (Seq::empty(), empty),
    ));
    assert(drain(after) == Ok::<(Seq<FrameView>, Seq<u8>), (crate::parser::ParseError, Seq<u8>)>(
        (seq![f2] + Seq::empty(), empty),
    ));
    assert(seq![f1] + (seq![f2] + Seq::<FrameView>::empty()) =~= seq![f1, f2]);
}

} // verus!
