//! Stored values: the bytes written by `SET`, kept as an integer where they
//! spell one.
use bytes::Bytes;
use vstd::prelude::*;

use crate::buf::bytes_view;
use crate::data_type::{GInteger, GString};
use crate::decimal::{decimal, i64_of, write_i64};

verus! {

#[derive(Debug)]
pub struct Value {
    pub data: Data,
}

#[derive(Debug)]
pub enum Data {
    String(GString),
    Integer(GInteger),
}

/// What a stored value is.
pub enum DataView {
    String(Seq<u8>),
    Integer(i64),
}

impl View for Data {
    type V = DataView;

    open spec fn view(&self) -> DataView {
        match self {
            Data::String(s) => DataView::String(s@),
            Data::Integer(n) => DataView::Integer(n.value()),
        }
    }
}

impl View for Value {
    type V = DataView;

    open spec fn view(&self) -> DataView {
        self.data@
    }
}

pub open spec fn opt_view(v: Option<Value>) -> Option<DataView> {
    match v {
        Some(x) => Some(x@),
        None => None,
    }
}

/// How written bytes are kept: as an integer where they spell an `i64`.
pub open spec fn classify(s: Seq<u8>) -> DataView {
    match i64_of(s) {
        Some(n) => DataView::Integer(n),
        None => DataView::String(s),
    }
}

/// The bytes a stored value reads back as.
pub open spec fn render(d: DataView) -> Seq<u8> {
    match d {
        DataView::String(s) => s,
        DataView::Integer(n) => decimal(n as int),
    }
}

impl Data {
    /// Keeps written bytes as an integer where they spell one.
    pub fn from_gstring(data: GString) -> (r: Data)
        ensures
            r@ == classify(data@),
    {
        match GInteger::from_ascii(data.as_slice()) {
            Some(integer) => Data::Integer(integer),
            None => Data::String(data),
        }
    }

    /// The bytes this value reads back as.
    pub fn bytes(&self) -> (r: Bytes)
        ensures
            bytes_view(r) == render(self@),
    {
        match self {
            Data::String(s) => s.bytes(),
            Data::Integer(n) => n.bytes(),
        }
    }

    /// The bytes this value reads back as, as a `GString`.
    pub fn to_gstring(&self) -> (r: GString)
        ensures
            r@ == render(self@),
    {
        match self {
            Data::String(s) => s.clone(),
            Data::Integer(n) => {
                let mut out: Vec<u8> = Vec::new();
                write_i64(&mut out, n.get());
                assert(out@ =~= decimal(n.value() as int));
                GString::from_vec(out)
            },
        }
    }
}

impl Clone for Data {
    fn clone(&self) -> (r: Data)
        ensures
            r@ == self@,
    {
        match self {
            Data::String(s) => Data::String(s.clone()),
            Data::Integer(n) => Data::Integer(*n),
        }
    }
}

impl Clone for Value {
    fn clone(&self) -> (r: Value)
        ensures
            r@ == self@,
    {
        Value { data: self.data.clone() }
    }
}

} // verus!
