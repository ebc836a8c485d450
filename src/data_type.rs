//! The protocol's value types: byte strings and integers.
use bytes::Bytes;
use vstd::prelude::*;

use crate::buf::{bytes_clone, bytes_copy, bytes_empty, bytes_from_vec, bytes_slice, bytes_static, bytes_view};
use crate::decimal::{decimal, i64_of, parse_i64, write_i64};

verus! {

/// An immutable byte string, cheap to clone: clones share one buffer.
/// Keys and stored strings are `GString`s; equality is bytewise.
#[derive(Debug)]
pub struct GString {
    value: Bytes,
}

impl View for GString {
    type V = Seq<u8>;

    closed spec fn view(&self) -> Seq<u8> {
        bytes_view(self.value)
    }
}

impl GString {
    pub fn new() -> (r: GString)
        ensures
            r@ == Seq::<u8>::empty(),
    {
        GString { value: bytes_empty() }
    }

    pub fn copy_from_slice(data: &[u8]) -> (r: GString)
        ensures
            r@ == data@,
    {
        GString { value: bytes_copy(data) }
    }

    pub fn from_static(data: &'static [u8]) -> (r: GString)
        ensures
            r@ == data@,
    {
        GString { value: bytes_static(data) }
    }

    pub fn from_vec(data: Vec<u8>) -> (r: GString)
        ensures
            r@ == data@,
    {
        GString { value: bytes_from_vec(data) }
    }

    /// The bytes, as a shared `Bytes` handle.
    pub fn bytes(&self) -> (r: Bytes)
        ensures
            bytes_view(r) == self@,
    {
        bytes_clone(&self.value)
    }

    pub fn as_slice(&self) -> (r: &[u8])
        ensures
            r@ == self@,
    {
        bytes_slice(&self.value)
    }

    pub fn len(&self) -> (r: usize)
        ensures
            r == self@.len(),
    {
        self.as_slice().len()
    }

    pub fn is_empty(&self) -> (r: bool)
        ensures
            r == (self@.len() == 0),
    {
        self.len() == 0
    }
}

impl Clone for GString {
    fn clone(&self) -> (r: GString)
        ensures
            r@ == self@,
    {
        GString { value: bytes_clone(&self.value) }
    }
}

impl Default for GString {
    fn default() -> (r: GString)
        ensures
            r@ == Seq::<u8>::empty(),
    {
        GString::new()
    }
}

/// Bytewise comparison of two slices.
pub fn bytes_equal(a: &[u8], b: &[u8]) -> (r: bool)
    ensures
        r == (a@ == b@),
{
    if a.len() != b.len() {
        return false;
    }
    let mut i: usize = 0;
    while i < a.len()
        invariant
            a@.len() == b@.len(),
            i <= a@.len(),
            forall|j: int| 0 <= j < i ==> a@[j] == b@[j],
        decreases a@.len() - i,
    {
        if a[i] != b[i] {
            return false;
        }
        i = i + 1;
    }
    assert(a@ =~= b@);
    true
}

impl PartialEq for GString {
    fn eq(&self, other: &GString) -> (r: bool) {
        bytes_equal(self.as_slice(), other.as_slice())
    }
}

impl vstd::std_specs::cmp::PartialEqSpecImpl for GString {
    open spec fn obeys_eq_spec() -> bool {
        true
    }

    open spec fn eq_spec(&self, other: &GString) -> bool {
        self@ == other@
    }
}

impl Eq for GString {
}

/// A signed 64-bit integer, written on the wire in ASCII decimal.
#[derive(Clone, Copy, Debug, PartialEq, Eq, Structural)]
pub struct GInteger {
    value: i64,
}

impl GInteger {
    pub fn new(value: i64) -> (r: GInteger)
        ensures
            r.value() == value,
    {
        GInteger { value }
    }

    pub closed spec fn value(&self) -> i64 {
        self.value
    }

    pub fn get(&self) -> (r: i64)
        ensures
            r == self.value(),
    {
        self.value
    }

    /// Reads the ASCII decimal form of an `i64`: an optional sign and digits.
    pub fn from_ascii(s: &[u8]) -> (r: Option<GInteger>)
        ensures
            r is Some <==> i64_of(s@) is Some,
            r is Some ==> r->0.value() == i64_of(s@)->0,
    {
        match parse_i64(s) {
            Some(v) => Some(GInteger { value: v }),
            None => None,
        }
    }

    /// The sum with `n`, or `None` where it leaves the `i64` range.
    pub fn checked_add(&self, n: i64) -> (r: Option<GInteger>)
        ensures
            r is Some <==> i64::MIN <= self.value() + n <= i64::MAX,
            r is Some ==> r->0.value() == self.value() + n,
    {
        match self.value.checked_add(n) {
            Some(v) => Some(GInteger { value: v }),
            None => None,
        }
    }

    /// The ASCII decimal rendering.
    pub fn bytes(&self) -> (r: Bytes)
        ensures
            bytes_view(r) == decimal(self.value() as int),
    {
        let mut out: Vec<u8> = Vec::new();
        write_i64(&mut out, self.value);
        assert(out@ =~= decimal(self.value as int));
        bytes_from_vec(out)
    }
}

} // verus!
