//! What a shard's storage is asked to do.
use vstd::prelude::*;

use crate::data_type::GString;
use crate::value::Value;

verus! {

pub struct GetRequest {
    pub key: GString,
}

pub struct SetRequest {
    pub key: GString,
    pub value: Value,
}

pub struct DeleteRequest {
    pub key: GString,
}

/// Replace the binding of `key` by what `f` makes of it: `None` removes it.
pub struct UpdateRequest<F> {
    pub key: GString,
    pub f: F,
}

} // verus!
