//! What a shard's storage answers to each kind of request.
use vstd::prelude::*;

use crate::value::Value;

verus! {

#[derive(Debug)]
pub struct GetResponse {
    pub value: Option<Value>,
}

#[derive(Debug)]
pub struct SetResponse {
    pub original_value: Option<Value>,
}

#[derive(Debug)]
pub struct DeleteResponse {
    pub deleted: Option<Value>,
}

/// The binding after an update, and the one it replaced.
#[derive(Debug)]
pub struct UpdateResponse {
    pub original_value: Option<Value>,
    pub updated: Option<Value>,
}

} // verus!
