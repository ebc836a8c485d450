//! What the processor answers to each command, from what storage replied.
//!
//! Storage may live on another shard, so talking to it is left to the caller:
//! `ProcessorActor::plan` says which requests a command needs, and each
//! handler turns the replies into the frame sent back to the client.
use vstd::prelude::*;

use crate::command::{
    keys_view, CommandView, DelGCommand, ExistsGCommand, GCommand, GetGCommand,
    PingGCommand, SetGCommand,
};
use crate::data_type::{GInteger, GString};
use crate::frame::{FrameView, GFrame};
use crate::request::{DeleteRequest, GetRequest, SetRequest};
use crate::response::{DeleteResponse, GetResponse, SetResponse, UpdateResponse};
use crate::value::{classify, opt_view, render, Data, DataView, Value};

verus! {

pub open spec fn pong() -> Seq<u8> {
    seq![80u8, 79, 78, 71]
}

pub open spec fn ok() -> Seq<u8> {
    seq![79u8, 75]
}

pub open spec fn not_an_integer() -> Seq<u8> {
    seq![110u8, 111, 116, 32, 97, 110, 32, 105, 110, 116, 101, 103, 101, 114]
}

pub open spec fn increment_overflow() -> Seq<u8> {
    seq![
        116u8, 114, 105, 101, 100, 32, 116, 111, 32, 105, 110, 99, 114, 101, 109, 101, 110, 116,
        32, 119, 105, 116, 104, 32, 111, 118, 101, 114, 102, 108, 111, 119,
    ]
}

/// The reply to `PING`, with or without a message.
pub open spec fn ping_reply(message: Option<Seq<u8>>) -> FrameView {
    match message {
        Some(m) => FrameView::BulkString(m),
        None => FrameView::SimpleString(pong()),
    }
}

/// The reply to `GET`: the value's bytes, or null where the key is unbound.
pub open spec fn get_reply(value: Option<DataView>) -> FrameView {
    match value {
        Some(d) => FrameView::BulkString(render(d)),
        None => FrameView::Null,
    }
}

/// How many of `values` are there.
pub open spec fn count_present(values: Seq<Option<DataView>>) -> nat
    decreases values.len(),
{
    if values.len() == 0 {
        0
    } else {
        count_present(values.drop_last()) + if values.last() is Some {
            1nat
        } else {
            0nat
        }
    }
}

/// What `INCR` makes of a binding: an integer goes up by one unless that
/// overflows, in which case it stays; other values stay; no value becomes 1.
pub open spec fn incr_value(current: Option<DataView>) -> Option<DataView> {
    match current {
        Some(DataView::Integer(n)) => if n < i64::MAX {
            Some(DataView::Integer((n + 1) as i64))
        } else {
            Some(DataView::Integer(n))
        },
        Some(DataView::String(s)) => Some(DataView::String(s)),
        None => Some(DataView::Integer(1)),
    }
}

/// The reply to `INCR`, from the binding before and after: an integer that
/// did not move overflowed.
pub open spec fn incr_reply(original: Option<DataView>, updated: Option<DataView>) -> FrameView {
    match updated {
        Some(DataView::Integer(n)) => if original == Some(DataView::Integer(n)) {
            FrameView::SimpleError(increment_overflow())
        } else {
            FrameView::Integer(n)
        },
        Some(DataView::String(_)) => FrameView::SimpleError(not_an_integer()),
        None => FrameView::SimpleError(increment_overflow()),
    }
}

/// The frame that reports an error to the client.
pub fn error_frame(message: &[u8]) -> (r: GFrame)
    ensures
        r@ == FrameView::SimpleError(message@),
{
    GFrame::SimpleError(GString::copy_from_slice(message))
}

/// What `INCR` hands to storage as its update.
pub fn increment(value: Option<Value>) -> (r: Option<Value>)
    ensures
        opt_view(r) == incr_value(opt_view(value)),
{
    match value {
        Some(Value { data: Data::Integer(existing) }) => {
            match existing.checked_add(1) {
                Some(next) => Some(Value { data: Data::Integer(next) }),
                None => Some(Value { data: Data::Integer(existing) }),
            }
        },
        Some(other) => Some(other),
        None => Some(Value { data: Data::Integer(GInteger::new(1)) }),
    }
}

pub struct PingHandler;

impl PingHandler {
    pub fn handle(&self, command: PingGCommand) -> (r: GFrame)
        ensures
            r@ == ping_reply(
                match command.message {
                    Some(m) => Some(m@),
                    None => None,
                },
            ),
    {
        match command.message {
            Some(message) => GFrame::BulkString(message),
            None => GFrame::SimpleString(GString::from_static(&[80u8, 79, 78, 71])),
        }
    }
}

pub struct GetHandler;

impl GetHandler {
    pub fn request(&self, command: GetGCommand) -> (r: GetRequest)
        ensures
            r.key@ == command.key@,
    {
        GetRequest { key: command.key }
    }

    pub fn reply(&self, response: GetResponse) -> (r: GFrame)
        ensures
            r@ == get_reply(opt_view(response.value)),
    {
        match response.value {
            Some(value) => GFrame::BulkString(value.data.to_gstring()),
            None => GFrame::Null,
        }
    }
}

pub struct SetHandler;

impl SetHandler {
    /// The write that `SET` asks for: the bytes kept as an integer where they spell one.
    pub fn request(&self, command: SetGCommand) -> (r: SetRequest)
        ensures
            r.key@ == command.key@,
            r.value@ == classify(command.value@),
    {
        SetRequest { key: command.key, value: Value { data: Data::from_gstring(command.value) } }
    }

    /// `SET` always answers `OK`.
    pub fn reply(&self, _response: SetResponse) -> (r: GFrame)
        ensures
            r@ == FrameView::SimpleString(ok()),
    {
        GFrame::SimpleString(GString::from_static(&[79u8, 75]))
    }
}

pub struct DelHandler;

impl DelHandler {
    pub fn requests(&self, command: DelGCommand) -> (r: Vec<DeleteRequest>)
        ensures
            r@.len() == command.keys@.len(),
            forall|i: int| 0 <= i < r@.len() ==> (#[trigger] r@[i]).key@ == command.keys@[i]@,
    {
        let mut requests: Vec<DeleteRequest> = Vec::new();
        let keys = command.keys;
        let mut i: usize = 0;
        while i < keys.len()
            invariant
                i <= keys@.len(),
                keys@ == command.keys@,
                requests@.len() == i,
                forall|j: int| 0 <= j < i ==> (#[trigger] requests@[j]).key@ == keys@[j]@,
            decreases keys@.len() - i,
        {
            requests.push(DeleteRequest { key: keys[i].clone() });
            i = i + 1;
        }
        requests
    }

    /// The number of keys that were removed.
    pub fn reply(&self, responses: &Vec<DeleteResponse>) -> (r: GFrame)
        requires
            responses@.len() <= i64::MAX,
        ensures
            r@ == FrameView::Integer(
                count_present(Seq::new(responses@.len(), |i: int| opt_view(responses@[i].deleted)))
                    as i64,
            ),
    {
        let ghost seen = Seq::new(responses@.len(), |i: int| opt_view(responses@[i].deleted));
        let mut count: i64 = 0;
        let mut i: usize = 0;
        while i < responses.len()
            invariant
                i <= responses@.len() <= i64::MAX,
                seen == Seq::new(responses@.len(), |i: int| opt_view(responses@[i].deleted)),
                count == count_present(seen.subrange(0, i as int)),
                count <= i,
            decreases responses@.len() - i,
        {
            assert(seen.subrange(0, i + 1).drop_last() =~= seen.subrange(0, i as int));
            if responses[i].deleted.is_some() {
                count = count + 1;
            }
            i = i + 1;
        }
        assert(seen.subrange(0, i as int) =~= seen);
        GFrame::Integer(count)
    }
}

pub struct ExistsHandler;

impl ExistsHandler {
    pub fn requests(&self, command: ExistsGCommand) -> (r: Vec<GetRequest>)
        ensures
            r@.len() == command.keys@.len(),
            forall|i: int| 0 <= i < r@.len() ==> (#[trigger] r@[i]).key@ == command.keys@[i]@,
    {
        let mut requests: Vec<GetRequest> = Vec::new();
        let keys = command.keys;
        let mut i: usize = 0;
        while i < keys.len()
            invariant
                i <= keys@.len(),
                keys@ == command.keys@,
                requests@.len() == i,
                forall|j: int| 0 <= j < i ==> (#[trigger] requests@[j]).key@ == keys@[j]@,
            decreases keys@.len() - i,
        {
            requests.push(GetRequest { key: keys[i].clone() });
            i = i + 1;
        }
        requests
    }

    /// The number of keys that were present.
    pub fn reply(&self, responses: &Vec<GetResponse>) -> (r: GFrame)
        requires
            responses@.len() <= i64::MAX,
        ensures
            r@ == FrameView::Integer(
                count_present(Seq::new(responses@.len(), |i: int| opt_view(responses@[i].value)))
                    as i64,
            ),
    {
        let ghost seen = Seq::new(responses@.len(), |i: int| opt_view(responses@[i].value));
        let mut count: i64 = 0;
        let mut i: usize = 0;
        while i < responses.len()
            invariant
                i <= responses@.len() <= i64::MAX,
                seen == Seq::new(responses@.len(), |i: int| opt_view(responses@[i].value)),
                count == count_present(seen.subrange(0, i as int)),
                count <= i,
            decreases responses@.len() - i,
        {
            assert(seen.subrange(0, i + 1).drop_last() =~= seen.subrange(0, i as int));
            if responses[i].value.is_some() {
                count = count + 1;
            }
            i = i + 1;
        }
        assert(seen.subrange(0, i as int) =~= seen);
        GFrame::Integer(count)
    }
}

pub struct IncrHandler;

impl IncrHandler {
    /// The reply to `INCR`: the new integer; an error where the value is no
    /// integer or would overflow.
    pub fn reply(&self, response: UpdateResponse) -> (r: GFrame)
        ensures
            r@ == incr_reply(opt_view(response.original_value), opt_view(response.updated)),
    {
        match response.updated {
            Some(Value { data: Data::Integer(updated) }) => {
                let unchanged = match response.original_value {
                    Some(Value { data: Data::Integer(original) }) => original.get() == updated.get(),
                    _ => false,
                };
                if unchanged {
                    error_frame(
                        &[
                            116u8, 114, 105, 101, 100, 32, 116, 111, 32, 105, 110, 99, 114, 101,
                            109, 101, 110, 116, 32, 119, 105, 116, 104, 32, 111, 118, 101, 114,
                            102, 108, 111, 119,
                        ],
                    )
                } else {
                    GFrame::Integer(updated.get())
                }
            },
            Some(_) => error_frame(
                &[110u8, 111, 116, 32, 97, 110, 32, 105, 110, 116, 101, 103, 101, 114],
            ),
            None => error_frame(
                &[
                    116u8, 114, 105, 101, 100, 32, 116, 111, 32, 105, 110, 99, 114, 101, 109, 101,
                    110, 116, 32, 119, 105, 116, 104, 32, 111, 118, 101, 114, 102, 108, 111, 119,
                ],
            ),
        }
    }
}

/// What a command needs from storage, or the reply where it needs nothing.
pub enum Plan {
    Reply(GFrame),
    Get(GetRequest),
    Write(SetRequest),
    Delete(Vec<DeleteRequest>),
    Exists(Vec<GetRequest>),
    /// Update the key with `increment`.
    Increment(GString),
}

/// `p` is what command `c` asks for.
pub open spec fn planned(p: Plan, c: CommandView) -> bool {
    match c {
        CommandView::Ping(m) => p matches Plan::Reply(f) && f@ == ping_reply(m),
        CommandView::Get(k) => p matches Plan::Get(q) && q.key@ == k,
        CommandView::SetKey(k, v) => p matches Plan::Write(q) && q.key@ == k && q.value@ == classify(v),
        CommandView::Del(ks) => p matches Plan::Delete(qs) && qs@.len() == ks.len() && forall|i: int|
            0 <= i < ks.len() ==> (#[trigger] qs@[i]).key@ == ks[i],
        CommandView::Exists(ks) => p matches Plan::Exists(qs) && qs@.len() == ks.len() && forall|i: int|
            0 <= i < ks.len() ==> (#[trigger] qs@[i]).key@ == ks[i],
        CommandView::Incr(k) => p matches Plan::Increment(key) && key@ == k,
        CommandView::ConfigGet(_) => p matches Plan::Reply(f) && f@ == FrameView::Null,
    }
}

/// A shard's command processor.
pub struct ProcessorActor;

impl ProcessorActor {
    pub fn new() -> (r: ProcessorActor) {
        ProcessorActor
    }

    /// What `command` needs from storage; `PING` and `CONFIG GET` are answered at once.
    pub fn plan(&self, command: GCommand) -> (r: Plan)
        ensures
            planned(r, command@),
    {
        match command {
            GCommand::Ping(c) => Plan::Reply(PingHandler.handle(c)),
            GCommand::Get(c) => Plan::Get(GetHandler.request(c)),
            GCommand::SetKey(c) => Plan::Write(SetHandler.request(c)),
            GCommand::Del(c) => {
                let ghost keys = c.keys@;
                let requests = DelHandler.requests(c);
                assert(forall|i: int| 0 <= i < keys.len() ==> #[trigger] keys_view(keys)[i] == keys[i]@);
                Plan::Delete(requests)
            },
            GCommand::Exists(c) => {
                let ghost keys = c.keys@;
                let requests = ExistsHandler.requests(c);
                assert(forall|i: int| 0 <= i < keys.len() ==> #[trigger] keys_view(keys)[i] == keys[i]@);
                Plan::Exists(requests)
            },
            GCommand::Incr(c) => Plan::Increment(c.key),
            GCommand::ConfigGet(_) => Plan::Reply(GFrame::Null),
        }
    }
}

impl Default for ProcessorActor {
    fn default() -> (r: ProcessorActor) {
        ProcessorActor::new()
    }
}

} // verus!
