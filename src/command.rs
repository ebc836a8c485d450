//! Commands, decoded from request frames.
use vstd::prelude::*;

use crate::data_type::{bytes_equal, GString};
use crate::frame::{frame_views, FrameView, GFrame};

verus! {

#[derive(Debug)]
pub enum Error {
    InvalidFrame,
    InvalidArg(String),
    TooManyArgs,
    NotEnoughArgs,
    InvalidCommand,
}

/// What an `Error` says, with its message as characters.
pub enum ErrorView {
    InvalidFrame,
    InvalidArg(Seq<char>),
    TooManyArgs,
    NotEnoughArgs,
    InvalidCommand,
}

impl View for Error {
    type V = ErrorView;

    open spec fn view(&self) -> ErrorView {
        match self {
            Error::InvalidFrame => ErrorView::InvalidFrame,
            Error::InvalidArg(m) => ErrorView::InvalidArg(m@),
            Error::TooManyArgs => ErrorView::TooManyArgs,
            Error::NotEnoughArgs => ErrorView::NotEnoughArgs,
            Error::InvalidCommand => ErrorView::InvalidCommand,
        }
    }
}

#[derive(Debug)]
pub enum GCommand {
    Ping(PingGCommand),
    Get(GetGCommand),
    SetKey(SetGCommand),
    Del(DelGCommand),
    Exists(ExistsGCommand),
    Incr(IncrGCommand),
    ConfigGet(ConfigGetGCommand),
}

#[derive(Debug)]
pub struct PingGCommand {
    pub message: Option<GString>,
}

#[derive(Debug)]
pub struct GetGCommand {
    pub key: GString,
}

#[derive(Debug)]
pub struct SetGCommand {
    pub key: GString,
    pub value: GString,
}

#[derive(Debug)]
pub struct DelGCommand {
    pub keys: Vec<GString>,
}

#[derive(Debug)]
pub struct ExistsGCommand {
    pub keys: Vec<GString>,
}

#[derive(Debug)]
pub struct IncrGCommand {
    pub key: GString,
}

#[derive(Debug)]
pub struct ConfigGetGCommand {
    pub parameter: GString,
}

/// What a command asks for, with its byte strings as sequences.
pub enum CommandView {
    Ping(Option<Seq<u8>>),
    Get(Seq<u8>),
    SetKey(Seq<u8>, Seq<u8>),
    Del(Seq<Seq<u8>>),
    Exists(Seq<Seq<u8>>),
    Incr(Seq<u8>),
    ConfigGet(Seq<u8>),
}

pub open spec fn keys_view(keys: Seq<GString>) -> Seq<Seq<u8>> {
    Seq::new(keys.len(), |i: int| keys[i]@)
}

impl View for GCommand {
    type V = CommandView;

    open spec fn view(&self) -> CommandView {
        match self {
            GCommand::Ping(c) => CommandView::Ping(
                match c.message {
                    Some(m) => Some(m@),
                    None => None,
                },
            ),
            GCommand::Get(c) => CommandView::Get(c.key@),
            GCommand::SetKey(c) => CommandView::SetKey(c.key@, c.value@),
            GCommand::Del(c) => CommandView::Del(keys_view(c.keys@)),
            GCommand::Exists(c) => CommandView::Exists(keys_view(c.keys@)),
            GCommand::Incr(c) => CommandView::Incr(c.key@),
            GCommand::ConfigGet(c) => CommandView::ConfigGet(c.parameter@),
        }
    }
}

pub open spec fn ping_name() -> Seq<u8> {
    seq![80u8, 73, 78, 71]
}

pub open spec fn get_name() -> Seq<u8> {
    seq![71u8, 69, 84]
}

pub open spec fn set_name() -> Seq<u8> {
    seq![83u8, 69, 84]
}

pub open spec fn del_name() -> Seq<u8> {
    seq![68u8, 69, 76]
}

pub open spec fn exists_name() -> Seq<u8> {
    seq![69u8, 88, 73, 83, 84, 83]
}

pub open spec fn incr_name() -> Seq<u8> {
    seq![73u8, 78, 67, 82]
}

pub open spec fn config_name() -> Seq<u8> {
    seq![67u8, 79, 78, 70, 73, 71]
}

/// The one configuration parameter that `CONFIG GET` accepts.
pub open spec fn save_name() -> Seq<u8> {
    seq![115u8, 97, 118, 101]
}

pub open spec fn invalid_arg(message: &str) -> ErrorView {
    ErrorView::InvalidArg(message@)
}

pub open spec fn is_bulk(f: FrameView) -> bool {
    f is BulkString
}

/// The keys of a multi-key command: every argument a bulk string.
pub open spec fn decode_keys(args: Seq<FrameView>) -> Result<Seq<Seq<u8>>, ErrorView> {
    if args.len() == 0 {
        Err(ErrorView::NotEnoughArgs)
    } else if forall|i: int| 0 <= i < args.len() ==> is_bulk(#[trigger] args[i]) {
        Ok(Seq::new(args.len(), |i: int| args[i]->BulkString_0))
    } else {
        Err(invalid_arg("invalid value"))
    }
}

/// A single-key command: exactly one bulk string argument.
pub open spec fn decode_key(args: Seq<FrameView>) -> Result<Seq<u8>, ErrorView> {
    if args.len() == 0 {
        Err(ErrorView::NotEnoughArgs)
    } else if args.len() > 1 {
        Err(ErrorView::TooManyArgs)
    } else {
        match args[0] {
            FrameView::BulkString(k) => Ok(k),
            _ => Err(invalid_arg("invalid key")),
        }
    }
}

/// The command that a request frame spells: an array of bulk strings, the
/// first of which names the command (case matters).
pub open spec fn decode(f: FrameView) -> Result<CommandView, ErrorView> {
    match f {
        FrameView::Array(xs) => if xs.len() == 0 {
            Err(ErrorView::InvalidFrame)
        } else {
            let args = xs.subrange(1, xs.len() as int);
            match xs[0] {
                FrameView::BulkString(name) => if name == ping_name() {
                    if args.len() == 0 {
                        Ok(CommandView::Ping(None))
                    } else if args.len() != 1 {
                        Err(ErrorView::TooManyArgs)
                    } else {
                        match args[0] {
                            FrameView::BulkString(m) => Ok(CommandView::Ping(Some(m))),
                            _ => Err(invalid_arg("invalid message frame")),
                        }
                    }
                } else if name == get_name() {
                    match decode_key(args) {
                        Ok(k) => Ok(CommandView::Get(k)),
                        Err(e) => Err(e),
                    }
                } else if name == set_name() {
                    if args.len() < 2 {
                        Err(ErrorView::NotEnoughArgs)
                    } else if args.len() > 2 {
                        Err(ErrorView::TooManyArgs)
                    } else {
                        match (args[0], args[1]) {
                            (FrameView::BulkString(k), FrameView::BulkString(v)) => Ok(
                                CommandView::SetKey(k, v),
                            ),
                            (FrameView::BulkString(_), _) => Err(invalid_arg("invalid value")),
                            _ => Err(invalid_arg("invalid key")),
                        }
                    }
                } else if name == del_name() {
                    match decode_keys(args) {
                        Ok(ks) => Ok(CommandView::Del(ks)),
                        Err(e) => Err(e),
                    }
                } else if name == exists_name() {
                    match decode_keys(args) {
                        Ok(ks) => Ok(CommandView::Exists(ks)),
                        Err(e) => Err(e),
                    }
                } else if name == incr_name() {
                    match decode_key(args) {
                        Ok(k) => Ok(CommandView::Incr(k)),
                        Err(e) => Err(e),
                    }
                } else if name == config_name() {
                    if xs.len() >= 2 {
                        match xs[1] {
                            FrameView::BulkString(sub) => if sub == get_name() {
                                match decode_key(xs.subrange(2, xs.len() as int)) {
                                    Ok(p) => if p == save_name() {
                                        Ok(CommandView::ConfigGet(p))
                                    } else {
                                        Err(invalid_arg("not supported parameter"))
                                    },
                                    Err(e) => Err(e),
                                }
                            } else {
                                Err(ErrorView::InvalidCommand)
                            },
                            _ => Err(ErrorView::InvalidFrame),
                        }
                    } else {
                        Err(ErrorView::InvalidCommand)
                    }
                } else {
                    Err(ErrorView::InvalidCommand)
                },
                _ => Err(ErrorView::InvalidFrame),
            }
        },
        _ => Err(ErrorView::InvalidFrame),
    }
}

/// `r` is what `decode` says.
pub open spec fn decoded_as(r: Result<GCommand, Error>, spec: Result<CommandView, ErrorView>) -> bool {
    match r {
        Ok(c) => spec == Ok::<CommandView, ErrorView>(c@),
        Err(e) => spec == Err::<CommandView, ErrorView>(e@),
    }
}

fn arg_error(message: &str) -> (r: Error)
    ensures
        r@ == invalid_arg(message),
{
    Error::InvalidArg(message.to_string())
}

/// The single key of `frames`, which must be one bulk string.
fn parse_key(frames: &[GFrame]) -> (r: Result<GString, Error>)
    ensures
        match decode_key(frame_views(frames@)) {
            Ok(k) => r matches Ok(g) && g@ == k,
            Err(e) => r matches Err(x) && x@ == e,
        },
{
    if frames.len() == 0 {
        return Err(Error::NotEnoughArgs);
    }
    if frames.len() > 1 {
        return Err(Error::TooManyArgs);
    }
    match frames[0].as_bulk_string() {
        Ok(key) => Ok(key),
        Err(_) => Err(arg_error("invalid key")),
    }
}

/// The keys of `frames`, all of which must be bulk strings.
fn parse_keys(frames: &[GFrame]) -> (r: Result<Vec<GString>, Error>)
    ensures
        match decode_keys(frame_views(frames@)) {
            Ok(ks) => r matches Ok(g) && keys_view(g@) == ks,
            Err(e) => r matches Err(x) && x@ == e,
        },
{
    let ghost args = frame_views(frames@);
    if frames.len() == 0 {
        return Err(Error::NotEnoughArgs);
    }
    let mut keys: Vec<GString> = Vec::new();
    let mut i: usize = 0;
    while i < frames.len()
        invariant
            args == frame_views(frames@),
            i <= frames@.len(),
            keys@.len() == i,
            forall|j: int| 0 <= j < i ==> is_bulk(#[trigger] args[j]),
            forall|j: int| 0 <= j < i ==> #[trigger] keys@[j]@ == args[j]->BulkString_0,
        decreases frames@.len() - i,
    {
        match frames[i].as_bulk_string() {
            Ok(key) => {
                keys.push(key);
            },
            Err(_) => {
                assert(!is_bulk(args[i as int]));
                return Err(arg_error("invalid value"));
            },
        }
        i = i + 1;
    }
    assert(keys_view(keys@) =~= Seq::new(args.len(), |j: int| args[j]->BulkString_0));
    Ok(keys)
}

/// Whether `s` holds exactly the bytes `name`.
fn is_name(s: &GString, name: &[u8]) -> (r: bool)
    ensures
        r == (s@ == name@),
{
    bytes_equal(s.as_slice(), name)
}

impl GCommand {
    /// Decodes a request: an array whose first element, a bulk string, names the command.
    pub fn from_frame(frame: &GFrame) -> (r: Result<GCommand, Error>)
        ensures
            decoded_as(r, decode(frame@)),
    {
        let frames = match frame.as_array() {
            Ok(frames) => frames,
            Err(_) => return Err(Error::InvalidFrame),
        };
        let ghost xs = frame_views(frames@);
        if frames.len() == 0 {
            return Err(Error::InvalidFrame);
        }
        let name = match frames[0].as_bulk_string() {
            Ok(name) => name,
            Err(_) => return Err(Error::InvalidFrame),
        };
        let args = frames.as_slice().split_at(1).1;
        assert(frame_views(args@) =~= xs.subrange(1, xs.len() as int));
        if is_name(&name, &[80u8, 73, 78, 71]) {
            assert(name@ == ping_name());
            Self::parse_ping(args)
        } else if is_name(&name, &[71u8, 69, 84]) {
            assert(name@ == get_name());
            match parse_key(args) {
                Ok(key) => Ok(GCommand::Get(GetGCommand { key })),
                Err(e) => Err(e),
            }
        } else if is_name(&name, &[83u8, 69, 84]) {
            assert(name@ == set_name());
            Self::parse_set(args)
        } else if is_name(&name, &[68u8, 69, 76]) {
            assert(name@ == del_name());
            match parse_keys(args) {
                Ok(keys) => Ok(GCommand::Del(DelGCommand { keys })),
                Err(e) => Err(e),
            }
        } else if is_name(&name, &[69u8, 88, 73, 83, 84, 83]) {
            assert(name@ == exists_name());
            match parse_keys(args) {
                Ok(keys) => Ok(GCommand::Exists(ExistsGCommand { keys })),
                Err(e) => Err(e),
            }
        } else if is_name(&name, &[73u8, 78, 67, 82]) {
            assert(name@ == incr_name());
            match parse_key(args) {
                Ok(key) => Ok(GCommand::Incr(IncrGCommand { key })),
                Err(e) => Err(e),
            }
        } else if is_name(&name, &[67u8, 79, 78, 70, 73, 71]) {
            assert(name@ == config_name());
            if frames.len() >= 2 {
                let sub = match frames[1].as_bulk_string() {
                    Ok(sub) => sub,
                    Err(_) => return Err(Error::InvalidFrame),
                };
                if is_name(&sub, &[71u8, 69, 84]) {
                    assert(sub@ == get_name());
                    let rest = frames.as_slice().split_at(2).1;
                    assert(frame_views(rest@) =~= xs.subrange(2, xs.len() as int));
                    Self::parse_config_get(rest)
                } else {
                    Err(Error::InvalidCommand)
                }
            } else {
                Err(Error::InvalidCommand)
            }
        } else {
            proof {
                assert(name@ != ping_name());
                assert(name@ != get_name());
                assert(name@ != set_name());
                assert(name@ != del_name());
                assert(name@ != exists_name());
                assert(name@ != incr_name());
                assert(name@ != config_name());
            }
            Err(Error::InvalidCommand)
        }
    }

    fn parse_ping(frames: &[GFrame]) -> (r: Result<GCommand, Error>)
        ensures
            ({
                let args = frame_views(frames@);
                decoded_as(
                    r,
                    if args.len() == 0 {
                        Ok(CommandView::Ping(None))
                    } else if args.len() != 1 {
                        Err(ErrorView::TooManyArgs)
                    } else {
                        match args[0] {
                            FrameView::BulkString(m) => Ok(CommandView::Ping(Some(m))),
                            _ => Err(invalid_arg("invalid message frame")),
                        }
                    },
                )
            }),
    {
        if frames.len() == 0 {
            return Ok(GCommand::Ping(PingGCommand { message: None }));
        }
        if frames.len() != 1 {
            return Err(Error::TooManyArgs);
        }
        match frames[0].as_bulk_string() {
            Ok(value) => Ok(GCommand::Ping(PingGCommand { message: Some(value) })),
            Err(_) => Err(arg_error("invalid message frame")),
        }
    }

    fn parse_set(frames: &[GFrame]) -> (r: Result<GCommand, Error>)
        ensures
            ({
                let args = frame_views(frames@);
                decoded_as(
                    r,
                    if args.len() < 2 {
                        Err(ErrorView::NotEnoughArgs)
                    } else if args.len() > 2 {
                        Err(ErrorView::TooManyArgs)
                    } else {
                        match (args[0], args[1]) {
                            (FrameView::BulkString(k), FrameView::BulkString(v)) => Ok(
                                CommandView::SetKey(k, v),
                            ),
                            (FrameView::BulkString(_), _) => Err(invalid_arg("invalid value")),
                            _ => Err(invalid_arg("invalid key")),
                        }
                    },
                )
            }),
    {
        if frames.len() < 2 {
            return Err(Error::NotEnoughArgs);
        }
        if frames.len() > 2 {
            return Err(Error::TooManyArgs);
        }
        let key = match frames[0].as_bulk_string() {
            Ok(key) => key,
            Err(_) => return Err(arg_error("invalid key")),
        };
        let value = match frames[1].as_bulk_string() {
            Ok(value) => value,
            Err(_) => return Err(arg_error("invalid value")),
        };
        Ok(GCommand::SetKey(SetGCommand { key, value }))
    }

    fn parse_config_get(frames: &[GFrame]) -> (r: Result<GCommand, Error>)
        ensures
            decoded_as(
                r,
                match decode_key(frame_views(frames@)) {
                    Ok(p) => if p == save_name() {
                        Ok(CommandView::ConfigGet(p))
                    } else {
                        Err(invalid_arg("not supported parameter"))
                    },
                    Err(e) => Err(e),
                },
            ),
    {
        let parameter = match parse_key(frames) {
            Ok(parameter) => parameter,
            Err(e) => return Err(e),
        };
        if is_name(&parameter, &[115u8, 97, 118, 101]) {
            Ok(GCommand::ConfigGet(ConfigGetGCommand { parameter }))
        } else {
            Err(arg_error("not supported parameter"))
        }
    }
}

} // verus!
