use goosekv::command::{Error, GCommand};
use goosekv::data_type::GString;
use goosekv::frame::GFrame;
use goosekv::parser::Parser;
use goosekv::processor::{
    increment, DelHandler, ExistsHandler, GetHandler, IncrHandler, Plan, ProcessorActor, SetHandler,
};
use goosekv::response::{DeleteResponse, GetResponse, SetResponse};
use goosekv::router::StorageRouter;
use goosekv::storage::Storage;

fn reply_to(frame: &GFrame, storage: &mut Storage) -> GFrame {
    let command = match GCommand::from_frame(frame) {
        Ok(command) => command,
        Err(error) => panic!("unexpected decode error {:?}", error),
    };
    match ProcessorActor::new().plan(command) {
        Plan::Reply(frame) => frame,
        Plan::Get(request) => GetHandler.reply(GetResponse { value: storage.get(&request.key) }),
        Plan::Write(request) => {
            SetHandler.reply(SetResponse { original_value: storage.set(request.key, request.value) })
        }
        Plan::Delete(requests) => {
            let responses: Vec<DeleteResponse> =
                requests.iter().map(|r| DeleteResponse { deleted: storage.delete(&r.key) }).collect();
            DelHandler.reply(&responses)
        }
        Plan::Exists(requests) => {
            let responses: Vec<GetResponse> =
                requests.iter().map(|r| GetResponse { value: storage.get(&r.key) }).collect();
            ExistsHandler.reply(&responses)
        }
        Plan::Increment(key) => IncrHandler.reply(storage.update(key, increment)),
    }
}

/// Sends request bytes through the parser, the decoder and the handlers, and
/// returns the reply's wire bytes.
fn exchange(storage: &mut Storage, request: &[u8]) -> Vec<u8> {
    let mut parser = Parser::new();
    parser.extend_from_slice(request);
    let frame = parser.parse().unwrap().unwrap();
    assert!(parser.buf().is_empty());
    reply_to(&frame, storage).bytes().to_vec()
}

#[test]
fn scenario_ping() {
    let mut storage = Storage::new();
    assert_eq!(exchange(&mut storage, b"*1\r\n$4\r\nPING\r\n"), b"+PONG\r\n");
}

#[test]
fn scenario_ping_message() {
    let mut storage = Storage::new();
    assert_eq!(exchange(&mut storage, b"*2\r\n$4\r\nPING\r\n$5\r\nhello\r\n"), b"$5\r\nhello\r\n");
}

#[test]
fn scenario_set_then_get() {
    let mut storage = Storage::new();
    assert_eq!(exchange(&mut storage, b"*3\r\n$3\r\nSET\r\n$1\r\nk\r\n$1\r\nv\r\n"), b"+OK\r\n");
    assert_eq!(exchange(&mut storage, b"*2\r\n$3\r\nGET\r\n$1\r\nk\r\n"), b"$1\r\nv\r\n");
}

#[test]
fn scenario_get_missing() {
    let mut storage = Storage::new();
    assert_eq!(exchange(&mut storage, b"*2\r\n$3\r\nGET\r\n$7\r\nmissing\r\n"), b"_\r\n");
}

#[test]
fn scenario_set_then_incr() {
    let mut storage = Storage::new();
    assert_eq!(exchange(&mut storage, b"*3\r\n$3\r\nSET\r\n$1\r\nn\r\n$2\r\n41\r\n"), b"+OK\r\n");
    assert_eq!(exchange(&mut storage, b"*2\r\n$4\r\nINCR\r\n$1\r\nn\r\n"), b":42\r\n");
}

#[test]
fn scenario_del_counts_removed() {
    let mut storage = Storage::new();
    assert_eq!(exchange(&mut storage, b"*3\r\n$3\r\nSET\r\n$1\r\na\r\n$1\r\n1\r\n"), b"+OK\r\n");
    assert_eq!(exchange(&mut storage, b"*3\r\n$3\r\nDEL\r\n$1\r\na\r\n$1\r\nb\r\n"), b":1\r\n");
    assert_eq!(exchange(&mut storage, b"*2\r\n$3\r\nGET\r\n$1\r\na\r\n"), b"_\r\n");
}

#[test]
fn exists_counts_present() {
    let mut storage = Storage::new();
    exchange(&mut storage, b"*3\r\n$3\r\nSET\r\n$1\r\na\r\n$1\r\nx\r\n");
    exchange(&mut storage, b"*3\r\n$3\r\nSET\r\n$1\r\nb\r\n$1\r\ny\r\n");
    assert_eq!(exchange(&mut storage, b"*4\r\n$6\r\nEXISTS\r\n$1\r\na\r\n$1\r\nb\r\n$1\r\nc\r\n"), b":2\r\n");
}

#[test]
fn incr_absent_sets_one() {
    let mut storage = Storage::new();
    assert_eq!(exchange(&mut storage, b"*2\r\n$4\r\nINCR\r\n$1\r\nz\r\n"), b":1\r\n");
    assert_eq!(exchange(&mut storage, b"*2\r\n$3\r\nGET\r\n$1\r\nz\r\n"), b"$1\r\n1\r\n");
}

#[test]
fn incr_overflow_leaves_value() {
    let mut storage = Storage::new();
    exchange(&mut storage, b"*3\r\n$3\r\nSET\r\n$1\r\nm\r\n$19\r\n9223372036854775807\r\n");
    assert_eq!(
        exchange(&mut storage, b"*2\r\n$4\r\nINCR\r\n$1\r\nm\r\n"),
        b"-tried to increment with overflow\r\n"
    );
    assert_eq!(
        exchange(&mut storage, b"*2\r\n$3\r\nGET\r\n$1\r\nm\r\n"),
        b"$19\r\n9223372036854775807\r\n"
    );
}

#[test]
fn incr_to_max_is_no_overflow() {
    let mut storage = Storage::new();
    exchange(&mut storage, b"*3\r\n$3\r\nSET\r\n$1\r\nm\r\n$19\r\n9223372036854775806\r\n");
    assert_eq!(exchange(&mut storage, b"*2\r\n$4\r\nINCR\r\n$1\r\nm\r\n"), b":9223372036854775807\r\n");
}

#[test]
fn incr_on_text_is_error() {
    let mut storage = Storage::new();
    exchange(&mut storage, b"*3\r\n$3\r\nSET\r\n$1\r\nt\r\n$3\r\nabc\r\n");
    assert_eq!(exchange(&mut storage, b"*2\r\n$4\r\nINCR\r\n$1\r\nt\r\n"), b"-not an integer\r\n");
    assert_eq!(exchange(&mut storage, b"*2\r\n$3\r\nGET\r\n$1\r\nt\r\n"), b"$3\r\nabc\r\n");
}

#[test]
fn config_get_save_is_null() {
    let mut storage = Storage::new();
    assert_eq!(exchange(&mut storage, b"*3\r\n$6\r\nCONFIG\r\n$3\r\nGET\r\n$4\r\nsave\r\n"), b"_\r\n");
}

#[test]
fn set_keeps_integers_in_canonical_form() {
    let mut storage = Storage::new();
    exchange(&mut storage, b"*3\r\n$3\r\nSET\r\n$1\r\nn\r\n$3\r\n+07\r\n");
    assert_eq!(exchange(&mut storage, b"*2\r\n$3\r\nGET\r\n$1\r\nn\r\n"), b"$1\r\n7\r\n");
}

fn request(parts: &[&[u8]]) -> GFrame {
    GFrame::Array(parts.iter().map(|p| GFrame::BulkString(GString::copy_from_slice(p))).collect())
}

fn decode_error(frame: &GFrame) -> Error {
    match GCommand::from_frame(frame) {
        Ok(command) => panic!("decoded {:?}", command),
        Err(error) => error,
    }
}

#[test]
fn decode_errors() {
    assert!(matches!(decode_error(&GFrame::Null), Error::InvalidFrame));
    assert!(matches!(decode_error(&GFrame::Array(vec![])), Error::InvalidFrame));
    assert!(matches!(decode_error(&GFrame::Array(vec![GFrame::Integer(1)])), Error::InvalidFrame));
    assert!(matches!(decode_error(&request(&[b"get", b"k"])), Error::InvalidCommand));
    assert!(matches!(decode_error(&request(&[b"GET"])), Error::NotEnoughArgs));
    assert!(matches!(decode_error(&request(&[b"GET", b"a", b"b"])), Error::TooManyArgs));
    assert!(matches!(decode_error(&request(&[b"SET", b"a"])), Error::NotEnoughArgs));
    assert!(matches!(decode_error(&request(&[b"PING", b"a", b"b"])), Error::TooManyArgs));
    assert!(matches!(decode_error(&request(&[b"DEL"])), Error::NotEnoughArgs));
    assert!(matches!(decode_error(&request(&[b"CONFIG"])), Error::InvalidCommand));
    assert!(matches!(decode_error(&request(&[b"CONFIG", b"SET", b"save"])), Error::InvalidCommand));
    match decode_error(&request(&[b"CONFIG", b"GET", b"dir"])) {
        Error::InvalidArg(message) => assert_eq!(message, "not supported parameter"),
        other => panic!("{:?}", other),
    }
    let bad_key = GFrame::Array(vec![
        GFrame::BulkString(GString::copy_from_slice(b"GET")),
        GFrame::Integer(5),
    ]);
    match decode_error(&bad_key) {
        Error::InvalidArg(message) => assert_eq!(message, "invalid key"),
        other => panic!("{:?}", other),
    }
    let bad_value = GFrame::Array(vec![
        GFrame::BulkString(GString::copy_from_slice(b"SET")),
        GFrame::BulkString(GString::copy_from_slice(b"k")),
        GFrame::Null,
    ]);
    match decode_error(&bad_value) {
        Error::InvalidArg(message) => assert_eq!(message, "invalid value"),
        other => panic!("{:?}", other),
    }
    let bad_ping = GFrame::Array(vec![GFrame::BulkString(GString::copy_from_slice(b"PING")), GFrame::Null]);
    match decode_error(&bad_ping) {
        Error::InvalidArg(message) => assert_eq!(message, "invalid message frame"),
        other => panic!("{:?}", other),
    }
}

#[test]
fn router_is_stable_and_in_range() {
    let router = StorageRouter::new(vec![0u32, 1, 2, 3]);
    for i in 0..200 {
        let key = GString::copy_from_slice(format!("user:{}", i).as_bytes());
        let first = router.route(&key);
        assert!(first < 4);
        assert_eq!(router.route(&key), first);
        assert_eq!(*router.handle_for(&key) as usize, first);
    }
    assert_eq!(router.len(), 4);
}

#[test]
fn routers_of_two_shards_agree() {
    let on_shard_zero = StorageRouter::new(vec!['a', 'b', 'c']);
    let on_shard_two = StorageRouter::new(vec!['a', 'b', 'c']);
    let mut shards = vec![Storage::new(), Storage::new(), Storage::new()];
    let key = GString::copy_from_slice(b"shared");
    let owner = on_shard_zero.route(&key);
    shards[owner].set(key.clone(), goosekv::value::Value { data: goosekv::value::Data::from_gstring(GString::copy_from_slice(b"v")) });
    let reader = on_shard_two.route(&key);
    assert_eq!(reader, owner);
    let found = shards[reader].get(&key).unwrap();
    assert_eq!(&found.data.bytes()[..], b"v");
}

#[test]
fn keys_spread_over_shards() {
    let router = StorageRouter::new(vec![(); 4]);
    let mut counts = [0usize; 4];
    for i in 0..4000 {
        let key = GString::copy_from_slice(format!("user:{}", i).as_bytes());
        counts[router.route(&key)] += 1;
    }
    for c in counts {
        assert!(c > 500, "uneven spread {:?}", counts);
    }
}
