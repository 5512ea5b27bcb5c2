use resp_store::command::{is_named, store_reply, Dispatch};
use resp_store::frame::RespFrame;
use resp_store::store::{KVStore, StoreCommand, StoreResponse};

fn bulk(s: &str) -> RespFrame {
    RespFrame::Bulk(s.to_string())
}

fn command(parts: &[&str]) -> RespFrame {
    RespFrame::Array(parts.iter().map(|p| bulk(p)).collect())
}

fn reply(d: Dispatch) -> RespFrame {
    match d {
        Dispatch::Reply(f) => f,
        Dispatch::Store(c) => panic!("expected a reply, got {:?}", c),
    }
}

fn error(s: &str) -> RespFrame {
    RespFrame::Error(s.to_string())
}

#[test]
fn ping_answers_pong() {
    assert_eq!(reply(command(&["PING"]).interpret()), RespFrame::Simple("PONG".to_string()));
    assert_eq!(reply(command(&["pInG"]).interpret()), RespFrame::Simple("PONG".to_string()));
}

#[test]
fn echo_returns_argument_verbatim() {
    assert_eq!(reply(command(&["ECHO", "hello"]).interpret()), bulk("hello"));
    let f = RespFrame::Array(vec![bulk("echo"), RespFrame::Integer(9)]);
    assert_eq!(reply(f.interpret()), RespFrame::Integer(9));
}

#[test]
fn echo_without_argument_is_error() {
    assert_eq!(reply(command(&["ECHO"]).interpret()), error("Invalid Echo Command"));
}

#[test]
fn get_asks_the_store() {
    match command(&["get", "k"]).interpret() {
        Dispatch::Store(StoreCommand::Get { key }) => assert_eq!(key, "k"),
        other => panic!("unexpected {:?}", other),
    }
}

#[test]
fn get_without_key_is_error() {
    assert_eq!(
        reply(command(&["GET"]).interpret()),
        error("Invalid GET command: must send bulk string after this")
    );
    let f = RespFrame::Array(vec![bulk("GET"), RespFrame::Integer(1)]);
    assert_eq!(reply(f.interpret()), error("Invalid GET command: must send bulk string after this"));
}

#[test]
fn set_asks_the_store() {
    match command(&["SET", "k", "v"]).interpret() {
        Dispatch::Store(StoreCommand::Assign { key, value, expiry }) => {
            assert_eq!(key, "k");
            assert_eq!(value, "v");
            assert_eq!(expiry, None);
        }
        other => panic!("unexpected {:?}", other),
    }
    match command(&["set", "k", "v", "PX", "50"]).interpret() {
        Dispatch::Store(StoreCommand::Assign { expiry, .. }) => assert_eq!(expiry, Some(50)),
        other => panic!("unexpected {:?}", other),
    }
}

#[test]
fn set_with_bad_expiry_names_the_token() {
    assert_eq!(
        reply(command(&["SET", "k", "v", "PX", "notanumber"]).interpret()),
        error("Error parsing PX value: notanumber")
    );
}

#[test]
fn set_malformed_forms() {
    assert_eq!(
        reply(command(&["SET", "k"]).interpret()),
        error("Invalid SET command: must send two bulk strings afterwards")
    );
    assert_eq!(
        reply(command(&["SET"]).interpret()),
        error("Invalid SET command: must send two bulk strings afterwards")
    );
    assert_eq!(
        reply(command(&["SET", "k", "v", "EX", "5"]).interpret()),
        error("Malformed command: Only PX can be optionally sent after SET <key> <value>")
    );
    assert_eq!(
        reply(command(&["SET", "k", "v", "PX"]).interpret()),
        error("must supply expires_in value after PX")
    );
}

#[test]
fn set_with_trailing_elements_is_malformed() {
    let malformed = error("Malformed command: Only PX can be optionally sent after SET <key> <value>");
    assert_eq!(reply(command(&["SET", "k", "v", "PX", "100", "x"]).interpret()), malformed);
    assert_eq!(reply(command(&["SET", "k", "v", "EX", "100"]).interpret()), malformed);
    assert_eq!(reply(command(&["SET", "k", "v", "PX", "bad", "x"]).interpret()), malformed);
}

#[test]
fn unknown_command_is_named() {
    assert_eq!(reply(command(&["FLUSH"]).interpret()), error("UNRECOGNIZED COMMAND: 'FLUSH'"));
}

#[test]
fn non_array_is_refused() {
    assert_eq!(reply(bulk("PING").interpret()), error("Only commands should be sent"));
}

#[test]
fn array_without_verb_gives_empty_array() {
    assert_eq!(reply(RespFrame::Array(vec![]).interpret()), RespFrame::Array(vec![]));
    let f = RespFrame::Array(vec![RespFrame::Integer(1)]);
    assert_eq!(reply(f.interpret()), RespFrame::Array(vec![]));
}

#[test]
fn store_answers_become_frames() {
    assert_eq!(store_reply(StoreResponse::Value("v".to_string())), bulk("v"));
    assert_eq!(store_reply(StoreResponse::Nil), RespFrame::Null);
    assert_eq!(store_reply(StoreResponse::Done), RespFrame::Simple("OK".to_string()));
}

#[test]
fn names_ignore_ascii_case_only() {
    assert!(is_named(&"SeT".to_string(), "set"));
    assert!(!is_named(&"sets".to_string(), "set"));
    assert!(!is_named(&"séT".to_string(), "set"));
}

#[test]
fn bad_expiry_leaves_key_unchanged() {
    let mut s = KVStore::new();
    s.apply(StoreCommand::set_value("k".to_string(), "old".to_string(), None), 0);
    match command(&["SET", "k", "new", "PX", "soon"]).interpret() {
        Dispatch::Reply(f) => assert_eq!(f, error("Error parsing PX value: soon")),
        Dispatch::Store(c) => {
            s.apply(c, 1);
        }
    }
    assert_eq!(
        s.apply(StoreCommand::get_value("k".to_string()), 2),
        StoreResponse::Value("old".to_string())
    );
}
