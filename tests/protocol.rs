use kvserve::codec::{decode, encode_array, parse_decimal, DecodeResult, Reply};
use kvserve::replication::{Action, Handshake, Stage};
use kvserve::server::Server;
use kvserve::session::{Session, Step};
use kvserve::store::Database;

fn frame(parts: &[&str]) -> Vec<u8> {
    let items: Vec<Vec<u8>> = parts.iter().map(|p| p.as_bytes().to_vec()).collect();
    encode_array(&items)
}

fn run(server: &mut Server, parts: &[&str], now: u64) -> Vec<u8> {
    let mut session = Session::new();
    session.feed(&frame(parts));
    match session.next_reply(server, now) {
        Step::Send(out) => out,
        Step::Wait => panic!("no reply"),
    }
}

#[test]
fn ping_replies_pong() {
    let mut server = Server::new();
    assert_eq!(run(&mut server, &["PING"], 0), b"+PONG\r\n".to_vec());
    run(&mut server, &["SET", "a", "b"], 0);
    assert_eq!(run(&mut server, &["ping"], 5), b"+PONG\r\n".to_vec());
}

#[test]
fn ping_with_argument_is_arity_error() {
    let mut server = Server::new();
    assert_eq!(run(&mut server, &["PING", "x"], 0), b"-ERR wrong number of arguments\r\n".to_vec());
}

#[test]
fn echo_hello() {
    let mut server = Server::new();
    assert_eq!(run(&mut server, &["ECHO", "hello"], 0), b"$5\r\nhello\r\n".to_vec());
}

#[test]
fn set_then_get_returns_value() {
    let mut server = Server::new();
    assert_eq!(run(&mut server, &["SET", "Key", "Value"], 10), b"+OK\r\n".to_vec());
    assert_eq!(run(&mut server, &["GET", "Key"], 1_000_000), b"$5\r\nValue\r\n".to_vec());
    assert_eq!(run(&mut server, &["GET", "key"], 10), b"$-1\r\n".to_vec());
}

#[test]
fn set_with_px_expires() {
    let mut server = Server::new();
    assert_eq!(run(&mut server, &["set", "k", "v", "px", "100"], 1000), b"+OK\r\n".to_vec());
    assert_eq!(run(&mut server, &["get", "k"], 1099), b"$1\r\nv\r\n".to_vec());
    assert_eq!(run(&mut server, &["get", "k"], 1100), b"$1\r\nv\r\n".to_vec());
    assert_eq!(run(&mut server, &["get", "k"], 1101), b"$-1\r\n".to_vec());
}

#[test]
fn set_overwrites_expiry() {
    let mut server = Server::new();
    run(&mut server, &["set", "k", "v1", "px", "5"], 0);
    run(&mut server, &["set", "k", "v2"], 1);
    assert_eq!(run(&mut server, &["get", "k"], 100), b"$2\r\nv2\r\n".to_vec());
}

#[test]
fn set_px_errors() {
    let mut server = Server::new();
    assert_eq!(
        run(&mut server, &["set", "k", "v", "px", "soon"], 0),
        b"-ERR value is not an integer or out of range\r\n".to_vec()
    );
    assert_eq!(run(&mut server, &["set", "k", "v", "ex", "5"], 0), b"-ERR syntax error\r\n".to_vec());
    assert_eq!(run(&mut server, &["set", "k", "v", "PX", "5"], 0), b"-ERR syntax error\r\n".to_vec());
    assert_eq!(run(&mut server, &["set", "k"], 0), b"-ERR wrong number of arguments\r\n".to_vec());
    assert_eq!(run(&mut server, &["set", "k", "v", "px"], 0), b"-ERR wrong number of arguments\r\n".to_vec());
    assert_eq!(run(&mut server, &["get", "k"], 0), b"$-1\r\n".to_vec());
}

#[test]
fn get_unwritten_key_is_null() {
    let mut server = Server::new();
    assert_eq!(run(&mut server, &["GET", "nothing"], 0), b"$-1\r\n".to_vec());
}

#[test]
fn last_set_wins_on_one_key() {
    let mut server = Server::new();
    run(&mut server, &["SET", "k", "first"], 0);
    run(&mut server, &["SET", "k", "second"], 0);
    assert_eq!(run(&mut server, &["GET", "k"], 0), b"$6\r\nsecond\r\n".to_vec());
}

#[test]
fn info_replication_roles() {
    let mut leader = Server::new();
    let out = run(&mut leader, &["INFO", "replication"], 0);
    let text = String::from_utf8(out).unwrap();
    assert!(text.contains("role:master"));
    assert!(text.contains("master_repl_offset:0\r\n"));
    let mut replica = leader.as_replica_of("127.0.0.1".to_string(), "6380".to_string());
    let text = String::from_utf8(run(&mut replica, &["INFO", "replication"], 0)).unwrap();
    assert!(text.contains("role:slave"));
    assert_eq!(run(&mut replica, &["info", "memory"], 0), b"-ERR syntax error\r\n".to_vec());
    assert_eq!(run(&mut replica, &["info", "REPLICATION"], 0), b"-ERR syntax error\r\n".to_vec());
}

#[test]
fn unknown_command_is_error() {
    let mut server = Server::new();
    assert_eq!(run(&mut server, &["FLUSHALL"], 0), b"-ERR unknown command\r\n".to_vec());
}

#[test]
fn replconf_and_psync() {
    let mut server = Server::new();
    assert_eq!(run(&mut server, &["REPLCONF", "capa", "psync2"], 0), b"+OK\r\n".to_vec());
    assert_eq!(
        run(&mut server, &["PSYNC", "?", "-1"], 0),
        b"+FULLRESYNC 8371b4fb1155b71f4a04d3e1bc3e18c4a990aeeb 0\r\n".to_vec()
    );
}

#[test]
fn malformed_frame_then_valid_frame() {
    let mut server = Server::new();
    let mut session = Session::new();
    session.feed(b"*3\r\n$3\r\nSET\r\n$1\r\nk\r\n");
    match session.next_reply(&mut server, 0) {
        Step::Send(out) => assert_eq!(out, b"-ERR Protocol error\r\n".to_vec()),
        Step::Wait => panic!("expected an error"),
    }
    session.feed(&frame(&["PING"]));
    match session.next_reply(&mut server, 0) {
        Step::Send(out) => assert_eq!(out, b"+PONG\r\n".to_vec()),
        Step::Wait => panic!("expected a reply"),
    }
}

#[test]
fn frames_split_across_reads() {
    let mut server = Server::new();
    let mut session = Session::new();
    let bytes = frame(&["ECHO", "hello"]);
    session.feed(&bytes[..9]);
    assert!(matches!(session.next_reply(&mut server, 0), Step::Wait));
    session.feed(&bytes[9..]);
    session.feed(&frame(&["PING"]));
    match session.next_reply(&mut server, 0) {
        Step::Send(out) => assert_eq!(out, b"$5\r\nhello\r\n".to_vec()),
        Step::Wait => panic!("expected a reply"),
    }
    match session.next_reply(&mut server, 0) {
        Step::Send(out) => assert_eq!(out, b"+PONG\r\n".to_vec()),
        Step::Wait => panic!("expected a reply"),
    }
    assert!(matches!(session.next_reply(&mut server, 0), Step::Wait));
}

#[test]
fn decode_outcomes() {
    match decode(b"*2\r\n$4\r\nECHO\r\n$2\r\nhi\r\nrest") {
        DecodeResult::Frame(f, n) => {
            assert_eq!(f, vec![b"ECHO".to_vec(), b"hi".to_vec()]);
            assert_eq!(n, 22);
        }
        _ => panic!("expected a frame"),
    }
    assert!(matches!(decode(b""), DecodeResult::Incomplete));
    assert!(matches!(decode(b"*1\r"), DecodeResult::Incomplete));
    assert!(matches!(decode(b"*1\r\n$4\r\nPI"), DecodeResult::Incomplete));
    assert!(matches!(decode(b"+PING\r\n"), DecodeResult::Malformed));
    assert!(matches!(decode(b"*0\r\n"), DecodeResult::Malformed));
    assert!(matches!(decode(b"*x\r\n"), DecodeResult::Malformed));
    assert!(matches!(decode(b"*1\r\n$-1\r\n"), DecodeResult::Malformed));
    assert!(matches!(decode(b"*1\r\n$2\r\nabcd\r\n"), DecodeResult::Malformed));
    assert!(matches!(decode(b"*1\r\n:4\r\n"), DecodeResult::Malformed));
}

#[test]
fn reply_wire_forms() {
    assert_eq!(Reply::Simple(b"OK".to_vec()).encode(), b"+OK\r\n".to_vec());
    assert_eq!(Reply::Bulk(b"hello".to_vec()).encode(), b"$5\r\nhello\r\n".to_vec());
    assert_eq!(Reply::Bulk(Vec::new()).encode(), b"$0\r\n\r\n".to_vec());
    assert_eq!(Reply::NullBulk.encode(), b"$-1\r\n".to_vec());
    assert_eq!(Reply::Error(b"ERR x".to_vec()).encode(), b"-ERR x\r\n".to_vec());
    let long = vec![b'a'; 123];
    let mut expected = b"$123\r\n".to_vec();
    expected.extend_from_slice(&long);
    expected.extend_from_slice(b"\r\n");
    assert_eq!(Reply::Bulk(long).encode(), expected);
}

#[test]
fn decimal_parsing() {
    assert_eq!(parse_decimal(b"12345", 0, 5, u64::MAX), Some(12345));
    assert_eq!(parse_decimal(b"18446744073709551615", 0, 20, u64::MAX), Some(u64::MAX));
    assert_eq!(parse_decimal(b"18446744073709551616", 0, 20, u64::MAX), None);
    assert_eq!(parse_decimal(b"12a", 0, 3, u64::MAX), None);
    assert_eq!(parse_decimal(b"", 0, 0, u64::MAX), None);
    assert_eq!(parse_decimal(b"100", 0, 3, 99), None);
}

#[test]
fn store_set_and_get() {
    let mut db = Database::new();
    assert_eq!(db.set(b"k", b"v", None, 0), None);
    assert_eq!(db.get(b"k", 5), Some(b"v".to_vec()));
    assert_eq!(db.set(b"k", b"w", Some(10), 100), Some((b"v".to_vec(), None)));
    assert_eq!(db.get(b"k", 110), Some(b"w".to_vec()));
    assert_eq!(db.get(b"k", 111), None);
    assert_eq!(db.get(b"other", 0), None);
    db.set(b"far", b"x", Some(u64::MAX), u64::MAX - 1);
    assert_eq!(db.get(b"far", u64::MAX), Some(b"x".to_vec()));
}

#[test]
fn replica_handshake_against_leader() {
    let mut leader = Server::new();
    let mut link = Session::new();
    let mut handshake = Handshake::new(6381);
    let mut request = handshake.start();
    let mut sent: Vec<Vec<u8>> = Vec::new();
    loop {
        sent.push(request.clone());
        link.feed(&request);
        let reply = match link.next_reply(&mut leader, 0) {
            Step::Send(out) => out,
            Step::Wait => panic!("leader did not answer"),
        };
        match handshake.on_reply(&reply) {
            Action::Send(next) => request = next,
            Action::Done => break,
            Action::NeedMore => panic!("reply was whole"),
            Action::Fault => panic!("handshake failed"),
        }
    }
    assert!(matches!(handshake.stage, Stage::Synced));
    assert_eq!(sent[0], b"*1\r\n$4\r\nping\r\n".to_vec());
    assert_eq!(sent[1], b"*3\r\n$8\r\nREPLCONF\r\n$14\r\nlistening-port\r\n$4\r\n6381\r\n".to_vec());
    assert_eq!(sent[2], b"*3\r\n$8\r\nREPLCONF\r\n$4\r\ncapa\r\n$6\r\npsync2\r\n".to_vec());
    assert_eq!(sent[3], b"*3\r\n$5\r\nPSYNC\r\n$1\r\n?\r\n$2\r\n-1\r\n".to_vec());
    assert_eq!(sent.len(), 4);
}

#[test]
fn handshake_waits_and_fails() {
    let mut handshake = Handshake::new(6380);
    handshake.start();
    assert!(matches!(handshake.on_reply(b"+PON"), Action::NeedMore));
    assert!(matches!(handshake.stage, Stage::SentPing));
    assert!(matches!(handshake.on_reply(b"-ERR nope\r\n"), Action::Fault));
    assert!(matches!(handshake.stage, Stage::Failed));
}

#[test]
fn encode_then_decode_array() {
    let items = vec![b"SET".to_vec(), b"key".to_vec(), Vec::new(), vec![b'\r'; 12]];
    let mut bytes = encode_array(&items);
    let len = bytes.len();
    bytes.extend_from_slice(b"*1\r\n");
    match decode(&bytes) {
        DecodeResult::Frame(f, n) => {
            assert_eq!(f, items);
            assert_eq!(n, len);
        }
        _ => panic!("expected a frame"),
    }
}

#[test]
fn two_sessions_set_one_key() {
    let mut server = Server::new();
    let mut a = Session::new();
    let mut b = Session::new();
    a.feed(&frame(&["SET", "k", "from-a"]));
    b.feed(&frame(&["SET", "k", "from-b"]));
    assert!(matches!(b.next_reply(&mut server, 0), Step::Send(_)));
    assert!(matches!(a.next_reply(&mut server, 1), Step::Send(_)));
    assert_eq!(run(&mut server, &["GET", "k"], 2), b"$6\r\nfrom-a\r\n".to_vec());
}

fn handshake_at_psync() -> Handshake {
    let mut handshake = Handshake::new(6380);
    handshake.start();
    assert!(matches!(handshake.on_reply(b"+PONG\r\n"), Action::Send(_)));
    assert!(matches!(handshake.on_reply(b"+OK\r\n"), Action::Send(_)));
    assert!(matches!(handshake.on_reply(b"+OK\r\n"), Action::Send(_)));
    assert!(matches!(handshake.stage, Stage::SentPsync));
    handshake
}

#[test]
fn psync_reply_needs_id_and_offset() {
    let mut h = handshake_at_psync();
    assert!(matches!(h.on_reply(b"+FULLRESYNC abc123 0\r\n$0\r\n"), Action::Done));
    assert!(matches!(h.stage, Stage::Synced));
    for bad in [
        &b"+FULLRESYNC x\r\n"[..],
        b"+FULLRESYNC  0\r\n",
        b"+FULLRESYNC abc \r\n",
        b"+FULLRESYNC abc 0x\r\n",
        b"+FULLRESYNC\r\n",
        b"+CONTINUE\r\n",
    ] {
        let mut h = handshake_at_psync();
        assert!(matches!(h.on_reply(bad), Action::Fault));
        assert!(matches!(h.stage, Stage::Failed));
    }
}
