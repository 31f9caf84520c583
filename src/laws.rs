use vstd::prelude::*;
use vstd::string::StringSliceAdditionalSpecFns;

use crate::codec::{
    array_wire, bulk_wire, crlf, decimal, decode_encoded_array, decode_spec, is_digit, is_number,
    lemma_byte_index_at, lemma_line_end_at, line_end, Decoded,
};
use crate::replication::{
    advance, capabilities_frame, capabilities_request, listening_port_frame,
    listening_port_request, ping_frame, psync_frame, psync_request, reply_accepted, ActionModel,
    Stage,
};
use crate::server::{
    command_kind, fullresync_text, info_text, lower, model_wire, response, role_label, set_args,
    store_after, CommandKind, ReplyModel, SetArgs,
};

verus! {

/// A `set` without expiry followed by a `get` of the same key, at any later
/// time, answers the value that was set.
pub proof fn set_then_get(
    s: Seq<Seq<u8>>,
    g: Seq<Seq<u8>>,
    db: Map<Seq<u8>, (Seq<u8>, Option<u64>)>,
    replica: bool,
    replid: Seq<u8>,
    now: u64,
    later: u64,
)
    requires
        command_kind(s) is SetValue,
        s.len() == 3,
        command_kind(g) is GetValue,
        g.len() == 2,
        g[1] == s[1],
    ensures
        response(g, store_after(s, db, now), replica, replid, later) == ReplyModel::Bulk(s[2]),
{
    assert(store_after(s, db, now).contains_key(s[1]));
}

/// A `set` with `px d` is read back until `d` milliseconds have passed and is
/// absent once more than `d` milliseconds have passed.
pub proof fn set_with_expiry_then_get(
    s: Seq<Seq<u8>>,
    g: Seq<Seq<u8>>,
    db: Map<Seq<u8>, (Seq<u8>, Option<u64>)>,
    replica: bool,
    replid: Seq<u8>,
    now: u64,
    later: u64,
)
    requires
        command_kind(s) is SetValue,
        set_args(s) matches SetArgs::Ttl(d) && d > 0,
        command_kind(g) is GetValue,
        g.len() == 2,
        g[1] == s[1],
    ensures
        set_args(s) matches SetArgs::Ttl(d) && (later < now + d ==> response(
            g,
            store_after(s, db, now),
            replica,
            replid,
            later,
        ) == ReplyModel::Bulk(s[2])),
        set_args(s) matches SetArgs::Ttl(d) && (later > now + d ==> response(
            g,
            store_after(s, db, now),
            replica,
            replid,
            later,
        ) == ReplyModel::NullBulk),
{
    assert(store_after(s, db, now).contains_key(s[1]));
}

/// A `get` of a key that was never written answers the null bulk string.
pub proof fn get_unwritten(
    g: Seq<Seq<u8>>,
    db: Map<Seq<u8>, (Seq<u8>, Option<u64>)>,
    replica: bool,
    replid: Seq<u8>,
    now: u64,
)
    requires
        command_kind(g) is GetValue,
        g.len() == 2,
        !db.contains_key(g[1]),
    ensures
        response(g, db, replica, replid, now) == ReplyModel::NullBulk,
{
}

/// `ping` without arguments answers `PONG` whatever the store holds, and
/// leaves the store as it was.
pub proof fn ping_pong(
    f: Seq<Seq<u8>>,
    db: Map<Seq<u8>, (Seq<u8>, Option<u64>)>,
    replica: bool,
    replid: Seq<u8>,
    now: u64,
)
    requires
        command_kind(f) is Ping,
        f.len() == 1,
    ensures
        response(f, db, replica, replid, now) == ReplyModel::Simple("PONG".spec_bytes()),
        store_after(f, db, now) == db,
{
}

/// Two writes of one key, applied one after the other, leave exactly the
/// value of the last one.
pub proof fn last_set_wins(
    s1: Seq<Seq<u8>>,
    s2: Seq<Seq<u8>>,
    db: Map<Seq<u8>, (Seq<u8>, Option<u64>)>,
    t1: u64,
    t2: u64,
)
    requires
        command_kind(s1) is SetValue,
        command_kind(s2) is SetValue,
        set_args(s1) is Plain || set_args(s1) is Ttl,
        set_args(s2) is Plain || set_args(s2) is Ttl,
        s1[1] == s2[1],
    ensures
        store_after(s2, store_after(s1, db, t1), t2).contains_key(s2[1]),
        store_after(s2, store_after(s1, db, t1), t2)[s2[1]].0 == s2[2],
{
}

/// `info replication` names the role of the server: `role:master` for a
/// leader, `role:slave` for a replica, at the start of its payload.
pub proof fn info_names_role(
    f: Seq<Seq<u8>>,
    db: Map<Seq<u8>, (Seq<u8>, Option<u64>)>,
    replica: bool,
    replid: Seq<u8>,
    now: u64,
)
    requires
        command_kind(f) is Info,
        f.len() == 2,
        f[1] == "replication".spec_bytes(),
    ensures
        response(f, db, replica, replid, now) matches ReplyModel::Bulk(t) && t.len() >= role_label(
            replica,
        ).len() && t.subrange(0, role_label(replica).len() as int) == role_label(replica),
        !replica ==> role_label(replica) == "role:master".spec_bytes(),
        replica ==> role_label(replica) == "role:slave".spec_bytes(),
{
    let t = crate::server::info_text(replica, replid);
    assert(t.subrange(0, role_label(replica).len() as int) =~= role_label(replica));
}

/// After a malformed frame the session drops what it held, so the bytes that
/// come next decode exactly as on a fresh connection.
pub proof fn usable_after_malformed(next: Seq<u8>)
    ensures
        decode_spec(Seq::<u8>::empty() + next) == decode_spec(next),
{
    assert(Seq::<u8>::empty() + next =~= next);
}

/// Accepted replies move a replica through the handshake in its fixed order:
/// `ping`, `REPLCONF listening-port`, `REPLCONF capa`, `PSYNC`, then done.
pub proof fn handshake_order(port: u16)
    ensures
        advance(Stage::SentPing, port) == (Stage::SentListeningPort, ActionModel::Send(listening_port_request(port))),
        advance(Stage::SentListeningPort, port) == (Stage::SentCapabilities, ActionModel::Send(capabilities_request())),
        advance(Stage::SentCapabilities, port) == (Stage::SentPsync, ActionModel::Send(psync_request())),
        advance(Stage::SentPsync, port) == (Stage::Synced, ActionModel::Done),
{
}

/// Two `set` requests on one key, each taken whole from a connection's
/// buffer and applied by its session step one after the other, in either
/// order, leave exactly the value of the one applied last.
pub proof fn concurrent_sets_keep_one(
    p1: Seq<u8>,
    p2: Seq<u8>,
    db: Map<Seq<u8>, (Seq<u8>, Option<u64>)>,
    t1: u64,
    t2: u64,
)
    requires
        decode_spec(p1) matches Decoded::Frame(f1, _) && command_kind(f1) is SetValue && (set_args(
            f1,
        ) is Plain || set_args(f1) is Ttl),
        decode_spec(p2) matches Decoded::Frame(f2, _) && command_kind(f2) is SetValue && (set_args(
            f2,
        ) is Plain || set_args(f2) is Ttl),
        decode_spec(p1) matches Decoded::Frame(f1, _) && decode_spec(p2) matches Decoded::Frame(f2, _)
            && f1[1] == f2[1],
    ensures
        decode_spec(p1) matches Decoded::Frame(f1, _) && decode_spec(p2) matches Decoded::Frame(f2, _)
            && ({
            let first_then_second = store_after(f2, store_after(f1, db, t1), t2);
            let second_then_first = store_after(f1, store_after(f2, db, t2), t1);
            &&& first_then_second.contains_key(f1[1])
            &&& first_then_second[f1[1]].0 == f2[2]
            &&& second_then_first.contains_key(f1[1])
            &&& second_then_first[f1[1]].0 == f1[2]
        }),
{
}

proof fn lemma_literals()
    ensures
        "ping".spec_bytes() == seq![112u8, 105u8, 110u8, 103u8],
        "echo".spec_bytes() == seq![101u8, 99u8, 104u8, 111u8],
        "set".spec_bytes() == seq![115u8, 101u8, 116u8],
        "get".spec_bytes() == seq![103u8, 101u8, 116u8],
        "info".spec_bytes() == seq![105u8, 110u8, 102u8, 111u8],
        "replconf".spec_bytes() == seq![114u8, 101u8, 112u8, 108u8, 99u8, 111u8, 110u8, 102u8],
        "REPLCONF".spec_bytes() == seq![82u8, 69u8, 80u8, 76u8, 67u8, 79u8, 78u8, 70u8],
        "psync".spec_bytes() == seq![112u8, 115u8, 121u8, 110u8, 99u8],
        "PSYNC".spec_bytes() == seq![80u8, 83u8, 89u8, 78u8, 67u8],
        "PONG".spec_bytes() == seq![80u8, 79u8, 78u8, 71u8],
        "+PONG".spec_bytes() == seq![43u8, 80u8, 79u8, 78u8, 71u8],
        "OK".spec_bytes() == seq![79u8, 75u8],
        "+OK".spec_bytes() == seq![43u8, 79u8, 75u8],
        "FULLRESYNC ".spec_bytes() == seq![70u8, 85u8, 76u8, 76u8, 82u8, 69u8, 83u8, 89u8, 78u8, 67u8, 32u8],
        "+FULLRESYNC ".spec_bytes() == seq![43u8, 70u8, 85u8, 76u8, 76u8, 82u8, 69u8, 83u8, 89u8, 78u8, 67u8, 32u8],
        " 0".spec_bytes() == seq![32u8, 48u8],
        "listening-port".spec_bytes().len() == 14,
        "capa".spec_bytes().len() == 4,
        "psync2".spec_bytes().len() == 6,
        "?".spec_bytes().len() == 1,
        "-1".spec_bytes().len() == 2,
{
    broadcast use vstd::string::is_ascii_spec_bytes;

    reveal_strlit("ping");
    assert(vstd::string::is_ascii("ping"));
    reveal_strlit("echo");
    assert(vstd::string::is_ascii("echo"));
    reveal_strlit("set");
    assert(vstd::string::is_ascii("set"));
    reveal_strlit("get");
    assert(vstd::string::is_ascii("get"));
    reveal_strlit("info");
    assert(vstd::string::is_ascii("info"));
    reveal_strlit("replconf");
    assert(vstd::string::is_ascii("replconf"));
    reveal_strlit("REPLCONF");
    assert(vstd::string::is_ascii("REPLCONF"));
    reveal_strlit("psync");
    assert(vstd::string::is_ascii("psync"));
    reveal_strlit("PSYNC");
    assert(vstd::string::is_ascii("PSYNC"));
    reveal_strlit("PONG");
    assert(vstd::string::is_ascii("PONG"));
    reveal_strlit("+PONG");
    assert(vstd::string::is_ascii("+PONG"));
    reveal_strlit("OK");
    assert(vstd::string::is_ascii("OK"));
    reveal_strlit("+OK");
    assert(vstd::string::is_ascii("+OK"));
    reveal_strlit("FULLRESYNC ");
    assert(vstd::string::is_ascii("FULLRESYNC "));
    reveal_strlit("+FULLRESYNC ");
    assert(vstd::string::is_ascii("+FULLRESYNC "));
    reveal_strlit(" 0");
    assert(vstd::string::is_ascii(" 0"));
    reveal_strlit("listening-port");
    assert(vstd::string::is_ascii("listening-port"));
    reveal_strlit("capa");
    assert(vstd::string::is_ascii("capa"));
    reveal_strlit("psync2");
    assert(vstd::string::is_ascii("psync2"));
    reveal_strlit("?");
    assert(vstd::string::is_ascii("?"));
    reveal_strlit("-1");
    assert(vstd::string::is_ascii("-1"));
    assert("ping".spec_bytes() =~= seq![112u8, 105u8, 110u8, 103u8]);
    assert("echo".spec_bytes() =~= seq![101u8, 99u8, 104u8, 111u8]);
    assert("set".spec_bytes() =~= seq![115u8, 101u8, 116u8]);
    assert("get".spec_bytes() =~= seq![103u8, 101u8, 116u8]);
    assert("info".spec_bytes() =~= seq![105u8, 110u8, 102u8, 111u8]);
    assert("replconf".spec_bytes() =~= seq![114u8, 101u8, 112u8, 108u8, 99u8, 111u8, 110u8, 102u8]);
    assert("REPLCONF".spec_bytes() =~= seq![82u8, 69u8, 80u8, 76u8, 67u8, 79u8, 78u8, 70u8]);
    assert("psync".spec_bytes() =~= seq![112u8, 115u8, 121u8, 110u8, 99u8]);
    assert("PSYNC".spec_bytes() =~= seq![80u8, 83u8, 89u8, 78u8, 67u8]);
    assert("PONG".spec_bytes() =~= seq![80u8, 79u8, 78u8, 71u8]);
    assert("+PONG".spec_bytes() =~= seq![43u8, 80u8, 79u8, 78u8, 71u8]);
    assert("OK".spec_bytes() =~= seq![79u8, 75u8]);
    assert("+OK".spec_bytes() =~= seq![43u8, 79u8, 75u8]);
    assert("FULLRESYNC ".spec_bytes() =~= seq![70u8, 85u8, 76u8, 76u8, 82u8, 69u8, 83u8, 89u8, 78u8, 67u8, 32u8]);
    assert("+FULLRESYNC ".spec_bytes() =~= seq![43u8, 70u8, 85u8, 76u8, 76u8, 82u8, 69u8, 83u8, 89u8, 78u8, 67u8, 32u8]);
    assert(" 0".spec_bytes() =~= seq![32u8, 48u8]);
}

/// What a leader does with one handshake request `f` that a replica in
/// `stage` sent: its session decodes the request whatever follows it, the
/// store stays as it was, the reply is no error, and the replica accepts the
/// reply's first line.
pub open spec fn leader_serves_request(
    f: Seq<Seq<u8>>,
    stage: Stage,
    db: Map<Seq<u8>, (Seq<u8>, Option<u64>)>,
    replica: bool,
    replid: Seq<u8>,
    now: u64,
    tail: Seq<u8>,
) -> bool {
    let reply = response(f, db, replica, replid, now);
    let wire = model_wire(reply);
    &&& decode_spec(array_wire(f) + tail) == Decoded::Frame(f, array_wire(f).len())
    &&& store_after(f, db, now) == db
    &&& !(reply is Error)
    &&& line_end(wire, 0) matches Some(e) && reply_accepted(stage, wire.subrange(0, e))
}

/// The first line of a simple-string reply whose text holds no carriage return.
proof fn lemma_simple_line(t: Seq<u8>)
    requires
        forall|i: int| 0 <= i < t.len() ==> t[i] != 13,
    ensures
        line_end(model_wire(ReplyModel::Simple(t)), 0) == Some(t.len() + 1int),
        model_wire(ReplyModel::Simple(t)).subrange(0, t.len() + 1int) == seq![43u8] + t,
{
    let w = model_wire(ReplyModel::Simple(t));
    assert forall|k: int| 0 <= k < t.len() + 1 implies w[k] != 13 by {
        if k > 0 {
            assert(w[k] == t[k - 1]);
        }
    }
    lemma_line_end_at(w, 0, t.len() + 1int);
    assert(w.subrange(0, t.len() + 1int) =~= seq![43u8] + t);
}

/// A leader serves each request of a replica's handshake: `ping`, both
/// `REPLCONF` requests and `PSYNC` are decoded, answered without an error
/// and without a change to the store, and their replies move the replica's
/// handshake on. The replication id is not empty and holds neither a
/// carriage return nor a space.
pub proof fn leader_answers_handshake(
    port: u16,
    db: Map<Seq<u8>, (Seq<u8>, Option<u64>)>,
    replica: bool,
    replid: Seq<u8>,
    now: u64,
    tail: Seq<u8>,
)
    requires
        replid.len() > 0,
        forall|i: int| 0 <= i < replid.len() ==> replid[i] != 13 && replid[i] != 32,
    ensures
        leader_serves_request(ping_frame(), Stage::SentPing, db, replica, replid, now, tail),
        leader_serves_request(listening_port_frame(port), Stage::SentListeningPort, db, replica, replid, now, tail),
        leader_serves_request(capabilities_frame(), Stage::SentCapabilities, db, replica, replid, now, tail),
        leader_serves_request(psync_frame(), Stage::SentPsync, db, replica, replid, now, tail),
{
    lemma_literals();
    lemma_serves_ping(db, replica, replid, now, tail);
    lemma_serves_replconf(listening_port_frame(port), Stage::SentListeningPort, port, db, replica, replid, now, tail);
    lemma_serves_replconf(capabilities_frame(), Stage::SentCapabilities, port, db, replica, replid, now, tail);
    lemma_serves_psync(db, replica, replid, now, tail);
}

proof fn lemma_serves_ping(
    db: Map<Seq<u8>, (Seq<u8>, Option<u64>)>,
    replica: bool,
    replid: Seq<u8>,
    now: u64,
    tail: Seq<u8>,
)
    ensures
        leader_serves_request(ping_frame(), Stage::SentPing, db, replica, replid, now, tail),
{
    lemma_literals();
    assert(lower("ping".spec_bytes()) =~= "ping".spec_bytes());
    let f0 = ping_frame();
    assert(command_kind(f0) is Ping);
    decode_encoded_array(f0, tail);
    lemma_simple_line("PONG".spec_bytes());
    assert(seq![43u8] + "PONG".spec_bytes() =~= "+PONG".spec_bytes());
}

proof fn lemma_replconf_kind(f: Seq<Seq<u8>>)
    requires
        f.len() > 0,
        f[0] == "REPLCONF".spec_bytes(),
    ensures
        command_kind(f) is ReplConf,
{
    lemma_literals();
    assert(lower(f[0]) =~= "replconf".spec_bytes());
    assert(lower(f[0]) != "ping".spec_bytes());
    assert(lower(f[0]) != "echo".spec_bytes());
    assert(lower(f[0]) != "set".spec_bytes());
    assert(lower(f[0]) != "get".spec_bytes());
    assert(lower(f[0]) != "info".spec_bytes());
}

proof fn lemma_serves_replconf(
    f: Seq<Seq<u8>>,
    stage: Stage,
    port: u16,
    db: Map<Seq<u8>, (Seq<u8>, Option<u64>)>,
    replica: bool,
    replid: Seq<u8>,
    now: u64,
    tail: Seq<u8>,
)
    requires
        f == listening_port_frame(port) || f == capabilities_frame(),
        stage is SentListeningPort || stage is SentCapabilities,
    ensures
        leader_serves_request(f, stage, db, replica, replid, now, tail),
{
    lemma_literals();
    lemma_decimal_len(port as nat);
    lemma_replconf_kind(f);
    assert forall|i: int| 0 <= i < f.len() implies (#[trigger] f[i]).len() <= usize::MAX by {}
    decode_encoded_array(f, tail);
    lemma_simple_line("OK".spec_bytes());
    assert(seq![43u8] + "OK".spec_bytes() =~= "+OK".spec_bytes());
}

proof fn lemma_psync_kind(f: Seq<Seq<u8>>)
    requires
        f.len() > 0,
        f[0] == "PSYNC".spec_bytes(),
    ensures
        command_kind(f) is Psync,
{
    lemma_literals();
    assert(lower(f[0]) =~= "psync".spec_bytes());
    assert(lower(f[0]) != "ping".spec_bytes());
    assert(lower(f[0]) != "echo".spec_bytes());
    assert(lower(f[0]) != "set".spec_bytes());
    assert(lower(f[0]) != "get".spec_bytes());
    assert(lower(f[0]) != "info".spec_bytes());
    assert(lower(f[0]) != "replconf".spec_bytes());
}

proof fn lemma_serves_psync(
    db: Map<Seq<u8>, (Seq<u8>, Option<u64>)>,
    replica: bool,
    replid: Seq<u8>,
    now: u64,
    tail: Seq<u8>,
)
    requires
        replid.len() > 0,
        forall|i: int| 0 <= i < replid.len() ==> replid[i] != 13 && replid[i] != 32,
    ensures
        leader_serves_request(psync_frame(), Stage::SentPsync, db, replica, replid, now, tail),
{
    lemma_literals();
    let f3 = psync_frame();
    lemma_psync_kind(f3);
    assert forall|i: int| 0 <= i < f3.len() implies (#[trigger] f3[i]).len() <= usize::MAX by {}
    decode_encoded_array(f3, tail);
    let t = fullresync_text(replid);
    assert forall|i: int| 0 <= i < t.len() implies t[i] != 13 by {
        if i >= 11 && i < 11 + replid.len() {
            assert(t[i] == replid[i - 11]);
        }
    }
    lemma_simple_line(t);
    let line = seq![43u8] + t;
    let p = "+FULLRESYNC ".spec_bytes();
    assert(line.subrange(0, p.len() as int) =~= p);
    let j: int = 12 + replid.len() as int;
    assert(line.len() == j + 2);
    assert forall|k: int| 12 <= k < j implies line[k] != 32 by {
        assert(line[k] == replid[k - 12]);
    }
    assert(line[j] == 32);
    lemma_byte_index_at(line, 12, j, 32);
    let off = line.subrange(j + 1, line.len() as int);
    assert(off =~= seq![48u8]);
    assert(is_digit(off[0]));
    assert(is_number(off));
}

/// The decimal form of a number is no longer than the number plus one.
proof fn lemma_decimal_len(n: nat)
    ensures
        decimal(n).len() <= n + 1,
    decreases n,
{
    if n >= 10 {
        lemma_decimal_len(n / 10);
    }
}

/// On the wire: when one buffer holds `set k v` and a later one `get k`, a
/// session answers `+OK` and then the bulk string of `v`, at any later time.
pub proof fn wire_set_then_get(
    p_set: Seq<u8>,
    p_get: Seq<u8>,
    db: Map<Seq<u8>, (Seq<u8>, Option<u64>)>,
    replica: bool,
    replid: Seq<u8>,
    now: u64,
    later: u64,
)
    requires
        decode_spec(p_set) matches Decoded::Frame(s, _) && command_kind(s) is SetValue && s.len() == 3,
        decode_spec(p_get) matches Decoded::Frame(g, _) && command_kind(g) is GetValue && g.len() == 2,
        decode_spec(p_set) matches Decoded::Frame(s, _) && decode_spec(p_get) matches Decoded::Frame(g, _)
            && g[1] == s[1],
    ensures
        decode_spec(p_set) matches Decoded::Frame(s, _) && decode_spec(p_get) matches Decoded::Frame(g, _)
            && model_wire(response(s, db, replica, replid, now)) == seq![43u8] + "OK".spec_bytes() + crlf()
            && model_wire(response(g, store_after(s, db, now), replica, replid, later)) == bulk_wire(s[2]),
{
    if let (Decoded::Frame(s, _), Decoded::Frame(g, _)) = (decode_spec(p_set), decode_spec(p_get)) {
        set_then_get(s, g, db, replica, replid, now, later);
    }
}

/// On the wire: after `set k v px d` at `now`, a `get k` is answered with the
/// bulk string of `v` before `d` milliseconds have passed and with `$-1`
/// once more than `d` have passed.
pub proof fn wire_set_with_expiry_then_get(
    p_set: Seq<u8>,
    p_get: Seq<u8>,
    db: Map<Seq<u8>, (Seq<u8>, Option<u64>)>,
    replica: bool,
    replid: Seq<u8>,
    now: u64,
    later: u64,
)
    requires
        decode_spec(p_set) matches Decoded::Frame(s, _) && command_kind(s) is SetValue && (set_args(s) matches SetArgs::Ttl(d)
            && d > 0),
        decode_spec(p_get) matches Decoded::Frame(g, _) && command_kind(g) is GetValue && g.len() == 2,
        decode_spec(p_set) matches Decoded::Frame(s, _) && decode_spec(p_get) matches Decoded::Frame(g, _)
            && g[1] == s[1],
    ensures
        decode_spec(p_set) matches Decoded::Frame(s, _) && decode_spec(p_get) matches Decoded::Frame(g, _)
            && (set_args(s) matches SetArgs::Ttl(d)
            && (later < now + d ==> model_wire(response(g, store_after(s, db, now), replica, replid, later)) == bulk_wire(s[2]))
            && (later > now + d ==> model_wire(response(g, store_after(s, db, now), replica, replid, later)) == seq![36u8, 45u8, 49u8] + crlf())),
{
    if let (Decoded::Frame(s, _), Decoded::Frame(g, _)) = (decode_spec(p_set), decode_spec(p_get)) {
        set_with_expiry_then_get(s, g, db, replica, replid, now, later);
    }
}

/// On the wire: a `get` of a key that was never written is answered `$-1`
/// and leaves the store as it was.
pub proof fn wire_get_unwritten(
    p: Seq<u8>,
    db: Map<Seq<u8>, (Seq<u8>, Option<u64>)>,
    replica: bool,
    replid: Seq<u8>,
    now: u64,
)
    requires
        decode_spec(p) matches Decoded::Frame(g, _) && command_kind(g) is GetValue && g.len() == 2
            && !db.contains_key(g[1]),
    ensures
        decode_spec(p) matches Decoded::Frame(g, _)
            && model_wire(response(g, db, replica, replid, now)) == seq![36u8, 45u8, 49u8] + crlf()
            && store_after(g, db, now) == db,
{
}

/// On the wire: `ping`, in any letter case and without arguments, is
/// answered `+PONG` whatever the store holds, and changes nothing.
pub proof fn wire_ping(
    p: Seq<u8>,
    db: Map<Seq<u8>, (Seq<u8>, Option<u64>)>,
    replica: bool,
    replid: Seq<u8>,
    now: u64,
)
    requires
        decode_spec(p) matches Decoded::Frame(f, _) && command_kind(f) is Ping && f.len() == 1,
    ensures
        decode_spec(p) matches Decoded::Frame(f, _)
            && model_wire(response(f, db, replica, replid, now)) == seq![43u8] + "PONG".spec_bytes() + crlf()
            && store_after(f, db, now) == db,
{
}

/// On the wire: `info replication` is answered with a bulk string whose
/// payload begins with the role line, `role:master` for a leader and
/// `role:slave` for a replica, each ended by the line terminator.
pub proof fn wire_info_names_role(
    p: Seq<u8>,
    db: Map<Seq<u8>, (Seq<u8>, Option<u64>)>,
    replica: bool,
    replid: Seq<u8>,
    now: u64,
)
    requires
        decode_spec(p) matches Decoded::Frame(f, _) && command_kind(f) is Info && f.len() == 2
            && f[1] == "replication".spec_bytes(),
    ensures
        decode_spec(p) matches Decoded::Frame(f, _)
            && model_wire(response(f, db, replica, replid, now)) == bulk_wire(info_text(replica, replid)),
        ({
            let line = role_label(replica) + crlf();
            let t = info_text(replica, replid);
            &&& t.len() >= line.len()
            &&& t.subrange(0, line.len() as int) == line
        }),
        !replica ==> role_label(replica) == "role:master".spec_bytes(),
        replica ==> role_label(replica) == "role:slave".spec_bytes(),
{
    let line = role_label(replica) + crlf();
    let t = info_text(replica, replid);
    assert(t.subrange(0, line.len() as int) =~= line);
}

} // verus!
