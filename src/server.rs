use vstd::prelude::*;
use vstd::string::StringSliceAdditionalSpecFns;

use crate::codec::{append_bytes, bytes_eq, append_crlf, bulk_wire, crlf, copy_range, frame_view, is_number, digits_value, parse_decimal, Reply};
use crate::store::{Database, expiry_after, live_value};

verus! {

/// A reply as a mathematical value.
pub enum ReplyModel {
    Simple(Seq<u8>),
    Bulk(Seq<u8>),
    NullBulk,
    Error(Seq<u8>),
}

impl Reply {
    pub open spec fn model(&self) -> ReplyModel {
        match self {
            Reply::Simple(t) => ReplyModel::Simple(t@),
            Reply::Bulk(b) => ReplyModel::Bulk(b@),
            Reply::NullBulk => ReplyModel::NullBulk,
            Reply::Error(m) => ReplyModel::Error(m@),
        }
    }
}

/// The wire form of a reply given as a value.
pub open spec fn model_wire(m: ReplyModel) -> Seq<u8> {
    match m {
        ReplyModel::Simple(t) => seq![43u8] + t + crlf(),
        ReplyModel::Bulk(b) => bulk_wire(b),
        ReplyModel::NullBulk => seq![36u8, 45u8, 49u8] + crlf(),
        ReplyModel::Error(m) => seq![45u8] + m + crlf(),
    }
}

/// The bytes of a string literal.
pub fn bytes_of(s: &str) -> (r: Vec<u8>)
    ensures
        r@ == s.spec_bytes(),
{
    let b = s.as_bytes();
    assert(b@.subrange(0, b@.len() as int) =~= b@);
    copy_range(b, 0, b.len())
}

/// A copy of `b`.
pub fn copy_all(b: &[u8]) -> (r: Vec<u8>)
    ensures
        r@ == b@,
{
    assert(b@.subrange(0, b@.len() as int) =~= b@);
    copy_range(b, 0, b.len())
}

/// ASCII lower case of one byte.
pub open spec fn lower_byte(b: u8) -> u8 {
    if 65 <= b <= 90 {
        (b + 32) as u8
    } else {
        b
    }
}

/// ASCII lower case of a byte string.
pub open spec fn lower(s: Seq<u8>) -> Seq<u8> {
    s.map_values(|b: u8| lower_byte(b))
}

/// Whether `a`, compared without regard to ASCII case, is the lower-case `lit`.
pub fn eq_ignore_case(a: &[u8], lit: &[u8]) -> (r: bool)
    ensures
        r == (lower(a@) == lit@),
{
    if a.len() != lit.len() {
        assert(lower(a@).len() != lit@.len());
        return false;
    }
    let mut i: usize = 0;
    while i < a.len()
        invariant
            i <= a.len() == lit.len(),
            forall|k: int| 0 <= k < i ==> lower_byte(a@[k]) == lit@[k],
        decreases a.len() - i,
    {
        let b = a[i];
        let lb: u8 = if 65 <= b && b <= 90 { b + 32 } else { b };
        if lb != lit[i] {
            assert(lower(a@)[i as int] != lit@[i as int]);
            return false;
        }
        i = i + 1;
    }
    assert(lower(a@) =~= lit@);
    true
}

pub open spec fn err_arity() -> Seq<u8> {
    "ERR wrong number of arguments".spec_bytes()
}

pub open spec fn err_syntax() -> Seq<u8> {
    "ERR syntax error".spec_bytes()
}

pub open spec fn err_not_integer() -> Seq<u8> {
    "ERR value is not an integer or out of range".spec_bytes()
}

pub open spec fn err_unknown() -> Seq<u8> {
    "ERR unknown command".spec_bytes()
}

/// Whether the frame's command name is `name`, ignoring ASCII case.
pub open spec fn is_command(f: Seq<Seq<u8>>, name: Seq<u8>) -> bool {
    f.len() > 0 && lower(f[0]) == name
}

/// The commands that a server knows.
pub enum CommandKind {
    Ping,
    Echo,
    SetValue,
    GetValue,
    Info,
    ReplConf,
    Psync,
    Unknown,
}

/// Which command a frame names.
pub open spec fn command_kind(f: Seq<Seq<u8>>) -> CommandKind {
    if is_command(f, "ping".spec_bytes()) {
        CommandKind::Ping
    } else if is_command(f, "echo".spec_bytes()) {
        CommandKind::Echo
    } else if is_command(f, "set".spec_bytes()) {
        CommandKind::SetValue
    } else if is_command(f, "get".spec_bytes()) {
        CommandKind::GetValue
    } else if is_command(f, "info".spec_bytes()) {
        CommandKind::Info
    } else if is_command(f, "replconf".spec_bytes()) {
        CommandKind::ReplConf
    } else if is_command(f, "psync".spec_bytes()) {
        CommandKind::Psync
    } else {
        CommandKind::Unknown
    }
}

/// A decimal number that fits in a `u64`.
pub open spec fn u64_number(s: Seq<u8>) -> Option<u64> {
    if is_number(s) && digits_value(s) <= u64::MAX {
        Some(digits_value(s) as u64)
    } else {
        None
    }
}

/// How the arguments of a `set` frame read.
pub enum SetArgs {
    /// `set key value`
    Plain,
    /// `set key value px <millis>`
    Ttl(u64),
    /// A fifth element whose option token is not `px`.
    BadOption,
    /// `px` followed by something that is not a number.
    BadNumber,
    /// Neither three nor five elements.
    BadArity,
}

pub open spec fn set_args(f: Seq<Seq<u8>>) -> SetArgs {
    if f.len() == 3 {
        SetArgs::Plain
    } else if f.len() == 5 {
        if f[3] == "px".spec_bytes() {
            match u64_number(f[4]) {
                Some(d) => SetArgs::Ttl(d),
                None => SetArgs::BadNumber,
            }
        } else {
            SetArgs::BadOption
        }
    } else {
        SetArgs::BadArity
    }
}

/// The entry of `k` in a store's map, if any.
pub open spec fn entry_of(db: Map<Seq<u8>, (Seq<u8>, Option<u64>)>, k: Seq<u8>) -> Option<(Seq<u8>, Option<u64>)> {
    if db.contains_key(k) {
        Some(db[k])
    } else {
        None
    }
}

/// The role line's text without its terminator.
pub open spec fn role_label(replica: bool) -> Seq<u8> {
    if replica {
        "role:slave".spec_bytes()
    } else {
        "role:master".spec_bytes()
    }
}

/// The payload of `info replication`.
pub open spec fn info_text(replica: bool, replid: Seq<u8>) -> Seq<u8> {
    role_label(replica) + crlf() + "master_replid:".spec_bytes() + replid + crlf()
        + "master_repl_offset:0".spec_bytes() + crlf()
}

/// The text of the answer to `psync`.
pub open spec fn fullresync_text(replid: Seq<u8>) -> Seq<u8> {
    "FULLRESYNC ".spec_bytes() + replid + " 0".spec_bytes()
}

/// The reply to frame `f` from a server in the given state at `now`.
pub open spec fn response(
    f: Seq<Seq<u8>>,
    db: Map<Seq<u8>, (Seq<u8>, Option<u64>)>,
    replica: bool,
    replid: Seq<u8>,
    now: u64,
) -> ReplyModel {
    match command_kind(f) {
        CommandKind::Ping => if f.len() == 1 {
            ReplyModel::Simple("PONG".spec_bytes())
        } else {
            ReplyModel::Error(err_arity())
        },
        CommandKind::Echo => if f.len() == 2 {
            ReplyModel::Bulk(f[1])
        } else {
            ReplyModel::Error(err_arity())
        },
        CommandKind::SetValue => match set_args(f) {
            SetArgs::Plain => ReplyModel::Simple("OK".spec_bytes()),
            SetArgs::Ttl(_) => ReplyModel::Simple("OK".spec_bytes()),
            SetArgs::BadOption => ReplyModel::Error(err_syntax()),
            SetArgs::BadNumber => ReplyModel::Error(err_not_integer()),
            SetArgs::BadArity => ReplyModel::Error(err_arity()),
        },
        CommandKind::GetValue => if f.len() == 2 {
            match live_value(entry_of(db, f[1]), now) {
                Some(v) => ReplyModel::Bulk(v),
                None => ReplyModel::NullBulk,
            }
        } else {
            ReplyModel::Error(err_arity())
        },
        CommandKind::Info => if f.len() != 2 {
            ReplyModel::Error(err_arity())
        } else if f[1] == "replication".spec_bytes() {
            ReplyModel::Bulk(info_text(replica, replid))
        } else {
            ReplyModel::Error(err_syntax())
        },
        CommandKind::ReplConf => ReplyModel::Simple("OK".spec_bytes()),
        CommandKind::Psync => ReplyModel::Simple(fullresync_text(replid)),
        CommandKind::Unknown => ReplyModel::Error(err_unknown()),
    }
}

/// The store after frame `f` is handled at `now`: only a well-formed `set` changes it.
pub open spec fn store_after(
    f: Seq<Seq<u8>>,
    db: Map<Seq<u8>, (Seq<u8>, Option<u64>)>,
    now: u64,
) -> Map<Seq<u8>, (Seq<u8>, Option<u64>)> {
    match command_kind(f) {
        CommandKind::SetValue => match set_args(f) {
            SetArgs::Plain => db.insert(f[1], (f[2], None)),
            SetArgs::Ttl(d) => db.insert(f[1], (f[2], Some(expiry_after(now, d)))),
            _ => db,
        },
        _ => db,
    }
}

/// A server: its store, the leader it replicates (if any), and its replication id.
pub struct Server {
    pub db: Database,
    pub replica_of: Option<(String, String)>,
    pub replid: Vec<u8>,
}

/// The replication id that a server reports.
pub open spec fn default_replid() -> Seq<u8> {
    "8371b4fb1155b71f4a04d3e1bc3e18c4a990aeeb".spec_bytes()
}

impl Server {
    pub open spec fn wf(&self) -> bool {
        self.db.wf()
    }

    pub open spec fn is_replica(&self) -> bool {
        self.replica_of is Some
    }

    /// A leader with an empty store.
    pub fn new() -> (r: Server)
        ensures
            r.wf(),
            !r.is_replica(),
            r.db.view() == Map::<Seq<u8>, (Seq<u8>, Option<u64>)>::empty(),
            r.replid@ == default_replid(),
    {
        Server { db: Database::new(), replica_of: None, replid: bytes_of("8371b4fb1155b71f4a04d3e1bc3e18c4a990aeeb") }
    }

    /// A replica of the leader at `host`:`port`, with an empty store and this
    /// server's replication id.
    pub fn as_replica_of(&self, host: String, port: String) -> (r: Server)
        ensures
            r.wf(),
            r.replica_of == Some((host, port)),
            r.db.view() == Map::<Seq<u8>, (Seq<u8>, Option<u64>)>::empty(),
            r.replid@ == self.replid@,
    {
        let replid = copy_range(self.replid.as_slice(), 0, self.replid.len());
        assert(self.replid@.subrange(0, self.replid@.len() as int) =~= self.replid@);
        Server { db: Database::new(), replica_of: Some((host, port)), replid }
    }

    /// Handles one frame at `now`: the reply, and the store changed by a
    /// well-formed `set` only.
    pub fn handle(&mut self, frame: &Vec<Vec<u8>>, now: u64) -> (r: Reply)
        requires
            old(self).wf(),
        ensures
            final(self).wf(),
            r.model() == response(frame_view(frame@), old(self).db.view(), old(self).is_replica(), old(self).replid@, now),
            final(self).db.view() == store_after(frame_view(frame@), old(self).db.view(), now),
            final(self).replica_of == old(self).replica_of,
            final(self).replid@ == old(self).replid@,
    {
        let ghost f = frame_view(frame@);
        if frame.len() == 0 {
            return Reply::Error(bytes_of("ERR unknown command"));
        }
        let name = frame[0].as_slice();
        let n = frame.len();
        assert(forall|i: int| 0 <= i < n ==> f[i] == (#[trigger] frame@[i])@);
        if eq_ignore_case(name, bytes_of("ping").as_slice()) {
            if n == 1 {
                Reply::Simple(bytes_of("PONG"))
            } else {
                Reply::Error(bytes_of("ERR wrong number of arguments"))
            }
        } else if eq_ignore_case(name, bytes_of("echo").as_slice()) {
            if n == 2 {
                Reply::Bulk(copy_all(frame[1].as_slice()))
            } else {
                Reply::Error(bytes_of("ERR wrong number of arguments"))
            }
        } else if eq_ignore_case(name, bytes_of("set").as_slice()) {
            if n == 3 {
                self.db.set(frame[1].as_slice(), frame[2].as_slice(), None, now);
                Reply::Simple(bytes_of("OK"))
            } else if n == 5 {
                if bytes_eq(frame[3].as_slice(), bytes_of("px").as_slice()) {
                    let arg = frame[4].as_slice();
                    match parse_decimal(arg, 0, arg.len(), u64::MAX) {
                        Some(d) => {
                            proof {
                                assert(arg@.subrange(0, arg@.len() as int) =~= arg@);
                            }
                            self.db.set(frame[1].as_slice(), frame[2].as_slice(), Some(d), now);
                            Reply::Simple(bytes_of("OK"))
                        },
                        None => {
                            proof {
                                assert(arg@.subrange(0, arg@.len() as int) =~= arg@);
                            }
                            Reply::Error(bytes_of("ERR value is not an integer or out of range"))
                        },
                    }
                } else {
                    Reply::Error(bytes_of("ERR syntax error"))
                }
            } else {
                Reply::Error(bytes_of("ERR wrong number of arguments"))
            }
        } else if eq_ignore_case(name, bytes_of("get").as_slice()) {
            if n == 2 {
                match self.db.get(frame[1].as_slice(), now) {
                    Some(v) => Reply::Bulk(v),
                    None => Reply::NullBulk,
                }
            } else {
                Reply::Error(bytes_of("ERR wrong number of arguments"))
            }
        } else if eq_ignore_case(name, bytes_of("info").as_slice()) {
            if n != 2 {
                Reply::Error(bytes_of("ERR wrong number of arguments"))
            } else if bytes_eq(frame[1].as_slice(), bytes_of("replication").as_slice()) {
                Reply::Bulk(self.info_replication())
            } else {
                Reply::Error(bytes_of("ERR syntax error"))
            }
        } else if eq_ignore_case(name, bytes_of("replconf").as_slice()) {
            Reply::Simple(bytes_of("OK"))
        } else if eq_ignore_case(name, bytes_of("psync").as_slice()) {
            let mut t = bytes_of("FULLRESYNC ");
            append_bytes(&mut t, self.replid.as_slice());
            append_bytes(&mut t, bytes_of(" 0").as_slice());
            Reply::Simple(t)
        } else {
            Reply::Error(bytes_of("ERR unknown command"))
        }
    }

    /// The payload of `info replication`: the role, the replication id and the offset.
    pub fn info_replication(&self) -> (r: Vec<u8>)
        ensures
            r@ == info_text(self.is_replica(), self.replid@),
    {
        let mut t = match &self.replica_of {
            Some(_) => bytes_of("role:slave"),
            None => bytes_of("role:master"),
        };
        append_crlf(&mut t);
        append_bytes(&mut t, bytes_of("master_replid:").as_slice());
        append_bytes(&mut t, self.replid.as_slice());
        append_crlf(&mut t);
        append_bytes(&mut t, bytes_of("master_repl_offset:0").as_slice());
        append_crlf(&mut t);
        t
    }
}

} // verus!
