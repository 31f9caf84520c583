use vstd::prelude::*;
use vstd::string::StringSliceAdditionalSpecFns;

use crate::codec::{byte_index, bytes_eq, copy_range, find_byte, is_number, is_number_range, append_decimal, array_wire, decimal, encode_array, find_line_end, frame_view, line_end};
use crate::server::bytes_of;

verus! {

/// How far a replica has come in its handshake with the leader.
pub enum Stage {
    Connecting,
    SentPing,
    SentListeningPort,
    SentCapabilities,
    SentPsync,
    Synced,
    Failed,
}

/// What the replica does next.
pub enum Action {
    /// Send this request to the leader and wait for its reply.
    Send(Vec<u8>),
    /// The reply line is not complete yet: read more.
    NeedMore,
    /// The handshake is complete.
    Done,
    /// The leader answered otherwise than the protocol asks.
    Fault,
}

/// An action as a value.
pub enum ActionModel {
    Send(Seq<u8>),
    NeedMore,
    Done,
    Fault,
}

impl Action {
    pub open spec fn model(&self) -> ActionModel {
        match self {
            Action::Send(b) => ActionModel::Send(b@),
            Action::NeedMore => ActionModel::NeedMore,
            Action::Done => ActionModel::Done,
            Action::Fault => ActionModel::Fault,
        }
    }
}

/// The first request: `ping`.
pub open spec fn ping_frame() -> Seq<Seq<u8>> {
    seq!["ping".spec_bytes()]
}

/// The request that tells the leader the replica's listening port.
pub open spec fn listening_port_frame(port: u16) -> Seq<Seq<u8>> {
    seq!["REPLCONF".spec_bytes(), "listening-port".spec_bytes(), decimal(port as nat)]
}

/// The request that tells the leader what the replica can do.
pub open spec fn capabilities_frame() -> Seq<Seq<u8>> {
    seq!["REPLCONF".spec_bytes(), "capa".spec_bytes(), "psync2".spec_bytes()]
}

/// The request for a full resynchronisation.
pub open spec fn psync_frame() -> Seq<Seq<u8>> {
    seq!["PSYNC".spec_bytes(), "?".spec_bytes(), "-1".spec_bytes()]
}

pub open spec fn ping_request() -> Seq<u8> {
    array_wire(ping_frame())
}

pub open spec fn listening_port_request(port: u16) -> Seq<u8> {
    array_wire(listening_port_frame(port))
}

pub open spec fn capabilities_request() -> Seq<u8> {
    array_wire(capabilities_frame())
}

pub open spec fn psync_request() -> Seq<u8> {
    array_wire(psync_frame())
}

/// Whether `line` is the reply that the leader owes in `stage`.
pub open spec fn reply_accepted(stage: Stage, line: Seq<u8>) -> bool {
    match stage {
        Stage::SentPing => line == "+PONG".spec_bytes(),
        Stage::SentListeningPort => line == "+OK".spec_bytes(),
        Stage::SentCapabilities => line == "+OK".spec_bytes(),
        Stage::SentPsync => fullresync_accepted(line),
        _ => false,
    }
}

/// Whether `line` reads `+FULLRESYNC <id> <offset>`: the id is not empty and
/// holds no space, so it ends at the first space after the prefix, and the
/// offset is a decimal number.
pub open spec fn fullresync_accepted(line: Seq<u8>) -> bool {
    let p = "+FULLRESYNC ".spec_bytes();
    &&& line.len() >= p.len()
    &&& line.subrange(0, p.len() as int) == p
    &&& match byte_index(line, p.len() as int, 32) {
        Some(j) => j > p.len() && is_number(line.subrange(j + 1, line.len() as int)),
        None => false,
    }
}

/// The stage that follows an accepted reply, and what to send then.
pub open spec fn advance(stage: Stage, port: u16) -> (Stage, ActionModel) {
    match stage {
        Stage::SentPing => (Stage::SentListeningPort, ActionModel::Send(listening_port_request(port))),
        Stage::SentListeningPort => (Stage::SentCapabilities, ActionModel::Send(capabilities_request())),
        Stage::SentCapabilities => (Stage::SentPsync, ActionModel::Send(psync_request())),
        _ => (Stage::Synced, ActionModel::Done),
    }
}

/// Whether the replica waits for a reply in `stage`.
pub open spec fn awaits_reply(stage: Stage) -> bool {
    stage is SentPing || stage is SentListeningPort || stage is SentCapabilities || stage is SentPsync
}

/// The handshake that a replica drives against its leader at startup.
pub struct Handshake {
    pub stage: Stage,
    pub listening_port: u16,
}

fn literal_frame(parts: Vec<Vec<u8>>) -> (r: Vec<u8>)
    ensures
        r@ == array_wire(frame_view(parts@)),
{
    encode_array(&parts)
}

impl Handshake {
    /// A handshake not begun, for a replica that listens on `listening_port`.
    pub fn new(listening_port: u16) -> (r: Handshake)
        ensures
            r.stage is Connecting,
            r.listening_port == listening_port,
    {
        Handshake { stage: Stage::Connecting, listening_port }
    }

    /// Once connected: the first request, `ping`.
    pub fn start(&mut self) -> (r: Vec<u8>)
        requires
            old(self).stage is Connecting,
        ensures
            final(self).stage is SentPing,
            final(self).listening_port == old(self).listening_port,
            r@ == ping_request(),
    {
        self.stage = Stage::SentPing;
        let parts = vec![bytes_of("ping")];
        let r = literal_frame(parts);
        assert(frame_view(parts@) =~= seq!["ping".spec_bytes()]);
        r
    }

    /// Reads the leader's reply to the last request.
    ///
    /// Until `reply` holds a whole line nothing changes. The expected line
    /// moves the handshake on and gives the next request (or completion after
    /// `PSYNC`); any other line fails the handshake.
    pub fn on_reply(&mut self, reply: &[u8]) -> (r: Action)
        requires
            awaits_reply(old(self).stage),
        ensures
            final(self).listening_port == old(self).listening_port,
            match line_end(reply@, 0) {
                None => r is NeedMore && final(self).stage == old(self).stage,
                Some(e) => if reply_accepted(old(self).stage, reply@.subrange(0, e)) {
                    (final(self).stage, r.model()) == advance(old(self).stage, old(self).listening_port)
                } else {
                    r is Fault && final(self).stage is Failed
                },
            },
    {
        let e = match find_line_end(reply, 0) {
            None => return Action::NeedMore,
            Some(e) => e,
        };
        let line = copy_range(reply, 0, e);
        let accepted = match self.stage {
            Stage::SentPing => bytes_eq(line.as_slice(), bytes_of("+PONG").as_slice()),
            Stage::SentListeningPort => bytes_eq(line.as_slice(), bytes_of("+OK").as_slice()),
            Stage::SentCapabilities => bytes_eq(line.as_slice(), bytes_of("+OK").as_slice()),
            _ => {
                let p = bytes_of("+FULLRESYNC ");
                if line.len() >= p.len() {
                    let head = copy_range(line.as_slice(), 0, p.len());
                    if bytes_eq(head.as_slice(), p.as_slice()) {
                        match find_byte(line.as_slice(), p.len(), 32u8) {
                            Some(j) => j > p.len() && is_number_range(line.as_slice(), j + 1, line.len()),
                            None => false,
                        }
                    } else {
                        false
                    }
                } else {
                    false
                }
            },
        };
        if !accepted {
            self.stage = Stage::Failed;
            return Action::Fault;
        }
        match self.stage {
            Stage::SentPing => {
                self.stage = Stage::SentListeningPort;
                let mut port: Vec<u8> = Vec::new();
                append_decimal(&mut port, self.listening_port as usize);
                let parts = vec![bytes_of("REPLCONF"), bytes_of("listening-port"), port];
                let r = literal_frame(parts);
                assert(frame_view(parts@) =~= seq!["REPLCONF".spec_bytes(), "listening-port".spec_bytes(), decimal(self.listening_port as nat)]);
                Action::Send(r)
            },
            Stage::SentListeningPort => {
                self.stage = Stage::SentCapabilities;
                let parts = vec![bytes_of("REPLCONF"), bytes_of("capa"), bytes_of("psync2")];
                let r = literal_frame(parts);
                assert(frame_view(parts@) =~= seq!["REPLCONF".spec_bytes(), "capa".spec_bytes(), "psync2".spec_bytes()]);
                Action::Send(r)
            },
            Stage::SentCapabilities => {
                self.stage = Stage::SentPsync;
                let parts = vec![bytes_of("PSYNC"), bytes_of("?"), bytes_of("-1")];
                let r = literal_frame(parts);
                assert(frame_view(parts@) =~= seq!["PSYNC".spec_bytes(), "?".spec_bytes(), "-1".spec_bytes()]);
                Action::Send(r)
            },
            _ => {
                self.stage = Stage::Synced;
                Action::Done
            },
        }
    }
}

} // verus!
