use vstd::prelude::*;
use vstd::string::StringSliceAdditionalSpecFns;

use crate::codec::{append_bytes, copy_range, decode, decode_spec, DecodeResult, Decoded, Reply};
use crate::server::{bytes_of, response, store_after, ReplyModel, Server};

verus! {

pub open spec fn err_protocol() -> Seq<u8> {
    "ERR Protocol error".spec_bytes()
}

/// What one step of a connection does with the bytes it holds.
pub enum Step {
    /// A reply to send; the bytes it answered are gone from the buffer.
    Send(Vec<u8>),
    /// The buffer holds no whole frame yet: read more.
    Wait,
}

/// The bytes received on one connection and not yet answered.
pub struct Session {
    pub pending: Vec<u8>,
}

impl Session {
    /// A session with nothing received.
    pub fn new() -> (r: Session)
        ensures
            r.pending@ == Seq::<u8>::empty(),
    {
        Session { pending: Vec::new() }
    }

    /// Adds bytes read from the peer.
    pub fn feed(&mut self, bytes: &[u8])
        ensures
            final(self).pending@ == old(self).pending@ + bytes@,
    {
        append_bytes(&mut self.pending, bytes);
    }

    /// Answers the first frame held, if a whole one is there.
    ///
    /// A whole frame is handed to the server and its reply sent. When the
    /// bytes held cannot start a frame, the reply is a protocol error and
    /// everything held is dropped, any frame received together with the bad
    /// bytes included: what arrives next is read as on a fresh connection.
    pub fn next_reply(&mut self, server: &mut Server, now: u64) -> (r: Step)
        requires
            old(server).wf(),
        ensures
            final(server).wf(),
            final(server).replica_of == old(server).replica_of,
            final(server).replid@ == old(server).replid@,
            match decode_spec(old(self).pending@) {
                Decoded::Frame(f, n) => {
                    &&& r matches Step::Send(out)
                    &&& out@ == crate::server::model_wire(
                        response(f, old(server).db.view(), old(server).is_replica(), old(server).replid@, now),
                    )
                    &&& final(server).db.view() == store_after(f, old(server).db.view(), now)
                    &&& final(self).pending@ == old(self).pending@.subrange(n as int, old(self).pending@.len() as int)
                },
                Decoded::Incomplete => {
                    &&& r is Wait
                    &&& final(self).pending@ == old(self).pending@
                    &&& final(server).db.view() == old(server).db.view()
                },
                Decoded::Malformed => {
                    &&& r matches Step::Send(out)
                    &&& out@ == crate::server::model_wire(ReplyModel::Error(err_protocol()))
                    &&& final(self).pending@ == Seq::<u8>::empty()
                    &&& final(server).db.view() == old(server).db.view()
                },
            },
    {
        match decode(self.pending.as_slice()) {
            DecodeResult::Frame(frame, n) => {
                let reply = server.handle(&frame, now);
                let rest = copy_range(self.pending.as_slice(), n, self.pending.len());
                self.pending = rest;
                Step::Send(reply.encode())
            },
            DecodeResult::Incomplete => Step::Wait,
            DecodeResult::Malformed => {
                self.pending = Vec::new();
                Step::Send(Reply::Error(bytes_of("ERR Protocol error")).encode())
            },
        }
    }
}

} // verus!
