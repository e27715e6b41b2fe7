//! The client side of the distribution protocol: the decisions of its two
//! cooperating loops. The network loop signs pings and turns authentic run
//! frames into programs; the machine loop maps each run outcome to its next
//! move. The sockets, threads and sleeps that carry these decisions out live
//! in the surrounding program.

use vstd::prelude::*;

use crate::program::Program;
use crate::protocol::{hmac_sha1_of, MacAddr, Message, MessageType};
use crate::strip::Strip;
use crate::vm::VM;

verus! {

/// What the machine loop does after one slice of execution.
#[derive(Clone, Copy, Debug, PartialEq, Eq, Structural)]
pub enum VmAction {
    /// The slice's quota filled: keep running the same program.
    ContinueSlice,
    /// A frame was yielded: pace to the frame interval, then keep running.
    PaceFrame,
    /// The program ended, hit its machine-wide quota, or failed: block until
    /// a new program arrives.
    AwaitProgram,
}

/// A client: its machine, its signing secret, and its frame pacing.
pub struct Client<S: Strip> {
    pub vm: VM<S>,
    pub secret: Vec<u8>,
    pub fps_limit: Option<usize>,
}

impl<S: Strip> Client<S> {
    pub fn new(vm: VM<S>, secret: &[u8], fps_limit: Option<usize>) -> (r: Client<S>)
        ensures
            r.vm == vm,
            r.secret@ == secret@,
            r.fps_limit == fps_limit,
    {
        let mut s: Vec<u8> = Vec::new();
        s.extend_from_slice(secret);
        proof {
            assert(s@ =~= secret@);
        }
        Client { vm, secret: s, fps_limit }
    }

    /// The signed keepalive frame announcing this client's address.
    pub fn ping_frame(&self, mac: MacAddr) -> (r: Vec<u8>)
        ensures
            exists|m: Message|
                {
                    &&& #[trigger] r@ == m.wire() + hmac_sha1_of(self.secret@, m.wire())
                    &&& m.message_type == MessageType::Ping
                    &&& m.mac_address == mac
                    &&& m.payload is None
                },
    {
        let msg = Message::new(MessageType::Ping, mac, None);
        let r = msg.signed(self.secret.as_slice());
        proof {
            assert(r@ == msg.wire() + hmac_sha1_of(self.secret@, msg.wire()));
        }
        r
    }

    /// What a received datagram means: an authentic run frame carries the
    /// next program to execute (an empty payload is an empty program, which
    /// ends immediately); everything else — a short frame, a frame that does
    /// not authenticate under this client's secret, or any other frame type
    /// — is ignored.
    pub fn handle_frame(&self, buffer: &[u8]) -> (r: Option<Program>)
        ensures
            ({
                let authentic = buffer@.len() >= 31 && buffer@.skip(buffer@.len() - 20)
                    == hmac_sha1_of(self.secret@, buffer@.take(buffer@.len() - 20));
                &&& (!authentic ==> r is None)
                &&& (authentic && MessageType::spec_from(buffer@[10]) != MessageType::Run ==> r
                    is None)
                &&& (authentic && MessageType::spec_from(buffer@[10]) == MessageType::Run ==> r
                    is Some && r->0.code@ == buffer@.subrange(11, buffer@.len() - 20)
                    && r->0.offset == 0)
            }),
    {
        let msg = match Message::from_buffer(buffer, self.secret.as_slice()) {
            Err(_) => {
                return None;
            },
            Ok(m) => m,
        };
        match msg.message_type {
            MessageType::Run => {
                match msg.payload {
                    Some(payload) => Some(Program::from_binary(payload)),
                    None => {
                        proof {
                            assert(Seq::<u8>::empty() =~= buffer@.subrange(
                                11,
                                buffer@.len() - 20,
                            ));
                        }
                        Some(Program::new())
                    },
                }
            },
            _ => None,
        }
    }
}

/// The machine loop's next move for each outcome of a slice: a filled slice
/// quota continues seamlessly, a yielded frame is paced, and an ended,
/// exhausted or failed program is replaced by the next one to arrive.
pub fn next_action(outcome: crate::vm::Outcome) -> (r: VmAction)
    ensures
        r == VmAction::ContinueSlice <==> outcome
            == crate::vm::Outcome::LocalInstructionLimitReached,
        r == VmAction::PaceFrame <==> outcome == crate::vm::Outcome::Yielded,
        r == VmAction::AwaitProgram <==> (outcome == crate::vm::Outcome::Ended || outcome
            == crate::vm::Outcome::GlobalInstructionLimitReached || outcome matches crate::vm::Outcome::Error(_)),
{
    match outcome {
        crate::vm::Outcome::LocalInstructionLimitReached => VmAction::ContinueSlice,
        crate::vm::Outcome::Yielded => VmAction::PaceFrame,
        crate::vm::Outcome::Ended => VmAction::AwaitProgram,
        crate::vm::Outcome::GlobalInstructionLimitReached => VmAction::AwaitProgram,
        crate::vm::Outcome::Error(_) => VmAction::AwaitProgram,
    }
}

} // verus!
