use vstd::prelude::*;

use crate::acceptor::{accept_next, accept_reply, prepare_next, prepare_reply, Acceptor};
use crate::proposal::Proposal;

verus! {

/// The capability a proposer needs from a participant: something that can
/// answer a prepare and an accept request.
///
/// `acceptor_state` is the acceptor state the implementation fronts — held
/// directly by [`LocalAgent`], or sitting behind a transport in a distributed
/// deployment. Every implementation must answer exactly as the acceptor state
/// machine does on that state; with that, the proposer's reasoning holds no
/// matter where the acceptor lives.
pub trait Agent {
    /// The acceptor state this agent answers for.
    spec fn acceptor_state(&self) -> Acceptor;

    /// Answer a phase-1 request, as `Acceptor::handle_prepare_request` would.
    fn prepare(&mut self, num: u32) -> (r: (Option<u32>, Option<Proposal>))
        ensures
            final(self).acceptor_state() == prepare_next(old(self).acceptor_state(), num),
            r == prepare_reply(old(self).acceptor_state(), num),
    ;

    /// Answer a phase-2 request, as `Acceptor::handle_accept_request` would.
    fn accept(&mut self, proposal: Proposal) -> (r: Option<u32>)
        ensures
            final(self).acceptor_state() == accept_next(old(self).acceptor_state(), proposal),
            r == accept_reply(old(self).acceptor_state(), proposal),
    ;
}

/// The in-process agent: wraps an acceptor and answers by calling its
/// handlers directly. The only implementation shipped here; remote adapters
/// are the extension point.
#[derive(Debug)]
pub struct LocalAgent {
    pub acceptor: Acceptor,
}

impl LocalAgent {
    pub fn new(acceptor: Acceptor) -> (agent: LocalAgent)
        ensures
            agent.acceptor == acceptor,
    {
        LocalAgent { acceptor }
    }
}

impl Agent for LocalAgent {
    open spec fn acceptor_state(&self) -> Acceptor {
        self.acceptor
    }

    fn prepare(&mut self, num: u32) -> (r: (Option<u32>, Option<Proposal>)) {
        self.acceptor.handle_prepare_request(num)
    }

    fn accept(&mut self, proposal: Proposal) -> (r: Option<u32>) {
        self.acceptor.handle_accept_request(proposal)
    }
}

} // verus!
