use vstd::prelude::*;
use vstd::string::StringExecFns;

use crate::acceptor::{accept_next, accept_reply, prepare_next, prepare_reply, Acceptor};
use crate::agent::Agent;
use crate::messages::ConsensusError;
use crate::proposal::Proposal;

verus! {

/// Which phase of a propose attempt failed, at the level of the protocol
/// model. `ConsensusError` is the executable counterpart carrying a message.
pub enum ProposeFailure {
    PrepareRejected,
    AcceptRejected,
}

/// The acceptor states behind a roster of agents, in roster order.
pub open spec fn roster_views<A: Agent>(agents: Seq<A>) -> Seq<Acceptor> {
    agents.map_values(|a: A| a.acceptor_state())
}

/// Quorum size for a roster of `n` acceptors: `n / 2 + 1`.
pub open spec fn spec_majority(n: nat) -> nat {
    n / 2 + 1
}

/// The replies of one prepare round at number `num`: every acceptor in the
/// roster is asked.
pub open spec fn prepare_round_replies(views: Seq<Acceptor>, num: u32) -> Seq<
    (Option<u32>, Option<Proposal>),
> {
    views.map_values(|a: Acceptor| prepare_reply(a, num))
}

/// The acceptor states after one prepare round at number `num`.
pub open spec fn prepare_round_next(views: Seq<Acceptor>, num: u32) -> Seq<Acceptor> {
    views.map_values(|a: Acceptor| prepare_next(a, num))
}

/// The replies of one accept round for proposal `p`.
pub open spec fn accept_round_replies(views: Seq<Acceptor>, p: Proposal) -> Seq<Option<u32>> {
    views.map_values(|a: Acceptor| accept_reply(a, p))
}

/// The acceptor states after one accept round for proposal `p`.
pub open spec fn accept_round_next(views: Seq<Acceptor>, p: Proposal) -> Seq<Acceptor> {
    views.map_values(|a: Acceptor| accept_next(a, p))
}

/// Consuming prepare replies in arrival order, starting at position `i` with
/// the running totals given: count promises, adopt the highest-numbered
/// previously-accepted proposal reported so far (only a strictly greater
/// number replaces the candidate), and stop the moment `maj` promises are in
/// hand. Returns the promise count and the candidate at the stopping point.
pub open spec fn prepare_scan(
    replies: Seq<(Option<u32>, Option<Proposal>)>,
    maj: nat,
    i: nat,
    promises: nat,
    max_accepted_num: u32,
    candidate: Option<Proposal>,
) -> (nat, Option<Proposal>)
    decreases replies.len() - i,
{
    if i >= replies.len() || promises >= maj {
        (promises, candidate)
    } else {
        let (promised, accepted) = replies[i as int];
        if promised is None {
            prepare_scan(replies, maj, i + 1, promises, max_accepted_num, candidate)
        } else if accepted is Some && accepted->0.number > max_accepted_num {
            prepare_scan(replies, maj, i + 1, promises + 1, accepted->0.number, accepted)
        } else {
            prepare_scan(replies, maj, i + 1, promises + 1, max_accepted_num, candidate)
        }
    }
}

/// Phase-1 fan-in over a whole round's replies: promise count and adopted
/// candidate at the stopping point.
pub open spec fn prepare_tally(
    replies: Seq<(Option<u32>, Option<Proposal>)>,
    maj: nat,
) -> (nat, Option<Proposal>) {
    prepare_scan(replies, maj, 0, 0, 0, None)
}

/// Consuming accept replies in arrival order from position `i`: count
/// acceptances, stopping the moment `maj` are in hand.
pub open spec fn accept_scan(replies: Seq<Option<u32>>, maj: nat, i: nat, accepts: nat) -> nat
    decreases replies.len() - i,
{
    if i >= replies.len() || accepts >= maj {
        accepts
    } else if replies[i as int] is None {
        accept_scan(replies, maj, i + 1, accepts)
    } else {
        accept_scan(replies, maj, i + 1, accepts + 1)
    }
}

/// Phase-2 fan-in over a whole round's replies.
pub open spec fn accept_tally(replies: Seq<Option<u32>>, maj: nat) -> nat {
    accept_scan(replies, maj, 0, 0)
}

/// The value phase 2 drives after a prepare round at `num` over `views`: the
/// adopted candidate's value if phase 1 reported one, else the caller's own
/// `value`. This is the adoption rule that preserves a value a prior proposer
/// may already have gotten a majority to accept.
pub open spec fn spec_adopted_value(views: Seq<Acceptor>, num: u32, value: u32) -> u32 {
    let (promises, candidate) = prepare_tally(
        prepare_round_replies(views, num),
        spec_majority(views.len()),
    );
    if candidate is Some {
        candidate->0.value
    } else {
        value
    }
}

/// One whole propose attempt at number `num` over the roster states `views`:
/// a prepare round reaching every acceptor, the fan-in tally, then — only on a
/// quorum of promises — an accept round reaching every acceptor with the
/// (possibly adopted) value, and its tally. Returns the roster states after
/// the attempt together with its outcome.
pub open spec fn spec_propose(views: Seq<Acceptor>, num: u32, value: u32) -> (
    Seq<Acceptor>,
    Result<u32, ProposeFailure>,
) {
    let maj = spec_majority(views.len());
    let (promises, candidate) = prepare_tally(prepare_round_replies(views, num), maj);
    let views1 = prepare_round_next(views, num);
    if promises < maj {
        (views1, Err(ProposeFailure::PrepareRejected))
    } else {
        let chosen = spec_adopted_value(views, num, value);
        let p = Proposal { number: num, value: chosen };
        let accepts = accept_tally(accept_round_replies(views1, p), maj);
        let views2 = accept_round_next(views1, p);
        if accepts < maj {
            (views2, Err(ProposeFailure::AcceptRejected))
        } else {
            (views2, Ok(chosen))
        }
    }
}

/// Drives phase 1 (prepare/promise) and phase 2 (accept/accepted) against a
/// roster of agents, with majority-gated fan-in.
///
/// `num` is this proposer's proposal number, fixed at 1 by `new`; `value` is
/// the value currently driven toward consensus, and may be overwritten by the
/// adoption rule. The roster is handed to each call by exclusive reference:
/// one handler invocation at a time per acceptor, which is the serialization
/// the protocol demands of shared acceptors.
#[derive(Debug)]
pub struct Proposer {
    pub num: u32,
    pub value: Option<u32>,
}

impl Proposer {
    /// A single-shot proposer: proposal number 1, no value yet.
    pub fn new() -> (p: Proposer)
        ensures
            p.num == 1,
            p.value is None,
    {
        Proposer { num: 1, value: None }
    }

    /// Quorum size for `n_acceptors` participants: `n / 2 + 1` with integer
    /// division, so 1,2,2,3,3 for rosters of size 1 through 5.
    pub fn majority(n_acceptors: usize) -> (m: usize)
        ensures
            m == spec_majority(n_acceptors as nat),
    {
        n_acceptors / 2 + 1
    }

    /// Phase 1: ask every agent in the roster to prepare at `self.num`, then
    /// consume the replies in arrival order until a majority of promises is
    /// in hand or the roster is exhausted. On a quorum of promises, returns
    /// the adopted candidate (`None` when no acceptor had accepted anything);
    /// otherwise the attempt fails with a `PrepareError`.
    pub fn initiate_prepare_request<A: Agent>(&self, acceptors: &mut Vec<A>) -> (r: Result<
        Option<Proposal>,
        ConsensusError,
    >)
        ensures
            roster_views(final(acceptors)@) == prepare_round_next(
                roster_views(old(acceptors)@),
                self.num,
            ),
            ({
                let (promises, candidate) = prepare_tally(
                    prepare_round_replies(roster_views(old(acceptors)@), self.num),
                    spec_majority(old(acceptors)@.len()),
                );
                if promises >= spec_majority(old(acceptors)@.len()) {
                    r == Ok::<Option<Proposal>, ConsensusError>(candidate)
                } else {
                    r matches Err(ConsensusError::PrepareError(m)) && m@ == "Preparing failed"@
                }
            }),
    {
        let n = acceptors.len();
        // fan-out: every agent is asked; replies arrive here in roster order
        let mut replies: Vec<(Option<u32>, Option<Proposal>)> = Vec::new();
        let mut i: usize = 0;
        while i < n
            invariant
                n == old(acceptors)@.len(),
                acceptors@.len() == n,
                i <= n,
                replies@.len() == i,
                forall|k: int|
                    0 <= k < i ==> #[trigger] acceptors@[k].acceptor_state() == prepare_next(
                        old(acceptors)@[k].acceptor_state(),
                        self.num,
                    ),
                forall|k: int|
                    0 <= k < i ==> #[trigger] replies@[k] == prepare_reply(
                        old(acceptors)@[k].acceptor_state(),
                        self.num,
                    ),
                forall|k: int| i <= k < n ==> acceptors@[k] == old(acceptors)@[k],
            decreases n - i,
        {
            let reply = acceptors[i].prepare(self.num);
            replies.push(reply);
            i += 1;
        }
        proof {
            assert(roster_views(acceptors@) =~= prepare_round_next(
                roster_views(old(acceptors)@),
                self.num,
            ));
            assert(replies@ =~= prepare_round_replies(roster_views(old(acceptors)@), self.num));
        }

        // fan-in: count promises and adopt, stopping early at a majority
        let maj = Proposer::majority(n);
        let mut promises: usize = 0;
        let mut max_accepted_num: u32 = 0;
        let mut candidate: Option<Proposal> = None;
        let mut j: usize = 0;
        while j < n && promises < maj
            invariant
                j <= n,
                promises <= j,
                replies@.len() == n,
                maj == spec_majority(n as nat),
                prepare_tally(replies@, maj as nat) == prepare_scan(
                    replies@,
                    maj as nat,
                    j as nat,
                    promises as nat,
                    max_accepted_num,
                    candidate,
                ),
            decreases n - j,
        {
            let (promised, accepted) = replies[j];
            if promised.is_some() {
                promises = promises + 1;
                if let Some(p) = accepted {
                    if p.number > max_accepted_num {
                        max_accepted_num = p.number;
                        candidate = Some(p);
                    }
                }
            }
            j += 1;
        }

        if promises < maj {
            Err(ConsensusError::PrepareError(String::from_str("Preparing failed")))
        } else {
            Ok(candidate)
        }
    }

    /// Phase 2: ask every agent in the roster to accept
    /// `Proposal(self.num, self.value)`, then count acceptances in arrival
    /// order until a majority is in hand or the roster is exhausted. On a
    /// quorum, the value is chosen and returned; otherwise the attempt fails
    /// with an `AcceptError`.
    pub fn initiate_accept_request<A: Agent>(&self, acceptors: &mut Vec<A>) -> (r: Result<
        u32,
        ConsensusError,
    >)
        requires
            self.value is Some,
        ensures
            roster_views(final(acceptors)@) == accept_round_next(
                roster_views(old(acceptors)@),
                (Proposal { number: self.num, value: self.value->0 }),
            ),
            ({
                let p = Proposal { number: self.num, value: self.value->0 };
                let accepts = accept_tally(
                    accept_round_replies(roster_views(old(acceptors)@), p),
                    spec_majority(old(acceptors)@.len()),
                );
                if accepts >= spec_majority(old(acceptors)@.len()) {
                    r == Ok::<u32, ConsensusError>(self.value->0)
                } else {
                    r matches Err(ConsensusError::AcceptError(m)) && m@ == "Accepting failed"@
                }
            }),
    {
        let proposal = Proposal::new(self.num, self.value.unwrap());
        let n = acceptors.len();
        // fan-out: every agent is asked; replies arrive here in roster order
        let mut replies: Vec<Option<u32>> = Vec::new();
        let mut i: usize = 0;
        while i < n
            invariant
                n == old(acceptors)@.len(),
                acceptors@.len() == n,
                i <= n,
                replies@.len() == i,
                proposal == (Proposal { number: self.num, value: self.value->0 }),
                forall|k: int|
                    0 <= k < i ==> #[trigger] acceptors@[k].acceptor_state() == accept_next(
                        old(acceptors)@[k].acceptor_state(),
                        proposal,
                    ),
                forall|k: int|
                    0 <= k < i ==> #[trigger] replies@[k] == accept_reply(
                        old(acceptors)@[k].acceptor_state(),
                        proposal,
                    ),
                forall|k: int| i <= k < n ==> acceptors@[k] == old(acceptors)@[k],
            decreases n - i,
        {
            let reply = acceptors[i].accept(proposal);
            replies.push(reply);
            i += 1;
        }
        proof {
            assert(roster_views(acceptors@) =~= accept_round_next(
                roster_views(old(acceptors)@),
                proposal,
            ));
            assert(replies@ =~= accept_round_replies(roster_views(old(acceptors)@), proposal));
        }

        // fan-in: count acceptances, stopping early at a majority
        let maj = Proposer::majority(n);
        let mut accepts: usize = 0;
        let mut j: usize = 0;
        while j < n && accepts < maj
            invariant
                j <= n,
                accepts <= j,
                replies@.len() == n,
                maj == spec_majority(n as nat),
                accept_tally(replies@, maj as nat) == accept_scan(
                    replies@,
                    maj as nat,
                    j as nat,
                    accepts as nat,
                ),
            decreases n - j,
        {
            let accepted_number = replies[j];
            if accepted_number.is_some() {
                accepts = accepts + 1;
            }
            j += 1;
        }

        if accepts < maj {
            Err(ConsensusError::AcceptError(String::from_str("Accepting failed")))
        } else {
            Ok(self.value.unwrap())
        }
    }

    /// One propose attempt: run phase 1; on failure, report the
    /// `PrepareError` without attempting phase 2; on success, adopt the
    /// reported candidate value if there is one, then run phase 2 and either
    /// return the finally-chosen value — which is the adopted value whenever
    /// adoption overrode the caller's — or report the `AcceptError`.
    pub fn propose<A: Agent>(&mut self, acceptors: &mut Vec<A>, value: u32) -> (r: Result<
        u32,
        ConsensusError,
    >)
        ensures
            final(self).num == old(self).num,
            roster_views(final(acceptors)@) == spec_propose(
                roster_views(old(acceptors)@),
                old(self).num,
                value,
            ).0,
            ({
                let outcome = spec_propose(
                    roster_views(old(acceptors)@),
                    old(self).num,
                    value,
                ).1;
                let adopted = spec_adopted_value(
                    roster_views(old(acceptors)@),
                    old(self).num,
                    value,
                );
                match r {
                    Ok(chosen) => outcome == Ok::<u32, ProposeFailure>(chosen)
                        && final(self).value == Some(chosen),
                    Err(ConsensusError::PrepareError(m)) => outcome
                        == Err::<u32, ProposeFailure>(ProposeFailure::PrepareRejected)
                        && m@ == "Preparing failed"@
                        && final(self).value == Some(value),
                    Err(ConsensusError::AcceptError(m)) => outcome
                        == Err::<u32, ProposeFailure>(ProposeFailure::AcceptRejected)
                        && m@ == "Accepting failed"@
                        && final(self).value == Some(adopted),
                }
            }),
    {
        self.value = Some(value);

        match self.initiate_prepare_request(acceptors) {
            Ok(existing_accepted_value) => {
                if let Some(existing) = existing_accepted_value {
                    self.value = Some(existing.value);
                }
            },
            Err(e) => {
                return Err(e);
            },
        }

        self.initiate_accept_request(acceptors)
    }
}

} // verus!
