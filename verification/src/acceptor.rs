use vstd::prelude::*;

use crate::proposal::Proposal;

verus! {

/// The per-participant safety state machine.
///
/// `min_proposal` is the highest proposal number ever promised or accepted
/// (initially 0); `accepted_proposal` is the most recently accepted proposal,
/// if any. `min_proposal` never decreases; at the moment a proposal is
/// accepted its number equals `min_proposal`, and nothing below the current
/// threshold is ever accepted.
#[derive(Debug, Clone, Copy, PartialEq, Eq)]
pub struct Acceptor {
    pub min_proposal: u32,
    pub accepted_proposal: Option<Proposal>,
}

/// The acceptor state after a prepare request for `num`: the threshold rises
/// to `num` exactly when `num` beats it strictly; nothing else changes.
pub open spec fn prepare_next(a: Acceptor, num: u32) -> Acceptor {
    if num <= a.min_proposal {
        a
    } else {
        Acceptor { min_proposal: num, accepted_proposal: a.accepted_proposal }
    }
}

/// The reply to a prepare request for `num`: `(None, None)` is "no promise";
/// otherwise a promise for `num` together with the last accepted proposal.
pub open spec fn prepare_reply(a: Acceptor, num: u32) -> (Option<u32>, Option<Proposal>) {
    if num <= a.min_proposal {
        (None, None)
    } else {
        (Some(num), a.accepted_proposal)
    }
}

/// The acceptor state after an accept request for `p`: accepted exactly when
/// `p.number` is at least the threshold (an equal number must pass, so that
/// phase 2 succeeds wherever phase 1 was promised), raising the threshold to
/// `p.number` and recording `p`.
pub open spec fn accept_next(a: Acceptor, p: Proposal) -> Acceptor {
    if p.number < a.min_proposal {
        a
    } else {
        Acceptor { min_proposal: p.number, accepted_proposal: Some(p) }
    }
}

/// The reply to an accept request for `p`: the new threshold on acceptance,
/// `None` on rejection.
pub open spec fn accept_reply(a: Acceptor, p: Proposal) -> Option<u32> {
    if p.number < a.min_proposal {
        None
    } else {
        Some(p.number)
    }
}

/// Well-formedness: an accepted proposal never outruns the promise threshold.
pub open spec fn wf_acceptor(a: Acceptor) -> bool {
    a.accepted_proposal is Some ==> a.accepted_proposal->0.number <= a.min_proposal
}

impl Acceptor {
    /// A fresh acceptor: threshold 0, nothing accepted.
    pub fn new() -> (a: Acceptor)
        ensures
            a.min_proposal == 0,
            a.accepted_proposal is None,
    {
        Acceptor { min_proposal: 0, accepted_proposal: None }
    }

    /// Phase-1 handler. Rejects (returns `(None, None)`, meaning "no promise")
    /// whenever `num` does not strictly beat the threshold; otherwise promises
    /// `num`, raises the threshold to it, and reports the last accepted
    /// proposal so the caller can adopt its value.
    pub fn handle_prepare_request(&mut self, num: u32) -> (r: (Option<u32>, Option<Proposal>))
        ensures
            *final(self) == prepare_next(*old(self), num),
            r == prepare_reply(*old(self), num),
            final(self).min_proposal >= old(self).min_proposal,
            final(self).accepted_proposal == old(self).accepted_proposal,
    {
        if num <= self.min_proposal {
            return (None, None);
        }
        self.min_proposal = num;
        (Some(num), self.accepted_proposal)
    }

    /// Phase-2 handler. Rejects (returns `None`, no mutation) whenever
    /// `proposal.number` is strictly below the threshold; otherwise raises the
    /// threshold to `proposal.number`, records the proposal as accepted, and
    /// returns the new threshold.
    pub fn handle_accept_request(&mut self, proposal: Proposal) -> (r: Option<u32>)
        ensures
            *final(self) == accept_next(*old(self), proposal),
            r == accept_reply(*old(self), proposal),
            final(self).min_proposal >= old(self).min_proposal,
    {
        if proposal.number < self.min_proposal {
            return None;
        }
        self.min_proposal = proposal.number;
        self.accepted_proposal = Some(proposal);
        Some(self.min_proposal)
    }
}

/// One request arriving at an acceptor, of either kind.
pub enum AcceptorEvent {
    Prepare(u32),
    Accept(Proposal),
}

/// The acceptor state after one request of either kind.
pub open spec fn acceptor_step(a: Acceptor, e: AcceptorEvent) -> Acceptor {
    match e {
        AcceptorEvent::Prepare(num) => prepare_next(a, num),
        AcceptorEvent::Accept(p) => accept_next(a, p),
    }
}

/// The acceptor state after a whole sequence of requests, in order.
pub open spec fn acceptor_run(a: Acceptor, events: Seq<AcceptorEvent>) -> Acceptor
    decreases events.len(),
{
    if events.len() == 0 {
        a
    } else {
        acceptor_run(acceptor_step(a, events[0]), events.drop_first())
    }
}

/// Promise monotonicity: one request of either kind never lowers the
/// threshold.
pub proof fn lemma_step_monotone(a: Acceptor, e: AcceptorEvent)
    ensures
        acceptor_step(a, e).min_proposal >= a.min_proposal,
{
}

/// Promise monotonicity: across any sequence of prepare and accept requests,
/// `min_proposal` is non-decreasing at every step — in particular from the
/// first state to the last.
pub proof fn lemma_min_proposal_monotone(a: Acceptor, events: Seq<AcceptorEvent>)
    ensures
        acceptor_run(a, events).min_proposal >= a.min_proposal,
    decreases events.len(),
{
    if events.len() > 0 {
        lemma_step_monotone(a, events[0]);
        lemma_min_proposal_monotone(acceptor_step(a, events[0]), events.drop_first());
    }
}

/// Running a concatenation of request sequences is running them one after
/// the other.
pub proof fn lemma_run_append(a: Acceptor, first: Seq<AcceptorEvent>, second: Seq<AcceptorEvent>)
    ensures
        acceptor_run(a, first + second) == acceptor_run(acceptor_run(a, first), second),
    decreases first.len(),
{
    if first.len() == 0 {
        assert(first + second =~= second);
    } else {
        assert((first + second)[0] == first[0]);
        assert((first + second).drop_first() =~= first.drop_first() + second);
        lemma_run_append(acceptor_step(a, first[0]), first.drop_first(), second);
    }
}

/// The request at position `k` was a prepare for `n` and won a promise.
pub open spec fn promised_at(
    a: Acceptor,
    events: Seq<AcceptorEvent>,
    k: int,
    n: u32,
) -> bool {
    events[k] == AcceptorEvent::Prepare(n) && prepare_reply(
        acceptor_run(a, events.take(k)),
        n,
    ).0 is Some
}

/// An acceptor promises any given number at most once in its lifetime:
/// winning a promise for `n` raises the threshold to `n`, the threshold never
/// decreases, and the tie-break rejects an equal number. However the requests
/// of competing proposers interleave at a shared acceptor, no two of them can
/// both collect its promise for the same number.
pub proof fn lemma_promise_unique(
    a: Acceptor,
    events: Seq<AcceptorEvent>,
    k1: int,
    k2: int,
    n: u32,
)
    requires
        0 <= k1 < k2 < events.len(),
        events[k2] == AcceptorEvent::Prepare(n),
        promised_at(a, events, k1, n),
    ensures
        !promised_at(a, events, k2, n),
{
    let before = acceptor_run(a, events.take(k1));
    let lone = seq![events[k1]];
    assert(events.take(k1 + 1) =~= events.take(k1) + lone);
    lemma_run_append(a, events.take(k1), lone);
    assert(lone.drop_first() =~= Seq::<AcceptorEvent>::empty());
    assert(acceptor_run(before, lone) == acceptor_run(
        acceptor_step(before, lone[0]),
        lone.drop_first(),
    ));
    assert(acceptor_run(acceptor_step(before, events[k1]), Seq::<AcceptorEvent>::empty())
        == acceptor_step(before, events[k1]));
    assert(acceptor_run(a, events.take(k1 + 1)) == acceptor_step(before, events[k1]));
    assert(acceptor_run(a, events.take(k1 + 1)).min_proposal >= n);
    assert(events.take(k2) =~= events.take(k1 + 1) + events.subrange(k1 + 1, k2));
    lemma_run_append(a, events.take(k1 + 1), events.subrange(k1 + 1, k2));
    lemma_min_proposal_monotone(
        acceptor_run(a, events.take(k1 + 1)),
        events.subrange(k1 + 1, k2),
    );
    assert(acceptor_run(a, events.take(k2)).min_proposal >= n);
}

/// Well-formedness is established by `Acceptor::new` and preserved by every
/// request of either kind.
pub proof fn lemma_wf_preserved(a: Acceptor, e: AcceptorEvent)
    requires
        wf_acceptor(a),
    ensures
        wf_acceptor(acceptor_step(a, e)),
{
}

/// Prepare tie-break: a prepare that wins a promise for `n` leaves the
/// acceptor rejecting a second prepare for the same `n`.
pub proof fn lemma_prepare_tie_break(a: Acceptor, n: u32)
    requires
        a.min_proposal < n,
    ensures
        prepare_reply(a, n).0 == Some(n),
        prepare_reply(prepare_next(a, n), n) == (None::<u32>, None::<Proposal>),
{
}

/// Accept boundary: a proposal numbered exactly at the threshold is accepted;
/// one numbered below is rejected and leaves the whole state — the accepted
/// proposal included — unchanged.
pub proof fn lemma_accept_boundary(a: Acceptor, p: Proposal)
    ensures
        p.number == a.min_proposal ==> accept_reply(a, p) == Some(p.number)
            && accept_next(a, p).accepted_proposal == Some(p),
        p.number < a.min_proposal ==> accept_reply(a, p) is None && accept_next(a, p) == a,
{
}

} // verus!
