use vstd::prelude::*;

use crate::acceptor::{accept_next, prepare_next, wf_acceptor, Acceptor};
use crate::proposal::Proposal;
use crate::proposer::{
    accept_round_next, accept_round_replies, accept_scan, accept_tally, prepare_round_next,
    prepare_round_replies, prepare_scan, prepare_tally, spec_adopted_value, spec_majority,
    spec_propose, ProposeFailure,
};

verus! {

/// A prepare round at `num` leaves every acceptor's threshold at `num` or
/// above: promisers are raised to `num`, everyone else already was above it.
pub proof fn lemma_prepare_round_raises_all(views: Seq<Acceptor>, num: u32)
    ensures
        forall|i: int|
            0 <= i < views.len() ==> #[trigger] prepare_round_next(views, num)[i].min_proposal
                >= num,
{
    assert forall|i: int| 0 <= i < views.len() implies #[trigger] prepare_round_next(
        views,
        num,
    )[i].min_proposal >= num by {
        assert(prepare_round_next(views, num)[i] == prepare_next(views[i], num));
    }
}

/// Whatever its outcome, a propose attempt at `num` leaves every acceptor's
/// threshold at `num` or above: the prepare round alone already raises it,
/// and an accept round for a proposal numbered `num` never lowers it.
pub proof fn lemma_propose_raises_all(views: Seq<Acceptor>, num: u32, value: u32)
    ensures
        spec_propose(views, num, value).0.len() == views.len(),
        forall|i: int|
            0 <= i < views.len() ==> #[trigger] spec_propose(
                views,
                num,
                value,
            ).0[i].min_proposal >= num,
{
    lemma_prepare_round_raises_all(views, num);
    let views1 = prepare_round_next(views, num);
    let chosen = spec_adopted_value(views, num, value);
    let p = Proposal { number: num, value: chosen };
    assert forall|i: int| 0 <= i < views.len() implies #[trigger] accept_round_next(
        views1,
        p,
    )[i].min_proposal >= num by {
        assert(views1[i].min_proposal >= num);
    }
}

/// A scan over replies that hold no promise at all counts nothing and adopts
/// nothing beyond what it started with.
proof fn lemma_scan_all_rejections(
    replies: Seq<(Option<u32>, Option<Proposal>)>,
    maj: nat,
    i: nat,
    promises: nat,
    max_accepted_num: u32,
    candidate: Option<Proposal>,
)
    requires
        forall|k: int| i <= k < replies.len() ==> (#[trigger] replies[k]).0 is None,
    ensures
        prepare_scan(replies, maj, i, promises, max_accepted_num, candidate) == (
            promises,
            candidate,
        ),
    decreases replies.len() - i,
{
    if i < replies.len() && promises < maj {
        lemma_scan_all_rejections(replies, maj, i + 1, promises, max_accepted_num, candidate);
    }
}

/// Once every acceptor's threshold is at `num` or above, a prepare round at
/// `num` wins no promise: the tie-break rejects an equal number, so the tally
/// is zero and nothing is adopted.
pub proof fn lemma_no_promises_when_all_raised(views: Seq<Acceptor>, num: u32, maj: nat)
    requires
        forall|i: int| 0 <= i < views.len() ==> (#[trigger] views[i]).min_proposal >= num,
    ensures
        prepare_tally(prepare_round_replies(views, num), maj) == (0nat, None::<Proposal>),
{
    let replies = prepare_round_replies(views, num);
    assert forall|k: int| 0 <= k < replies.len() implies (#[trigger] replies[k]).0 is None by {
        assert(views[k].min_proposal >= num);
    }
    lemma_scan_all_rejections(replies, maj, 0, 0, 0, None);
}

/// After any propose attempt at number `n` has run against a roster, a later
/// attempt at a number `m <= n` against the same roster fails in phase 1:
/// the first attempt's prepare round already drove every threshold to `n`,
/// and no acceptor promises at or below its threshold.
pub proof fn lemma_no_lower_reproposal(views: Seq<Acceptor>, n: u32, v1: u32, m: u32, v2: u32)
    requires
        m <= n,
    ensures
        spec_propose(spec_propose(views, n, v1).0, m, v2).1 == Err::<u32, ProposeFailure>(
            ProposeFailure::PrepareRejected,
        ),
{
    lemma_propose_raises_all(views, n, v1);
    let views1 = spec_propose(views, n, v1).0;
    let maj = spec_majority(views1.len());
    lemma_no_promises_when_all_raised(views1, m, maj);
}

/// Single-decree agreement. Proposers built by this library all carry
/// proposal number 1, and the prepare tie-break rejects an equal number; so
/// once one propose over a roster has succeeded, no later propose over the
/// same roster succeeds again, and any two successful outcomes necessarily
/// carry the same value.
pub proof fn lemma_single_decree_agreement(views: Seq<Acceptor>, v1: u32, v2: u32)
    ensures
        ({
            let (views1, r1) = spec_propose(views, 1, v1);
            let r2 = spec_propose(views1, 1, v2).1;
            (r1 is Ok && r2 is Ok) ==> r1 == r2
        }),
{
    lemma_no_lower_reproposal(views, 1, v1, 1, v2);
}

/// Adoption. When phase 1 reports a previously-accepted candidate, the value
/// the attempt drives — and the value chosen on success — is that candidate's
/// value, whatever value the caller originally intended: the attempt's whole
/// outcome no longer depends on the caller's value at all.
pub proof fn lemma_adoption(views: Seq<Acceptor>, num: u32, value: u32, other_value: u32)
    requires
        prepare_tally(
            prepare_round_replies(views, num),
            spec_majority(views.len()),
        ).1 is Some,
    ensures
        spec_propose(views, num, value) == spec_propose(views, num, other_value),
        spec_propose(views, num, value).1 is Ok ==> spec_propose(views, num, value).1
            == Ok::<u32, ProposeFailure>(
            prepare_tally(
                prepare_round_replies(views, num),
                spec_majority(views.len()),
            ).1->0.value,
        ),
{
}

/// The adopted candidate is never invented: starting from a candidate already
/// reported (or none), whatever candidate the scan ends with was reported by
/// some reply it consumed.
proof fn lemma_scan_candidate_reported(
    replies: Seq<(Option<u32>, Option<Proposal>)>,
    maj: nat,
    i: nat,
    promises: nat,
    max_accepted_num: u32,
    candidate: Option<Proposal>,
)
    requires
        candidate is Some ==> exists|k: int|
            0 <= k < replies.len() && (#[trigger] replies[k]).1 == candidate,
    ensures
        prepare_scan(replies, maj, i, promises, max_accepted_num, candidate).1 is Some
            ==> exists|k: int|
            0 <= k < replies.len() && (#[trigger] replies[k]).1 == prepare_scan(
                replies,
                maj,
                i,
                promises,
                max_accepted_num,
                candidate,
            ).1,
    decreases replies.len() - i,
{
    if i < replies.len() && promises < maj {
        let (promised, accepted) = replies[i as int];
        if promised is None {
            lemma_scan_candidate_reported(replies, maj, i + 1, promises, max_accepted_num,
                candidate);
        } else if accepted is Some && accepted->0.number > max_accepted_num {
            assert(replies[i as int].1 == accepted);
            lemma_scan_candidate_reported(replies, maj, i + 1, promises + 1,
                accepted->0.number, accepted);
        } else {
            lemma_scan_candidate_reported(replies, maj, i + 1, promises + 1, max_accepted_num,
                candidate);
        }
    }
}

/// The candidate a phase-1 tally adopts, when there is one, is a proposal
/// that some acceptor in the round actually reported as accepted.
pub proof fn lemma_candidate_reported(views: Seq<Acceptor>, num: u32, maj: nat)
    ensures
        prepare_tally(prepare_round_replies(views, num), maj).1 is Some ==> exists|k: int|
            0 <= k < views.len() && (#[trigger] prepare_round_replies(views, num)[k]).1
                == prepare_tally(prepare_round_replies(views, num), maj).1,
{
    let replies = prepare_round_replies(views, num);
    lemma_scan_candidate_reported(replies, maj, 0, 0, 0, None);
}

/// An acceptor whose accepted proposal is numbered at least `n`.
pub open spec fn has_high_accepted(a: Acceptor, n: u32) -> bool {
    a.accepted_proposal is Some && a.accepted_proposal->0.number >= n
}

/// How many acceptors from position `i` on hold accepted proposals numbered
/// at least `n`.
pub open spec fn count_high_accepted(views: Seq<Acceptor>, n: u32, i: nat) -> nat
    decreases views.len() - i,
{
    if i >= views.len() {
        0
    } else {
        (if has_high_accepted(views[i as int], n) {
            1nat
        } else {
            0nat
        }) + count_high_accepted(views, n, i + 1)
    }
}

/// How many prepare replies from position `i` on are promises.
pub open spec fn count_promises(replies: Seq<(Option<u32>, Option<Proposal>)>, i: nat) -> nat
    decreases replies.len() - i,
{
    if i >= replies.len() {
        0
    } else {
        (if replies[i as int].0 is Some {
            1nat
        } else {
            0nat
        }) + count_promises(replies, i + 1)
    }
}

/// A promise whose report is not an accepted proposal numbered at least `n`.
pub open spec fn is_low_promise(r: (Option<u32>, Option<Proposal>), n: u32) -> bool {
    r.0 is Some && !(r.1 is Some && r.1->0.number >= n)
}

/// How many prepare replies from position `i` on are low promises for `n`.
pub open spec fn count_low_promises(
    replies: Seq<(Option<u32>, Option<Proposal>)>,
    n: u32,
    i: nat,
) -> nat
    decreases replies.len() - i,
{
    if i >= replies.len() {
        0
    } else {
        (if is_low_promise(replies[i as int], n) {
            1nat
        } else {
            0nat
        }) + count_low_promises(replies, n, i + 1)
    }
}

/// How many accept replies from position `i` on are acceptances.
pub open spec fn count_acceptances(replies: Seq<Option<u32>>, i: nat) -> nat
    decreases replies.len() - i,
{
    if i >= replies.len() {
        0
    } else {
        (if replies[i as int] is Some {
            1nat
        } else {
            0nat
        }) + count_acceptances(replies, i + 1)
    }
}

/// The promise count a prepare scan ends with never exceeds the promises
/// already counted plus those still ahead, and reaches `maj` whenever that
/// total does.
proof fn lemma_prepare_scan_promise_bounds(
    replies: Seq<(Option<u32>, Option<Proposal>)>,
    maj: nat,
    i: nat,
    promises: nat,
    max_accepted_num: u32,
    candidate: Option<Proposal>,
)
    ensures
        prepare_scan(replies, maj, i, promises, max_accepted_num, candidate).0 <= promises
            + count_promises(replies, i),
        promises + count_promises(replies, i) >= maj ==> prepare_scan(
            replies,
            maj,
            i,
            promises,
            max_accepted_num,
            candidate,
        ).0 >= maj,
    decreases replies.len() - i,
{
    if i < replies.len() && promises < maj {
        let (promised, accepted) = replies[i as int];
        if promised is None {
            lemma_prepare_scan_promise_bounds(replies, maj, i + 1, promises, max_accepted_num,
                candidate);
        } else if accepted is Some && accepted->0.number > max_accepted_num {
            lemma_prepare_scan_promise_bounds(replies, maj, i + 1, promises + 1,
                accepted->0.number, accepted);
        } else {
            lemma_prepare_scan_promise_bounds(replies, maj, i + 1, promises + 1,
                max_accepted_num, candidate);
        }
    }
}

/// The acceptance count an accept scan ends with never exceeds the
/// acceptances already counted plus those still ahead, and reaches `maj`
/// whenever that total does.
proof fn lemma_accept_scan_bounds(replies: Seq<Option<u32>>, maj: nat, i: nat, accepts: nat)
    ensures
        accept_scan(replies, maj, i, accepts) <= accepts + count_acceptances(replies, i),
        accepts + count_acceptances(replies, i) >= maj ==> accept_scan(replies, maj, i, accepts)
            >= maj,
    decreases replies.len() - i,
{
    if i < replies.len() && accepts < maj {
        if replies[i as int] is None {
            lemma_accept_scan_bounds(replies, maj, i + 1, accepts);
        } else {
            lemma_accept_scan_bounds(replies, maj, i + 1, accepts + 1);
        }
    }
}

/// Once the scan has seen an accepted proposal numbered `max >= n`, the
/// candidate it ends with is numbered at least `n`: the running maximum only
/// grows, and the candidate always carries it.
proof fn lemma_scan_keeps_high_candidate(
    replies: Seq<(Option<u32>, Option<Proposal>)>,
    maj: nat,
    i: nat,
    promises: nat,
    max_accepted_num: u32,
    candidate: Option<Proposal>,
    n: u32,
)
    requires
        max_accepted_num >= n,
        candidate is Some,
        candidate->0.number == max_accepted_num,
    ensures
        ({
            let c = prepare_scan(replies, maj, i, promises, max_accepted_num, candidate).1;
            c is Some && c->0.number >= n
        }),
    decreases replies.len() - i,
{
    if i < replies.len() && promises < maj {
        let (promised, accepted) = replies[i as int];
        if promised is None {
            lemma_scan_keeps_high_candidate(replies, maj, i + 1, promises, max_accepted_num,
                candidate, n);
        } else if accepted is Some && accepted->0.number > max_accepted_num {
            lemma_scan_keeps_high_candidate(replies, maj, i + 1, promises + 1,
                accepted->0.number, accepted, n);
        } else {
            lemma_scan_keeps_high_candidate(replies, maj, i + 1, promises + 1, max_accepted_num,
                candidate, n);
        }
    }
}

/// As long as the low promises still ahead cannot take the count to `maj` by
/// themselves, a scan that does reach `maj` promises must have consumed a
/// high one — so the candidate it adopts is numbered at least `n`.
proof fn lemma_scan_quorum_candidate_high(
    replies: Seq<(Option<u32>, Option<Proposal>)>,
    maj: nat,
    i: nat,
    promises: nat,
    max_accepted_num: u32,
    candidate: Option<Proposal>,
    n: u32,
)
    requires
        promises + count_low_promises(replies, n, i) < maj,
        max_accepted_num < n,
        candidate is Some ==> candidate->0.number == max_accepted_num,
    ensures
        ({
            let (final_promises, c) = prepare_scan(
                replies,
                maj,
                i,
                promises,
                max_accepted_num,
                candidate,
            );
            final_promises >= maj ==> c is Some && c->0.number >= n
        }),
    decreases replies.len() - i,
{
    if i < replies.len() && promises < maj {
        let (promised, accepted) = replies[i as int];
        if promised is None {
            lemma_scan_quorum_candidate_high(replies, maj, i + 1, promises, max_accepted_num,
                candidate, n);
        } else if accepted is Some && accepted->0.number > max_accepted_num {
            if accepted->0.number >= n {
                lemma_scan_keeps_high_candidate(replies, maj, i + 1, promises + 1,
                    accepted->0.number, accepted, n);
            } else {
                lemma_scan_quorum_candidate_high(replies, maj, i + 1, promises + 1,
                    accepted->0.number, accepted, n);
            }
        } else {
            lemma_scan_quorum_candidate_high(replies, maj, i + 1, promises + 1, max_accepted_num,
                candidate, n);
        }
    }
}

/// A low promise reports exactly its acceptor's accepted proposal, so where
/// the acceptor holds a high one the reply cannot be a low promise: the two
/// counts never overlap.
proof fn lemma_low_promises_high_accepted_disjoint(views: Seq<Acceptor>, num: u32, n: u32, i: nat)
    requires
        i <= views.len(),
    ensures
        count_low_promises(prepare_round_replies(views, num), n, i) + count_high_accepted(
            views,
            n,
            i,
        ) <= views.len() - i,
    decreases views.len() - i,
{
    let replies = prepare_round_replies(views, num);
    assert(replies.len() == views.len());
    if i < views.len() {
        assert(replies[i as int] == crate::acceptor::prepare_reply(views[i as int], num));
        assert(!(is_low_promise(replies[i as int], n) && has_high_accepted(views[i as int], n)));
        lemma_low_promises_high_accepted_disjoint(views, num, n, i + 1);
    }
}

/// An acceptor holding an accepted proposal numbered at least `n` has its
/// threshold there too (well-formedness), so it cannot promise a number
/// `num <= n`: the two counts never overlap.
proof fn lemma_promises_high_accepted_disjoint(views: Seq<Acceptor>, num: u32, n: u32, i: nat)
    requires
        i <= views.len(),
        num <= n,
        forall|k: int| 0 <= k < views.len() ==> wf_acceptor(#[trigger] views[k]),
    ensures
        count_promises(prepare_round_replies(views, num), i) + count_high_accepted(views, n, i)
            <= views.len() - i,
    decreases views.len() - i,
{
    let replies = prepare_round_replies(views, num);
    assert(replies.len() == views.len());
    if i < views.len() {
        assert(replies[i as int] == crate::acceptor::prepare_reply(views[i as int], num));
        assert(wf_acceptor(views[i as int]));
        assert(!(replies[i as int].0 is Some && has_high_accepted(views[i as int], n)));
        lemma_promises_high_accepted_disjoint(views, num, n, i + 1);
    }
}

/// Every acceptance in an accept round leaves its acceptor holding the
/// round's proposal: acceptances are counted among the high accepted.
proof fn lemma_acceptances_become_high(views: Seq<Acceptor>, p: Proposal, i: nat)
    ensures
        count_high_accepted(accept_round_next(views, p), p.number, i) >= count_acceptances(
            accept_round_replies(views, p),
            i,
        ),
    decreases views.len() - i,
{
    if i < views.len() {
        assert(accept_round_replies(views, p)[i as int] == crate::acceptor::accept_reply(
            views[i as int],
            p,
        ));
        assert(accept_round_next(views, p)[i as int] == accept_next(views[i as int], p));
        lemma_acceptances_become_high(views, p, i + 1);
    }
}

/// After a prepare round at `num`, every acceptor that promised sits exactly
/// at threshold `num`, so it accepts the round's own proposal: the accept
/// round wins at least as many acceptances as the prepare round won promises.
proof fn lemma_promises_become_acceptances(views: Seq<Acceptor>, num: u32, value: u32, i: nat)
    ensures
        count_acceptances(
            accept_round_replies(
                prepare_round_next(views, num),
                (Proposal { number: num, value }),
            ),
            i,
        ) >= count_promises(prepare_round_replies(views, num), i),
    decreases views.len() - i,
{
    let p = Proposal { number: num, value };
    let views1 = prepare_round_next(views, num);
    if i < views.len() {
        assert(prepare_round_replies(views, num)[i as int] == crate::acceptor::prepare_reply(
            views[i as int],
            num,
        ));
        assert(views1[i as int] == prepare_next(views[i as int], num));
        assert(accept_round_replies(views1, p)[i as int] == crate::acceptor::accept_reply(
            views1[i as int],
            p,
        ));
        lemma_promises_become_acceptances(views, num, value, i + 1);
    }
}

/// A prepare round touches no accepted proposal, so the high-accepted count
/// is unchanged by it.
proof fn lemma_high_accepted_after_prepare_round(views: Seq<Acceptor>, num: u32, n: u32, i: nat)
    ensures
        count_high_accepted(prepare_round_next(views, num), n, i) == count_high_accepted(
            views,
            n,
            i,
        ),
    decreases views.len() - i,
{
    if i < views.len() {
        assert(prepare_round_next(views, num)[i as int] == prepare_next(views[i as int], num));
        lemma_high_accepted_after_prepare_round(views, num, n, i + 1);
    }
}

/// An accept round never shrinks the high-accepted count: a high acceptor
/// either rejects a lower-numbered proposal (well-formedness puts its
/// threshold above it) or accepts one numbered at least `n` again.
proof fn lemma_high_accepted_after_accept_round(views: Seq<Acceptor>, p: Proposal, n: u32, i: nat)
    requires
        forall|k: int| 0 <= k < views.len() ==> wf_acceptor(#[trigger] views[k]),
    ensures
        count_high_accepted(accept_round_next(views, p), n, i) >= count_high_accepted(
            views,
            n,
            i,
        ),
    decreases views.len() - i,
{
    if i < views.len() {
        assert(accept_round_next(views, p)[i as int] == accept_next(views[i as int], p));
        assert(wf_acceptor(views[i as int]));
        lemma_high_accepted_after_accept_round(views, p, n, i + 1);
    }
}

/// Every acceptor in the roster is well-formed.
pub open spec fn wf_roster(views: Seq<Acceptor>) -> bool {
    forall|i: int| 0 <= i < views.len() ==> wf_acceptor(#[trigger] views[i])
}

/// No acceptor in the roster has accepted anything yet.
pub open spec fn none_accepted(views: Seq<Acceptor>) -> bool {
    forall|i: int| 0 <= i < views.len() ==> (#[trigger] views[i]).accepted_proposal is None
}

/// Value `c` has been chosen with number `n` over the roster: a majority hold
/// accepted proposals numbered at least `n`, and every accepted proposal
/// numbered at least `n` — anywhere in the roster — carries `c`. This is the
/// stable fact that survives all later rounds and forces later proposers to
/// adopt `c`.
pub open spec fn chosen(views: Seq<Acceptor>, n: u32, c: u32) -> bool {
    &&& 1 <= n
    &&& count_high_accepted(views, n, 0) >= spec_majority(views.len())
    &&& forall|i: int|
        0 <= i < views.len() && has_high_accepted(#[trigger] views[i], n)
            ==> views[i].accepted_proposal->0.value == c
}

/// A prepare round preserves well-formedness of the whole roster.
proof fn lemma_wf_after_prepare_round(views: Seq<Acceptor>, num: u32)
    requires
        wf_roster(views),
    ensures
        wf_roster(prepare_round_next(views, num)),
{
    assert forall|i: int| 0 <= i < views.len() implies wf_acceptor(
        #[trigger] prepare_round_next(views, num)[i],
    ) by {
        assert(prepare_round_next(views, num)[i] == prepare_next(views[i], num));
        assert(wf_acceptor(views[i]));
    }
}

/// An accept round preserves well-formedness of the whole roster.
proof fn lemma_wf_after_accept_round(views: Seq<Acceptor>, p: Proposal)
    requires
        wf_roster(views),
    ensures
        wf_roster(accept_round_next(views, p)),
{
    assert forall|i: int| 0 <= i < views.len() implies wf_acceptor(
        #[trigger] accept_round_next(views, p)[i],
    ) by {
        assert(accept_round_next(views, p)[i] == accept_next(views[i], p));
        assert(wf_acceptor(views[i]));
    }
}

/// A roster of two majorities must overlap: once value `c` is chosen with
/// number `n`, a prepare round at any number that wins a majority of promises
/// hears about an accepted proposal numbered at least `n` before it stops,
/// and therefore adopts a candidate numbered at least `n` and carrying `c`.
proof fn lemma_round_adopts_chosen(views: Seq<Acceptor>, num: u32, n: u32, c: u32)
    requires
        chosen(views, n, c),
    ensures
        ({
            let maj = spec_majority(views.len());
            let (promises, candidate) = prepare_tally(prepare_round_replies(views, num), maj);
            promises >= maj ==> candidate is Some && candidate->0.number >= n
                && candidate->0.value == c
        }),
{
    let maj = spec_majority(views.len());
    let replies = prepare_round_replies(views, num);
    let (promises, candidate) = prepare_tally(replies, maj);
    lemma_low_promises_high_accepted_disjoint(views, num, n, 0);
    assert(count_low_promises(replies, n, 0) + count_high_accepted(views, n, 0) <= views.len());
    assert(2 * maj > views.len());
    assert(count_low_promises(replies, n, 0) < maj);
    lemma_scan_quorum_candidate_high(replies, maj, 0, 0, 0, None, n);
    if promises >= maj {
        assert(candidate is Some && candidate->0.number >= n);
        lemma_candidate_reported(views, num, maj);
        let k = choose|k: int|
            0 <= k < views.len() && (#[trigger] prepare_round_replies(views, num)[k]).1
                == candidate;
        assert(replies[k] == crate::acceptor::prepare_reply(views[k], num));
        assert(views[k].accepted_proposal == candidate);
        assert(has_high_accepted(views[k], n));
    }
}

/// In this model an attempt that wins phase 1 always wins phase 2: the
/// prepare round leaves every promiser's threshold exactly at the attempt's
/// number, so at least as many acceptors accept as promised. A failed accept
/// phase arises only when an agent answers for state the prepare round never
/// touched (a remote or stale participant).
pub proof fn lemma_prepare_success_gives_accept_success(views: Seq<Acceptor>, num: u32, value: u32)
    ensures
        spec_propose(views, num, value).1 != Err::<u32, ProposeFailure>(
            ProposeFailure::AcceptRejected,
        ),
{
    let maj = spec_majority(views.len());
    let replies = prepare_round_replies(views, num);
    let (promises, candidate) = prepare_tally(replies, maj);
    if promises >= maj {
        let chosen_value = spec_adopted_value(views, num, value);
        let p = Proposal { number: num, value: chosen_value };
        let views1 = prepare_round_next(views, num);
        lemma_prepare_scan_promise_bounds(replies, maj, 0, 0, 0, None);
        assert(count_promises(replies, 0) >= maj);
        lemma_promises_become_acceptances(views, num, chosen_value, 0);
        lemma_accept_scan_bounds(accept_round_replies(views1, p), maj, 0, 0);
        assert(accept_tally(accept_round_replies(views1, p), maj) >= maj);
    }
}

/// From a roster where nothing was ever accepted, a successful attempt
/// chooses exactly the caller's value and establishes `chosen`; a failed one
/// fails in phase 1 and leaves the roster with still nothing accepted.
proof fn lemma_propose_establishes_chosen(views: Seq<Acceptor>, num: u32, value: u32)
    requires
        none_accepted(views),
        wf_roster(views),
    ensures
        wf_roster(spec_propose(views, num, value).0),
        spec_propose(views, num, value).1 is Ok ==> spec_propose(views, num, value).1
            == Ok::<u32, ProposeFailure>(value) && chosen(spec_propose(views, num, value).0, num, value),
        spec_propose(views, num, value).1 is Err ==> spec_propose(views, num, value).1
            == Err::<u32, ProposeFailure>(ProposeFailure::PrepareRejected) && none_accepted(
            spec_propose(views, num, value).0,
        ),
{
    let maj = spec_majority(views.len());
    let replies = prepare_round_replies(views, num);
    let (promises, candidate) = prepare_tally(replies, maj);
    let views1 = prepare_round_next(views, num);
    lemma_wf_after_prepare_round(views, num);
    assert forall|i: int| 0 <= i < views.len() implies (#[trigger] views1[i]).accepted_proposal
        is None by {
        assert(views1[i] == prepare_next(views[i], num));
    }
    if promises < maj {
        // phase 1 failed: the prepare round touched no accepted proposal
    } else {
        // nothing was accepted, so nothing was reported and nothing adopted
        lemma_candidate_reported(views, num, maj);
        if candidate is Some {
            let k = choose|k: int|
                0 <= k < views.len() && (#[trigger] prepare_round_replies(views, num)[k]).1
                    == candidate;
            assert(replies[k] == crate::acceptor::prepare_reply(views[k], num));
            assert(views[k].accepted_proposal is None);
            assert(false);
        }
        assert(spec_adopted_value(views, num, value) == value);
        let p = Proposal { number: num, value };
        let areplies = accept_round_replies(views1, p);
        let views2 = accept_round_next(views1, p);
        lemma_wf_after_accept_round(views1, p);

        // the attempt's number is at least 1, else no acceptor could promise
        if num == 0 {
            assert forall|k: int| 0 <= k < replies.len() implies (#[trigger] replies[k]).0
                is None by {
                assert(replies[k] == crate::acceptor::prepare_reply(views[k], num));
            }
            lemma_scan_all_rejections(replies, maj, 0, 0, 0, None);
            assert(false);
        }

        // phase 2 succeeds: promisers sit exactly at the threshold `num`
        lemma_prepare_success_gives_accept_success(views, num, value);
        let accepts = accept_tally(areplies, maj);
        assert(accepts >= maj);

        // a majority now hold Proposal(num, value); nobody holds anything else
        lemma_accept_scan_bounds(areplies, maj, 0, 0);
        assert(count_acceptances(areplies, 0) >= maj);
        lemma_acceptances_become_high(views1, p, 0);
        assert(count_high_accepted(views2, num, 0) >= maj);
        assert forall|i: int|
            0 <= i < views2.len() && has_high_accepted(#[trigger] views2[i], num) implies views2[
            i].accepted_proposal->0.value == value by {
            assert(views2[i] == accept_next(views1[i], p));
            assert(views1[i].accepted_proposal is None);
        }
    }
}

/// Once `c` is chosen with number `n`, any further attempt keeps it chosen,
/// and can only succeed with `c` itself: an attempt at a number at most `n`
/// cannot win a majority of promises at all, and one at a higher number is
/// forced by quorum overlap to adopt `c`.
proof fn lemma_propose_keeps_chosen(views: Seq<Acceptor>, num: u32, value: u32, n: u32, c: u32)
    requires
        chosen(views, n, c),
        wf_roster(views),
    ensures
        chosen(spec_propose(views, num, value).0, n, c),
        wf_roster(spec_propose(views, num, value).0),
        spec_propose(views, num, value).1 is Ok ==> spec_propose(views, num, value).1
            == Ok::<u32, ProposeFailure>(c),
{
    let maj = spec_majority(views.len());
    let replies = prepare_round_replies(views, num);
    let (promises, candidate) = prepare_tally(replies, maj);
    let views1 = prepare_round_next(views, num);
    lemma_wf_after_prepare_round(views, num);
    lemma_high_accepted_after_prepare_round(views, num, n, 0);
    assert forall|i: int|
        0 <= i < views1.len() && has_high_accepted(#[trigger] views1[i], n) implies views1[
        i].accepted_proposal->0.value == c by {
        assert(views1[i] == prepare_next(views[i], num));
        assert(has_high_accepted(views[i], n));
    }
    assert(chosen(views1, n, c));
    if promises >= maj {
        // the attempt's number exceeds n: acceptors holding the chosen
        // proposal sit at threshold n or above and reject anything lower
        if num <= n {
            lemma_promises_high_accepted_disjoint(views, num, n, 0);
            assert(count_promises(replies, 0) + count_high_accepted(views, n, 0) <= views.len());
            assert(2 * maj > views.len());
            lemma_prepare_scan_promise_bounds(replies, maj, 0, 0, 0, None);
            assert(false);
        }

        // quorum overlap forces adoption of the chosen value
        lemma_round_adopts_chosen(views, num, n, c);
        assert(candidate is Some && candidate->0.value == c);
        assert(spec_adopted_value(views, num, value) == c);

        let p = Proposal { number: num, value: c };
        let views2 = accept_round_next(views1, p);
        lemma_wf_after_accept_round(views1, p);
        lemma_high_accepted_after_accept_round(views1, p, n, 0);
        assert(count_high_accepted(views2, n, 0) >= maj);
        assert forall|i: int|
            0 <= i < views2.len() && has_high_accepted(#[trigger] views2[i], n) implies views2[
            i].accepted_proposal->0.value == c by {
            assert(views2[i] == accept_next(views1[i], p));
            if views2[i].accepted_proposal == views1[i].accepted_proposal {
                assert(has_high_accepted(views1[i], n));
            }
        }
        assert(chosen(views2, n, c));
    }
}

/// The roster states after a sequence of whole propose attempts, each a
/// `(number, value)` pair, applied in order.
pub open spec fn run_attempts(views: Seq<Acceptor>, attempts: Seq<(u32, u32)>) -> Seq<Acceptor>
    decreases attempts.len(),
{
    if attempts.len() == 0 {
        views
    } else {
        run_attempts(
            spec_propose(views, attempts[0].0, attempts[0].1).0,
            attempts.drop_first(),
        )
    }
}

/// The outcome of the `k`-th attempt in the sequence, run against the roster
/// states the attempts before it left behind.
pub open spec fn attempt_outcome(
    views: Seq<Acceptor>,
    attempts: Seq<(u32, u32)>,
    k: int,
) -> Result<u32, ProposeFailure> {
    spec_propose(run_attempts(views, attempts.take(k)), attempts[k].0, attempts[k].1).1
}

/// Attempt `k` of a sequence is attempt `k - 1` of the sequence's tail run
/// from the state the first attempt left behind.
proof fn lemma_attempt_outcome_shift(views: Seq<Acceptor>, attempts: Seq<(u32, u32)>, k: int)
    requires
        1 <= k < attempts.len(),
    ensures
        attempt_outcome(views, attempts, k) == attempt_outcome(
            spec_propose(views, attempts[0].0, attempts[0].1).0,
            attempts.drop_first(),
            k - 1,
        ),
{
    let views1 = spec_propose(views, attempts[0].0, attempts[0].1).0;
    assert(attempts.take(k)[0] == attempts[0]);
    assert(run_attempts(views, attempts.take(k)) == run_attempts(
        views1,
        attempts.take(k).drop_first(),
    ));
    assert(attempts.take(k).drop_first() =~= attempts.drop_first().take(k - 1));
    assert(attempts[k] == attempts.drop_first()[k - 1]);
}

/// Once `c` is chosen with number `n`, every attempt of a whole sequence that
/// succeeds does so with `c`.
proof fn lemma_chosen_stable_over_attempts(
    views: Seq<Acceptor>,
    attempts: Seq<(u32, u32)>,
    n: u32,
    c: u32,
)
    requires
        chosen(views, n, c),
        wf_roster(views),
    ensures
        forall|k: int|
            0 <= k < attempts.len() && attempt_outcome(views, attempts, k) is Ok
                ==> attempt_outcome(views, attempts, k) == Ok::<u32, ProposeFailure>(c),
    decreases attempts.len(),
{
    if attempts.len() > 0 {
        let views1 = spec_propose(views, attempts[0].0, attempts[0].1).0;
        lemma_propose_keeps_chosen(views, attempts[0].0, attempts[0].1, n, c);
        lemma_chosen_stable_over_attempts(views1, attempts.drop_first(), n, c);
        assert forall|k: int|
            0 <= k < attempts.len() && attempt_outcome(views, attempts, k) is Ok
                implies attempt_outcome(views, attempts, k) == Ok::<u32, ProposeFailure>(c) by {
            if k == 0 {
                assert(attempts.take(0).len() == 0);
                assert(run_attempts(views, attempts.take(0)) == views);
            } else {
                lemma_attempt_outcome_shift(views, attempts, k);
            }
        }
    }
}

/// Single-decree Paxos agreement over any history. Starting from a roster
/// where nothing was ever accepted, run any sequence of whole propose
/// attempts, at any numbers and with any values, against the same roster:
/// any two attempts that succeed return the same value. The first success
/// fixes the chosen value; every later attempt either fails in phase 1 or is
/// forced by quorum overlap and the adoption rule to drive that same value.
pub proof fn theorem_single_roster_agreement(
    views: Seq<Acceptor>,
    attempts: Seq<(u32, u32)>,
    i: int,
    j: int,
)
    requires
        none_accepted(views),
        wf_roster(views),
        0 <= i < attempts.len(),
        0 <= j < attempts.len(),
        attempt_outcome(views, attempts, i) is Ok,
        attempt_outcome(views, attempts, j) is Ok,
    ensures
        attempt_outcome(views, attempts, i) == attempt_outcome(views, attempts, j),
    decreases attempts.len(),
{
    let first = attempt_outcome(views, attempts, 0);
    assert(attempts.take(0).len() == 0);
    assert(run_attempts(views, attempts.take(0)) == views);
    assert(first == spec_propose(views, attempts[0].0, attempts[0].1).1);
    let views1 = spec_propose(views, attempts[0].0, attempts[0].1).0;
    lemma_propose_establishes_chosen(views, attempts[0].0, attempts[0].1);
    if first is Ok {
        // the first attempt chose its own value; everything after agrees
        lemma_chosen_stable_over_attempts(views1, attempts.drop_first(), attempts[0].0,
            attempts[0].1);
        if i > 0 {
            lemma_attempt_outcome_shift(views, attempts, i);
        }
        if j > 0 {
            lemma_attempt_outcome_shift(views, attempts, j);
        }
    } else {
        // the first attempt failed in phase 1 and accepted nothing; recur
        assert(i >= 1 && j >= 1);
        lemma_attempt_outcome_shift(views, attempts, i);
        lemma_attempt_outcome_shift(views, attempts, j);
        theorem_single_roster_agreement(views1, attempts.drop_first(), i - 1, j - 1);
    }
}

} // verus!
