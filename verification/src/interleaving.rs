use vstd::prelude::*;
use vstd::set_lib::{lemma_int_range, lemma_len_subset, lemma_set_disjoint_lens, set_int_range};

use crate::acceptor::{
    acceptor_step, lemma_step_monotone, prepare_next, prepare_reply, Acceptor, AcceptorEvent,
};
use crate::proposer::spec_majority;

verus! {

// Concurrent proposers share acceptors; each handler invocation is exclusive,
// but between invocations the proposers' requests interleave in any order.
// This module models a shared roster under such an interleaved request
// sequence — each request a `(target acceptor, request)` pair — and proves
// that no two proposers can both assemble a majority of promises for the same
// proposal number, whatever the interleaving. With the proposal number fixed
// at 1, as this library's proposers have it, that is why at most one of them
// ever reaches phase 2 with a quorum behind it.

/// The roster states after a sequence of interleaved requests, each applied
/// to the acceptor it targets (a request aimed outside the roster is lost).
pub open spec fn roster_run(
    views: Seq<Acceptor>,
    requests: Seq<(int, AcceptorEvent)>,
) -> Seq<Acceptor>
    decreases requests.len(),
{
    if requests.len() == 0 {
        views
    } else {
        let (target, event) = requests[0];
        let next = if 0 <= target < views.len() {
            views.update(target, acceptor_step(views[target], event))
        } else {
            views
        };
        roster_run(next, requests.drop_first())
    }
}

/// Request `k` was a prepare for `n` aimed at acceptor `i`, and won its
/// promise.
pub open spec fn roster_promised_at(
    views: Seq<Acceptor>,
    requests: Seq<(int, AcceptorEvent)>,
    k: int,
    i: int,
    n: u32,
) -> bool {
    &&& requests[k] == (i, AcceptorEvent::Prepare(n))
    &&& 0 <= i < views.len()
    &&& prepare_reply(roster_run(views, requests.take(k))[i], n).0 is Some
}

/// Running a concatenation of request sequences is running them one after
/// the other.
proof fn lemma_roster_run_append(
    views: Seq<Acceptor>,
    first: Seq<(int, AcceptorEvent)>,
    second: Seq<(int, AcceptorEvent)>,
)
    ensures
        roster_run(views, first + second) == roster_run(roster_run(views, first), second),
    decreases first.len(),
{
    if first.len() == 0 {
        assert(first + second =~= second);
    } else {
        let (target, event) = first[0];
        assert((first + second)[0] == first[0]);
        assert((first + second).drop_first() =~= first.drop_first() + second);
        let next = if 0 <= target < views.len() {
            views.update(target, acceptor_step(views[target], event))
        } else {
            views
        };
        lemma_roster_run_append(next, first.drop_first(), second);
    }
}

/// Interleaved requests never change the roster's size and never lower any
/// acceptor's threshold.
proof fn lemma_roster_run_monotone(views: Seq<Acceptor>, requests: Seq<(int, AcceptorEvent)>)
    ensures
        roster_run(views, requests).len() == views.len(),
        forall|i: int|
            0 <= i < views.len() ==> roster_run(views, requests)[i].min_proposal >= views[
                i].min_proposal,
    decreases requests.len(),
{
    if requests.len() > 0 {
        let (target, event) = requests[0];
        let next = if 0 <= target < views.len() {
            views.update(target, acceptor_step(views[target], event))
        } else {
            views
        };
        assert forall|i: int| 0 <= i < views.len() implies next[i].min_proposal >= views[
            i].min_proposal by {
            if i == target {
                lemma_step_monotone(views[i], event);
            }
        }
        lemma_roster_run_monotone(next, requests.drop_first());
    }
}

/// However many proposers interleave their requests at a shared roster, an
/// acceptor grants a promise for a given number at most once: the first
/// promise raises its threshold to that number, the threshold never
/// decreases, and the tie-break rejects an equal number.
pub proof fn lemma_roster_promise_unique(
    views: Seq<Acceptor>,
    requests: Seq<(int, AcceptorEvent)>,
    k1: int,
    k2: int,
    i: int,
    n: u32,
)
    requires
        0 <= k1 < k2 < requests.len(),
        roster_promised_at(views, requests, k1, i, n),
    ensures
        !roster_promised_at(views, requests, k2, i, n),
{
    let before = roster_run(views, requests.take(k1));
    lemma_roster_run_monotone(views, requests.take(k1));

    // the state right after the promise was granted: threshold at n
    let lone = seq![requests[k1]];
    assert(requests.take(k1 + 1) =~= requests.take(k1) + lone);
    lemma_roster_run_append(views, requests.take(k1), lone);
    let granted = before.update(i, acceptor_step(before[i], AcceptorEvent::Prepare(n)));
    assert(lone.drop_first() =~= Seq::<(int, AcceptorEvent)>::empty());
    assert(roster_run(before, lone) == roster_run(granted, lone.drop_first()));
    assert(roster_run(views, requests.take(k1 + 1)) == granted);
    assert(granted[i] == prepare_next(before[i], n));
    assert(granted[i].min_proposal >= n);

    // the threshold never drops back below n
    assert(requests.take(k2) =~= requests.take(k1 + 1) + requests.subrange(k1 + 1, k2));
    lemma_roster_run_append(views, requests.take(k1 + 1), requests.subrange(k1 + 1, k2));
    lemma_roster_run_monotone(granted, requests.subrange(k1 + 1, k2));
    assert(roster_run(views, requests.take(k2))[i].min_proposal >= n);
}

/// No two proposers both assemble a majority of promises for the same number.
/// `quorum_a` and `quorum_b` are the acceptors that granted each proposer a
/// promise for `n`, with `pos_a` and `pos_b` saying at which request; the two
/// proposers' requests are distinct positions in the interleaving. Since an
/// acceptor grants a promise for `n` at most once, the quorums are disjoint —
/// and two disjoint majorities do not fit in one roster.
pub proof fn theorem_no_two_promise_quorums(
    views: Seq<Acceptor>,
    requests: Seq<(int, AcceptorEvent)>,
    n: u32,
    quorum_a: Set<int>,
    quorum_b: Set<int>,
    pos_a: spec_fn(int) -> int,
    pos_b: spec_fn(int) -> int,
)
    requires
        forall|i: int|
            quorum_a.contains(i) ==> 0 <= #[trigger] pos_a(i) < requests.len()
                && roster_promised_at(views, requests, pos_a(i), i, n),
        forall|i: int|
            quorum_b.contains(i) ==> 0 <= #[trigger] pos_b(i) < requests.len()
                && roster_promised_at(views, requests, pos_b(i), i, n),
        forall|i: int| quorum_a.contains(i) && quorum_b.contains(i) ==> pos_a(i) != #[trigger] pos_b(i),
    ensures
        !(quorum_a.len() >= spec_majority(views.len()) && quorum_b.len() >= spec_majority(
            views.len(),
        )),
{
    let maj = spec_majority(views.len());
    if quorum_a.len() >= maj && quorum_b.len() >= maj {
        // the quorums are disjoint: a common acceptor would have granted a
        // promise for n twice
        assert forall|i: int| !(quorum_a.contains(i) && quorum_b.contains(i)) by {
            if quorum_a.contains(i) && quorum_b.contains(i) {
                if pos_a(i) < pos_b(i) {
                    lemma_roster_promise_unique(views, requests, pos_a(i), pos_b(i), i, n);
                } else {
                    lemma_roster_promise_unique(views, requests, pos_b(i), pos_a(i), i, n);
                }
            }
        }
        assert(quorum_a.disjoint(quorum_b));

        // two disjoint majorities do not fit in the roster
        let roster_indices = set_int_range(0, views.len() as int);
        lemma_int_range(0, views.len() as int);
        assert forall|i: int| quorum_a.contains(i) implies roster_indices.contains(i) by {
            assert(roster_promised_at(views, requests, pos_a(i), i, n));
        }
        assert forall|i: int| quorum_b.contains(i) implies roster_indices.contains(i) by {
            assert(roster_promised_at(views, requests, pos_b(i), i, n));
        }
        assert(quorum_a.subset_of(roster_indices));
        assert(quorum_b.subset_of(roster_indices));
        lemma_len_subset(quorum_a, roster_indices);
        lemma_len_subset(quorum_b, roster_indices);
        lemma_set_disjoint_lens(quorum_a, quorum_b);
        assert((quorum_a + quorum_b).len() == quorum_a.len() + quorum_b.len());
        assert((quorum_a + quorum_b).subset_of(roster_indices));
        lemma_len_subset(quorum_a + quorum_b, roster_indices);
        assert(2 * maj > views.len());
        assert(false);
    }
}

} // verus!
