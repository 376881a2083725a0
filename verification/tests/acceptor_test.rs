use basic_paxos::acceptor::Acceptor;
use basic_paxos::proposal::Proposal;

#[test]
fn test_new() {
    let acceptor = Acceptor::new();

    assert_eq!(acceptor.min_proposal, 0);
    assert_eq!(acceptor.accepted_proposal, None);
}

#[test]
fn prepare_a_first_request() {
    let mut acceptor = Acceptor::new();
    let (accepted_num, accepted_proposal) = acceptor.handle_prepare_request(1);

    assert_eq!(accepted_num, Some(1));
    assert_eq!(accepted_proposal, None);
}

#[test]
fn prepare_a_second_larger_request_no_accepted() {
    let mut acceptor = Acceptor::new();
    acceptor.handle_prepare_request(1);
    let (accepted_num, accepted_proposal) = acceptor.handle_prepare_request(2);

    assert_eq!(accepted_num, Some(2));
    assert_eq!(accepted_proposal, None);
}

#[test]
fn prepare_a_second_equal_request_no_accepted() {
    let mut acceptor = Acceptor::new();
    acceptor.handle_prepare_request(1);
    let (accepted_num, accepted_proposal) = acceptor.handle_prepare_request(1);

    assert_eq!(accepted_num, None);
    assert_eq!(accepted_proposal, None);
}

#[test]
fn prepare_a_second_smaller_request_no_accepted() {
    let mut acceptor = Acceptor::new();
    acceptor.handle_prepare_request(2);
    let (accepted_num, accepted_proposal) = acceptor.handle_prepare_request(1);

    assert_eq!(accepted_num, None);
    assert_eq!(accepted_proposal, None);
}

#[test]
fn prepare_requests_in_sequence_no_accepted() {
    // every number from 1 to 50 is prepared once; the threshold never
    // decreases and ends at the largest number seen
    let mut acceptor = Acceptor::new();

    let max_num = 50;
    let mut last_min = 0;
    for n in 1..=max_num {
        acceptor.handle_prepare_request(n);
        assert!(acceptor.min_proposal >= last_min);
        last_min = acceptor.min_proposal;
    }

    assert_eq!(acceptor.min_proposal, max_num);
    assert_eq!(acceptor.accepted_proposal, None);
}

#[test]
fn prepare_request_with_accepted_proposal() {
    let mut acceptor = Acceptor::new();
    acceptor.min_proposal = 1;
    acceptor.accepted_proposal = Some(Proposal::new(1, 100));
    let (accepted_num, accepted_proposal) = acceptor.handle_prepare_request(2);

    assert_eq!(accepted_num, Some(2));
    assert_eq!(accepted_proposal, Some(Proposal::new(1, 100)));
}

#[test]
fn accept_request_num_equal_to_promised() {
    let mut acceptor = Acceptor::new();
    acceptor.min_proposal = 1;
    let proposal = Proposal::new(1, 100);

    let min_proposal = acceptor.handle_accept_request(proposal);

    assert_eq!(min_proposal, Some(1));
    assert_eq!(acceptor.accepted_proposal, Some(proposal));
}

#[test]
fn accept_request_num_less_than_promised() {
    let mut acceptor = Acceptor::new();
    acceptor.min_proposal = 2;
    let proposal = Proposal::new(1, 100);

    let min_proposal = acceptor.handle_accept_request(proposal);

    assert_eq!(min_proposal, None);
    assert_eq!(acceptor.accepted_proposal, None);
}

#[test]
fn accept_request_num_less_than_accepted() {
    let mut acceptor = Acceptor::new();
    acceptor.min_proposal = 2;
    acceptor.accepted_proposal = Some(Proposal::new(2, 200));
    let proposal = Proposal::new(1, 100);

    let min_proposal = acceptor.handle_accept_request(proposal);

    assert_eq!(min_proposal, None);
    assert_eq!(acceptor.accepted_proposal, Some(Proposal::new(2, 200)));
}

#[test]
fn min_proposal_never_decreases_across_mixed_requests() {
    // prepares and accepts in arbitrary order, some rejected: the threshold
    // is non-decreasing at every step
    let mut acceptor = Acceptor::new();
    let mut last_min = 0;

    let requests: [(bool, u32); 8] =
        [(true, 3), (false, 3), (true, 2), (false, 5), (true, 5), (true, 9), (false, 4), (true, 1)];
    for (is_prepare, n) in requests {
        if is_prepare {
            acceptor.handle_prepare_request(n);
        } else {
            acceptor.handle_accept_request(Proposal::new(n, 7));
        }
        assert!(acceptor.min_proposal >= last_min);
        last_min = acceptor.min_proposal;
    }

    assert_eq!(acceptor.min_proposal, 9);
}

#[test]
fn prepare_tie_break_same_number_twice() {
    // a prepare that wins a promise makes the same number a rejection next time
    let mut acceptor = Acceptor::new();

    let (first, _) = acceptor.handle_prepare_request(5);
    let (second, _) = acceptor.handle_prepare_request(5);

    assert_eq!(first, Some(5));
    assert_eq!(second, None);
}

#[test]
fn accept_request_num_greater_than_promised() {
    // a number above the threshold is accepted and raises the threshold to it
    let mut acceptor = Acceptor::new();
    acceptor.min_proposal = 1;
    let proposal = Proposal::new(3, 100);

    let min_proposal = acceptor.handle_accept_request(proposal);

    assert_eq!(min_proposal, Some(3));
    assert_eq!(acceptor.min_proposal, 3);
    assert_eq!(acceptor.accepted_proposal, Some(proposal));
}
