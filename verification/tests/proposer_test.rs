use basic_paxos::acceptor::Acceptor;
use basic_paxos::agent::Agent;
use basic_paxos::messages::ConsensusError;
use basic_paxos::proposal::Proposal;
use basic_paxos::proposer::Proposer;

/// A test double standing in for a remote participant: answers every request
/// with fixed replies, whatever the request says.
struct FixedAgent {
    prepare_answer: (Option<u32>, Option<Proposal>),
    accept_answer: Option<u32>,
}

impl Agent for FixedAgent {
    fn acceptor_state(&self) -> Acceptor {
        Acceptor::new()
    }

    fn prepare(&mut self, _num: u32) -> (Option<u32>, Option<Proposal>) {
        self.prepare_answer
    }

    fn accept(&mut self, _proposal: Proposal) -> Option<u32> {
        self.accept_answer
    }
}

fn empty_acceptor() -> FixedAgent {
    FixedAgent { prepare_answer: (Some(1), None), accept_answer: None }
}

fn higher_promised_acceptor() -> FixedAgent {
    FixedAgent { prepare_answer: (None, None), accept_answer: None }
}

fn lower_accepted_acceptor() -> FixedAgent {
    FixedAgent { prepare_answer: (Some(2), Some(Proposal::new(1, 100))), accept_answer: None }
}

fn equal_promised_for_accept_req() -> FixedAgent {
    FixedAgent { prepare_answer: (None, None), accept_answer: Some(1) }
}

fn higher_promised_for_accept_req() -> FixedAgent {
    FixedAgent { prepare_answer: (None, None), accept_answer: None }
}

#[test]
fn language_feature_basic_number_calculation() {
    assert_eq!(0 / 2 + 1, 1);
    assert_eq!(1 / 2 + 1, 1);
    assert_eq!(2 / 2 + 1, 2);
    assert_eq!(3 / 2 + 1, 2);
}

#[test]
fn majority_of_small_rosters() {
    assert_eq!(Proposer::majority(1), 1);
    assert_eq!(Proposer::majority(2), 2);
    assert_eq!(Proposer::majority(3), 2);
    assert_eq!(Proposer::majority(4), 3);
    assert_eq!(Proposer::majority(5), 3);
}

#[test]
fn prepare_req_1_empty_acceptor() {
    let mut acceptors = vec![empty_acceptor()];
    let proposer = Proposer::new();

    let prepare_result = proposer.initiate_prepare_request(&mut acceptors);

    assert_eq!(proposer.num, 1);
    assert_eq!(prepare_result, Ok(None));
}

#[test]
fn prepare_req_3_empty_acceptor() {
    let mut acceptors = Vec::with_capacity(3);
    for _ in 0..3 {
        acceptors.push(empty_acceptor());
    }

    let proposer = Proposer::new();
    let prepare_result = proposer.initiate_prepare_request(&mut acceptors);

    assert_eq!(proposer.num, 1);
    assert_eq!(prepare_result, Ok(None));
}

#[test]
fn prepare_req_2_empty_acceptor_1_higher_promised() {
    let mut acceptors = Vec::with_capacity(3);

    acceptors.push(higher_promised_acceptor());
    for _ in 0..2 {
        acceptors.push(empty_acceptor());
    }

    let proposer = Proposer::new();
    let prepare_result = proposer.initiate_prepare_request(&mut acceptors);

    assert_eq!(proposer.num, 1);
    assert_eq!(prepare_result, Ok(None));
}

#[test]
fn prepare_req_1_empty_acceptor_2_higher_promised() {
    let mut acceptors = Vec::with_capacity(3);

    acceptors.push(empty_acceptor());
    for _ in 0..2 {
        acceptors.push(higher_promised_acceptor());
    }

    let proposer = Proposer::new();
    let prepare_result = proposer.initiate_prepare_request(&mut acceptors);

    assert!(prepare_result.is_err());
    assert_eq!(
        prepare_result,
        Err(ConsensusError::PrepareError(String::from("Preparing failed")))
    );
}

#[test]
fn prepare_req_1_lower_accepted() {
    let mut acceptors = Vec::with_capacity(1);
    acceptors.push(lower_accepted_acceptor());

    let mut proposer = Proposer::new();
    proposer.num = 2;
    let existing_value_to_accept = proposer.initiate_prepare_request(&mut acceptors);

    assert_eq!(existing_value_to_accept, Ok(Some(Proposal::new(1, 100))));
}

#[test]
fn accept_req_1_equal_promised() {
    let mut acceptors = Vec::with_capacity(1);
    acceptors.push(equal_promised_for_accept_req());

    let mut proposer = Proposer::new();
    proposer.value = Some(100);

    let accept_result = proposer.initiate_accept_request(&mut acceptors);

    assert_eq!(accept_result, Ok(100));
}

#[test]
fn accept_req_3_equal_promised() {
    let mut acceptors = Vec::with_capacity(3);
    for _ in 0..3 {
        acceptors.push(equal_promised_for_accept_req());
    }

    let mut proposer = Proposer::new();
    proposer.value = Some(100);

    let accept_result = proposer.initiate_accept_request(&mut acceptors);

    assert_eq!(accept_result, Ok(100));
}

#[test]
fn accept_req_2_equal_promised_1_higher_promised() {
    let mut acceptors = Vec::with_capacity(3);
    acceptors.push(higher_promised_for_accept_req());
    for _ in 0..2 {
        acceptors.push(equal_promised_for_accept_req());
    }

    let mut proposer = Proposer::new();
    proposer.value = Some(100);

    let accept_result = proposer.initiate_accept_request(&mut acceptors);

    assert_eq!(accept_result, Ok(100));
}

#[test]
fn accept_req_1_equal_promised_2_higher_promised() {
    let mut acceptors = Vec::with_capacity(3);
    acceptors.push(equal_promised_for_accept_req());
    for _ in 0..2 {
        acceptors.push(higher_promised_for_accept_req());
    }

    let mut proposer = Proposer::new();
    proposer.value = Some(100);

    let accept_result = proposer.initiate_accept_request(&mut acceptors);

    assert!(accept_result.is_err());
    assert_eq!(
        accept_result,
        Err(ConsensusError::AcceptError(String::from("Accepting failed")))
    );
}

#[test]
fn propose_fails_in_accept_phase() {
    // every agent promises, but a competing higher number arrives between the
    // phases: phase 1 succeeds, phase 2 finds no quorum
    let mut acceptors = vec![
        FixedAgent { prepare_answer: (Some(1), None), accept_answer: None },
        FixedAgent { prepare_answer: (Some(1), None), accept_answer: None },
        FixedAgent { prepare_answer: (Some(1), None), accept_answer: None },
    ];

    let mut proposer = Proposer::new();
    let result = proposer.propose(&mut acceptors, 100);

    assert_eq!(
        result,
        Err(ConsensusError::AcceptError(String::from("Accepting failed")))
    );
}

#[test]
fn propose_adopts_reported_value() {
    // a promise reports a previously-accepted proposal: its value is driven
    // in phase 2 and chosen, not the value the caller asked for
    let mut acceptors = vec![FixedAgent {
        prepare_answer: (Some(2), Some(Proposal::new(1, 100))),
        accept_answer: Some(2),
    }];

    let mut proposer = Proposer::new();
    proposer.num = 2;
    let result = proposer.propose(&mut acceptors, 999);

    assert_eq!(result, Ok(100));
    assert_eq!(proposer.value, Some(100));
}
