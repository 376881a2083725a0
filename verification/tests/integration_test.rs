use basic_paxos::acceptor::Acceptor;
use basic_paxos::agent::LocalAgent;
use basic_paxos::messages::ConsensusError;
use basic_paxos::proposal::Proposal;
use basic_paxos::proposer::Proposer;

#[test]
fn test_1_proposer_1_acceptor_no_learner() {
    let mut acceptors = vec![LocalAgent::new(Acceptor::new())];
    let mut proposer = Proposer::new();

    let result = proposer.propose(&mut acceptors, 100);
    assert_eq!(result, Ok(100));
}

#[test]
fn test_1_proposer_3_acceptors_no_learner() {
    let mut acceptors = Vec::with_capacity(3);
    for _ in 0..3 {
        acceptors.push(LocalAgent::new(Acceptor::new()));
    }

    let mut proposer = Proposer::new();

    let result = proposer.propose(&mut acceptors, 100);
    assert_eq!(result, Ok(100));
}

#[test]
fn test_2_proposers_3_acceptors_no_learner_propose_in_sequence() {
    // both proposers address the same three acceptors, one call at a time
    let mut acceptors = Vec::with_capacity(3);
    for _ in 0..3 {
        acceptors.push(LocalAgent::new(Acceptor::new()));
    }

    let mut proposer1 = Proposer::new();
    let mut proposer2 = Proposer::new();

    let result1 = proposer1.propose(&mut acceptors, 100);
    let result2 = proposer2.propose(&mut acceptors, 200);

    assert_eq!(result1, Ok(100));
    assert!(result2.is_err());
    assert_eq!(
        result2.unwrap_err(),
        ConsensusError::PrepareError(String::from("Preparing failed"))
    );
}

#[test]
fn adoption_overrides_the_intended_value() {
    // an acceptor that already accepted Proposal(1, 100) and has promised up
    // to 2 answers prepare(3) with a promise carrying that proposal; a
    // proposer at number 3 must then drive 100, not its own value
    let mut acceptor = Acceptor::new();
    acceptor.min_proposal = 2;
    acceptor.accepted_proposal = Some(Proposal::new(1, 100));

    let (promised, reported) = acceptor.handle_prepare_request(3);
    assert_eq!(promised, Some(3));
    assert_eq!(reported, Some(Proposal::new(1, 100)));

    let mut again = Acceptor::new();
    again.min_proposal = 2;
    again.accepted_proposal = Some(Proposal::new(1, 100));
    let mut acceptors = vec![LocalAgent::new(again)];

    let mut proposer = Proposer::new();
    proposer.num = 3;
    let result = proposer.propose(&mut acceptors, 999);

    assert_eq!(result, Ok(100));
}

#[test]
fn describe_names_the_kind_and_keeps_the_message() {
    let prepare = ConsensusError::PrepareError(String::from("Preparing failed"));
    let accept = ConsensusError::AcceptError(String::from("Accepting failed"));

    assert_eq!(prepare.describe(), "[PrepareError] Preparing failed");
    assert_eq!(accept.describe(), "[AcceptError] Accepting failed");
}

#[test]
fn local_agent_wraps_its_acceptor() {
    let agent = LocalAgent::new(Acceptor::new());
    assert_eq!(agent.acceptor.min_proposal, 0);
    assert_eq!(agent.acceptor.accepted_proposal, None);
}

#[test]
fn chosen_value_survives_a_later_higher_numbered_proposer() {
    // agreement across proposal numbers: after 100 is chosen at number 1, a
    // proposer at number 2 still ends with Ok(100) — adoption forces it
    let mut acceptors = Vec::with_capacity(3);
    for _ in 0..3 {
        acceptors.push(LocalAgent::new(Acceptor::new()));
    }

    let mut proposer1 = Proposer::new();
    let result1 = proposer1.propose(&mut acceptors, 100);
    assert_eq!(result1, Ok(100));

    let mut proposer2 = Proposer::new();
    proposer2.num = 2;
    let result2 = proposer2.propose(&mut acceptors, 200);
    assert_eq!(result2, Ok(100));
}
