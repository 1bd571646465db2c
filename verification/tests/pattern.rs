use demosim::model::{all_acts, all_c_acts, all_c_facts, CAct, CFact, CPAct, CPFact};

#[test]
fn every_coordination_act_creates_the_fact_of_its_rank() {
    let acts = all_c_acts();
    let facts = all_c_facts();
    assert_eq!(acts.len(), 11);
    assert_eq!(facts.len(), 11);
    for (act, fact) in acts.iter().zip(facts.iter()) {
        assert_eq!(act.to_fact(), *fact);
    }
    assert_eq!(
        acts,
        vec![
            CAct::Request,
            CAct::Promise,
            CAct::Decline,
            CAct::Declare,
            CAct::Accept,
            CAct::Reject,
            CAct::RevokeRequest,
            CAct::RevokePromise,
            CAct::RevokeDecline,
            CAct::RevokeAccept,
            CAct::RevokeReject,
        ]
    );
    assert_eq!(
        facts,
        vec![
            CFact::Requested,
            CFact::Promised,
            CFact::Declined,
            CFact::Declared,
            CFact::Accepted,
            CFact::Rejected,
            CFact::RequestRevoked,
            CFact::PromiseRevoked,
            CFact::DeclineRevoked,
            CFact::AcceptRevoked,
            CFact::RejectRevoked,
        ]
    );
}

#[test]
fn the_production_act_stands_after_the_promise() {
    let acts = all_acts();
    assert_eq!(acts.len(), 12);
    assert_eq!(acts[0], CPAct::CAct(CAct::Request));
    assert_eq!(acts[1], CPAct::CAct(CAct::Promise));
    assert_eq!(acts[2], CPAct::PAct);
    assert_eq!(acts[3], CPAct::CAct(CAct::Decline));
    assert_eq!(acts[11], CPAct::CAct(CAct::RevokeReject));
    assert_eq!(CPAct::PAct.to_fact(), CPFact::PFact);
    assert_eq!(CPAct::CAct(CAct::Accept).to_fact(), CPFact::CFact(CFact::Accepted));
}

#[test]
fn the_table_of_answers_is_the_transaction_pattern() {
    assert_eq!(CPFact::PFact.next_acts(), vec![CPAct::CAct(CAct::Declare)]);
    assert_eq!(
        CPFact::CFact(CFact::Requested).next_acts(),
        vec![CPAct::CAct(CAct::Promise), CPAct::CAct(CAct::Decline)]
    );
    assert_eq!(CPFact::CFact(CFact::Promised).next_acts(), vec![CPAct::PAct]);
    assert_eq!(
        CPFact::CFact(CFact::Declared).next_acts(),
        vec![CPAct::CAct(CAct::Accept), CPAct::CAct(CAct::Reject)]
    );
    assert_eq!(CPFact::CFact(CFact::Rejected).next_acts(), vec![CPAct::CAct(CAct::Declare)]);
    for fact in [
        CFact::Declined,
        CFact::Accepted,
        CFact::RequestRevoked,
        CFact::PromiseRevoked,
        CFact::DeclineRevoked,
        CFact::AcceptRevoked,
        CFact::RejectRevoked,
    ] {
        assert!(CPFact::CFact(fact).next_acts().is_empty());
    }
}

#[test]
fn the_table_of_answers_gives_the_same_answer_each_time() {
    let mut facts: Vec<CPFact> = all_c_facts().into_iter().map(CPFact::CFact).collect();
    facts.push(CPFact::PFact);
    assert_eq!(facts.len(), 12);
    for fact in facts {
        assert_eq!(fact.next_acts(), fact.next_acts());
        assert!(fact.next_acts().len() <= 2);
    }
}

#[test]
fn acts_and_facts_are_shown_by_their_names() {
    assert_eq!(CAct::Request.to_string(), "Request");
    assert_eq!(CAct::Promise.to_string(), "Promise");
    assert_eq!(CAct::Decline.to_string(), "Decline");
    assert_eq!(CAct::Declare.to_string(), "Declare");
    assert_eq!(CAct::Accept.to_string(), "Accept");
    assert_eq!(CAct::Reject.to_string(), "Reject");
    assert_eq!(CAct::RevokeRequest.to_string(), "Revoke Request");
    assert_eq!(CAct::RevokePromise.to_string(), "Revoke Promise");
    assert_eq!(CAct::RevokeDecline.to_string(), "Revoke Decline");
    assert_eq!(CAct::RevokeAccept.to_string(), "Revoke Accept");
    assert_eq!(CAct::RevokeReject.to_string(), "Revoke Reject");
    assert_eq!(CPAct::PAct.to_string(), "Execute");
    assert_eq!(CPAct::CAct(CAct::Accept).to_string(), "Accept");
    assert_eq!(CFact::Requested.to_string(), "Requested");
    assert_eq!(CFact::Promised.to_string(), "Promised");
    assert_eq!(CFact::Declined.to_string(), "Declined");
    assert_eq!(CFact::Declared.to_string(), "Declared");
    assert_eq!(CFact::Accepted.to_string(), "Accepted");
    assert_eq!(CFact::Rejected.to_string(), "Rejected");
    assert_eq!(CFact::RequestRevoked.to_string(), "Request Revoked");
    assert_eq!(CFact::PromiseRevoked.to_string(), "Promise Revoked");
    assert_eq!(CFact::DeclineRevoked.to_string(), "Decline Revoked");
    assert_eq!(CFact::AcceptRevoked.to_string(), "Accept Revoked");
    assert_eq!(CFact::RejectRevoked.to_string(), "Reject Revoked");
    assert_eq!(CPFact::PFact.to_string(), "Executed");
    assert_eq!(CPFact::CFact(CFact::Declared).to_string(), "Declared");
}

#[test]
fn the_first_act_and_the_first_fact_are_the_defaults() {
    assert_eq!(CAct::default(), CAct::Request);
    assert_eq!(CFact::default(), CFact::Requested);
}
