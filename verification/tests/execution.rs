use demosim::clock::Timestamp;
use demosim::dashboard::CommitError;
use demosim::execution::{
    AgendaItem, CPWorldItem, CWorldItem, Execution, PWorldItem, TransactionInstance,
    TransactionInstanceId,
};
use demosim::model::{
    ActorRole, ActorRoleId, AdtOption, CAct, CFact, CPAct, CPFact, Impediment, Initiation,
    LookupError, Model, Multiplicity, MultiplicityBound, Subject, SubjectId, Transaction,
    TransactionId,
};

const A: ActorRoleId = ActorRoleId(1);
const B: ActorRoleId = ActorRoleId(2);
const S1: SubjectId = SubjectId(11);
const S2: SubjectId = SubjectId(12);
const T1: TransactionId = TransactionId(101);
const T2: TransactionId = TransactionId(102);
const T3: TransactionId = TransactionId(103);

fn at(secs: i64) -> Timestamp {
    Timestamp { secs, nanos: 0 }
}

fn subject(id: SubjectId, name: &str) -> Subject {
    Subject { id, name: name.to_string() }
}

fn kind(id: TransactionId, code: &str, name: &str, initiator: ActorRoleId, executor: ActorRoleId) -> Transaction {
    Transaction {
        id,
        t_id: code.to_string(),
        name: name.to_string(),
        product: String::new(),
        initiator_id: initiator,
        executor_id: executor,
        initiations: Vec::new(),
        impediments: Vec::new(),
    }
}

fn instance(id: u128, parent: Option<u128>, kind: TransactionId, initiator: SubjectId, executor: SubjectId) -> TransactionInstance {
    TransactionInstance {
        id: TransactionInstanceId(id),
        parent_transaction_instance_id: parent.map(TransactionInstanceId),
        transaction_id: kind,
        product_instance: format!("product {}", id),
        initiator_id: initiator,
        executor_id: executor,
    }
}

fn rule(fact: CFact, target: TransactionId, max: MultiplicityBound) -> Initiation {
    Initiation {
        initiating_c_fact: fact,
        initiated_transaction_id: target,
        initiated_c_act: CAct::Request,
        multiplicity: Multiplicity { min: 0, max },
    }
}

fn model() -> Model {
    let mut model = Model::default();
    model.actor_roles =
        vec![ActorRole { id: A, name: "A".to_string() }, ActorRole { id: B, name: "B".to_string() }];
    model.subjects = vec![subject(S1, "S1"), subject(S2, "S2")];
    model.transactions = vec![
        kind(T1, "T1", "Order completion", A, B),
        kind(T2, "T2", "Payment", B, A),
        kind(T3, "T0", "Delivery", B, A),
    ];
    model.adt.insert(A, S1, AdtOption::Authorisation);
    model.adt.insert(B, S2, AdtOption::Authorisation);
    model
}

fn walk(execution: &mut Execution, model: &Model, id: u128, steps: &[(SubjectId, CPFact)]) {
    for (n, (performer, fact)) in steps.iter().enumerate() {
        execution
            .process_new_fact_at(model, TransactionInstanceId(id), *performer, *fact, at(100 + n as i64))
            .unwrap();
    }
}

#[test]
fn a_transaction_goes_from_request_to_production() {
    let model = model();
    let mut execution = Execution::default();
    let id = TransactionInstanceId(1);
    execution.add_transaction_instance_at(&model, instance(1, None, T1, S1, S2), at(10)).unwrap();
    assert_eq!(execution.transactions_instances.len(), 1);
    assert_eq!(
        execution.c_p_world,
        vec![CPWorldItem::CWorldItem(CWorldItem {
            timestamp: at(10),
            transaction_instance_id: id,
            performer: subject(S1, "S1"),
            addressee: subject(S2, "S2"),
            fact: CFact::Requested,
        })]
    );
    let requested = AgendaItem {
        timestamp: at(10),
        transaction_instance_id: id,
        performer_id: S1,
        fact: CPFact::CFact(CFact::Requested),
    };
    assert_eq!(execution.agendas, vec![(S2, requested)]);
    assert_eq!(execution.agenda_for(&S2), vec![requested]);
    assert!(execution.agenda_for(&S1).is_empty());

    execution.process_new_fact_at(&model, id, S2, CPFact::CFact(CFact::Promised), at(20)).unwrap();
    execution.remove_agenda_item(&requested);
    assert_eq!(execution.c_p_world.len(), 2);
    assert_eq!(
        execution.c_p_world[1],
        CPWorldItem::CWorldItem(CWorldItem {
            timestamp: at(20),
            transaction_instance_id: id,
            performer: subject(S2, "S2"),
            addressee: subject(S1, "S1"),
            fact: CFact::Promised,
        })
    );
    let promised = AgendaItem {
        timestamp: at(20),
        transaction_instance_id: id,
        performer_id: S2,
        fact: CPFact::CFact(CFact::Promised),
    };
    assert_eq!(execution.agendas, vec![(S2, promised)]);

    execution.process_new_fact_at(&model, id, S1, CPFact::PFact, at(30)).unwrap();
    assert_eq!(execution.c_p_world.len(), 3);
    assert_eq!(
        execution.c_p_world[2],
        CPWorldItem::PWorldItem(PWorldItem {
            timestamp: at(30),
            transaction_instance_id: id,
            performer: subject(S1, "S1"),
        })
    );
    let coordination = execution.c_p_world.iter().filter(|w| matches!(w, CPWorldItem::CWorldItem(_))).count();
    assert_eq!(coordination, 2);
    let produced =
        AgendaItem { timestamp: at(30), transaction_instance_id: id, performer_id: S1, fact: CPFact::PFact };
    assert_eq!(execution.agendas, vec![(S2, promised), (S2, produced)]);
}

#[test]
fn a_fact_stated_now_carries_the_time_of_the_clock() {
    let model = model();
    let mut execution = Execution::default();
    let entered = TransactionInstance::new(None, T1, "bread".to_string(), S1, S2);
    let id = entered.id;
    assert_eq!(id.0 & 0xf000_c000_0000_0000_0000u128, 0x4000_8000_0000_0000_0000u128);
    execution.add_transaction_instance(&model, entered).unwrap();
    execution.process_new_fact(&model, id, S2, CPFact::CFact(CFact::Promised)).unwrap();
    assert_eq!(execution.c_p_world.len(), 2);
    assert_eq!(execution.agendas.len(), 2);
    let first = *execution.c_p_world[0].get_timestamp();
    let second = *execution.c_p_world[1].get_timestamp();
    assert!(first.secs > 1_600_000_000);
    assert!(first.nanos < 2_000_000_000);
    assert!((second.secs, second.nanos) >= (first.secs, first.nanos));
    assert_eq!(execution.agendas[0].1.timestamp, first);
    assert_eq!(execution.agendas[1].1.timestamp, second);
    assert_eq!(execution.agendas[1].0, S2);
    let item = AgendaItem::new(id, S1, CPFact::PFact);
    assert_eq!(item.transaction_instance_id, id);
    assert_eq!(item.performer_id, S1);
    assert_eq!(item.fact, CPFact::PFact);
    assert!(item.timestamp.secs >= second.secs);
}

#[test]
fn every_fact_is_addressed_to_a_party() {
    let i = instance(1, None, T1, S1, S2);
    for fact in [CFact::Requested, CFact::Accepted, CFact::Rejected, CFact::RequestRevoked, CFact::AcceptRevoked, CFact::RejectRevoked] {
        assert_eq!(i.addressee_for(&fact), S2);
    }
    for fact in [CFact::Promised, CFact::Declined, CFact::Declared, CFact::PromiseRevoked, CFact::DeclineRevoked] {
        assert_eq!(i.addressee_for(&fact), S1);
    }
}

#[test]
fn an_obligation_arises_only_where_an_act_answers() {
    let model = model();
    let mut execution = Execution::default();
    execution.add_transaction_instance_at(&model, instance(1, None, T1, S1, S2), at(1)).unwrap();
    walk(&mut execution, &model, 1, &[(S2, CPFact::CFact(CFact::Declined))]);
    assert_eq!(execution.c_p_world.len(), 2);
    assert_eq!(execution.agendas.len(), 1);
    walk(&mut execution, &model, 1, &[(S2, CPFact::CFact(CFact::Declared))]);
    assert_eq!(execution.agendas.len(), 2);
    assert_eq!(execution.agendas[1].0, S1);
    walk(&mut execution, &model, 1, &[(S1, CPFact::CFact(CFact::Rejected))]);
    assert_eq!(execution.agendas.len(), 3);
    assert_eq!(execution.agendas[2].0, S2);
    walk(&mut execution, &model, 1, &[(S1, CPFact::CFact(CFact::Accepted))]);
    assert_eq!(execution.agendas.len(), 3);
    assert_eq!(execution.c_p_world.len(), 5);
}

#[test]
fn recording_keeps_what_the_world_held() {
    let model = model();
    let mut execution = Execution::default();
    execution.add_transaction_instance_at(&model, instance(1, None, T1, S1, S2), at(1)).unwrap();
    let mut facts: Vec<CPFact> = demosim::model::all_c_facts().into_iter().map(CPFact::CFact).collect();
    facts.push(CPFact::PFact);
    for (n, fact) in facts.iter().enumerate() {
        let world = execution.c_p_world.clone();
        let agendas = execution.agendas.clone();
        execution.process_new_fact_at(&model, TransactionInstanceId(1), S2, *fact, at(n as i64)).unwrap();
        assert_eq!(execution.c_p_world.len(), world.len() + 1);
        assert_eq!(execution.c_p_world[..world.len()], world[..]);
        assert_eq!(execution.c_p_world.last().unwrap().to_fact(), *fact);
        assert!(execution.agendas.len() <= agendas.len() + 1);
        assert_eq!(execution.agendas[..agendas.len()], agendas[..]);
        assert_eq!(execution.transactions_instances.len(), 1);
    }
}

#[test]
fn every_answer_can_be_recorded() {
    let model = model();
    let mut facts: Vec<CPFact> = demosim::model::all_c_facts().into_iter().map(CPFact::CFact).collect();
    facts.push(CPFact::PFact);
    for fact in facts {
        for act in fact.next_acts() {
            let mut execution = Execution::default();
            execution.add_transaction_instance_at(&model, instance(1, None, T1, S1, S2), at(1)).unwrap();
            assert_eq!(
                execution.process_new_fact_at(&model, TransactionInstanceId(1), S1, act.to_fact(), at(2)),
                Ok(())
            );
            assert_eq!(execution.c_p_world.len(), 2);
            assert_eq!(execution.c_p_world[1].to_fact(), act.to_fact());
            assert_eq!(*execution.c_p_world[1].get_transaction_instance_id(), TransactionInstanceId(1));
        }
    }
}

#[test]
fn nothing_is_recorded_of_what_is_unknown() {
    let model = model();
    let mut execution = Execution::default();
    assert_eq!(
        execution.process_new_fact_at(&model, TransactionInstanceId(1), S1, CPFact::PFact, at(1)),
        Err(LookupError::UnknownTransactionInstance)
    );
    assert_eq!(
        execution.process_new_fact(&model, TransactionInstanceId(1), S1, CPFact::PFact),
        Err(LookupError::UnknownTransactionInstance)
    );
    assert_eq!(
        execution.add_transaction_instance_at(&model, instance(1, None, T1, SubjectId(99), S2), at(1)),
        Err(LookupError::UnknownSubject)
    );
    assert_eq!(
        execution.add_transaction_instance(&model, instance(1, None, T1, S1, SubjectId(99))),
        Err(LookupError::UnknownSubject)
    );
    assert!(execution.transactions_instances.is_empty());
    assert!(execution.c_p_world.is_empty());
    assert!(execution.agendas.is_empty());
    execution.add_transaction_instance_at(&model, instance(1, None, T1, S1, S2), at(1)).unwrap();
    assert_eq!(
        execution.process_new_fact_at(&model, TransactionInstanceId(1), SubjectId(99), CPFact::PFact, at(2)),
        Err(LookupError::UnknownSubject)
    );
    assert_eq!(execution.c_p_world.len(), 1);
    assert_eq!(execution.agendas.len(), 1);
    assert_eq!(
        execution.get_transaction_instance(&TransactionInstanceId(2)).err(),
        Some(LookupError::UnknownTransactionInstance)
    );
    assert_eq!(execution.get_transaction_instance(&TransactionInstanceId(1)).unwrap().product_instance, "product 1");
}

#[test]
fn retiring_takes_the_first_matching_obligation_only() {
    let model = model();
    let mut execution = Execution::default();
    execution.add_transaction_instance_at(&model, instance(1, None, T1, S1, S2), at(1)).unwrap();
    execution.add_transaction_instance_at(&model, instance(2, None, T1, S1, S2), at(1)).unwrap();
    walk(&mut execution, &model, 1, &[(S2, CPFact::CFact(CFact::Promised)), (S2, CPFact::CFact(CFact::Promised))]);
    let before = execution.agendas.clone();
    assert_eq!(before.len(), 4);
    let absent = AgendaItem {
        timestamp: at(1),
        transaction_instance_id: TransactionInstanceId(1),
        performer_id: S2,
        fact: CPFact::CFact(CFact::Requested),
    };
    execution.remove_agenda_item(&absent);
    assert_eq!(execution.agendas, before);
    let second = before[1].1;
    execution.remove_agenda_item(&second);
    assert_eq!(execution.agendas, vec![before[0], before[2], before[3]]);
    execution.remove_agenda_item(&second);
    assert_eq!(execution.agendas, vec![before[0], before[2], before[3]]);
    assert_eq!(execution.c_p_world.len(), 4);
    let mut twice = Execution::default();
    twice.agendas = vec![(S1, second), (S2, absent), (S2, second)];
    twice.remove_agenda_item(&second);
    assert_eq!(twice.agendas, vec![(S2, absent), (S2, second)]);
}

#[test]
fn the_world_is_searched_by_instance_and_fact() {
    let model = model();
    let mut execution = Execution::default();
    execution.add_transaction_instance_at(&model, instance(1, None, T1, S1, S2), at(1)).unwrap();
    execution.add_transaction_instance_at(&model, instance(2, None, T1, S1, S2), at(2)).unwrap();
    walk(&mut execution, &model, 1, &[(S2, CPFact::CFact(CFact::Promised)), (S2, CPFact::PFact), (S2, CPFact::PFact)]);
    let one = TransactionInstanceId(1);
    let two = TransactionInstanceId(2);
    let facts: Vec<CPFact> = execution.get_facts_for_transaction_instance(&one).iter().map(|w| w.to_fact()).collect();
    assert_eq!(facts, vec![CPFact::CFact(CFact::Requested), CPFact::CFact(CFact::Promised), CPFact::PFact, CPFact::PFact]);
    assert_eq!(execution.get_facts_for_transaction_instance(&two).len(), 1);
    assert!(execution.get_facts_for_transaction_instance(&TransactionInstanceId(3)).is_empty());
    let produced = execution.get_c_p_world_item_by_fact(&one, &CPFact::PFact).unwrap();
    assert_eq!(*produced.get_timestamp(), at(101));
    assert_eq!(produced.get_performer().name, "S2");
    assert_eq!(*produced.get_transaction_instance_id(), one);
    assert!(execution.get_c_p_world_item_by_fact(&two, &CPFact::PFact).is_none());
    assert!(execution.get_c_p_world_item_by_fact(&one, &CPFact::CFact(CFact::Accepted)).is_none());
    assert!(execution.get_c_p_world_item_by_fact(&two, &CPFact::CFact(CFact::Requested)).is_some());
    assert_eq!(execution.last_fact(&one), Some(CPFact::PFact));
    assert_eq!(execution.last_fact(&two), Some(CPFact::CFact(CFact::Requested)));
    assert_eq!(execution.last_fact(&TransactionInstanceId(3)), None);
    assert_eq!(execution.get_instances_of_transaction(&T1).len(), 2);
    assert_eq!(execution.get_instances_of_transaction(&T1)[1].id, two);
    assert!(execution.get_instances_of_transaction(&T2).is_empty());
}

#[test]
fn an_act_waits_for_the_impeding_instance() {
    let mut model = model();
    model.transactions[0].impediments.push(Impediment {
        impeded_act: CPAct::CAct(CAct::Accept),
        impeding_transaction_id: T2,
        impeding_c_fact: CFact::Accepted,
    });
    let t1 = model.transactions[0].clone();
    let accept = CPAct::CAct(CAct::Accept);
    let parent = TransactionInstanceId(1);
    let mut execution = Execution::default();
    execution.add_transaction_instance_at(&model, instance(1, None, T1, S1, S2), at(1)).unwrap();
    assert_eq!(
        execution.get_act_impediments(&model, &t1, parent, &accept),
        Ok(Some(vec!["Waiting for an instance of T2: Payment - Accepted".to_string()]))
    );
    assert_eq!(execution.get_act_impediments(&model, &t1, parent, &CPAct::CAct(CAct::Reject)), Ok(None));
    assert_eq!(execution.get_act_impediments(&model, &t1, parent, &CPAct::PAct), Ok(None));

    let child = 0x0123_4567_89ab_cdef_fedc_ba98_7654_3210u128;
    execution.add_transaction_instance_at(&model, instance(7, Some(2), T2, S2, S1), at(2)).unwrap();
    execution.add_transaction_instance_at(&model, instance(child, Some(1), T2, S2, S1), at(2)).unwrap();
    walk(&mut execution, &model, 7, &[(S2, CPFact::CFact(CFact::Accepted))]);
    assert_eq!(
        execution.get_act_impediments(&model, &t1, parent, &accept),
        Ok(Some(vec![
            "Waiting for transaction instance 01234567-89ab-cdef-fedc-ba9876543210 reaching fact Accepted"
                .to_string()
        ]))
    );
    walk(
        &mut execution,
        &model,
        child,
        &[
            (S1, CPFact::CFact(CFact::Promised)),
            (S1, CPFact::PFact),
            (S1, CPFact::CFact(CFact::Declared)),
            (S2, CPFact::CFact(CFact::Accepted)),
        ],
    );
    assert_eq!(execution.get_act_impediments(&model, &t1, parent, &accept), Ok(None));
    walk(&mut execution, &model, 1, &[(S2, CPFact::CFact(CFact::Promised)), (S2, CPFact::PFact)]);
    walk(&mut execution, &model, 7, &[(S2, CPFact::CFact(CFact::RejectRevoked))]);
    assert_eq!(execution.get_act_impediments(&model, &t1, parent, &accept), Ok(None));
}

#[test]
fn each_unsatisfied_wait_link_gives_its_reason() {
    let mut model = model();
    let accept = CPAct::CAct(CAct::Accept);
    model.transactions[0].impediments = vec![
        Impediment { impeded_act: accept, impeding_transaction_id: T2, impeding_c_fact: CFact::Promised },
        Impediment { impeded_act: CPAct::PAct, impeding_transaction_id: T2, impeding_c_fact: CFact::Accepted },
        Impediment { impeded_act: accept, impeding_transaction_id: T3, impeding_c_fact: CFact::Declared },
        Impediment { impeded_act: accept, impeding_transaction_id: T2, impeding_c_fact: CFact::Requested },
    ];
    let t1 = model.transactions[0].clone();
    let parent = TransactionInstanceId(1);
    let mut execution = Execution::default();
    execution.add_transaction_instance_at(&model, instance(1, None, T1, S1, S2), at(1)).unwrap();
    execution.add_transaction_instance_at(&model, instance(2, Some(1), T2, S2, S1), at(2)).unwrap();
    assert_eq!(
        execution.get_act_impediments(&model, &t1, parent, &accept),
        Ok(Some(vec![
            "Waiting for transaction instance 00000000-0000-0000-0000-000000000002 reaching fact Promised"
                .to_string(),
            "Waiting for an instance of T0: Delivery - Declared".to_string(),
        ]))
    );
    assert_eq!(
        execution.get_act_impediments(&model, &t1, parent, &CPAct::PAct),
        Ok(Some(vec![
            "Waiting for transaction instance 00000000-0000-0000-0000-000000000002 reaching fact Accepted"
                .to_string()
        ]))
    );
    let mut strange = t1.clone();
    strange.impediments.push(Impediment {
        impeded_act: accept,
        impeding_transaction_id: TransactionId(999),
        impeding_c_fact: CFact::Requested,
    });
    assert_eq!(
        execution.get_act_impediments(&model, &strange, parent, &accept),
        Err(LookupError::UnknownTransaction)
    );
    assert_eq!(
        execution.get_act_impediments(&model, &strange, parent, &CPAct::PAct).map(|r| r.map(|v| v.len())),
        Ok(Some(1))
    );
}

#[test]
fn deleting_an_instance_takes_all_that_speaks_of_it() {
    let model = model();
    let mut execution = Execution::default();
    execution.add_transaction_instance_at(&model, instance(1, None, T1, S1, S2), at(1)).unwrap();
    execution.add_transaction_instance_at(&model, instance(2, Some(1), T2, S2, S1), at(2)).unwrap();
    execution.add_transaction_instance_at(&model, instance(3, None, T1, S1, S2), at(3)).unwrap();
    walk(&mut execution, &model, 1, &[(S2, CPFact::CFact(CFact::Promised)), (S2, CPFact::PFact)]);
    walk(&mut execution, &model, 3, &[(S2, CPFact::CFact(CFact::Promised))]);
    walk(&mut execution, &model, 1, &[(S2, CPFact::CFact(CFact::Declared))]);
    let world: Vec<CPWorldItem> =
        execution.c_p_world.iter().filter(|w| *w.get_transaction_instance_id() != TransactionInstanceId(1)).cloned().collect();
    let agendas: Vec<(SubjectId, AgendaItem)> = execution
        .agendas
        .iter()
        .filter(|a| a.1.transaction_instance_id != TransactionInstanceId(1))
        .cloned()
        .collect();
    assert_eq!(execution.c_p_world.len(), 7);
    assert_eq!(world.len(), 3);
    assert_eq!(agendas.len(), 3);
    execution.delete_transaction_instance(&TransactionInstanceId(1));
    let left: Vec<u128> = execution.transactions_instances.iter().map(|t| t.id.0).collect();
    assert_eq!(left, vec![2, 3]);
    assert_eq!(execution.transactions_instances[0].parent_transaction_instance_id, Some(TransactionInstanceId(1)));
    assert_eq!(execution.c_p_world, world);
    assert_eq!(execution.agendas, agendas);
    assert!(execution.get_facts_for_transaction_instance(&TransactionInstanceId(1)).is_empty());
    execution.delete_transaction_instance(&TransactionInstanceId(1));
    assert_eq!(execution.c_p_world, world);
    assert_eq!(execution.agendas, agendas);
    assert_eq!(execution.transactions_instances.len(), 2);
}

#[test]
fn a_kind_is_startable_while_its_rule_has_room() {
    let mut model = model();
    model.transactions[0].initiations = vec![rule(CFact::Promised, T2, MultiplicityBound::Bounded(2))];
    let mut execution = Execution::default();
    let parent = instance(1, None, T1, S1, S2);
    execution.add_transaction_instance_at(&model, instance(1, None, T1, S1, S2), at(1)).unwrap();
    let codes = |execution: &Execution, subject: SubjectId| -> Result<Vec<String>, LookupError> {
        execution
            .startable_subtransactions(&model, &parent, &subject)
            .map(|kinds| kinds.iter().map(|t| t.t_id.clone()).collect())
    };
    assert_eq!(codes(&execution, S2), Ok(vec![]));
    walk(&mut execution, &model, 1, &[(S2, CPFact::CFact(CFact::Promised))]);
    assert_eq!(codes(&execution, S2), Ok(vec!["T2".to_string()]));
    assert_eq!(codes(&execution, S1), Ok(vec![]));
    assert_eq!(codes(&execution, SubjectId(99)), Ok(vec![]));
    execution.add_transaction_instance_at(&model, instance(2, Some(1), T2, S2, S1), at(2)).unwrap();
    assert_eq!(codes(&execution, S2), Ok(vec!["T2".to_string()]));
    execution.add_transaction_instance_at(&model, instance(3, None, T2, S2, S1), at(3)).unwrap();
    assert_eq!(codes(&execution, S2), Ok(vec![]));
    execution.delete_transaction_instance(&TransactionInstanceId(3));
    assert_eq!(codes(&execution, S2), Ok(vec!["T2".to_string()]));
}

#[test]
fn startable_kinds_come_once_and_by_their_codes() {
    let mut model = model();
    model.transactions[0].initiations = vec![
        rule(CFact::Requested, T2, MultiplicityBound::Bounded(0)),
        rule(CFact::Requested, T2, MultiplicityBound::Unbounded),
        rule(CFact::Requested, T3, MultiplicityBound::Bounded(1)),
        rule(CFact::Requested, T2, MultiplicityBound::Bounded(5)),
        rule(CFact::Accepted, T3, MultiplicityBound::Unbounded),
    ];
    let mut execution = Execution::default();
    let parent = instance(1, None, T1, S1, S2);
    execution.add_transaction_instance_at(&model, instance(1, None, T1, S1, S2), at(1)).unwrap();
    let kinds = execution.startable_subtransactions(&model, &parent, &S2).unwrap();
    let codes: Vec<&str> = kinds.iter().map(|t| t.t_id.as_str()).collect();
    assert_eq!(codes, vec!["T0", "T2"]);
    assert_eq!(kinds[0].id, T3);
    assert_eq!(kinds[1].id, T2);
}

#[test]
fn kinds_with_one_code_come_in_the_order_of_their_rules() {
    let mut model = model();
    model.transactions.push(kind(TransactionId(104), "T2", "Second payment", B, A));
    model.transactions.push(kind(TransactionId(105), "T2", "Third payment", B, A));
    model.transactions[0].initiations = vec![
        rule(CFact::Requested, TransactionId(105), MultiplicityBound::Unbounded),
        rule(CFact::Requested, T3, MultiplicityBound::Unbounded),
        rule(CFact::Requested, T2, MultiplicityBound::Unbounded),
        rule(CFact::Requested, TransactionId(105), MultiplicityBound::Unbounded),
        rule(CFact::Requested, TransactionId(104), MultiplicityBound::Unbounded),
    ];
    let mut execution = Execution::default();
    let parent = instance(1, None, T1, S1, S2);
    execution.add_transaction_instance_at(&model, instance(1, None, T1, S1, S2), at(1)).unwrap();
    let kinds = execution.startable_subtransactions(&model, &parent, &S2).unwrap();
    let ids: Vec<u128> = kinds.iter().map(|t| t.id.0).collect();
    assert_eq!(ids, vec![103, 105, 102, 104]);
}

#[test]
fn rules_that_name_unknown_kinds_are_refused() {
    let mut model = model();
    let mut execution = Execution::default();
    execution.add_transaction_instance_at(&model, instance(1, None, T1, S1, S2), at(1)).unwrap();
    let stray = instance(5, None, TransactionId(999), S1, S2);
    assert_eq!(
        execution.startable_subtransactions(&model, &stray, &S1).err(),
        Some(LookupError::UnknownTransaction)
    );
    model.transactions[0].initiations = vec![
        rule(CFact::Accepted, T2, MultiplicityBound::Unbounded),
        rule(CFact::Accepted, TransactionId(999), MultiplicityBound::Bounded(0)),
    ];
    let parent = instance(1, None, T1, S1, S2);
    assert_eq!(
        execution.startable_subtransactions(&model, &parent, &S2).err(),
        Some(LookupError::UnknownTransaction)
    );
}

#[test]
fn an_instance_is_shown_by_its_token() {
    assert_eq!(TransactionInstanceId(0x10).to_string(), "00000000-0000-0000-0000-000000000010");
    assert_eq!(
        TransactionInstanceId(0xdead_beef_0000_4000_8000_0000_0000_0001).to_string(),
        "deadbeef-0000-4000-8000-000000000001"
    );
}

#[test]
fn a_commit_records_the_fact_and_retires_the_obligation() {
    let model = model();
    let mut execution = Execution::default();
    execution.add_transaction_instance_at(&model, instance(1, None, T1, S1, S2), at(1)).unwrap();
    let requested = execution.agenda_for(&S2)[0];
    assert_eq!(
        execution.commit_at(&model, S2, &requested, CPAct::CAct(CAct::Promise), at(2)),
        Ok(())
    );
    assert_eq!(execution.c_p_world.len(), 2);
    assert_eq!(execution.c_p_world[1].to_fact(), CPFact::CFact(CFact::Promised));
    let agenda = execution.agenda_for(&S2);
    assert_eq!(agenda.len(), 1);
    assert_eq!(agenda[0].fact, CPFact::CFact(CFact::Promised));
    assert_eq!(agenda[0].timestamp, at(2));
    assert_eq!(execution.commit(&model, S2, &agenda[0], CPAct::PAct), Ok(()));
    assert_eq!(execution.last_fact(&TransactionInstanceId(1)), Some(CPFact::PFact));
    let agenda = execution.agenda_for(&S2);
    assert_eq!(agenda.len(), 1);
    assert_eq!(agenda[0].fact, CPFact::PFact);
    assert!(agenda[0].timestamp.secs > 1_600_000_000);
}

#[test]
fn a_commit_is_refused_where_it_is_not_in_order() {
    let mut model = model();
    model.transactions[0].impediments.push(Impediment {
        impeded_act: CPAct::CAct(CAct::Promise),
        impeding_transaction_id: T2,
        impeding_c_fact: CFact::Requested,
    });
    let mut execution = Execution::default();
    execution.add_transaction_instance_at(&model, instance(1, None, T1, S1, S2), at(1)).unwrap();
    let requested = execution.agenda_for(&S2)[0];
    let world = execution.c_p_world.clone();
    let agendas = execution.agendas.clone();
    assert_eq!(
        execution.commit_at(&model, S2, &requested, CPAct::CAct(CAct::Accept), at(2)),
        Err(CommitError::IllegalAct)
    );
    assert_eq!(execution.commit(&model, S2, &requested, CPAct::PAct), Err(CommitError::IllegalAct));
    assert_eq!(
        execution.commit_at(&model, S2, &requested, CPAct::CAct(CAct::Promise), at(2)),
        Err(CommitError::Impeded)
    );
    assert_eq!(
        execution.commit_at(&model, SubjectId(99), &requested, CPAct::CAct(CAct::Decline), at(2)),
        Err(CommitError::Unknown(LookupError::UnknownSubject))
    );
    let stray = AgendaItem { transaction_instance_id: TransactionInstanceId(9), ..requested };
    assert_eq!(
        execution.commit_at(&model, S2, &stray, CPAct::CAct(CAct::Decline), at(2)),
        Err(CommitError::Unknown(LookupError::UnknownTransactionInstance))
    );
    execution.transactions_instances.push(instance(9, None, TransactionId(999), S1, S2));
    assert_eq!(
        execution.commit_at(&model, S2, &stray, CPAct::CAct(CAct::Decline), at(2)),
        Err(CommitError::Unknown(LookupError::UnknownTransaction))
    );
    assert_eq!(execution.c_p_world, world);
    assert_eq!(execution.agendas, agendas);
    execution.add_transaction_instance_at(&model, instance(2, Some(1), T2, S2, S1), at(3)).unwrap();
    assert_eq!(
        execution.commit_at(&model, S2, &requested, CPAct::CAct(CAct::Promise), at(4)),
        Ok(())
    );
}

#[test]
fn a_request_without_a_parent_waits_for_nothing() {
    let mut model = model();
    model.transactions[1].impediments.push(Impediment {
        impeded_act: CPAct::CAct(CAct::Request),
        impeding_transaction_id: T3,
        impeding_c_fact: CFact::Accepted,
    });
    let pay = model.transactions[1].clone();
    let mut execution = Execution::default();
    execution.add_transaction_instance_at(&model, instance(1, None, T1, S1, S2), at(1)).unwrap();
    assert_eq!(execution.get_request_impediments(&model, &pay, None), Ok(None));
    assert_eq!(
        execution.get_request_impediments(&model, &pay, Some(TransactionInstanceId(1))),
        Ok(Some(vec!["Waiting for an instance of T0: Delivery - Accepted".to_string()]))
    );
    assert_eq!(instance(1, None, T1, S1, S2).impediment_scope(), TransactionInstanceId(1));
    assert_eq!(instance(2, Some(1), T2, S2, S1).impediment_scope(), TransactionInstanceId(1));
}

#[test]
fn an_execution_fits_a_model_that_knows_its_instances() {
    let model = model();
    let mut execution = Execution::default();
    assert!(execution.fits(&model));
    execution.add_transaction_instance_at(&model, instance(1, None, T1, S1, S2), at(1)).unwrap();
    execution.add_transaction_instance_at(&model, instance(2, Some(1), T2, S2, S1), at(2)).unwrap();
    assert!(execution.fits(&model));
    execution.transactions_instances.push(instance(3, None, TransactionId(999), S1, S2));
    assert!(!execution.fits(&model));
    execution.transactions_instances.pop();
    execution.transactions_instances.push(instance(3, None, T1, SubjectId(99), S2));
    assert!(!execution.fits(&model));
    execution.transactions_instances.pop();
    execution.transactions_instances.push(instance(3, None, T1, S1, SubjectId(99)));
    assert!(!execution.fits(&model));
    assert!(execution.fits(&{
        let mut wider = self::model();
        wider.subjects.push(subject(SubjectId(99), "S99"));
        wider
    }));
}
