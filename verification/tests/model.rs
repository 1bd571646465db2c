use demosim::model::{
    all_adt_options, ActorRole, ActorRoleId, Adt, AdtMapping, AdtOption, CAct, CFact, Initiation,
    LookupError, Model, Multiplicity, MultiplicityBound, Subject, SubjectId, Transaction,
    TransactionId,
};
use demosim::search::text_precedes;

fn role(id: u128, name: &str) -> ActorRole {
    ActorRole { id: ActorRoleId(id), name: name.to_string() }
}

fn subject(id: u128, name: &str) -> Subject {
    Subject { id: SubjectId(id), name: name.to_string() }
}

fn kind(id: u128, code: &str, name: &str, initiator: u128, executor: u128) -> Transaction {
    Transaction {
        id: TransactionId(id),
        t_id: code.to_string(),
        name: name.to_string(),
        product: format!("{} is done", name),
        initiator_id: ActorRoleId(initiator),
        executor_id: ActorRoleId(executor),
        initiations: Vec::new(),
        impediments: Vec::new(),
    }
}

fn rental() -> Model {
    let mut model = Model::default();
    model.name = "Rental".to_string();
    model.actor_roles = vec![role(1, "Renter"), role(2, "Rental completer"), role(3, "Driver")];
    model.subjects = vec![subject(11, "Alice"), subject(12, "Bob"), subject(13, "Carol")];
    let mut rent = kind(101, "T1", "Rental completion", 1, 2);
    rent.initiations.push(Initiation {
        initiating_c_fact: CFact::Promised,
        initiated_transaction_id: TransactionId(102),
        initiated_c_act: CAct::Request,
        multiplicity: Multiplicity { min: 0, max: MultiplicityBound::Bounded(1) },
    });
    let pay = kind(102, "T2", "Deposit payment", 2, 1);
    let pick = kind(103, "T3", "Car pick-up", 1, 3);
    model.transactions = vec![rent, pay, pick];
    model.adt.insert(ActorRoleId(1), SubjectId(11), AdtOption::Authorisation);
    model.adt.insert(ActorRoleId(2), SubjectId(12), AdtOption::Authorisation);
    model.adt.insert(ActorRoleId(1), SubjectId(13), AdtOption::Delegation);
    model.adt.insert(ActorRoleId(3), SubjectId(13), AdtOption::Authorisation);
    model
}

#[test]
fn an_option_is_read_from_its_letter_only() {
    assert_eq!(AdtOption::from_str("A"), Some(AdtOption::Authorisation));
    assert_eq!(AdtOption::from_str("D"), Some(AdtOption::Delegation));
    assert_eq!(AdtOption::from_str(""), None);
    assert_eq!(AdtOption::from_str("a"), None);
    assert_eq!(AdtOption::from_str("AD"), None);
    assert_eq!(AdtOption::from_str(" A"), None);
    assert_eq!(AdtOption::from_str("Ä"), None);
}

#[test]
fn an_option_is_shown_as_its_letter() {
    assert_eq!(AdtOption::Authorisation.to_string(), "A");
    assert_eq!(AdtOption::Delegation.to_string(), "D");
    for option in all_adt_options() {
        assert_eq!(AdtOption::from_str(&option.to_string()), Some(option));
    }
    assert_eq!(all_adt_options(), vec![AdtOption::Authorisation, AdtOption::Delegation]);
    assert_eq!(AdtOption::default(), AdtOption::Authorisation);
}

#[test]
fn an_identity_is_shown_in_hyphenated_lower_case() {
    let value = 0x0123_4567_89ab_cdef_fedc_ba98_7654_3210u128;
    let text = "01234567-89ab-cdef-fedc-ba9876543210";
    assert_eq!(ActorRoleId(value).to_string(), text);
    assert_eq!(TransactionId(value).to_string(), text);
    assert_eq!(SubjectId(value).to_string(), text);
    assert_eq!(SubjectId(0).to_string(), "00000000-0000-0000-0000-000000000000");
    assert_eq!(SubjectId(u128::MAX).to_string(), "ffffffff-ffff-ffff-ffff-ffffffffffff");
    assert_eq!(SubjectId(0xa0).to_string(), "00000000-0000-0000-0000-0000000000a0");
}

#[test]
fn a_new_identity_carries_the_marks_of_a_random_token() {
    let mask = 0x0000_0000_0000_f000_c000_0000_0000_0000u128;
    let marks = 0x0000_0000_0000_4000_8000_0000_0000_0000u128;
    let a = Subject::default();
    let b = Subject::default();
    assert_eq!(a.id.0 & mask, marks);
    assert_eq!(b.id.0 & mask, marks);
    assert_ne!(a.id, b.id);
    assert_eq!(a.name, "");
    let r = ActorRole::default();
    assert_eq!(r.id.0 & mask, marks);
    assert_eq!(r.name, "");
    let t = Transaction::new();
    assert_eq!(t.id.0 & mask, marks);
    assert_eq!(t.initiator_id.0 & mask, marks);
    assert_ne!(t.initiator_id, t.executor_id);
    assert!(t.t_id.is_empty() && t.name.is_empty() && t.product.is_empty());
    assert!(t.initiations.is_empty() && t.impediments.is_empty());
}

#[test]
fn kinds_are_equal_where_their_identities_are() {
    let a = kind(7, "T7", "Seven", 1, 2);
    let b = kind(7, "T8", "Eight", 3, 4);
    let c = kind(8, "T7", "Seven", 1, 2);
    assert!(a == b);
    assert!(a != c);
    let copy = a.clone();
    assert_eq!(copy.t_id, "T7");
    assert_eq!(copy.name, "Seven");
    assert_eq!(copy.initiator_id, ActorRoleId(1));
}

#[test]
fn a_bound_admits_counts_below_it() {
    assert!(MultiplicityBound::Bounded(3).is_within_bound(0));
    assert!(MultiplicityBound::Bounded(3).is_within_bound(2));
    assert!(!MultiplicityBound::Bounded(3).is_within_bound(3));
    assert!(!MultiplicityBound::Bounded(3).is_within_bound(4));
    assert!(!MultiplicityBound::Bounded(0).is_within_bound(0));
    assert!(MultiplicityBound::Unbounded.is_within_bound(0));
    assert!(MultiplicityBound::Unbounded.is_within_bound(usize::MAX));
    assert_eq!(Multiplicity::default(), Multiplicity { min: 0, max: MultiplicityBound::Unbounded });
}

#[test]
fn the_table_holds_a_pair_once() {
    let mut adt = Adt::new();
    assert_eq!(adt.insert(ActorRoleId(1), SubjectId(11), AdtOption::Authorisation), None);
    assert_eq!(adt.insert(ActorRoleId(2), SubjectId(11), AdtOption::Delegation), None);
    assert_eq!(
        adt.insert(ActorRoleId(1), SubjectId(11), AdtOption::Delegation),
        Some(AdtOption::Authorisation)
    );
    assert_eq!(adt.mappings.len(), 2);
    assert_eq!(
        adt.mappings[0],
        AdtMapping {
            actor_role_id: ActorRoleId(1),
            subject_id: SubjectId(11),
            option: AdtOption::Delegation
        }
    );
    assert_eq!(adt.get(&ActorRoleId(1), &SubjectId(11)), Some(AdtOption::Delegation));
    assert_eq!(adt.get(&ActorRoleId(1), &SubjectId(12)), None);
    assert_eq!(adt.remove(&ActorRoleId(1), &SubjectId(11)), Some(AdtOption::Delegation));
    assert_eq!(adt.remove(&ActorRoleId(1), &SubjectId(11)), None);
    assert_eq!(adt.get(&ActorRoleId(1), &SubjectId(11)), None);
    assert_eq!(adt.get(&ActorRoleId(2), &SubjectId(11)), Some(AdtOption::Delegation));
    assert_eq!(adt.mappings.len(), 1);
    assert_eq!(Adt::default(), Adt::new());
    assert!(adt.is_well_formed());
    assert!(Adt::new().is_well_formed());
    let line = AdtMapping {
        actor_role_id: ActorRoleId(2),
        subject_id: SubjectId(11),
        option: AdtOption::Authorisation,
    };
    adt.mappings.push(AdtMapping { subject_id: SubjectId(12), ..line });
    assert!(adt.is_well_formed());
    adt.mappings.push(line);
    assert!(!adt.is_well_formed());
}

#[test]
fn the_table_answers_by_role_and_by_subject() {
    let model = rental();
    assert!(model.adt.is_mapped(&ActorRoleId(1)));
    assert!(model.adt.is_mapped(&ActorRoleId(3)));
    assert!(!model.adt.is_mapped(&ActorRoleId(4)));
    let carol = subject(13, "Carol");
    assert_eq!(model.adt.get_roles_of_subject(&carol), vec![&ActorRoleId(1), &ActorRoleId(3)]);
    assert_eq!(model.adt.get_roles_of_subject(&subject(12, "Bob")), vec![&ActorRoleId(2)]);
    assert!(model.adt.get_roles_of_subject(&subject(99, "Nobody")).is_empty());
    assert_eq!(
        model.adt.get_adt_options_for_role(&ActorRoleId(1)),
        vec![
            (&SubjectId(11), &AdtOption::Authorisation),
            (&SubjectId(13), &AdtOption::Delegation)
        ]
    );
    assert!(model.adt.get_adt_options_for_role(&ActorRoleId(4)).is_empty());
}

#[test]
fn the_model_finds_what_it_holds_by_identity() {
    let model = rental();
    assert_eq!(model.get_actor_role(&ActorRoleId(2)).unwrap().name, "Rental completer");
    assert_eq!(model.get_transaction(&TransactionId(103)).unwrap().t_id, "T3");
    assert_eq!(model.get_subject(&SubjectId(12)).unwrap().name, "Bob");
    assert_eq!(model.get_actor_role(&ActorRoleId(9)).err(), Some(LookupError::UnknownActorRole));
    assert_eq!(
        model.get_transaction(&TransactionId(9)).err(),
        Some(LookupError::UnknownTransaction)
    );
    assert_eq!(model.get_subject(&SubjectId(9)).err(), Some(LookupError::UnknownSubject));
}

#[test]
fn the_model_finds_the_first_of_two_with_one_identity() {
    let mut model = rental();
    model.subjects.push(subject(11, "Second Alice"));
    assert_eq!(model.get_subject(&SubjectId(11)).unwrap().name, "Alice");
}

#[test]
fn the_initiators_of_a_kind_hold_its_initiator_role() {
    let model = rental();
    assert_eq!(
        model.get_initiator_subjects_ids(&TransactionId(101)),
        Ok(vec![SubjectId(11), SubjectId(13)])
    );
    assert_eq!(model.get_initiator_subjects_ids(&TransactionId(102)), Ok(vec![SubjectId(12)]));
    assert_eq!(
        model.get_initiator_subjects_ids(&TransactionId(9)),
        Err(LookupError::UnknownTransaction)
    );
}

#[test]
fn a_subject_starts_alone_what_no_rule_initiates() {
    let model = rental();
    let alice: Vec<u128> = model
        .directly_startable_transactions(&SubjectId(11))
        .unwrap()
        .iter()
        .map(|t| t.id.0)
        .collect();
    assert_eq!(alice, vec![101, 103]);
    let bob = model.directly_startable_transactions(&SubjectId(12)).unwrap();
    assert!(bob.is_empty());
    assert_eq!(
        model.directly_startable_transactions(&SubjectId(9)).err(),
        Some(LookupError::UnknownSubject)
    );
}

#[test]
fn a_new_model_holds_nothing() {
    let model = Model::default();
    assert_eq!(model.name, "No name");
    assert!(model.actor_roles.is_empty());
    assert!(model.transactions.is_empty());
    assert!(model.subjects.is_empty());
    assert!(model.adt.mappings.is_empty());
}

#[test]
fn texts_are_ordered_as_in_a_dictionary() {
    let samples = ["", "T", "T1", "T10", "T2", "t1", "A", "Ä", "Z", "zebra", "T1 ", "é", "日本"];
    for a in samples {
        for b in samples {
            assert_eq!(text_precedes(a, b), a <= b, "{:?} against {:?}", a, b);
        }
    }
    assert!(text_precedes("T1", "T10"));
    assert!(text_precedes("T10", "T2"));
    assert!(!text_precedes("T2", "T10"));
    assert!(text_precedes("T1", "T1"));
}

#[test]
fn a_role_in_use_cannot_be_deleted() {
    let mut model = rental();
    model.actor_roles.push(role(4, "Auditor"));
    assert!(!model.can_delete_actor_role(&ActorRoleId(1)));
    assert!(!model.can_delete_actor_role(&ActorRoleId(2)));
    assert!(!model.can_delete_actor_role(&ActorRoleId(3)));
    assert!(model.can_delete_actor_role(&ActorRoleId(4)));
    assert!(model.can_delete_actor_role(&ActorRoleId(99)));
    model.transactions.clear();
    assert!(!model.can_delete_actor_role(&ActorRoleId(1)));
    model.adt.remove(&ActorRoleId(1), &SubjectId(11));
    assert!(!model.can_delete_actor_role(&ActorRoleId(1)));
    model.adt.remove(&ActorRoleId(1), &SubjectId(13));
    assert!(model.can_delete_actor_role(&ActorRoleId(1)));
}

#[test]
fn a_kind_that_another_waits_for_cannot_be_deleted() {
    let mut model = rental();
    assert!(model.can_delete_transaction(&TransactionId(102)));
    model.transactions[2].impediments.push(demosim::model::Impediment {
        impeded_act: demosim::model::CPAct::PAct,
        impeding_transaction_id: TransactionId(102),
        impeding_c_fact: CFact::Accepted,
    });
    assert!(!model.can_delete_transaction(&TransactionId(102)));
    assert!(model.can_delete_transaction(&TransactionId(101)));
    assert!(model.can_delete_transaction(&TransactionId(103)));
}

#[test]
fn a_role_executes_one_kind_at_most() {
    let mut model = rental();
    model.actor_roles.insert(0, role(4, "Auditor"));
    model.actor_roles.push(role(5, "Clerk"));
    let free: Vec<&str> = model.available_executors().iter().map(|r| r.name.as_str()).collect();
    assert_eq!(free, vec!["Auditor", "Clerk"]);
    model.transactions.remove(0);
    let free: Vec<&str> = model.available_executors().iter().map(|r| r.name.as_str()).collect();
    assert_eq!(free, vec!["Auditor", "Rental completer", "Clerk"]);
}

#[test]
fn what_an_editor_types_sets_or_clears_a_line_of_the_table() {
    let mut adt = Adt::new();
    adt.set_choice(ActorRoleId(1), SubjectId(11), "A");
    adt.set_choice(ActorRoleId(2), SubjectId(11), "D");
    assert_eq!(adt.get(&ActorRoleId(1), &SubjectId(11)), Some(AdtOption::Authorisation));
    assert_eq!(adt.get(&ActorRoleId(2), &SubjectId(11)), Some(AdtOption::Delegation));
    adt.set_choice(ActorRoleId(1), SubjectId(11), "D");
    assert_eq!(adt.get(&ActorRoleId(1), &SubjectId(11)), Some(AdtOption::Delegation));
    assert_eq!(adt.mappings.len(), 2);
    adt.set_choice(ActorRoleId(1), SubjectId(11), "");
    assert_eq!(adt.get(&ActorRoleId(1), &SubjectId(11)), None);
    adt.set_choice(ActorRoleId(2), SubjectId(11), "x");
    assert!(adt.mappings.is_empty());
    adt.set_choice(ActorRoleId(2), SubjectId(11), "d");
    assert!(adt.mappings.is_empty());
}

#[test]
fn a_model_is_consistent_where_it_names_what_it_knows() {
    assert!(Model::default().is_consistent());
    assert!(rental().is_consistent());

    let mut unknown_role = rental();
    unknown_role.transactions[1].initiator_id = ActorRoleId(9);
    assert!(!unknown_role.is_consistent());

    let mut unknown_executor = rental();
    unknown_executor.transactions[2].executor_id = ActorRoleId(9);
    assert!(!unknown_executor.is_consistent());

    let mut shared_executor = rental();
    shared_executor.transactions[2].executor_id = ActorRoleId(2);
    assert!(!shared_executor.is_consistent());

    let mut unknown_target = rental();
    unknown_target.transactions[0].initiations[0].initiated_transaction_id = TransactionId(9);
    assert!(!unknown_target.is_consistent());

    let link = demosim::model::Impediment {
        impeded_act: demosim::model::CPAct::PAct,
        impeding_transaction_id: TransactionId(102),
        impeding_c_fact: CFact::Accepted,
    };
    let mut waits = rental();
    waits.transactions[0].impediments.push(link);
    assert!(waits.is_consistent());
    waits.transactions[1].impediments.push(link);
    assert!(!waits.is_consistent());

    let mut unknown_wait = rental();
    unknown_wait.transactions[0].impediments.push(demosim::model::Impediment {
        impeding_transaction_id: TransactionId(9),
        ..link
    });
    assert!(!unknown_wait.is_consistent());

    let mut stray_subject = rental();
    stray_subject.adt.insert(ActorRoleId(1), SubjectId(99), AdtOption::Authorisation);
    assert!(!stray_subject.is_consistent());

    let mut stray_role = rental();
    stray_role.adt.insert(ActorRoleId(9), SubjectId(11), AdtOption::Authorisation);
    assert!(!stray_role.is_consistent());

    let mut twice = rental();
    let line = twice.adt.mappings[0];
    twice.adt.mappings.push(line);
    assert!(!twice.is_consistent());
}
