//! The dynamic side: transaction instances, the world of the facts that were
//! created, and the agendas of the subjects.

use crate::clock::{now, Timestamp};
use crate::model::{LookupError, Model, Subject, SubjectId, TransactionId};
use crate::pattern::{CFact, CPFact};
use crate::search::{first_true, is_first_true, lemma_first_true_is, lemma_first_true_none};
use crate::token::{fresh_token, hyphenated, is_random_token, token_text};
use vstd::prelude::*;

verus! {

/// The identity of a transaction instance.
#[derive(Clone, Copy, Debug, PartialEq, Eq, Hash, Structural)]
pub struct TransactionInstanceId(pub u128);

impl TransactionInstanceId {
    pub fn to_string(&self) -> (text: String)
        ensures
            text@ == hyphenated(self.0),
    {
        token_text(self.0)
    }
}

/// One execution of a transaction kind between two subjects.
#[derive(Debug)]
pub struct TransactionInstance {
    pub id: TransactionInstanceId,
    pub parent_transaction_instance_id: Option<TransactionInstanceId>,
    pub transaction_id: TransactionId,
    pub product_instance: String,
    pub initiator_id: SubjectId,
    pub executor_id: SubjectId,
}

impl Clone for TransactionInstance {
    fn clone(&self) -> (copy: Self)
        ensures
            copy == *self,
    {
        TransactionInstance {
            id: self.id,
            parent_transaction_instance_id: self.parent_transaction_instance_id,
            transaction_id: self.transaction_id,
            product_instance: self.product_instance.clone(),
            initiator_id: self.initiator_id,
            executor_id: self.executor_id,
        }
    }
}

impl TransactionInstance {
    /// The subject to whom the fact `c_fact` of this instance is addressed: the
    /// executor hears of a request and of what the initiator says to a
    /// declaration, the initiator hears of what the executor says.
    pub open spec fn addressee(self, c_fact: CFact) -> SubjectId {
        match c_fact {
            CFact::Requested => self.executor_id,
            CFact::Promised => self.initiator_id,
            CFact::Declined => self.initiator_id,
            CFact::Declared => self.initiator_id,
            CFact::Accepted => self.executor_id,
            CFact::Rejected => self.executor_id,
            CFact::RequestRevoked => self.executor_id,
            CFact::PromiseRevoked => self.initiator_id,
            CFact::DeclineRevoked => self.initiator_id,
            CFact::AcceptRevoked => self.executor_id,
            CFact::RejectRevoked => self.executor_id,
        }
    }

    /// The subject who owes the answer to `fact`, stated by `performer`, if
    /// anyone does. A production fact is noted with the executor. After a
    /// promise the promiser itself goes on, with the production. Any other
    /// coordination fact obliges its addressee, unless no act answers it.
    pub open spec fn obliged(self, performer: SubjectId, fact: CPFact) -> Option<SubjectId> {
        match fact {
            CPFact::PFact => Some(self.executor_id),
            CPFact::CFact(c_fact) => if c_fact == CFact::Promised {
                Some(performer)
            } else if fact.has_answer() {
                Some(self.addressee(c_fact))
            } else {
                None
            },
        }
    }

    /// A new instance under a new identity.
    pub fn new(
        parent_transaction_instance_id: Option<TransactionInstanceId>,
        transaction_id: TransactionId,
        product_instance: String,
        initiator: SubjectId,
        executor: SubjectId,
    ) -> (instance: Self)
        ensures
            is_random_token(instance.id.0),
            instance.parent_transaction_instance_id == parent_transaction_instance_id,
            instance.transaction_id == transaction_id,
            instance.product_instance == product_instance,
            instance.initiator_id == initiator,
            instance.executor_id == executor,
    {
        TransactionInstance {
            id: TransactionInstanceId(fresh_token()),
            parent_transaction_instance_id,
            transaction_id,
            product_instance,
            initiator_id: initiator,
            executor_id: executor,
        }
    }

    /// The subject to whom the fact `c_fact` of this instance is addressed.
    pub fn addressee_for(&self, c_fact: &CFact) -> (subject: SubjectId)
        ensures
            subject == self.addressee(*c_fact),
            subject == self.initiator_id || subject == self.executor_id,
    {
        match c_fact {
            CFact::Requested => self.executor_id,
            CFact::Promised => self.initiator_id,
            CFact::Declined => self.initiator_id,
            CFact::Declared => self.initiator_id,
            CFact::Accepted => self.executor_id,
            CFact::Rejected => self.executor_id,
            CFact::RequestRevoked => self.executor_id,
            CFact::PromiseRevoked => self.initiator_id,
            CFact::DeclineRevoked => self.initiator_id,
            CFact::AcceptRevoked => self.executor_id,
            CFact::RejectRevoked => self.executor_id,
        }
    }
}

/// A coordination fact in the world: who stated it, to whom, and when.
#[derive(Debug, PartialEq, Eq)]
pub struct CWorldItem {
    pub timestamp: Timestamp,
    pub transaction_instance_id: TransactionInstanceId,
    pub performer: Subject,
    pub addressee: Subject,
    pub fact: CFact,
}

/// A production fact in the world: who produced, and when.
#[derive(Debug, PartialEq, Eq)]
pub struct PWorldItem {
    pub timestamp: Timestamp,
    pub transaction_instance_id: TransactionInstanceId,
    pub performer: Subject,
}

/// An entry of the world.
#[derive(Debug, PartialEq, Eq)]
pub enum CPWorldItem {
    CWorldItem(CWorldItem),
    PWorldItem(PWorldItem),
}

impl Clone for CWorldItem {
    fn clone(&self) -> (copy: Self)
        ensures
            copy == *self,
    {
        CWorldItem {
            timestamp: self.timestamp,
            transaction_instance_id: self.transaction_instance_id,
            performer: self.performer.clone(),
            addressee: self.addressee.clone(),
            fact: self.fact,
        }
    }
}

impl Clone for PWorldItem {
    fn clone(&self) -> (copy: Self)
        ensures
            copy == *self,
    {
        PWorldItem {
            timestamp: self.timestamp,
            transaction_instance_id: self.transaction_instance_id,
            performer: self.performer.clone(),
        }
    }
}

impl Clone for CPWorldItem {
    fn clone(&self) -> (copy: Self)
        ensures
            copy == *self,
    {
        match self {
            CPWorldItem::CWorldItem(c) => CPWorldItem::CWorldItem(c.clone()),
            CPWorldItem::PWorldItem(p) => CPWorldItem::PWorldItem(p.clone()),
        }
    }
}

impl CPWorldItem {
    /// The instance that the entry belongs to.
    pub open spec fn instance_id(self) -> TransactionInstanceId {
        match self {
            CPWorldItem::CWorldItem(c) => c.transaction_instance_id,
            CPWorldItem::PWorldItem(p) => p.transaction_instance_id,
        }
    }

    /// The fact that the entry records.
    pub open spec fn fact(self) -> CPFact {
        match self {
            CPWorldItem::CWorldItem(c) => CPFact::CFact(c.fact),
            CPWorldItem::PWorldItem(_) => CPFact::PFact,
        }
    }

    /// Whether the entry records `fact` of the instance `id`.
    pub open spec fn records(self, id: TransactionInstanceId, fact: CPFact) -> bool {
        self.instance_id() == id && self.fact() == fact
    }

    pub fn get_timestamp(&self) -> (timestamp: &Timestamp)
        ensures
            *timestamp == match *self {
                CPWorldItem::CWorldItem(c) => c.timestamp,
                CPWorldItem::PWorldItem(p) => p.timestamp,
            },
    {
        match self {
            CPWorldItem::CWorldItem(c) => &c.timestamp,
            CPWorldItem::PWorldItem(p) => &p.timestamp,
        }
    }

    pub fn get_transaction_instance_id(&self) -> (id: &TransactionInstanceId)
        ensures
            *id == self.instance_id(),
    {
        match self {
            CPWorldItem::CWorldItem(c) => &c.transaction_instance_id,
            CPWorldItem::PWorldItem(p) => &p.transaction_instance_id,
        }
    }

    pub fn get_performer(&self) -> (performer: &Subject)
        ensures
            *performer == match *self {
                CPWorldItem::CWorldItem(c) => c.performer,
                CPWorldItem::PWorldItem(p) => p.performer,
            },
    {
        match self {
            CPWorldItem::CWorldItem(c) => &c.performer,
            CPWorldItem::PWorldItem(p) => &p.performer,
        }
    }

    pub fn to_fact(&self) -> (fact: CPFact)
        ensures
            fact == self.fact(),
    {
        match self {
            CPWorldItem::CWorldItem(c) => CPFact::CFact(c.fact),
            CPWorldItem::PWorldItem(_) => CPFact::PFact,
        }
    }
}

/// An obligation: `fact` of an instance, stated by `performer_id`, waits for its
/// answer.
#[derive(Clone, Copy, Debug, PartialEq, Eq, Structural)]
pub struct AgendaItem {
    pub timestamp: Timestamp,
    pub transaction_instance_id: TransactionInstanceId,
    pub performer_id: SubjectId,
    pub fact: CPFact,
}

impl AgendaItem {
    /// An obligation that arises now.
    pub fn new(
        transaction_instance_id: TransactionInstanceId,
        performer_id: SubjectId,
        fact: CPFact,
    ) -> (item: Self)
        ensures
            item.transaction_instance_id == transaction_instance_id,
            item.performer_id == performer_id,
            item.fact == fact,
    {
        AgendaItem { timestamp: now(), transaction_instance_id, performer_id, fact }
    }
}

/// The state of an execution.
#[derive(Debug, Clone)]
pub struct Execution {
    pub transactions_instances: Vec<TransactionInstance>,
    pub c_p_world: Vec<CPWorldItem>,
    pub agendas: Vec<(SubjectId, AgendaItem)>,
}

/// An execution as a value: the instances in the order of their arrival, the
/// world in the order in which its facts were created, and the obligations,
/// each with the subject who owes it, in the order in which they arose.
pub struct ExecutionView {
    pub instances: Seq<TransactionInstance>,
    pub world: Seq<CPWorldItem>,
    pub agendas: Seq<(SubjectId, AgendaItem)>,
}

impl View for Execution {
    type V = ExecutionView;

    open spec fn view(&self) -> ExecutionView {
        ExecutionView {
            instances: self.transactions_instances@,
            world: self.c_p_world@,
            agendas: self.agendas@,
        }
    }
}

/// The instances of the kind `kind`.
pub open spec fn of_kind(kind: TransactionId) -> spec_fn(TransactionInstance) -> bool {
    |t: TransactionInstance| t.transaction_id == kind
}

/// The world entries of the instance `id`.
pub open spec fn of_instance(id: TransactionInstanceId) -> spec_fn(CPWorldItem) -> bool {
    |w: CPWorldItem| w.instance_id() == id
}

/// The world entries of every instance but `id`.
pub open spec fn not_of_instance(id: TransactionInstanceId) -> spec_fn(CPWorldItem) -> bool {
    |w: CPWorldItem| w.instance_id() != id
}

/// The obligations of every instance but `id`.
pub open spec fn not_about(id: TransactionInstanceId) -> spec_fn((SubjectId, AgendaItem)) -> bool {
    |a: (SubjectId, AgendaItem)| a.1.transaction_instance_id != id
}

/// The obligations that `subject` owes.
pub open spec fn owed_by(subject: SubjectId) -> spec_fn((SubjectId, AgendaItem)) -> bool {
    |a: (SubjectId, AgendaItem)| a.0 == subject
}

impl ExecutionView {
    /// For each instance, whether it is the one called `id`.
    pub open spec fn instance_flags(self, id: TransactionInstanceId) -> Seq<bool> {
        Seq::new(self.instances.len(), |i: int| self.instances[i].id == id)
    }

    /// The first instance called `id`.
    pub open spec fn instance(self, id: TransactionInstanceId) -> Option<TransactionInstance> {
        match first_true(self.instance_flags(id)) {
            Some(i) => Some(self.instances[i]),
            None => None,
        }
    }

    /// For each world entry, whether it records `fact` of the instance `id`.
    pub open spec fn fact_flags(self, id: TransactionInstanceId, fact: CPFact) -> Seq<bool> {
        Seq::new(self.world.len(), |i: int| self.world[i].records(id, fact))
    }

    /// The first world entry that records `fact` of the instance `id`.
    pub open spec fn first_record(self, id: TransactionInstanceId, fact: CPFact) -> Option<
        CPWorldItem,
    > {
        match first_true(self.fact_flags(id, fact)) {
            Some(i) => Some(self.world[i]),
            None => None,
        }
    }

    /// Whether the instance `id` has reached `fact`.
    pub open spec fn has_fact(self, id: TransactionInstanceId, fact: CPFact) -> bool {
        first_true(self.fact_flags(id, fact)) is Some
    }

    /// For each obligation, whether it is `item`.
    pub open spec fn agenda_flags(self, item: AgendaItem) -> Seq<bool> {
        Seq::new(self.agendas.len(), |i: int| self.agendas[i].1 == item)
    }

    /// The fact that the instance `id` has reached last, if it has reached any.
    pub open spec fn last_fact_of(self, id: TransactionInstanceId) -> Option<CPFact> {
        if self.world.filter(of_instance(id)).len() == 0 {
            None
        } else {
            Some(self.world.filter(of_instance(id)).last().fact())
        }
    }

    /// The obligations that `subject` owes, in the order in which they arose.
    pub open spec fn agenda_of(self, subject: SubjectId) -> Seq<AgendaItem> {
        self.agendas.filter(owed_by(subject)).map_values(|a: (SubjectId, AgendaItem)| a.1)
    }

    /// How many instances of the kind `kind` there are, under any parent.
    pub open spec fn count_of_kind(self, kind: TransactionId) -> nat {
        self.instances.filter(of_kind(kind)).len()
    }

    /// Whether every instance is of a kind that `model` knows, between
    /// subjects that `model` knows.
    pub open spec fn fits(self, model: Model) -> bool {
        forall|i: int|
            0 <= i < self.instances.len() ==> {
                &&& model.transaction((#[trigger] self.instances[i]).transaction_id) is Some
                &&& model.subject(self.instances[i].initiator_id) is Some
                &&& model.subject(self.instances[i].executor_id) is Some
            }
    }

    /// The execution with one more instance.
    pub open spec fn with_instance(self, instance: TransactionInstance) -> ExecutionView {
        ExecutionView {
            instances: self.instances.push(instance),
            world: self.world,
            agendas: self.agendas,
        }
    }

    /// The execution after `performer_id` has stated `fact` of the instance `id`
    /// at the moment `timestamp`. The fact goes to the end of the world, and the
    /// obligation that it brings, if any, to the end of the agendas. Nothing
    /// else changes. It fails, and nothing is recorded, where the instance, the
    /// performer or, for a coordination fact, the addressee is unknown.
    pub open spec fn record(
        self,
        model: Model,
        id: TransactionInstanceId,
        performer_id: SubjectId,
        fact: CPFact,
        timestamp: Timestamp,
    ) -> Result<ExecutionView, LookupError> {
        let due = AgendaItem { timestamp, transaction_instance_id: id, performer_id, fact };
        match (self.instance(id), model.subject(performer_id)) {
            (None, _) => Err(LookupError::UnknownTransactionInstance),
            (Some(_), None) => Err(LookupError::UnknownSubject),
            (Some(instance), Some(performer)) => match fact {
                CPFact::PFact => Ok(
                    ExecutionView {
                        instances: self.instances,
                        world: self.world.push(
                            CPWorldItem::PWorldItem(
                                PWorldItem { timestamp, transaction_instance_id: id, performer },
                            ),
                        ),
                        agendas: self.agendas.push((instance.executor_id, due)),
                    },
                ),
                CPFact::CFact(c_fact) => match model.subject(instance.addressee(c_fact)) {
                    None => Err(LookupError::UnknownSubject),
                    Some(addressee) => Ok(
                        ExecutionView {
                            instances: self.instances,
                            world: self.world.push(
                                CPWorldItem::CWorldItem(
                                    CWorldItem {
                                        timestamp,
                                        transaction_instance_id: id,
                                        performer,
                                        addressee,
                                        fact: c_fact,
                                    },
                                ),
                            ),
                            agendas: match instance.obliged(performer_id, fact) {
                                Some(subject) => self.agendas.push((subject, due)),
                                None => self.agendas,
                            },
                        },
                    ),
                },
            },
        }
    }

    /// The execution after `instance` has entered it at the moment
    /// `timestamp`: the instance is registered and its initiator has stated
    /// the request.
    pub open spec fn enter(self, model: Model, instance: TransactionInstance, timestamp: Timestamp)
        -> Result<ExecutionView, LookupError> {
        self.with_instance(instance).record(
            model,
            instance.id,
            instance.initiator_id,
            CPFact::CFact(CFact::Requested),
            timestamp,
        )
    }

    /// The execution without the first obligation that is `item`.
    pub open spec fn without_agenda_item(self, item: AgendaItem) -> ExecutionView {
        ExecutionView {
            instances: self.instances,
            world: self.world,
            agendas: match first_true(self.agenda_flags(item)) {
                Some(i) => self.agendas.remove(i),
                None => self.agendas,
            },
        }
    }

    /// The execution without the first instance called `id` and without every
    /// world entry and every obligation of an instance called `id`. Instances
    /// under the one that leaves stay.
    pub open spec fn without_instance(self, id: TransactionInstanceId) -> ExecutionView {
        ExecutionView {
            instances: match first_true(self.instance_flags(id)) {
                Some(i) => self.instances.remove(i),
                None => self.instances,
            },
            world: self.world.filter(not_of_instance(id)),
            agendas: self.agendas.filter(not_about(id)),
        }
    }
}

impl Default for Execution {
    /// An execution in which nothing has happened.
    fn default() -> (execution: Self)
        ensures
            execution@.instances == Seq::<TransactionInstance>::empty(),
            execution@.world == Seq::<CPWorldItem>::empty(),
            execution@.agendas == Seq::<(SubjectId, AgendaItem)>::empty(),
    {
        Execution { transactions_instances: Vec::new(), c_p_world: Vec::new(), agendas: Vec::new() }
    }
}

impl Execution {
    /// The position of the first instance called `id`.
    fn instance_position(&self, id: TransactionInstanceId) -> (at: Option<usize>)
        ensures
            match at {
                Some(i) => first_true(self@.instance_flags(id)) == Some(i as int) && i
                    < self.transactions_instances@.len(),
                None => first_true(self@.instance_flags(id)) is None,
            },
    {
        let ghost flags = self@.instance_flags(id);
        let mut i: usize = 0;
        while i < self.transactions_instances.len()
            invariant
                i <= self.transactions_instances@.len(),
                flags == self@.instance_flags(id),
                forall|j: int| 0 <= j < i ==> !#[trigger] flags[j],
            decreases self.transactions_instances@.len() - i,
        {
            if self.transactions_instances[i].id == id {
                proof {
                    assert(is_first_true(flags, i as int));
                    lemma_first_true_is(flags, i as int);
                }
                return Some(i);
            }
            i += 1;
        }
        proof {
            lemma_first_true_none(flags);
        }
        None
    }

    /// Whether every instance is of a kind that `model` knows, between
    /// subjects that `model` knows.
    pub fn fits(&self, model: &Model) -> (ok: bool)
        ensures
            ok == self@.fits(*model),
    {
        let mut i: usize = 0;
        while i < self.transactions_instances.len()
            invariant
                i <= self.transactions_instances@.len(),
                forall|j: int|
                    0 <= j < i ==> {
                        &&& model.transaction(
                            (#[trigger] self.transactions_instances@[j]).transaction_id,
                        ) is Some
                        &&& model.subject(self.transactions_instances@[j].initiator_id) is Some
                        &&& model.subject(self.transactions_instances@[j].executor_id) is Some
                    },
            decreases self.transactions_instances@.len() - i,
        {
            let instance = &self.transactions_instances[i];
            if model.get_transaction(&instance.transaction_id).is_err() || model.get_subject(
                &instance.initiator_id,
            ).is_err() || model.get_subject(&instance.executor_id).is_err() {
                assert(!(model.transaction(self@.instances[i as int].transaction_id) is Some
                    && model.subject(self@.instances[i as int].initiator_id) is Some
                    && model.subject(self@.instances[i as int].executor_id) is Some));
                return false;
            }
            i += 1;
        }
        true
    }

    /// The instance called `transaction_instance_id`.
    pub fn get_transaction_instance(&self, transaction_instance_id: &TransactionInstanceId) -> (found:
        Result<&TransactionInstance, LookupError>)
        ensures
            match found {
                Ok(instance) => self@.instance(*transaction_instance_id) == Some(*instance)
                    && instance.id == *transaction_instance_id,
                Err(e) => e == LookupError::UnknownTransactionInstance && self@.instance(
                    *transaction_instance_id,
                ) is None,
            },
    {
        match self.instance_position(*transaction_instance_id) {
            Some(i) => Ok(&self.transactions_instances[i]),
            None => Err(LookupError::UnknownTransactionInstance),
        }
    }

    /// Records that `performer_id` has stated `fact` of the instance
    /// `transaction_instance_id` at the moment `timestamp`.
    pub fn process_new_fact_at(
        &mut self,
        model: &Model,
        transaction_instance_id: TransactionInstanceId,
        performer_id: SubjectId,
        fact: CPFact,
        timestamp: Timestamp,
    ) -> (outcome: Result<(), LookupError>)
        ensures
            match outcome {
                Ok(()) => old(self)@.record(
                    *model,
                    transaction_instance_id,
                    performer_id,
                    fact,
                    timestamp,
                ) == Ok::<ExecutionView, LookupError>(final(self)@),
                Err(e) => old(self)@.record(
                    *model,
                    transaction_instance_id,
                    performer_id,
                    fact,
                    timestamp,
                ) == Err::<ExecutionView, LookupError>(e) && *final(self) == *old(self),
            },
    {
        let (executor_id, addressee_id) = match self.get_transaction_instance(
            &transaction_instance_id,
        ) {
            Ok(instance) => {
                let addressee_id = match fact {
                    CPFact::CFact(c_fact) => instance.addressee_for(&c_fact),
                    CPFact::PFact => instance.executor_id,
                };
                (instance.executor_id, addressee_id)
            },
            Err(e) => {
                return Err(e);
            },
        };
        let performer = match model.get_subject(&performer_id) {
            Ok(subject) => subject.clone(),
            Err(e) => {
                return Err(e);
            },
        };
        let agenda_item = AgendaItem {
            timestamp,
            transaction_instance_id,
            performer_id,
            fact,
        };
        match fact {
            CPFact::PFact => {
                self.c_p_world.push(
                    CPWorldItem::PWorldItem(
                        PWorldItem { timestamp, transaction_instance_id, performer },
                    ),
                );
                self.agendas.push((executor_id, agenda_item));
            },
            CPFact::CFact(c_fact) => {
                let addressee = match model.get_subject(&addressee_id) {
                    Ok(subject) => subject.clone(),
                    Err(e) => {
                        return Err(e);
                    },
                };
                self.c_p_world.push(
                    CPWorldItem::CWorldItem(
                        CWorldItem {
                            timestamp,
                            transaction_instance_id,
                            performer,
                            addressee,
                            fact: c_fact,
                        },
                    ),
                );
                if c_fact == CFact::Promised {
                    self.agendas.push((performer_id, agenda_item));
                } else if !fact.next_acts().is_empty() {
                    self.agendas.push((addressee_id, agenda_item));
                }
            },
        }
        Ok(())
    }

    /// Records that `performer_id` has just stated `fact` of the instance
    /// `transaction_instance_id`: the moment is read from the clock.
    pub fn process_new_fact(
        &mut self,
        model: &Model,
        transaction_instance_id: TransactionInstanceId,
        performer_id: SubjectId,
        fact: CPFact,
    ) -> (outcome: Result<(), LookupError>)
        ensures
            exists|timestamp: Timestamp|
                match outcome {
                    Ok(()) => #[trigger] old(self)@.record(
                        *model,
                        transaction_instance_id,
                        performer_id,
                        fact,
                        timestamp,
                    ) == Ok::<ExecutionView, LookupError>(final(self)@),
                    Err(e) => old(self)@.record(
                        *model,
                        transaction_instance_id,
                        performer_id,
                        fact,
                        timestamp,
                    ) == Err::<ExecutionView, LookupError>(e) && *final(self) == *old(self),
                },
    {
        let timestamp = AgendaItem::new(transaction_instance_id, performer_id, fact).timestamp;
        self.process_new_fact_at(model, transaction_instance_id, performer_id, fact, timestamp)
    }

    /// Lets `transaction_instance` enter the execution at the moment
    /// `timestamp`: registers it and records its request.
    pub fn add_transaction_instance_at(
        &mut self,
        model: &Model,
        transaction_instance: TransactionInstance,
        timestamp: Timestamp,
    ) -> (outcome: Result<(), LookupError>)
        ensures
            match outcome {
                Ok(()) => old(self)@.enter(*model, transaction_instance, timestamp) == Ok::<
                    ExecutionView,
                    LookupError,
                >(final(self)@),
                Err(e) => old(self)@.enter(*model, transaction_instance, timestamp) == Err::<
                    ExecutionView,
                    LookupError,
                >(e) && final(self)@ == old(self)@,
            },
    {
        let transaction_instance_id = transaction_instance.id;
        let initiator_id = transaction_instance.initiator_id;
        self.transactions_instances.push(transaction_instance);
        let outcome = self.process_new_fact_at(
            model,
            transaction_instance_id,
            initiator_id,
            CPFact::CFact(CFact::Requested),
            timestamp,
        );
        if outcome.is_err() {
            let _ = self.transactions_instances.pop();
            assert(self.transactions_instances@ =~= old(self).transactions_instances@);
        }
        outcome
    }

    /// Lets `transaction_instance` enter the execution now.
    pub fn add_transaction_instance(
        &mut self,
        model: &Model,
        transaction_instance: TransactionInstance,
    ) -> (outcome: Result<(), LookupError>)
        ensures
            exists|timestamp: Timestamp|
                match outcome {
                    Ok(()) => #[trigger] old(self)@.enter(*model, transaction_instance, timestamp)
                        == Ok::<ExecutionView, LookupError>(final(self)@),
                    Err(e) => old(self)@.enter(*model, transaction_instance, timestamp) == Err::<
                        ExecutionView,
                        LookupError,
                    >(e) && final(self)@ == old(self)@,
                },
    {
        let timestamp = now();
        self.add_transaction_instance_at(model, transaction_instance, timestamp)
    }
    /// Deletes the instance called `transaction_instance_id` with every world
    /// entry and every obligation that speaks of it. Instances under it stay.
    pub fn delete_transaction_instance(&mut self, transaction_instance_id: &TransactionInstanceId)
        ensures
            final(self)@ == old(self)@.without_instance(*transaction_instance_id),
    {
        let id = *transaction_instance_id;
        if let Some(at) = self.instance_position(id) {
            let _ = self.transactions_instances.remove(at);
        }
        let ghost keep_entry = not_of_instance(id);
        let mut world: Vec<CPWorldItem> = Vec::new();
        let mut i: usize = 0;
        assert(self.c_p_world@.take(0) =~= Seq::<CPWorldItem>::empty());
        assert(Seq::<CPWorldItem>::empty().filter(keep_entry) =~= Seq::<CPWorldItem>::empty()) by {
            reveal(Seq::filter);
        }
        while i < self.c_p_world.len()
            invariant
                i <= self.c_p_world@.len(),
                keep_entry == not_of_instance(id),
                world@ == self.c_p_world@.take(i as int).filter(keep_entry),
            decreases self.c_p_world@.len() - i,
        {
            let entry = &self.c_p_world[i];
            proof {
                self.c_p_world@.take(i as int).lemma_filter_push(*entry, keep_entry);
                assert(self.c_p_world@.take(i + 1) =~= self.c_p_world@.take(i as int).push(*entry));
            }
            if *entry.get_transaction_instance_id() != id {
                world.push(entry.clone());
            }
            i += 1;
        }
        assert(self.c_p_world@.take(i as int) =~= self.c_p_world@);
        self.c_p_world = world;
        let ghost keep_item = not_about(id);
        let mut agendas: Vec<(SubjectId, AgendaItem)> = Vec::new();
        let mut k: usize = 0;
        assert(self.agendas@.take(0) =~= Seq::<(SubjectId, AgendaItem)>::empty());
        assert(Seq::<(SubjectId, AgendaItem)>::empty().filter(keep_item) =~= Seq::<
            (SubjectId, AgendaItem),
        >::empty()) by {
            reveal(Seq::filter);
        }
        while k < self.agendas.len()
            invariant
                k <= self.agendas@.len(),
                keep_item == not_about(id),
                agendas@ == self.agendas@.take(k as int).filter(keep_item),
            decreases self.agendas@.len() - k,
        {
            let item = self.agendas[k];
            proof {
                self.agendas@.take(k as int).lemma_filter_push(item, keep_item);
                assert(self.agendas@.take(k + 1) =~= self.agendas@.take(k as int).push(item));
            }
            if item.1.transaction_instance_id != id {
                agendas.push(item);
            }
            k += 1;
        }
        assert(self.agendas@.take(k as int) =~= self.agendas@);
        self.agendas = agendas;
    }

    /// The instances of the kind `transaction_id`, in the order of their
    /// arrival.
    pub fn get_instances_of_transaction(&self, transaction_id: &TransactionId) -> (found: Vec<
        &TransactionInstance,
    >)
        ensures
            found@.map_values(|t: &TransactionInstance| *t) == self@.instances.filter(
                of_kind(*transaction_id),
            ),
            found@.len() == self@.count_of_kind(*transaction_id),
    {
        let ghost pred = of_kind(*transaction_id);
        let ghost open = |t: &TransactionInstance| *t;
        let mut found: Vec<&TransactionInstance> = Vec::new();
        let mut i: usize = 0;
        assert(self.transactions_instances@.take(0) =~= Seq::<TransactionInstance>::empty());
        assert(Seq::<TransactionInstance>::empty().filter(pred) =~= Seq::<
            TransactionInstance,
        >::empty()) by {
            reveal(Seq::filter);
        }
        assert(found@.map_values(open) =~= self.transactions_instances@.take(0).filter(pred));
        while i < self.transactions_instances.len()
            invariant
                i <= self.transactions_instances@.len(),
                pred == of_kind(*transaction_id),
                open == |t: &TransactionInstance| *t,
                found@.map_values(open) == self.transactions_instances@.take(i as int).filter(pred),
            decreases self.transactions_instances@.len() - i,
        {
            let instance = &self.transactions_instances[i];
            let ghost earlier = found@;
            proof {
                self.transactions_instances@.take(i as int).lemma_filter_push(*instance, pred);
                assert(self.transactions_instances@.take(i + 1)
                    =~= self.transactions_instances@.take(i as int).push(*instance));
            }
            if instance.transaction_id == *transaction_id {
                found.push(instance);
                assert(found@.map_values(open) =~= earlier.map_values(open).push(*instance));
            }
            i += 1;
        }
        assert(self.transactions_instances@.take(i as int) =~= self.transactions_instances@);
        assert(found@.map_values(open).len() == found@.len());
        found
    }

    /// The obligations that `subject_id` owes, in the order in which they
    /// arose.
    pub fn agenda_for(&self, subject_id: &SubjectId) -> (agenda: Vec<AgendaItem>)
        ensures
            agenda@ == self@.agenda_of(*subject_id),
    {
        let ghost pred = owed_by(*subject_id);
        let ghost pick = |a: (SubjectId, AgendaItem)| a.1;
        let mut agenda: Vec<AgendaItem> = Vec::new();
        let mut i: usize = 0;
        assert(self.agendas@.take(0) =~= Seq::<(SubjectId, AgendaItem)>::empty());
        assert(Seq::<(SubjectId, AgendaItem)>::empty().filter(pred) =~= Seq::<
            (SubjectId, AgendaItem),
        >::empty()) by {
            reveal(Seq::filter);
        }
        assert(agenda@ =~= self.agendas@.take(0).filter(pred).map_values(pick));
        while i < self.agendas.len()
            invariant
                i <= self.agendas@.len(),
                pred == owed_by(*subject_id),
                pick == |a: (SubjectId, AgendaItem)| a.1,
                agenda@ == self.agendas@.take(i as int).filter(pred).map_values(pick),
            decreases self.agendas@.len() - i,
        {
            let item = self.agendas[i];
            proof {
                self.agendas@.take(i as int).lemma_filter_push(item, pred);
                assert(self.agendas@.take(i + 1) =~= self.agendas@.take(i as int).push(item));
            }
            if item.0 == *subject_id {
                agenda.push(item.1);
                assert(agenda@ =~= self.agendas@.take(i + 1).filter(pred).map_values(pick));
            }
            i += 1;
        }
        assert(self.agendas@.take(i as int) =~= self.agendas@);
        agenda
    }

    /// Retires the first obligation that is `agenda_item`, whoever owes it.
    /// The other obligations stay as they are, in their order.
    pub fn remove_agenda_item(&mut self, agenda_item: &AgendaItem)
        ensures
            final(self)@ == old(self)@.without_agenda_item(*agenda_item),
    {
        let ghost flags = self@.agenda_flags(*agenda_item);
        let mut i: usize = 0;
        while i < self.agendas.len()
            invariant
                *self == *old(self),
                i <= self.agendas@.len(),
                flags == self@.agenda_flags(*agenda_item),
                forall|j: int| 0 <= j < i ==> !#[trigger] flags[j],
            decreases self.agendas@.len() - i,
        {
            if self.agendas[i].1 == *agenda_item {
                proof {
                    assert(is_first_true(flags, i as int));
                    lemma_first_true_is(flags, i as int);
                }
                let _ = self.agendas.remove(i);
                return ;
            }
            i += 1;
        }
        proof {
            lemma_first_true_none(flags);
        }
    }

    /// The world entries of the instance `transaction_instance_id`, in the
    /// order of the world.
    pub fn get_facts_for_transaction_instance(
        &self,
        transaction_instance_id: &TransactionInstanceId,
    ) -> (facts: Vec<&CPWorldItem>)
        ensures
            facts@.map_values(|w: &CPWorldItem| *w) == self@.world.filter(
                of_instance(*transaction_instance_id),
            ),
    {
        let ghost pred = of_instance(*transaction_instance_id);
        let ghost open = |w: &CPWorldItem| *w;
        let mut facts: Vec<&CPWorldItem> = Vec::new();
        let mut i: usize = 0;
        assert(self.c_p_world@.take(0) =~= Seq::<CPWorldItem>::empty());
        assert(Seq::<CPWorldItem>::empty().filter(pred) =~= Seq::<CPWorldItem>::empty()) by {
            reveal(Seq::filter);
        }
        assert(facts@.map_values(open) =~= self.c_p_world@.take(0).filter(pred));
        while i < self.c_p_world.len()
            invariant
                i <= self.c_p_world@.len(),
                pred == of_instance(*transaction_instance_id),
                open == |w: &CPWorldItem| *w,
                facts@.map_values(open) == self.c_p_world@.take(i as int).filter(pred),
            decreases self.c_p_world@.len() - i,
        {
            let entry = &self.c_p_world[i];
            let ghost earlier = facts@;
            proof {
                self.c_p_world@.take(i as int).lemma_filter_push(*entry, pred);
                assert(self.c_p_world@.take(i + 1) =~= self.c_p_world@.take(i as int).push(*entry));
            }
            if *entry.get_transaction_instance_id() == *transaction_instance_id {
                facts.push(entry);
                assert(facts@.map_values(open) =~= earlier.map_values(open).push(*entry));
            }
            i += 1;
        }
        assert(self.c_p_world@.take(i as int) =~= self.c_p_world@);
        facts
    }

    /// The fact that the instance `transaction_instance_id` has reached last,
    /// if it has reached any.
    pub fn last_fact(&self, transaction_instance_id: &TransactionInstanceId) -> (fact: Option<CPFact>)
        ensures
            fact == self@.last_fact_of(*transaction_instance_id),
    {
        let facts = self.get_facts_for_transaction_instance(transaction_instance_id);
        let ghost open = |w: &CPWorldItem| *w;
        if facts.len() == 0 {
            None
        } else {
            assert(facts@.map_values(open)[facts@.len() - 1] == *facts@[facts@.len() - 1]);
            Some(facts[facts.len() - 1].to_fact())
        }
    }

    /// The first world entry that records `fact` of the instance
    /// `transaction_instance_id`.
    pub fn get_c_p_world_item_by_fact<'a>(
        &'a self,
        transaction_instance_id: &TransactionInstanceId,
        fact: &CPFact,
    ) -> (found: Option<&'a CPWorldItem>)
        ensures
            match found {
                Some(entry) => self@.first_record(*transaction_instance_id, *fact) == Some(*entry)
                    && entry.records(*transaction_instance_id, *fact),
                None => self@.first_record(*transaction_instance_id, *fact) is None,
            },
            found is Some <==> self@.has_fact(*transaction_instance_id, *fact),
    {
        let ghost flags = self@.fact_flags(*transaction_instance_id, *fact);
        let mut i: usize = 0;
        while i < self.c_p_world.len()
            invariant
                i <= self.c_p_world@.len(),
                flags == self@.fact_flags(*transaction_instance_id, *fact),
                forall|j: int| 0 <= j < i ==> !#[trigger] flags[j],
            decreases self.c_p_world@.len() - i,
        {
            let entry = &self.c_p_world[i];
            if *entry.get_transaction_instance_id() == *transaction_instance_id && entry.to_fact()
                == *fact {
                proof {
                    assert(is_first_true(flags, i as int));
                    lemma_first_true_is(flags, i as int);
                }
                return Some(entry);
            }
            i += 1;
        }
        proof {
            lemma_first_true_none(flags);
        }
        None
    }
}

} // verus!
