//! The steps that a subject takes on its dashboard: committing an act in
//! answer to an obligation, and asking what holds up a request.

use crate::clock::{now, Timestamp};
use crate::execution::{AgendaItem, Execution, ExecutionView, TransactionInstance, TransactionInstanceId};
use crate::model::{LookupError, Model, SubjectId, Transaction};
use crate::pattern::{CAct, CPAct};
use crate::waiting::texts;
use vstd::prelude::*;

verus! {

/// Why an act was not committed.
#[derive(Clone, Copy, Debug, PartialEq, Eq, Structural)]
pub enum CommitError {
    /// The act does not answer the fact of the obligation.
    IllegalAct,
    /// A wait link holds the act up.
    Impeded,
    /// Something that the step names is unknown.
    Unknown(LookupError),
}

impl TransactionInstance {
    /// The instance under which the wait links of this instance look for the
    /// instances they wait for: its parent, or itself where it has none.
    pub open spec fn scope(self) -> TransactionInstanceId {
        match self.parent_transaction_instance_id {
            Some(parent) => parent,
            None => self.id,
        }
    }

    /// The instance under which the wait links of this instance look for the
    /// instances they wait for.
    pub fn impediment_scope(&self) -> (scope: TransactionInstanceId)
        ensures
            scope == self.scope(),
    {
        match self.parent_transaction_instance_id {
            Some(parent) => parent,
            None => self.id,
        }
    }
}

impl ExecutionView {
    /// What holds up the request of an instance of `kind` under `parent`:
    /// nothing where the instance is to have no parent.
    pub open spec fn request_impediments(
        self,
        model: Model,
        kind: Transaction,
        parent: Option<TransactionInstanceId>,
    ) -> Result<Option<Seq<Seq<char>>>, LookupError> {
        match parent {
            Some(parent) => self.act_impediments(model, kind, parent, CPAct::CAct(CAct::Request)),
            None => Ok(None),
        }
    }

    /// The execution after `subject` has committed `act` at the moment
    /// `timestamp` in answer to the obligation `item`: the fact of the act is
    /// recorded and the obligation retired. The act must answer the fact of
    /// the obligation, and no wait link of the instance's kind may hold it up.
    pub open spec fn commit(
        self,
        model: Model,
        subject: SubjectId,
        item: AgendaItem,
        act: CPAct,
        timestamp: Timestamp,
    ) -> Result<ExecutionView, CommitError> {
        match self.instance(item.transaction_instance_id) {
            None => Err(CommitError::Unknown(LookupError::UnknownTransactionInstance)),
            Some(instance) => match model.transaction(instance.transaction_id) {
                None => Err(CommitError::Unknown(LookupError::UnknownTransaction)),
                Some(kind) => if !item.fact.answers().contains(act) {
                    Err(CommitError::IllegalAct)
                } else {
                    match self.act_impediments(model, kind, instance.scope(), act) {
                        Err(e) => Err(CommitError::Unknown(e)),
                        Ok(Some(_)) => Err(CommitError::Impeded),
                        Ok(None) => match self.record(
                            model,
                            item.transaction_instance_id,
                            subject,
                            act.fact(),
                            timestamp,
                        ) {
                            Err(e) => Err(CommitError::Unknown(e)),
                            Ok(after) => Ok(after.without_agenda_item(item)),
                        },
                    }
                },
            },
        }
    }
}

/// Whether `acts` holds `act`.
fn holds_act(acts: &Vec<CPAct>, act: CPAct) -> (held: bool)
    ensures
        held == acts@.contains(act),
{
    let mut i: usize = 0;
    while i < acts.len()
        invariant
            i <= acts@.len(),
            forall|j: int| 0 <= j < i ==> acts@[j] != act,
        decreases acts@.len() - i,
    {
        if acts[i] == act {
            return true;
        }
        i += 1;
    }
    false
}

impl Execution {
    /// What holds up the request of an instance of `kind` under `parent`.
    pub fn get_request_impediments(
        &self,
        model: &Model,
        kind: &Transaction,
        parent: Option<TransactionInstanceId>,
    ) -> (outcome: Result<Option<Vec<String>>, LookupError>)
        ensures
            match outcome {
                Ok(Some(reasons)) => self@.request_impediments(*model, *kind, parent) == Ok::<
                    Option<Seq<Seq<char>>>,
                    LookupError,
                >(Some(texts(reasons@))),
                Ok(None) => self@.request_impediments(*model, *kind, parent) == Ok::<
                    Option<Seq<Seq<char>>>,
                    LookupError,
                >(None),
                Err(e) => self@.request_impediments(*model, *kind, parent) == Err::<
                    Option<Seq<Seq<char>>>,
                    LookupError,
                >(e),
            },
    {
        match parent {
            Some(parent) => self.get_act_impediments(model, kind, parent, &CPAct::CAct(CAct::Request)),
            None => Ok(None),
        }
    }

    /// Commits `act` at the moment `timestamp` as the answer of `subject_id` to
    /// the obligation `agenda_item`. Where it fails nothing changes.
    pub fn commit_at(
        &mut self,
        model: &Model,
        subject_id: SubjectId,
        agenda_item: &AgendaItem,
        act: CPAct,
        timestamp: Timestamp,
    ) -> (outcome: Result<(), CommitError>)
        ensures
            match outcome {
                Ok(()) => old(self)@.commit(*model, subject_id, *agenda_item, act, timestamp) == Ok::<
                    ExecutionView,
                    CommitError,
                >(final(self)@),
                Err(e) => old(self)@.commit(*model, subject_id, *agenda_item, act, timestamp)
                    == Err::<ExecutionView, CommitError>(e) && *final(self) == *old(self),
            },
    {
        let id = agenda_item.transaction_instance_id;
        let (kind_id, scope) = match self.get_transaction_instance(&id) {
            Ok(instance) => (instance.transaction_id, instance.impediment_scope()),
            Err(e) => {
                return Err(CommitError::Unknown(e));
            },
        };
        let kind = match model.get_transaction(&kind_id) {
            Ok(kind) => kind,
            Err(e) => {
                return Err(CommitError::Unknown(e));
            },
        };
        if !holds_act(&agenda_item.fact.next_acts(), act) {
            return Err(CommitError::IllegalAct);
        }
        match self.get_act_impediments(model, kind, scope, &act) {
            Err(e) => {
                return Err(CommitError::Unknown(e));
            },
            Ok(Some(_)) => {
                return Err(CommitError::Impeded);
            },
            Ok(None) => {},
        }
        match self.process_new_fact_at(model, id, subject_id, act.to_fact(), timestamp) {
            Err(e) => {
                return Err(CommitError::Unknown(e));
            },
            Ok(()) => {},
        }
        self.remove_agenda_item(agenda_item);
        Ok(())
    }

    /// Commits `act` now as the answer of `subject_id` to the obligation
    /// `agenda_item`: the moment is read from the clock.
    pub fn commit(
        &mut self,
        model: &Model,
        subject_id: SubjectId,
        agenda_item: &AgendaItem,
        act: CPAct,
    ) -> (outcome: Result<(), CommitError>)
        ensures
            exists|timestamp: Timestamp|
                match outcome {
                    Ok(()) => #[trigger] old(self)@.commit(
                        *model,
                        subject_id,
                        *agenda_item,
                        act,
                        timestamp,
                    ) == Ok::<ExecutionView, CommitError>(final(self)@),
                    Err(e) => old(self)@.commit(*model, subject_id, *agenda_item, act, timestamp)
                        == Err::<ExecutionView, CommitError>(e) && *final(self) == *old(self),
                },
    {
        let timestamp = now();
        self.commit_at(model, subject_id, agenda_item, act, timestamp)
    }
}

} // verus!
