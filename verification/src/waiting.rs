//! Wait links: which acts of an instance are held up by another instance that
//! has not come far enough, and the reasons given to the user.

use crate::execution::{Execution, ExecutionView, TransactionInstance, TransactionInstanceId};
use crate::model::{Impediment, LookupError, Model, Transaction, TransactionId};
use crate::pattern::{CFact, CPAct, CPFact};
use crate::search::{first_true, is_first_true, lemma_first_true_is, lemma_first_true_none};
use crate::token::hyphenated;
use vstd::prelude::*;
use vstd::string::*;

verus! {

/// The texts of `lines`.
pub open spec fn texts(lines: Seq<String>) -> Seq<Seq<char>> {
    lines.map_values(|line: String| line@)
}

/// The reason given while no instance of the impeding kind exists.
pub open spec fn awaiting_instance(t_id: Seq<char>, name: Seq<char>, c_fact: CFact) -> Seq<char> {
    "Waiting for an instance of "@ + t_id + ": "@ + name + " - "@ + c_fact.label()
}

/// The reason given while the impeding instance has not reached the fact.
pub open spec fn awaiting_fact(id: TransactionInstanceId, c_fact: CFact) -> Seq<char> {
    "Waiting for transaction instance "@ + hyphenated(id.0) + " reaching fact "@ + c_fact.label()
}

impl ExecutionView {
    /// For each instance, whether it is of the kind `kind` and stands under
    /// the instance `parent`.
    pub open spec fn child_flags(self, kind: TransactionId, parent: TransactionInstanceId) -> Seq<
        bool,
    > {
        Seq::new(
            self.instances.len(),
            |i: int|
                self.instances[i].transaction_id == kind
                    && self.instances[i].parent_transaction_instance_id == Some(parent),
        )
    }

    /// The first instance of the kind `kind` under the instance `parent`.
    pub open spec fn child(self, kind: TransactionId, parent: TransactionInstanceId) -> Option<
        TransactionInstance,
    > {
        match first_true(self.child_flags(kind, parent)) {
            Some(i) => Some(self.instances[i]),
            None => None,
        }
    }

    /// Why `impediment` holds up its act under the instance `parent`, if it
    /// does. While no instance of the impeding kind stands under `parent` the
    /// act waits for one, and the reason names the kind, which must be known.
    /// Once there is one, the act waits until that instance has reached the
    /// impeding fact.
    pub open spec fn blocking_reason(
        self,
        model: Model,
        parent: TransactionInstanceId,
        impediment: Impediment,
    ) -> Result<Option<Seq<char>>, LookupError> {
        match self.child(impediment.impeding_transaction_id, parent) {
            None => match model.transaction(impediment.impeding_transaction_id) {
                None => Err(LookupError::UnknownTransaction),
                Some(kind) => Ok(
                    Some(awaiting_instance(kind.t_id@, kind.name@, impediment.impeding_c_fact)),
                ),
            },
            Some(child) => if self.has_fact(child.id, CPFact::CFact(impediment.impeding_c_fact)) {
                Ok(None)
            } else {
                Ok(Some(awaiting_fact(child.id, impediment.impeding_c_fact)))
            },
        }
    }

    /// The reasons for which the rules `impediments` hold up `act` under the
    /// instance `parent`: one for each rule about `act` that is not satisfied,
    /// in the order of the rules. It fails at the first rule that names an
    /// unknown kind where the kind's name is needed.
    pub open spec fn blocking_reasons(
        self,
        model: Model,
        parent: TransactionInstanceId,
        act: CPAct,
        impediments: Seq<Impediment>,
    ) -> Result<Seq<Seq<char>>, LookupError>
        decreases impediments.len(),
    {
        if impediments.len() == 0 {
            Ok(Seq::empty())
        } else {
            match self.blocking_reasons(model, parent, act, impediments.drop_last()) {
                Err(e) => Err(e),
                Ok(reasons) => if impediments.last().impeded_act != act {
                    Ok(reasons)
                } else {
                    match self.blocking_reason(model, parent, impediments.last()) {
                        Err(e) => Err(e),
                        Ok(None) => Ok(reasons),
                        Ok(Some(reason)) => Ok(reasons.push(reason)),
                    }
                },
            }
        }
    }

    /// What holds up `act` on an instance of `kind` under the instance
    /// `parent`: nothing, or the reasons.
    pub open spec fn act_impediments(
        self,
        model: Model,
        kind: Transaction,
        parent: TransactionInstanceId,
        act: CPAct,
    ) -> Result<Option<Seq<Seq<char>>>, LookupError> {
        match self.blocking_reasons(model, parent, act, kind.impediments@) {
            Err(e) => Err(e),
            Ok(reasons) => if reasons.len() == 0 {
                Ok(None)
            } else {
                Ok(Some(reasons))
            },
        }
    }

    /// A failure among the first `k` rules is the failure of all of them.
    pub proof fn lemma_failure_persists(
        self,
        model: Model,
        parent: TransactionInstanceId,
        act: CPAct,
        impediments: Seq<Impediment>,
        k: int,
    )
        requires
            0 <= k <= impediments.len(),
            self.blocking_reasons(model, parent, act, impediments.take(k)) is Err,
        ensures
            self.blocking_reasons(model, parent, act, impediments) == self.blocking_reasons(
                model,
                parent,
                act,
                impediments.take(k),
            ),
        decreases impediments.len() - k,
    {
        if k == impediments.len() {
            assert(impediments.take(k) =~= impediments);
        } else {
            assert(impediments.take(k + 1).drop_last() =~= impediments.take(k));
            self.lemma_failure_persists(model, parent, act, impediments, k + 1);
        }
    }
}

/// Writes the reason given while no instance of the impeding kind exists.
fn awaiting_instance_text(kind: &Transaction, c_fact: CFact) -> (text: String)
    ensures
        text@ == awaiting_instance(kind.t_id@, kind.name@, c_fact),
{
    let mut text = String::from_str("Waiting for an instance of ");
    text.append(kind.t_id.as_str());
    text.append(": ");
    text.append(kind.name.as_str());
    text.append(" - ");
    let label = c_fact.to_string();
    text.append(label.as_str());
    text
}

/// Writes the reason given while the impeding instance has not reached the
/// fact.
fn awaiting_fact_text(id: TransactionInstanceId, c_fact: CFact) -> (text: String)
    ensures
        text@ == awaiting_fact(id, c_fact),
{
    let mut text = String::from_str("Waiting for transaction instance ");
    let token = id.to_string();
    text.append(token.as_str());
    text.append(" reaching fact ");
    let label = c_fact.to_string();
    text.append(label.as_str());
    text
}

impl Execution {
    /// The first instance of the kind `kind` under the instance `parent`.
    fn first_child(&self, kind: TransactionId, parent: TransactionInstanceId) -> (found: Option<
        &TransactionInstance,
    >)
        ensures
            match found {
                Some(child) => self@.child(kind, parent) == Some(*child),
                None => self@.child(kind, parent) is None,
            },
    {
        let ghost flags = self@.child_flags(kind, parent);
        let mut i: usize = 0;
        while i < self.transactions_instances.len()
            invariant
                i <= self.transactions_instances@.len(),
                flags == self@.child_flags(kind, parent),
                forall|j: int| 0 <= j < i ==> !#[trigger] flags[j],
            decreases self.transactions_instances@.len() - i,
        {
            let instance = &self.transactions_instances[i];
            let under_parent = match instance.parent_transaction_instance_id {
                Some(p) => p == parent,
                None => false,
            };
            if instance.transaction_id == kind && under_parent {
                proof {
                    assert(is_first_true(flags, i as int));
                    lemma_first_true_is(flags, i as int);
                }
                return Some(instance);
            }
            i += 1;
        }
        proof {
            lemma_first_true_none(flags);
        }
        None
    }

    /// What holds up `act` on an instance of the kind `transaction` under the
    /// instance `parent_transaction_id`: `None` where nothing does, else one
    /// reason for each wait link about `act` that is not satisfied, in the
    /// order of the links.
    pub fn get_act_impediments(
        &self,
        model: &Model,
        transaction: &Transaction,
        parent_transaction_id: TransactionInstanceId,
        act: &CPAct,
    ) -> (outcome: Result<Option<Vec<String>>, LookupError>)
        ensures
            match outcome {
                Ok(Some(reasons)) => self@.act_impediments(
                    *model,
                    *transaction,
                    parent_transaction_id,
                    *act,
                ) == Ok::<Option<Seq<Seq<char>>>, LookupError>(Some(texts(reasons@))),
                Ok(None) => self@.act_impediments(*model, *transaction, parent_transaction_id, *act)
                    == Ok::<Option<Seq<Seq<char>>>, LookupError>(None),
                Err(e) => self@.act_impediments(*model, *transaction, parent_transaction_id, *act)
                    == Err::<Option<Seq<Seq<char>>>, LookupError>(e),
            },
    {
        let ghost links = transaction.impediments@;
        let mut reasons: Vec<String> = Vec::new();
        let mut i: usize = 0;
        assert(texts(reasons@) =~= Seq::<Seq<char>>::empty());
        while i < transaction.impediments.len()
            invariant
                i <= links.len(),
                links == transaction.impediments@,
                self@.blocking_reasons(*model, parent_transaction_id, *act, links.take(i as int))
                    == Ok::<Seq<Seq<char>>, LookupError>(texts(reasons@)),
            decreases links.len() - i,
        {
            let link = transaction.impediments[i];
            let ghost earlier = reasons@;
            proof {
                assert(links.take(i + 1).drop_last() =~= links.take(i as int));
                assert(links.take(i + 1).last() == link);
            }
            if link.impeded_act == *act {
                match self.first_child(link.impeding_transaction_id, parent_transaction_id) {
                    None => {
                        match model.get_transaction(&link.impeding_transaction_id) {
                            Ok(kind) => {
                                reasons.push(awaiting_instance_text(kind, link.impeding_c_fact));
                            },
                            Err(e) => {
                                proof {
                                    self@.lemma_failure_persists(
                                        *model,
                                        parent_transaction_id,
                                        *act,
                                        links,
                                        i + 1,
                                    );
                                }
                                return Err(e);
                            },
                        }
                    },
                    Some(child) => {
                        if self.get_c_p_world_item_by_fact(
                            &child.id,
                            &CPFact::CFact(link.impeding_c_fact),
                        ).is_none() {
                            reasons.push(awaiting_fact_text(child.id, link.impeding_c_fact));
                        }
                    },
                }
            }
            proof {
                if reasons@.len() > earlier.len() {
                    assert(texts(reasons@) =~= texts(earlier).push(reasons@.last()@));
                }
            }
            i += 1;
        }
        assert(links.take(i as int) =~= links);
        if reasons.is_empty() {
            Ok(None)
        } else {
            Ok(Some(reasons))
        }
    }
}

} // verus!
