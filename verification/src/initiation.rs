//! Initiation rules: which kinds of transaction a subject may start under an
//! instance that has come far enough.

use crate::execution::{Execution, ExecutionView, TransactionInstance};
use crate::model::{Initiation, LookupError, Model, SubjectId, Transaction, TransactionId};
use crate::pattern::CPFact;
use crate::search::{
    first_true,
    is_first_true,
    lemma_first_true_is,
    lemma_text_le_total,
    lemma_text_le_transitive,
    text_le,
    text_precedes,
};
use vstd::prelude::*;

verus! {

/// Whether `kinds` holds the kind called `id`.
pub open spec fn lists(kinds: Seq<&Transaction>, id: TransactionId) -> bool {
    exists|i: int| 0 <= i < kinds.len() && (#[trigger] kinds[i]).id == id
}

/// Whether no two of `kinds` are called the same.
pub open spec fn distinct(kinds: Seq<&Transaction>) -> bool {
    forall|i: int, j: int|
        0 <= i < j < kinds.len() ==> (#[trigger] kinds[i]).id != (#[trigger] kinds[j]).id
}

/// Whether `kinds` stand in the order of their codes.
pub open spec fn ordered(kinds: Seq<&Transaction>) -> bool {
    forall|i: int, j: int|
        0 <= i < j < kinds.len() ==> text_le((#[trigger] kinds[i]).t_id@, (#[trigger] kinds[j]).t_id@)
}

/// Whether the kind of `parent` and the kind that each of its rules initiates
/// are known to `model`.
pub open spec fn rules_resolve(model: Model, parent: TransactionInstance) -> bool {
    match model.transaction(parent.transaction_id) {
        Some(kind) => forall|r: int|
            0 <= r < kind.initiations@.len() ==> model.transaction(
                (#[trigger] kind.initiations@[r]).initiated_transaction_id,
            ) is Some,
        None => false,
    }
}

impl ExecutionView {
    /// Whether `rule` lets `subject` start an instance under `parent` now: the
    /// instances of the initiated kind, under any parent, leave room for one
    /// more; the subject holds the initiator role of that kind; and `parent`
    /// has reached the initiating fact.
    pub open spec fn rule_admits(
        self,
        model: Model,
        parent: TransactionInstance,
        subject: SubjectId,
        rule: Initiation,
    ) -> bool {
        &&& rule.multiplicity.max.admits(self.count_of_kind(rule.initiated_transaction_id))
        &&& model.may_initiate(rule.initiated_transaction_id, subject)
        &&& self.has_fact(parent.id, CPFact::CFact(rule.initiating_c_fact))
    }

    /// Whether one of the first `k` of `rules` initiates the kind `id` and
    /// admits `subject` under `parent`.
    pub open spec fn admitted_by(
        self,
        model: Model,
        parent: TransactionInstance,
        subject: SubjectId,
        rules: Seq<Initiation>,
        k: int,
        id: TransactionId,
    ) -> bool {
        exists|r: int|
            0 <= r < k && r < rules.len() && (#[trigger] rules[r]).initiated_transaction_id == id
                && self.rule_admits(model, parent, subject, rules[r])
    }

    /// For each of `rules`, whether it initiates the kind `id` and admits
    /// `subject` under `parent`.
    pub open spec fn admit_flags(
        self,
        model: Model,
        parent: TransactionInstance,
        subject: SubjectId,
        rules: Seq<Initiation>,
        id: TransactionId,
    ) -> Seq<bool> {
        Seq::new(
            rules.len(),
            |r: int|
                rules[r].initiated_transaction_id == id && self.rule_admits(
                    model,
                    parent,
                    subject,
                    rules[r],
                ),
        )
    }

    /// The place, among the rules of the parent's kind, of the first one that
    /// initiates the kind `id` and admits `subject` under `parent`.
    pub open spec fn admitting_rule(
        self,
        model: Model,
        parent: TransactionInstance,
        subject: SubjectId,
        id: TransactionId,
    ) -> Option<int> {
        match model.transaction(parent.transaction_id) {
            Some(kind) => first_true(
                self.admit_flags(model, parent, subject, kind.initiations@, id),
            ),
            None => None,
        }
    }

    /// Whether `subject` may start an instance of the kind `id` under
    /// `parent`: some rule of the parent's kind initiates `id` and admits the
    /// subject.
    pub open spec fn startable(
        self,
        model: Model,
        parent: TransactionInstance,
        subject: SubjectId,
        id: TransactionId,
    ) -> bool {
        match model.transaction(parent.transaction_id) {
            Some(kind) => self.admitted_by(
                model,
                parent,
                subject,
                kind.initiations@,
                kind.initiations@.len() as int,
                id,
            ),
            None => false,
        }
    }
}

/// Whether `ids` holds `id`.
fn holds_subject(ids: &Vec<SubjectId>, id: SubjectId) -> (held: bool)
    ensures
        held == ids@.contains(id),
{
    let mut i: usize = 0;
    while i < ids.len()
        invariant
            i <= ids@.len(),
            forall|j: int| 0 <= j < i ==> ids@[j] != id,
        decreases ids@.len() - i,
    {
        if ids[i] == id {
            return true;
        }
        i += 1;
    }
    false
}

/// Puts `kind` into `kinds` at its place in the order of the codes, behind
/// the kinds with the same code, and says where; or leaves `kinds` as it is
/// where a kind of its name is there already.
fn place<'a>(kinds: &mut Vec<&'a Transaction>, kind: &'a Transaction) -> (at: Option<usize>)
    requires
        distinct(old(kinds)@),
        ordered(old(kinds)@),
    ensures
        distinct(final(kinds)@),
        ordered(final(kinds)@),
        match at {
            None => lists(old(kinds)@, kind.id) && final(kinds)@ == old(kinds)@,
            Some(p) => {
                &&& !lists(old(kinds)@, kind.id)
                &&& p <= old(kinds)@.len()
                &&& final(kinds)@ == old(kinds)@.insert(p as int, kind)
                &&& forall|q: int|
                    p <= q < old(kinds)@.len() ==> !text_le(
                        (#[trigger] old(kinds)@[q]).t_id@,
                        kind.t_id@,
                    )
            },
        },
{
    let ghost before = kinds@;
    let mut i: usize = 0;
    while i < kinds.len()
        invariant
            kinds@ == before,
            distinct(before),
            ordered(before),
            i <= kinds@.len(),
            forall|j: int| 0 <= j < i ==> (#[trigger] kinds@[j]).id != kind.id,
        decreases kinds@.len() - i,
    {
        if kinds[i].id == kind.id {
            return None;
        }
        i += 1;
    }
    let mut p: usize = 0;
    let mut searching = true;
    while searching && p < kinds.len()
        invariant
            kinds@ == before,
            distinct(before),
            ordered(before),
            forall|j: int| 0 <= j < before.len() ==> (#[trigger] before[j]).id != kind.id,
            p <= kinds@.len(),
            forall|q: int| 0 <= q < p ==> text_le((#[trigger] kinds@[q]).t_id@, kind.t_id@),
            !searching ==> p < kinds@.len() && !text_le(kinds@[p as int].t_id@, kind.t_id@),
        decreases kinds@.len() - p + if searching { 1int } else { 0int },
    {
        if text_precedes(kinds[p].t_id.as_str(), kind.t_id.as_str()) {
            p += 1;
        } else {
            searching = false;
        }
    }
    proof {
        assert forall|q: int| p <= q < before.len() implies !text_le(
            (#[trigger] before[q]).t_id@,
            kind.t_id@,
        ) by {
            if q > p && text_le(before[q].t_id@, kind.t_id@) {
                lemma_text_le_transitive(before[p as int].t_id@, before[q].t_id@, kind.t_id@);
            }
        }
    }
    kinds.insert(p, kind);
    proof {
        let after = kinds@;
        assert forall|i: int, j: int| 0 <= i < j < after.len() implies text_le(
            (#[trigger] after[i]).t_id@,
            (#[trigger] after[j]).t_id@,
        ) by {
            if j < p {
                assert(after[i] == before[i] && after[j] == before[j]);
            } else if j == p {
                assert(after[i] == before[i]);
            } else if i < p {
                assert(after[i] == before[i] && after[j] == before[j - 1]);
            } else if i == p {
                assert(after[j] == before[j - 1]);
                lemma_text_le_total(before[j - 1].t_id@, kind.t_id@);
            } else {
                assert(after[i] == before[i - 1] && after[j] == before[j - 1]);
            }
        }
        assert forall|i: int, j: int| 0 <= i < j < after.len() implies (#[trigger] after[i]).id != (
        #[trigger] after[j]).id by {
            let i0 = if i < p { i } else { i - 1 };
            let j0 = if j < p { j } else { j - 1 };
            if i != p && j != p {
                assert(after[i] == before[i0] && after[j] == before[j0]);
            } else if i == p {
                assert(after[j] == before[j0]);
            } else {
                assert(after[i] == before[i0]);
            }
        }
    }
    Some(p)
}

impl Execution {
    /// The kinds of which `subject_id` may start an instance under
    /// `parent_transaction_instance`: those that some initiation rule of the
    /// parent's kind initiates and admits. Each kind comes once, and they come
    /// in the order of their codes. It fails where the parent's kind, or the
    /// kind that one of its rules initiates, is unknown to `model`.
    pub fn startable_subtransactions<'a>(
        &self,
        model: &'a Model,
        parent_transaction_instance: &TransactionInstance,
        subject_id: &SubjectId,
    ) -> (outcome: Result<Vec<&'a Transaction>, LookupError>)
        ensures
            match outcome {
                Ok(kinds) => {
                    &&& rules_resolve(*model, *parent_transaction_instance)
                    &&& forall|i: int|
                        0 <= i < kinds@.len() ==> model.transaction((#[trigger] kinds@[i]).id)
                            == Some(*kinds@[i])
                    &&& forall|id: TransactionId|
                        lists(kinds@, id) <==> #[trigger] self@.startable(
                            *model,
                            *parent_transaction_instance,
                            *subject_id,
                            id,
                        )
                    &&& distinct(kinds@)
                    &&& ordered(kinds@)
                    &&& forall|i: int, j: int|
                        0 <= i < j < kinds@.len() && text_le(
                            (#[trigger] kinds@[j]).t_id@,
                            (#[trigger] kinds@[i]).t_id@,
                        ) ==> self@.admitting_rule(
                            *model,
                            *parent_transaction_instance,
                            *subject_id,
                            kinds@[i].id,
                        ).unwrap() < self@.admitting_rule(
                            *model,
                            *parent_transaction_instance,
                            *subject_id,
                            kinds@[j].id,
                        ).unwrap()
                },
                Err(e) => e == LookupError::UnknownTransaction && !rules_resolve(
                    *model,
                    *parent_transaction_instance,
                ),
            },
    {
        let parent_kind = match model.get_transaction(&parent_transaction_instance.transaction_id) {
            Ok(kind) => kind,
            Err(e) => {
                return Err(e);
            },
        };
        let ghost rules = parent_kind.initiations@;
        let ghost view = self@;
        let ghost parent = *parent_transaction_instance;
        let ghost subject = *subject_id;
        let mut kinds: Vec<&'a Transaction> = Vec::new();
        let mut k: usize = 0;
        while k < parent_kind.initiations.len()
            invariant
                k <= rules.len(),
                rules == parent_kind.initiations@,
                view == self@,
                parent == *parent_transaction_instance,
                subject == *subject_id,
                model.transaction(parent.transaction_id) == Some(*parent_kind),
                distinct(kinds@),
                ordered(kinds@),
                forall|i: int|
                    0 <= i < kinds@.len() ==> model.transaction((#[trigger] kinds@[i]).id) == Some(
                        *kinds@[i],
                    ) && view.admitted_by(*model, parent, subject, rules, k as int, kinds@[i].id),
                forall|r: int|
                    0 <= r < k && view.rule_admits(*model, parent, subject, #[trigger] rules[r])
                        ==> lists(kinds@, rules[r].initiated_transaction_id),
                forall|r: int|
                    0 <= r < k ==> model.transaction(
                        (#[trigger] rules[r]).initiated_transaction_id,
                    ) is Some,
                forall|i: int|
                    0 <= i < kinds@.len() ==> first_true(
                        view.admit_flags(*model, parent, subject, rules, (#[trigger] kinds@[i]).id),
                    ) is Some && first_true(
                        view.admit_flags(*model, parent, subject, rules, kinds@[i].id),
                    ).unwrap() < k,
                forall|i: int, j: int|
                    0 <= i < j < kinds@.len() && text_le(
                        (#[trigger] kinds@[j]).t_id@,
                        (#[trigger] kinds@[i]).t_id@,
                    ) ==> first_true(
                        view.admit_flags(*model, parent, subject, rules, kinds@[i].id),
                    ).unwrap() < first_true(
                        view.admit_flags(*model, parent, subject, rules, kinds@[j].id),
                    ).unwrap(),
            decreases rules.len() - k,
        {
            let rule = parent_kind.initiations[k];
            let ghost earlier = kinds@;
            let kind = match model.get_transaction(&rule.initiated_transaction_id) {
                Ok(kind) => kind,
                Err(e) => {
                    assert(model.transaction(rules[k as int].initiated_transaction_id) is None);
                    return Err(e);
                },
            };
            let instance_count = self.get_instances_of_transaction(&kind.id).len();
            let within_bound = rule.multiplicity.max.is_within_bound(instance_count);
            let mut admitted = false;
            if within_bound {
                let is_initiator = match model.get_initiator_subjects_ids(
                    &rule.initiated_transaction_id,
                ) {
                    Ok(ids) => holds_subject(&ids, *subject_id),
                    Err(_) => false,
                };
                if is_initiator {
                    admitted = self.get_c_p_world_item_by_fact(
                        &parent_transaction_instance.id,
                        &CPFact::CFact(rule.initiating_c_fact),
                    ).is_some();
                }
            }
            assert(admitted == view.rule_admits(*model, parent, subject, rule));
            let mut placed: Option<usize> = None;
            if admitted {
                placed = place(&mut kinds, kind);
            }
            proof {
                let after = kinds@;
                match placed {
                    Some(p) => {
                        let flags = view.admit_flags(*model, parent, subject, rules, kind.id);
                        assert forall|r: int| 0 <= r < k implies !#[trigger] flags[r] by {
                            if flags[r] {
                                assert(lists(earlier, rules[r].initiated_transaction_id));
                            }
                        }
                        assert(flags[k as int]);
                        assert(is_first_true(flags, k as int));
                        lemma_first_true_is(flags, k as int);
                        assert forall|i: int| 0 <= i < after.len() implies #[trigger] after[i] == (
                        if i < p {
                            earlier[i]
                        } else if i == p {
                            kind
                        } else {
                            earlier[i - 1]
                        }) by {}
                        assert forall|i: int| 0 <= i < after.len() implies model.transaction(
                            (#[trigger] after[i]).id,
                        ) == Some(*after[i]) && view.admitted_by(
                            *model,
                            parent,
                            subject,
                            rules,
                            k + 1,
                            after[i].id,
                        ) && first_true(
                            view.admit_flags(*model, parent, subject, rules, after[i].id),
                        ) is Some && first_true(
                            view.admit_flags(*model, parent, subject, rules, after[i].id),
                        ).unwrap() < k + 1 by {
                            if i == p {
                                assert(rules[k as int].initiated_transaction_id == kind.id);
                            } else {
                                let i0 = if i < p { i } else { i - 1 };
                                assert(after[i] == earlier[i0]);
                                assert(view.admitted_by(
                                    *model,
                                    parent,
                                    subject,
                                    rules,
                                    k as int,
                                    earlier[i0].id,
                                ));
                                let r = choose|r: int|
                                    0 <= r < k && r < rules.len() && (
                                    #[trigger] rules[r]).initiated_transaction_id == earlier[i0].id
                                        && view.rule_admits(*model, parent, subject, rules[r]);
                                assert(rules[r].initiated_transaction_id == after[i].id);
                            }
                        }
                        assert forall|r: int|
                            0 <= r < k + 1 && view.rule_admits(
                                *model,
                                parent,
                                subject,
                                #[trigger] rules[r],
                            ) implies lists(after, rules[r].initiated_transaction_id) by {
                            if r < k {
                                assert(lists(earlier, rules[r].initiated_transaction_id));
                                let j = choose|j: int|
                                    0 <= j < earlier.len() && (#[trigger] earlier[j]).id
                                        == rules[r].initiated_transaction_id;
                                let j1 = if j < p { j } else { j + 1 };
                                assert(after[j1] == earlier[j]);
                            } else {
                                assert(after[p as int].id == rules[r].initiated_transaction_id);
                            }
                        }
                        assert forall|i: int, j: int|
                            0 <= i < j < after.len() && text_le(
                                (#[trigger] after[j]).t_id@,
                                (#[trigger] after[i]).t_id@,
                            ) implies first_true(
                            view.admit_flags(*model, parent, subject, rules, after[i].id),
                        ).unwrap() < first_true(
                            view.admit_flags(*model, parent, subject, rules, after[j].id),
                        ).unwrap() by {
                            let i0 = if i < p { i } else { i - 1 };
                            let j0 = if j < p { j } else { j - 1 };
                            if i != p && j != p {
                                assert(after[i] == earlier[i0] && after[j] == earlier[j0]);
                            } else if j == p {
                                assert(after[i] == earlier[i0]);
                            } else {
                                assert(after[j] == earlier[j0]);
                            }
                        }
                    },
                    None => {
                        assert forall|i: int| 0 <= i < after.len() implies view.admitted_by(
                            *model,
                            parent,
                            subject,
                            rules,
                            k + 1,
                            (#[trigger] after[i]).id,
                        ) by {
                            assert(view.admitted_by(
                                *model,
                                parent,
                                subject,
                                rules,
                                k as int,
                                after[i].id,
                            ));
                            let r = choose|r: int|
                                0 <= r < k && r < rules.len() && (
                                #[trigger] rules[r]).initiated_transaction_id == after[i].id
                                    && view.rule_admits(*model, parent, subject, rules[r]);
                            assert(rules[r].initiated_transaction_id == after[i].id);
                        }
                    },
                }
            }
            k += 1;
        }
        proof {
            assert forall|id: TransactionId|
                lists(kinds@, id) <==> #[trigger] view.startable(*model, parent, subject, id) by {
                if lists(kinds@, id) {
                    let i = choose|i: int| 0 <= i < kinds@.len() && (#[trigger] kinds@[i]).id == id;
                    assert(view.admitted_by(*model, parent, subject, rules, k as int, kinds@[i].id));
                }
                if view.startable(*model, parent, subject, id) {
                    let r = choose|r: int|
                        0 <= r < rules.len() && r < rules.len() && (
                        #[trigger] rules[r]).initiated_transaction_id == id && view.rule_admits(
                            *model,
                            parent,
                            subject,
                            rules[r],
                        );
                    assert(lists(kinds@, rules[r].initiated_transaction_id));
                }
            }
        }
        Ok(kinds)
    }
}

} // verus!
