//! What holds of the engine as a whole, proved from the definitions of its
//! operations.

use crate::clock::Timestamp;
use crate::execution::{
    not_about,
    not_of_instance,
    AgendaItem,
    ExecutionView,
    TransactionInstance,
    TransactionInstanceId,
};
use crate::initiation::rules_resolve;
use crate::model::{Impediment, LookupError, Model, SubjectId, Transaction, TransactionId};
use crate::pattern::{CFact, CPAct, CPFact};
use crate::search::{
    first_true,
    is_first_true,
    lemma_first_true_is,
    lemma_first_true_sound,
    lemma_some_first,
};
use vstd::prelude::*;

verus! {

/// One statement of a fact: who states which fact of which instance, and when.
pub struct Statement {
    pub instance: TransactionInstanceId,
    pub performer: SubjectId,
    pub fact: CPFact,
    pub timestamp: Timestamp,
}

/// The execution after `statements` have been made one after the other. A
/// statement that fails leaves the execution as it was.
pub open spec fn replay(e: ExecutionView, model: Model, statements: Seq<Statement>) -> ExecutionView
    decreases statements.len(),
{
    if statements.len() == 0 {
        e
    } else {
        let before = replay(e, model, statements.drop_last());
        let s = statements.last();
        match before.record(model, s.instance, s.performer, s.fact, s.timestamp) {
            Ok(after) => after,
            Err(_) => before,
        }
    }
}

/// The table of answers is total: every fact has its answers, at most two and
/// no act twice, and a fact has an answer exactly where the table says so.
pub proof fn answers_are_fixed(fact: CPFact)
    ensures
        fact.answers().len() <= 2,
        fact.answers().no_duplicates(),
        fact.answers().len() > 0 <==> fact.has_answer(),
{
}

/// Every act that answers a fact can be stated: where the instance, the
/// performer and both parties of the instance are known, recording the fact of
/// the act succeeds, and the world ends with that fact of that instance.
pub proof fn answer_can_be_recorded(
    e: ExecutionView,
    model: Model,
    id: TransactionInstanceId,
    performer: SubjectId,
    fact: CPFact,
    act: CPAct,
    timestamp: Timestamp,
)
    requires
        fact.answers().contains(act),
        e.instance(id) is Some,
        model.subject(performer) is Some,
        model.subject(e.instance(id).unwrap().initiator_id) is Some,
        model.subject(e.instance(id).unwrap().executor_id) is Some,
    ensures
        e.record(model, id, performer, act.fact(), timestamp) is Ok,
        e.record(model, id, performer, act.fact(), timestamp).unwrap().world.len() == e.world.len()
            + 1,
        e.record(model, id, performer, act.fact(), timestamp).unwrap().world.last().records(
            id,
            act.fact(),
        ),
{
    addressee_is_a_party(
        e.instance(id).unwrap(),
        match act.fact() {
            CPFact::CFact(c_fact) => c_fact,
            CPFact::PFact => CFact::Requested,
        },
    );
}

/// A coordination fact is addressed to the initiator or to the executor of its
/// instance, and to nobody else.
pub proof fn addressee_is_a_party(instance: TransactionInstance, c_fact: CFact)
    ensures
        instance.addressee(c_fact) == instance.initiator_id || instance.addressee(c_fact)
            == instance.executor_id,
{
}

/// Recording a fact appends exactly one entry to the world and at most one
/// obligation to the agendas. What the world and the agendas held stays in its
/// place, and the instances stay as they are.
pub proof fn record_only_appends(
    e: ExecutionView,
    model: Model,
    id: TransactionInstanceId,
    performer: SubjectId,
    fact: CPFact,
    timestamp: Timestamp,
)
    ensures
        match e.record(model, id, performer, fact, timestamp) {
            Ok(after) => {
                &&& after.instances == e.instances
                &&& after.world.len() == e.world.len() + 1
                &&& e.world.is_prefix_of(after.world)
                &&& after.agendas.len() <= e.agendas.len() + 1
                &&& e.agendas.is_prefix_of(after.agendas)
            },
            Err(_) => true,
        },
{
    match e.record(model, id, performer, fact, timestamp) {
        Ok(after) => {
            assert(e.world =~= after.world.subrange(0, e.world.len() as int));
            assert(e.agendas =~= after.agendas.subrange(0, e.agendas.len() as int));
        },
        Err(_) => {},
    }
}

/// After any sequence of statements the world and the agendas begin as they
/// began before, nothing in them was removed, changed or moved, each has grown
/// by at most one entry for each statement, and the instances are the same.
pub proof fn statements_only_append(e: ExecutionView, model: Model, statements: Seq<Statement>)
    ensures
        replay(e, model, statements).instances == e.instances,
        e.world.is_prefix_of(replay(e, model, statements).world),
        replay(e, model, statements).world.len() <= e.world.len() + statements.len(),
        e.agendas.is_prefix_of(replay(e, model, statements).agendas),
        replay(e, model, statements).agendas.len() <= e.agendas.len() + statements.len(),
    decreases statements.len(),
{
    if statements.len() == 0 {
        assert(e.world =~= e.world.subrange(0, e.world.len() as int));
        assert(e.agendas =~= e.agendas.subrange(0, e.agendas.len() as int));
    } else {
        let before = replay(e, model, statements.drop_last());
        let after = replay(e, model, statements);
        let s = statements.last();
        statements_only_append(e, model, statements.drop_last());
        record_only_appends(before, model, s.instance, s.performer, s.fact, s.timestamp);
        assert(e.world =~= after.world.subrange(0, e.world.len() as int)) by {
            assert(forall|i: int| 0 <= i < e.world.len() ==> e.world[i] == before.world.subrange(
                0,
                e.world.len() as int,
            )[i]);
            assert(forall|i: int|
                0 <= i < before.world.len() ==> before.world[i] == after.world.subrange(
                    0,
                    before.world.len() as int,
                )[i]);
        }
        assert(e.agendas =~= after.agendas.subrange(0, e.agendas.len() as int)) by {
            assert(forall|i: int|
                0 <= i < e.agendas.len() ==> e.agendas[i] == before.agendas.subrange(
                    0,
                    e.agendas.len() as int,
                )[i]);
            assert(forall|i: int|
                0 <= i < before.agendas.len() ==> before.agendas[i] == after.agendas.subrange(
                    0,
                    before.agendas.len() as int,
                )[i]);
        }
    }
}

/// Retiring an obligation that nobody owes changes nothing.
pub proof fn retiring_nothing_changes_nothing(e: ExecutionView, item: AgendaItem)
    requires
        forall|i: int| 0 <= i < e.agendas.len() ==> !#[trigger] e.agenda_flags(item)[i],
    ensures
        e.without_agenda_item(item) == e,
{
    lemma_first_true_sound(e.agenda_flags(item));
    if first_true(e.agenda_flags(item)) is Some {
        assert(e.agenda_flags(item)[first_true(e.agenda_flags(item)).unwrap()]);
    }
}

/// Retiring an obligation takes the first entry that is the obligation and
/// nothing else: the other entries stay, in their order, and so do the world
/// and the instances.
pub proof fn retiring_takes_the_first(e: ExecutionView, item: AgendaItem, i: int)
    requires
        is_first_true(e.agenda_flags(item), i),
    ensures
        e.agendas[i].1 == item,
        e.without_agenda_item(item).agendas == e.agendas.remove(i),
        e.without_agenda_item(item).agendas.len() == e.agendas.len() - 1,
        e.without_agenda_item(item).world == e.world,
        e.without_agenda_item(item).instances == e.instances,
{
    lemma_first_true_is(e.agenda_flags(item), i);
}

/// Where at most one entry is the obligation, none is once it is retired.
pub proof fn retired_obligation_is_gone(e: ExecutionView, item: AgendaItem)
    requires
        forall|i: int, j: int|
            0 <= i < j < e.agendas.len() ==> !(#[trigger] e.agenda_flags(item)[i]
                && #[trigger] e.agenda_flags(item)[j]),
    ensures
        forall|k: int|
            0 <= k < e.without_agenda_item(item).agendas.len() ==> !#[trigger] e.without_agenda_item(
                item,
            ).agenda_flags(item)[k],
{
    let flags = e.agenda_flags(item);
    let after = e.without_agenda_item(item);
    lemma_first_true_sound(flags);
    assert forall|k: int| 0 <= k < after.agendas.len() implies !#[trigger] after.agenda_flags(
        item,
    )[k] by {
        match first_true(flags) {
            Some(i) => {
                assert(flags[i]);
                if k < i {
                    assert(after.agendas[k] == e.agendas[k]);
                    assert(!flags[k]);
                } else {
                    assert(after.agendas[k] == e.agendas[k + 1]);
                    assert(!flags[k + 1]);
                }
            },
            None => {
                assert(!flags[k]);
            },
        }
    }
}

/// A first match stays the first match when the sequence grows at its end.
pub proof fn first_match_survives_growth(flags: Seq<bool>, later: Seq<bool>)
    requires
        flags.is_prefix_of(later),
        first_true(flags) is Some,
    ensures
        first_true(later) == first_true(flags),
{
    lemma_first_true_sound(flags);
    let i = first_true(flags).unwrap();
    assert(forall|j: int| 0 <= j < flags.len() ==> flags[j] == later.subrange(0, flags.len() as int)[j]);
    assert(later[i]);
    assert forall|j: int| 0 <= j < i implies !#[trigger] later[j] by {
        assert(!flags[j]);
    }
    assert(is_first_true(later, i));
    lemma_first_true_is(later, i);
}

/// A wait link that is satisfied stays satisfied. Once the impeding instance
/// under `parent` has reached the impeding fact, the link gives no reason to
/// wait in any later state: one that has the earlier instances and the earlier
/// world at its beginning, whatever has come after them.
pub proof fn satisfied_link_stays_satisfied(
    e: ExecutionView,
    later: ExecutionView,
    model: Model,
    parent: TransactionInstanceId,
    link: Impediment,
)
    requires
        e.instances.is_prefix_of(later.instances),
        e.world.is_prefix_of(later.world),
        e.child(link.impeding_transaction_id, parent) is Some,
        e.has_fact(
            e.child(link.impeding_transaction_id, parent).unwrap().id,
            CPFact::CFact(link.impeding_c_fact),
        ),
    ensures
        e.blocking_reason(model, parent, link) == Ok::<Option<Seq<char>>, LookupError>(None),
        later.blocking_reason(model, parent, link) == Ok::<Option<Seq<char>>, LookupError>(None),
{
    let kind = link.impeding_transaction_id;
    let fact = CPFact::CFact(link.impeding_c_fact);
    let children = e.child_flags(kind, parent);
    let later_children = later.child_flags(kind, parent);
    assert(children.is_prefix_of(later_children)) by {
        assert(forall|j: int|
            0 <= j < e.instances.len() ==> e.instances[j] == later.instances.subrange(
                0,
                e.instances.len() as int,
            )[j]);
        assert(children =~= later_children.subrange(0, children.len() as int));
    }
    first_match_survives_growth(children, later_children);
    lemma_first_true_sound(children);
    let at = first_true(children).unwrap();
    assert(e.instances[at] == later.instances.subrange(0, e.instances.len() as int)[at]);
    let child = e.child(kind, parent).unwrap();
    assert(later.child(kind, parent) == Some(child));
    let entries = e.fact_flags(child.id, fact);
    let later_entries = later.fact_flags(child.id, fact);
    assert(entries.is_prefix_of(later_entries)) by {
        assert(forall|j: int|
            0 <= j < e.world.len() ==> e.world[j] == later.world.subrange(0, e.world.len() as int)[j]);
        assert(entries =~= later_entries.subrange(0, entries.len() as int));
    }
    first_match_survives_growth(entries, later_entries);
}

/// A wait link that is satisfied stays satisfied whatever facts are stated
/// afterwards.
pub proof fn satisfied_link_survives_statements(
    e: ExecutionView,
    model: Model,
    parent: TransactionInstanceId,
    link: Impediment,
    statements: Seq<Statement>,
)
    requires
        e.child(link.impeding_transaction_id, parent) is Some,
        e.has_fact(
            e.child(link.impeding_transaction_id, parent).unwrap().id,
            CPFact::CFact(link.impeding_c_fact),
        ),
    ensures
        replay(e, model, statements).blocking_reason(model, parent, link) == Ok::<
            Option<Seq<char>>,
            LookupError,
        >(None),
{
    statements_only_append(e, model, statements);
    let later = replay(e, model, statements);
    assert(e.instances.is_prefix_of(later.instances)) by {
        assert(e.instances =~= later.instances.subrange(0, e.instances.len() as int));
    }
    satisfied_link_stays_satisfied(e, later, model, parent, link);
}

/// The first `k` wait links give no reason exactly where each of them that is
/// about the act is satisfied.
pub proof fn no_reason_means_all_satisfied(
    e: ExecutionView,
    model: Model,
    parent: TransactionInstanceId,
    act: CPAct,
    links: Seq<Impediment>,
    k: int,
)
    requires
        0 <= k <= links.len(),
    ensures
        e.blocking_reasons(model, parent, act, links.take(k)) == Ok::<Seq<Seq<char>>, LookupError>(
            Seq::empty(),
        ) <==> forall|j: int|
            0 <= j < k && (#[trigger] links[j]).impeded_act == act ==> e.blocking_reason(
                model,
                parent,
                links[j],
            ) == Ok::<Option<Seq<char>>, LookupError>(None),
    decreases k,
{
    if k > 0 {
        no_reason_means_all_satisfied(e, model, parent, act, links, k - 1);
        assert(links.take(k).drop_last() =~= links.take(k - 1));
        assert(links.take(k).last() == links[k - 1]);
        let rest = e.blocking_reasons(model, parent, act, links.take(k - 1));
        let all = e.blocking_reasons(model, parent, act, links.take(k));
        match rest {
            Ok(reasons) => {
                if reasons.len() > 0 {
                    assert(all is Ok ==> all.unwrap().len() > 0);
                } else {
                    assert(reasons =~= Seq::<Seq<char>>::empty());
                    if links[k - 1].impeded_act == act {
                        match e.blocking_reason(model, parent, links[k - 1]) {
                            Ok(Some(reason)) => {
                                assert(all.unwrap().len() == 1);
                            },
                            _ => {},
                        }
                    }
                }
            },
            Err(_) => {},
        }
    } else {
        assert(links.take(0) =~= Seq::<Impediment>::empty());
    }
}

/// An act that nothing holds up stays free. Where no wait link of `kind`
/// holds up `act` under `parent`, none does in any later state: one that has
/// the earlier instances and the earlier world at its beginning, whatever has
/// come after them.
pub proof fn unimpeded_act_stays_unimpeded(
    e: ExecutionView,
    later: ExecutionView,
    model: Model,
    kind: Transaction,
    parent: TransactionInstanceId,
    act: CPAct,
)
    requires
        e.instances.is_prefix_of(later.instances),
        e.world.is_prefix_of(later.world),
        e.act_impediments(model, kind, parent, act) == Ok::<Option<Seq<Seq<char>>>, LookupError>(
            None,
        ),
    ensures
        later.act_impediments(model, kind, parent, act) == Ok::<
            Option<Seq<Seq<char>>>,
            LookupError,
        >(None),
{
    let links = kind.impediments@;
    let n = links.len() as int;
    assert(links.take(n) =~= links);
    let reasons = e.blocking_reasons(model, parent, act, links).unwrap();
    assert(reasons =~= Seq::<Seq<char>>::empty());
    no_reason_means_all_satisfied(e, model, parent, act, links, n);
    assert forall|j: int| 0 <= j < n && (#[trigger] links[j]).impeded_act == act implies later.blocking_reason(
        model,
        parent,
        links[j],
    ) == Ok::<Option<Seq<char>>, LookupError>(None) by {
        assert(e.blocking_reason(model, parent, links[j]) == Ok::<Option<Seq<char>>, LookupError>(
            None,
        ));
        satisfied_link_stays_satisfied(e, later, model, parent, links[j]);
    }
    no_reason_means_all_satisfied(later, model, parent, act, links, n);
}

/// Only a legal act that nothing holds up is committed. Where a commit
/// succeeds, the act answers the fact of the obligation, no wait link of the
/// instance's kind holds it up, the world has grown by the one entry that
/// records the fact of the act, and the instances are the same.
pub proof fn committed_act_is_legal(
    e: ExecutionView,
    model: Model,
    subject: SubjectId,
    item: AgendaItem,
    act: CPAct,
    timestamp: Timestamp,
)
    requires
        e.commit(model, subject, item, act, timestamp) is Ok,
    ensures
        item.fact.answers().contains(act),
        e.instance(item.transaction_instance_id) is Some,
        model.transaction(e.instance(item.transaction_instance_id).unwrap().transaction_id) is Some,
        e.act_impediments(
            model,
            model.transaction(e.instance(item.transaction_instance_id).unwrap().transaction_id).unwrap(),
            e.instance(item.transaction_instance_id).unwrap().scope(),
            act,
        ) == Ok::<Option<Seq<Seq<char>>>, LookupError>(None),
        e.commit(model, subject, item, act, timestamp).unwrap().instances == e.instances,
        e.commit(model, subject, item, act, timestamp).unwrap().world.len() == e.world.len() + 1,
        e.world.is_prefix_of(e.commit(model, subject, item, act, timestamp).unwrap().world),
        e.commit(model, subject, item, act, timestamp).unwrap().world.last().records(
            item.transaction_instance_id,
            act.fact(),
        ),
{
    record_only_appends(e, model, item.transaction_instance_id, subject, act.fact(), timestamp);
}

/// A kind that may be started has room: some rule of the parent's kind
/// initiates it, admits the subject, and has an upper bound that the number of
/// the kind's instances has not reached.
pub proof fn startable_kind_has_room(
    e: ExecutionView,
    model: Model,
    parent: TransactionInstance,
    subject: SubjectId,
    id: TransactionId,
)
    requires
        e.startable(model, parent, subject, id),
    ensures
        model.transaction(parent.transaction_id) is Some,
        exists|r: int|
            {
                &&& 0 <= r < model.transaction(parent.transaction_id).unwrap().initiations@.len()
                &&& (#[trigger] model.transaction(
                    parent.transaction_id,
                ).unwrap().initiations@[r]).initiated_transaction_id == id
                &&& model.transaction(
                    parent.transaction_id,
                ).unwrap().initiations@[r].multiplicity.max.admits(e.count_of_kind(id))
                &&& e.rule_admits(
                    model,
                    parent,
                    subject,
                    model.transaction(parent.transaction_id).unwrap().initiations@[r],
                )
            },
{
    let rules = model.transaction(parent.transaction_id).unwrap().initiations@;
    let r = choose|r: int|
        0 <= r < rules.len() && r < rules.len() && (#[trigger] rules[r]).initiated_transaction_id == id
            && e.rule_admits(model, parent, subject, rules[r]);
    assert(rules[r].multiplicity.max.admits(e.count_of_kind(id)));
}

/// A kind whose instances have reached the upper bound of every rule that
/// initiates it cannot be started.
pub proof fn full_kind_is_not_startable(
    e: ExecutionView,
    model: Model,
    parent: TransactionInstance,
    subject: SubjectId,
    id: TransactionId,
)
    requires
        match model.transaction(parent.transaction_id) {
            Some(kind) => forall|r: int|
                0 <= r < kind.initiations@.len() && (
                #[trigger] kind.initiations@[r]).initiated_transaction_id == id
                    ==> !kind.initiations@[r].multiplicity.max.admits(e.count_of_kind(id)),
            None => true,
        },
    ensures
        !e.startable(model, parent, subject, id),
{
}

/// What a model finds by identity is one of the things it holds.
pub proof fn found_kind_is_held(model: Model, id: TransactionId)
    requires
        model.transaction(id) is Some,
    ensures
        exists|i: int|
            0 <= i < model.transactions@.len() && #[trigger] model.transactions@[i]
                == model.transaction(id).unwrap(),
{
    lemma_first_true_sound(model.transaction_flags(id));
    let i = first_true(model.transaction_flags(id)).unwrap();
    assert(model.transactions@[i] == model.transaction(id).unwrap());
}

/// In a consistent model the initiation rules of every instance of a known
/// kind name known kinds: asking what may be started under it does not fail.
pub proof fn consistent_model_resolves_rules(model: Model, parent: TransactionInstance)
    requires
        model.wf(),
        model.transaction(parent.transaction_id) is Some,
    ensures
        rules_resolve(model, parent),
{
    found_kind_is_held(model, parent.transaction_id);
    let i = choose|i: int|
        0 <= i < model.transactions@.len() && #[trigger] model.transactions@[i]
            == model.transaction(parent.transaction_id).unwrap();
    assert(model.kind_is_sound(model.transactions@[i]));
}

/// In a consistent model every wait link of a kind of the model names a known
/// kind: asking what holds up an act of such a kind does not fail.
pub proof fn consistent_model_names_every_wait(
    e: ExecutionView,
    model: Model,
    kind: Transaction,
    parent: TransactionInstanceId,
    act: CPAct,
)
    requires
        model.wf(),
        exists|i: int| 0 <= i < model.transactions@.len() && #[trigger] model.transactions@[i] == kind,
    ensures
        e.act_impediments(model, kind, parent, act) is Ok,
{
    let i = choose|i: int|
        0 <= i < model.transactions@.len() && #[trigger] model.transactions@[i] == kind;
    assert(model.kind_is_sound(model.transactions@[i]));
    known_waits_give_reasons(e, model, parent, act, kind.impediments@, kind.impediments@.len() as int);
    assert(kind.impediments@.take(kind.impediments@.len() as int) =~= kind.impediments@);
}

/// Where the first `k` wait links name known kinds, their reasons are found.
proof fn known_waits_give_reasons(
    e: ExecutionView,
    model: Model,
    parent: TransactionInstanceId,
    act: CPAct,
    links: Seq<Impediment>,
    k: int,
)
    requires
        0 <= k <= links.len(),
        forall|j: int|
            0 <= j < links.len() ==> model.transaction((#[trigger] links[j]).impeding_transaction_id)
                is Some,
    ensures
        e.blocking_reasons(model, parent, act, links.take(k)) is Ok,
    decreases k,
{
    if k > 0 {
        known_waits_give_reasons(e, model, parent, act, links, k - 1);
        assert(links.take(k).drop_last() =~= links.take(k - 1));
        assert(links.take(k).last() == links[k - 1]);
    }
}

/// Where every instance of an execution is of a known kind between known
/// subjects, a known performer can state any fact of any instance, and the
/// execution stays like that.
pub proof fn fitting_execution_records(
    e: ExecutionView,
    model: Model,
    id: TransactionInstanceId,
    performer: SubjectId,
    fact: CPFact,
    timestamp: Timestamp,
)
    requires
        e.fits(model),
        e.instance(id) is Some,
        model.subject(performer) is Some,
    ensures
        e.record(model, id, performer, fact, timestamp) is Ok,
        e.record(model, id, performer, fact, timestamp).unwrap().fits(model),
{
    lemma_first_true_sound(e.instance_flags(id));
    let at = first_true(e.instance_flags(id)).unwrap();
    assert(e.instances[at] == e.instance(id).unwrap());
    match fact {
        CPFact::CFact(c_fact) => {
            addressee_is_a_party(e.instances[at], c_fact);
        },
        CPFact::PFact => {},
    }
}

/// An instance of a known kind between known subjects can enter an execution
/// in which every instance is like that, and the execution stays like that.
pub proof fn fitting_instance_enters(
    e: ExecutionView,
    model: Model,
    instance: TransactionInstance,
    timestamp: Timestamp,
)
    requires
        e.fits(model),
        model.transaction(instance.transaction_id) is Some,
        model.subject(instance.initiator_id) is Some,
        model.subject(instance.executor_id) is Some,
    ensures
        e.enter(model, instance, timestamp) is Ok,
        e.enter(model, instance, timestamp).unwrap().fits(model),
{
    let entered = e.with_instance(instance);
    assert(entered.fits(model)) by {
        assert forall|i: int| 0 <= i < entered.instances.len() implies {
            &&& model.transaction((#[trigger] entered.instances[i]).transaction_id) is Some
            &&& model.subject(entered.instances[i].initiator_id) is Some
            &&& model.subject(entered.instances[i].executor_id) is Some
        } by {
            if i < e.instances.len() {
                assert(entered.instances[i] == e.instances[i]);
            }
        }
    }
    let last = entered.instances.len() - 1;
    lemma_some_first(entered.instance_flags(instance.id), last);
    fitting_execution_records(
        entered,
        model,
        instance.id,
        instance.initiator_id,
        CPFact::CFact(CFact::Requested),
        timestamp,
    );
}

/// Deleting an instance leaves no world entry and no obligation of that
/// instance, and every entry and obligation of another instance is still
/// there.
pub proof fn deleted_instance_leaves_no_trace(e: ExecutionView, id: TransactionInstanceId)
    ensures
        forall|i: int|
            0 <= i < e.without_instance(id).world.len() ==> (#[trigger] e.without_instance(
                id,
            ).world[i]).instance_id() != id,
        forall|i: int|
            0 <= i < e.without_instance(id).agendas.len() ==> (#[trigger] e.without_instance(
                id,
            ).agendas[i]).1.transaction_instance_id != id,
        forall|i: int|
            0 <= i < e.world.len() && (#[trigger] e.world[i]).instance_id() != id
                ==> e.without_instance(id).world.contains(e.world[i]),
        forall|i: int|
            0 <= i < e.agendas.len() && (#[trigger] e.agendas[i]).1.transaction_instance_id != id
                ==> e.without_instance(id).agendas.contains(e.agendas[i]),
{
    let world = e.without_instance(id).world;
    let agendas = e.without_instance(id).agendas;
    assert forall|i: int| 0 <= i < world.len() implies (#[trigger] world[i]).instance_id() != id by {
        e.world.lemma_filter_pred(not_of_instance(id), i);
    }
    assert forall|i: int| 0 <= i < agendas.len() implies (
    #[trigger] agendas[i]).1.transaction_instance_id != id by {
        e.agendas.lemma_filter_pred(not_about(id), i);
    }
    assert forall|i: int|
        0 <= i < e.world.len() && (#[trigger] e.world[i]).instance_id() != id implies world.contains(
        e.world[i],
    ) by {
        e.world.lemma_filter_contains(not_of_instance(id), i);
    }
    assert forall|i: int|
        0 <= i < e.agendas.len() && (#[trigger] e.agendas[i]).1.transaction_instance_id
            != id implies agendas.contains(e.agendas[i]) by {
        e.agendas.lemma_filter_contains(not_about(id), i);
    }
}

} // verus!
