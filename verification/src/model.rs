//! The static side: actor roles, transaction kinds with their initiation and
//! impediment rules, subjects, and the table that says which subject may play
//! which role.

pub use crate::pattern::{all_acts, all_c_acts, all_c_facts, CAct, CFact, CPAct, CPFact};
use crate::search::lemma_first_true_sound;
use crate::search::{first_true, is_first_true, lemma_first_true_is, lemma_first_true_none};
use crate::token::{fresh_token, hyphenated, is_random_token, token_text};
use vstd::prelude::*;
use vstd::string::*;

verus! {

/// What a lookup by identity failed to find.
#[derive(Clone, Copy, Debug, PartialEq, Eq, Hash, Structural)]
pub enum LookupError {
    UnknownActorRole,
    UnknownTransaction,
    UnknownSubject,
    UnknownTransactionInstance,
}

/// The identity of an actor role.
#[derive(Clone, Copy, Debug, PartialEq, Eq, Hash, Structural)]
pub struct ActorRoleId(pub u128);

/// The identity of a transaction kind.
#[derive(Clone, Copy, Debug, PartialEq, Eq, Hash, Structural)]
pub struct TransactionId(pub u128);

/// The identity of a subject.
#[derive(Clone, Copy, Debug, PartialEq, Eq, Hash, Structural)]
pub struct SubjectId(pub u128);

impl ActorRoleId {
    pub fn to_string(&self) -> (text: String)
        ensures
            text@ == hyphenated(self.0),
    {
        token_text(self.0)
    }
}

impl TransactionId {
    pub fn to_string(&self) -> (text: String)
        ensures
            text@ == hyphenated(self.0),
    {
        token_text(self.0)
    }
}

impl SubjectId {
    pub fn to_string(&self) -> (text: String)
        ensures
            text@ == hyphenated(self.0),
    {
        token_text(self.0)
    }
}

/// An abstract role in the process.
#[derive(Debug, PartialEq, Eq, Hash)]
pub struct ActorRole {
    pub id: ActorRoleId,
    pub name: String,
}

impl Clone for ActorRole {
    fn clone(&self) -> (copy: Self)
        ensures
            copy == *self,
    {
        ActorRole { id: self.id, name: self.name.clone() }
    }
}

impl Default for ActorRole {
    /// A role without a name, under a new identity.
    fn default() -> (role: Self)
        ensures
            role.name@ == Seq::<char>::empty(),
            is_random_token(role.id.0),
    {
        ActorRole { id: ActorRoleId(fresh_token()), name: String::new() }
    }
}

/// A concrete actor, who plays the roles that the table gives to it.
#[derive(Debug, PartialEq, Eq, Hash)]
pub struct Subject {
    pub id: SubjectId,
    pub name: String,
}

impl Clone for Subject {
    fn clone(&self) -> (copy: Self)
        ensures
            copy == *self,
    {
        Subject { id: self.id, name: self.name.clone() }
    }
}

impl Default for Subject {
    /// A subject without a name, under a new identity.
    fn default() -> (subject: Self)
        ensures
            subject.name@ == Seq::<char>::empty(),
            is_random_token(subject.id.0),
    {
        Subject { id: SubjectId(fresh_token()), name: String::new() }
    }
}

/// The upper end of a multiplicity: a number, or no limit.
#[derive(Clone, Copy, Debug, PartialEq, Eq, Hash, Structural)]
pub enum MultiplicityBound {
    Bounded(usize),
    Unbounded,
}

impl MultiplicityBound {
    /// Whether one more instance may come into being where `count` exist.
    pub open spec fn admits(self, count: nat) -> bool {
        match self {
            MultiplicityBound::Bounded(limit) => count < limit,
            MultiplicityBound::Unbounded => true,
        }
    }

    pub fn is_within_bound(&self, count: usize) -> (within: bool)
        ensures
            within == self.admits(count as nat),
    {
        match self {
            MultiplicityBound::Bounded(limit) => count < *limit,
            MultiplicityBound::Unbounded => true,
        }
    }
}

/// How many instances of an initiated kind may exist: from `min` up to `max`.
#[derive(Clone, Copy, Debug, PartialEq, Eq, Hash, Structural)]
pub struct Multiplicity {
    pub min: usize,
    pub max: MultiplicityBound,
}

impl Default for Multiplicity {
    /// Any number of instances.
    fn default() -> (multiplicity: Self)
        ensures
            multiplicity == (Multiplicity { min: 0, max: MultiplicityBound::Unbounded }),
    {
        Multiplicity { min: 0, max: MultiplicityBound::Unbounded }
    }
}

/// A rule of a transaction kind: once an instance of the kind has reached
/// `initiating_c_fact`, instances of the kind `initiated_transaction_id` may be
/// started under it, as many as `multiplicity` admits.
#[derive(Clone, Copy, Debug, PartialEq, Eq, Structural)]
pub struct Initiation {
    pub initiating_c_fact: CFact,
    pub initiated_transaction_id: TransactionId,
    pub initiated_c_act: CAct,
    pub multiplicity: Multiplicity,
}

/// A wait link of a transaction kind: `impeded_act` waits until the instance of
/// the kind `impeding_transaction_id` has reached `impeding_c_fact`.
#[derive(Clone, Copy, Debug, PartialEq, Eq, Structural)]
pub struct Impediment {
    pub impeded_act: CPAct,
    pub impeding_transaction_id: TransactionId,
    pub impeding_c_fact: CFact,
}

/// A transaction kind. Two kinds are equal where their identities are.
#[derive(Debug)]
pub struct Transaction {
    pub id: TransactionId,
    pub t_id: String,
    pub name: String,
    pub product: String,
    pub initiator_id: ActorRoleId,
    pub executor_id: ActorRoleId,
    pub initiations: Vec<Initiation>,
    pub impediments: Vec<Impediment>,
}

impl PartialEq for Transaction {
    fn eq(&self, other: &Self) -> (equal: bool) {
        self.id == other.id
    }
}

impl vstd::std_specs::cmp::PartialEqSpecImpl for Transaction {
    open spec fn obeys_eq_spec() -> bool {
        true
    }

    open spec fn eq_spec(&self, other: &Self) -> bool {
        self.id == other.id
    }
}

impl Eq for Transaction {

}

impl Clone for Transaction {
    fn clone(&self) -> (copy: Self)
        ensures
            copy.id == self.id,
            copy.t_id == self.t_id,
            copy.name == self.name,
            copy.product == self.product,
            copy.initiator_id == self.initiator_id,
            copy.executor_id == self.executor_id,
            copy.initiations@ == self.initiations@,
            copy.impediments@ == self.impediments@,
    {
        let mut initiations: Vec<Initiation> = Vec::new();
        let mut i: usize = 0;
        while i < self.initiations.len()
            invariant
                i <= self.initiations@.len(),
                initiations@ == self.initiations@.take(i as int),
            decreases self.initiations@.len() - i,
        {
            initiations.push(self.initiations[i]);
            i += 1;
            assert(initiations@ =~= self.initiations@.take(i as int));
        }
        assert(initiations@ =~= self.initiations@);
        let mut impediments: Vec<Impediment> = Vec::new();
        let mut k: usize = 0;
        while k < self.impediments.len()
            invariant
                k <= self.impediments@.len(),
                impediments@ == self.impediments@.take(k as int),
            decreases self.impediments@.len() - k,
        {
            impediments.push(self.impediments[k]);
            k += 1;
            assert(impediments@ =~= self.impediments@.take(k as int));
        }
        assert(impediments@ =~= self.impediments@);
        Transaction {
            id: self.id,
            t_id: self.t_id.clone(),
            name: self.name.clone(),
            product: self.product.clone(),
            initiator_id: self.initiator_id,
            executor_id: self.executor_id,
            initiations,
            impediments,
        }
    }
}

impl Transaction {
    /// An empty kind under a new identity, between two roles that do not
    /// exist yet.
    pub fn new() -> (kind: Self)
        ensures
            is_random_token(kind.id.0),
            is_random_token(kind.initiator_id.0),
            is_random_token(kind.executor_id.0),
            kind.t_id@ == Seq::<char>::empty(),
            kind.name@ == Seq::<char>::empty(),
            kind.product@ == Seq::<char>::empty(),
            kind.initiations@ == Seq::<Initiation>::empty(),
            kind.impediments@ == Seq::<Impediment>::empty(),
    {
        Transaction {
            id: TransactionId(fresh_token()),
            t_id: String::new(),
            name: String::new(),
            product: String::new(),
            initiator_id: ActorRole::default().id,
            executor_id: ActorRole::default().id,
            initiations: Vec::new(),
            impediments: Vec::new(),
        }
    }
}

/// How a subject holds a role: by authorisation or by delegation.
#[derive(Clone, Copy, Debug, PartialEq, Eq, Hash, Structural)]
pub enum AdtOption {
    Authorisation,
    Delegation,
}

impl AdtOption {
    /// The letter that stands for the option.
    pub open spec fn letter(self) -> char {
        match self {
            AdtOption::Authorisation => 'A',
            AdtOption::Delegation => 'D',
        }
    }

    /// Reads an option from its letter: `A` or `D`, and nothing else.
    pub fn from_str(input: &str) -> (option: Option<AdtOption>)
        ensures
            option == if input@ == seq!['A'] {
                Some(AdtOption::Authorisation)
            } else if input@ == seq!['D'] {
                Some(AdtOption::Delegation)
            } else {
                None
            },
    {
        if input.unicode_len() != 1 {
            return None;
        }
        let letter = input.get_char(0);
        if letter == 'A' {
            assert(input@ =~= seq!['A']);
            Some(AdtOption::Authorisation)
        } else if letter == 'D' {
            assert(input@ =~= seq!['D']);
            Some(AdtOption::Delegation)
        } else {
            None
        }
    }

    pub fn to_string(&self) -> (text: String)
        ensures
            text@ == seq![self.letter()],
    {
        proof {
            reveal_strlit("A");
            reveal_strlit("D");
        }
        let text = match self {
            AdtOption::Authorisation => String::from_str("A"),
            AdtOption::Delegation => String::from_str("D"),
        };
        assert(text@ =~= seq![self.letter()]);
        text
    }
}

impl Default for AdtOption {
    fn default() -> (option: Self)
        ensures
            option == AdtOption::Authorisation,
    {
        AdtOption::Authorisation
    }
}

/// Both options, authorisation first.
pub fn all_adt_options() -> (all: Vec<AdtOption>)
    ensures
        all@ == seq![AdtOption::Authorisation, AdtOption::Delegation],
        forall|option: AdtOption| all@.contains(option),
{
    let all = vec![AdtOption::Authorisation, AdtOption::Delegation];
    assert(all@ =~= seq![AdtOption::Authorisation, AdtOption::Delegation]);
    assert forall|option: AdtOption| all@.contains(option) by {
        match option {
            AdtOption::Authorisation => {
                assert(all@[0] == option);
            },
            AdtOption::Delegation => {
                assert(all@[1] == option);
            },
        }
    }
    all
}

/// One line of the table: `subject_id` holds `actor_role_id` by `option`.
#[derive(Clone, Copy, Debug, PartialEq, Eq, Hash, Structural)]
pub struct AdtMapping {
    pub actor_role_id: ActorRoleId,
    pub subject_id: SubjectId,
    pub option: AdtOption,
}

/// The authorisation and delegation table. A well-formed table holds a pair of
/// role and subject at most once.
#[derive(Debug, Clone, PartialEq)]
pub struct Adt {
    pub mappings: Vec<AdtMapping>,
}

/// The lines of `mappings` that speak of `subject`.
pub open spec fn of_subject(subject: SubjectId) -> spec_fn(AdtMapping) -> bool {
    |m: AdtMapping| m.subject_id == subject
}

/// The lines of `mappings` that speak of `role`.
pub open spec fn of_role(role: ActorRoleId) -> spec_fn(AdtMapping) -> bool {
    |m: AdtMapping| m.actor_role_id == role
}

impl Adt {
    /// No pair of role and subject stands in two lines.
    pub open spec fn wf(&self) -> bool {
        forall|i: int, j: int|
            0 <= i < j < self.mappings@.len() ==> !(#[trigger] self.mappings@[i].actor_role_id
                == #[trigger] self.mappings@[j].actor_role_id && self.mappings@[i].subject_id
                == self.mappings@[j].subject_id)
    }

    /// For each line, whether it is the line of `role` and `subject`.
    pub open spec fn pair_flags(&self, role: ActorRoleId, subject: SubjectId) -> Seq<bool> {
        Seq::new(
            self.mappings@.len(),
            |i: int| self.mappings@[i].actor_role_id == role && self.mappings@[i].subject_id == subject,
        )
    }

    /// Whether `subject` holds `role`, by either option.
    pub open spec fn grants(&self, role: ActorRoleId, subject: SubjectId) -> bool {
        first_true(self.pair_flags(role, subject)) is Some
    }

    /// The option by which `subject` holds `role`.
    pub open spec fn option_of(&self, role: ActorRoleId, subject: SubjectId) -> Option<AdtOption> {
        match first_true(self.pair_flags(role, subject)) {
            Some(i) => Some(self.mappings@[i].option),
            None => None,
        }
    }

    /// Whether some subject holds `role`.
    pub open spec fn role_is_held(&self, role: ActorRoleId) -> bool {
        exists|i: int| 0 <= i < self.mappings@.len() && #[trigger] self.mappings@[i].actor_role_id == role
    }

    /// The roles of `subject`, in the order of the table's lines.
    pub open spec fn roles_of(&self, subject: SubjectId) -> Seq<ActorRoleId> {
        self.mappings@.filter(of_subject(subject)).map_values(|m: AdtMapping| m.actor_role_id)
    }

    /// The subjects that hold `role`, each with the option by which it does, in
    /// the order of the table's lines.
    pub open spec fn holders_of(&self, role: ActorRoleId) -> Seq<(SubjectId, AdtOption)> {
        self.mappings@.filter(of_role(role)).map_values(|m: AdtMapping| (m.subject_id, m.option))
    }

    /// The empty table.
    pub fn new() -> (table: Self)
        ensures
            table.mappings@ == Seq::<AdtMapping>::empty(),
            table.wf(),
    {
        Adt { mappings: Vec::new() }
    }

    /// Whether the table is well-formed.
    pub fn is_well_formed(&self) -> (ok: bool)
        ensures
            ok == self.wf(),
    {
        let mut j: usize = 0;
        while j < self.mappings.len()
            invariant
                j <= self.mappings@.len(),
                forall|a: int, b: int|
                    0 <= a < b < j ==> !(#[trigger] self.mappings@[a].actor_role_id
                        == #[trigger] self.mappings@[b].actor_role_id && self.mappings@[a].subject_id
                        == self.mappings@[b].subject_id),
            decreases self.mappings@.len() - j,
        {
            let mut i: usize = 0;
            while i < j
                invariant
                    i <= j < self.mappings@.len(),
                    forall|a: int|
                        0 <= a < i ==> !(#[trigger] self.mappings@[a].actor_role_id
                            == self.mappings@[j as int].actor_role_id && self.mappings@[a].subject_id
                            == self.mappings@[j as int].subject_id),
                decreases j - i,
            {
                if self.mappings[i].actor_role_id == self.mappings[j].actor_role_id
                    && self.mappings[i].subject_id == self.mappings[j].subject_id {
                    assert(self.mappings@[i as int].actor_role_id
                        == self.mappings@[j as int].actor_role_id);
                    return false;
                }
                i += 1;
            }
            j += 1;
        }
        true
    }

    /// The line of `role` and `subject`, if the table has one.
    fn position(&self, role: ActorRoleId, subject: SubjectId) -> (at: Option<usize>)
        ensures
            match at {
                Some(i) => first_true(self.pair_flags(role, subject)) == Some(i as int) && i
                    < self.mappings@.len(),
                None => first_true(self.pair_flags(role, subject)) is None,
            },
    {
        let ghost flags = self.pair_flags(role, subject);
        let mut i: usize = 0;
        while i < self.mappings.len()
            invariant
                i <= self.mappings@.len(),
                flags == self.pair_flags(role, subject),
                forall|j: int| 0 <= j < i ==> !#[trigger] flags[j],
            decreases self.mappings@.len() - i,
        {
            if self.mappings[i].actor_role_id == role && self.mappings[i].subject_id == subject {
                proof {
                    assert(is_first_true(flags, i as int));
                    lemma_first_true_is(flags, i as int);
                }
                return Some(i);
            }
            i += 1;
        }
        proof {
            lemma_first_true_none(flags);
        }
        None
    }

    /// The option by which `subject` holds `role`, if it does.
    pub fn get(&self, role: &ActorRoleId, subject: &SubjectId) -> (option: Option<AdtOption>)
        ensures
            option == self.option_of(*role, *subject),
            option is Some <==> self.grants(*role, *subject),
    {
        match self.position(*role, *subject) {
            Some(i) => Some(self.mappings[i].option),
            None => None,
        }
    }

    /// Lets `subject` hold `role` by `option`. Where it held the role already,
    /// the line is rewritten in its place and the earlier option returned.
    pub fn insert(&mut self, role: ActorRoleId, subject: SubjectId, option: AdtOption) -> (earlier:
        Option<AdtOption>)
        requires
            old(self).wf(),
        ensures
            final(self).wf(),
            earlier == old(self).option_of(role, subject),
            final(self).mappings@ == match first_true(old(self).pair_flags(role, subject)) {
                Some(i) => old(self).mappings@.update(
                    i,
                    (AdtMapping { actor_role_id: role, subject_id: subject, option }),
                ),
                None => old(self).mappings@.push(
                    (AdtMapping { actor_role_id: role, subject_id: subject, option }),
                ),
            },
            final(self).option_of(role, subject) == Some(option),
    {
        let line = AdtMapping { actor_role_id: role, subject_id: subject, option };
        let ghost before = self.pair_flags(role, subject);
        match self.position(role, subject) {
            Some(i) => {
                let earlier = self.mappings[i].option;
                self.mappings[i] = line;
                proof {
                    assert(self.pair_flags(role, subject) =~= before);
                    assert(self.mappings@[i as int] == line);
                }
                Some(earlier)
            },
            None => {
                proof {
                    lemma_first_true_sound(before);
                }
                self.mappings.push(line);
                proof {
                    let flags = self.pair_flags(role, subject);
                    let last = self.mappings@.len() - 1;
                    assert forall|j: int| 0 <= j < last implies !#[trigger] flags[j] by {
                        assert(flags[j] == before[j]);
                    }
                    assert(is_first_true(flags, last));
                    lemma_first_true_is(flags, last);
                    assert forall|a: int, b: int| 0 <= a < b < self.mappings@.len() implies !(
                    #[trigger] self.mappings@[a].actor_role_id
                        == #[trigger] self.mappings@[b].actor_role_id && self.mappings@[a].subject_id
                        == self.mappings@[b].subject_id) by {
                        if b == last {
                            assert(!before[a]);
                        }
                    }
                }
                None
            },
        }
    }

    /// Takes `role` from `subject` and returns the option by which it was held.
    /// The other lines keep their order.
    pub fn remove(&mut self, role: &ActorRoleId, subject: &SubjectId) -> (earlier: Option<AdtOption>)
        requires
            old(self).wf(),
        ensures
            final(self).wf(),
            earlier == old(self).option_of(*role, *subject),
            final(self).mappings@ == match first_true(old(self).pair_flags(*role, *subject)) {
                Some(i) => old(self).mappings@.remove(i),
                None => old(self).mappings@,
            },
            !final(self).grants(*role, *subject),
    {
        let ghost before = self.pair_flags(*role, *subject);
        let ghost lines = self.mappings@;
        match self.position(*role, *subject) {
            Some(i) => {
                let line = self.mappings.remove(i);
                proof {
                    let flags = self.pair_flags(*role, *subject);
                    assert forall|j: int| 0 <= j < flags.len() implies !#[trigger] flags[j] by {
                        if j < i {
                            assert(self.mappings@[j] == lines[j]);
                            assert(!before[j]);
                        } else {
                            assert(self.mappings@[j] == lines[j + 1]);
                            assert(before[i as int]);
                        }
                    }
                    lemma_first_true_none(flags);
                    assert forall|a: int, b: int| 0 <= a < b < self.mappings@.len() implies !(
                    #[trigger] self.mappings@[a].actor_role_id
                        == #[trigger] self.mappings@[b].actor_role_id && self.mappings@[a].subject_id
                        == self.mappings@[b].subject_id) by {
                        let a0 = if a < i { a } else { a + 1 };
                        let b0 = if b < i { b } else { b + 1 };
                        assert(self.mappings@[a] == lines[a0]);
                        assert(self.mappings@[b] == lines[b0]);
                    }
                }
                Some(line.option)
            },
            None => None,
        }
    }

    /// Enters what an editor typed for `role` and `subject`: the letter of an
    /// option lets the subject hold the role by that option, and any other text
    /// takes the role from the subject.
    pub fn set_choice(&mut self, role: ActorRoleId, subject: SubjectId, choice: &str)
        requires
            old(self).wf(),
        ensures
            final(self).wf(),
            final(self).option_of(role, subject) == if choice@ == seq!['A'] {
                Some(AdtOption::Authorisation)
            } else if choice@ == seq!['D'] {
                Some(AdtOption::Delegation)
            } else {
                None
            },
            final(self).mappings@ == match (
                first_true(old(self).pair_flags(role, subject)),
                final(self).option_of(role, subject),
            ) {
                (Some(i), Some(option)) => old(self).mappings@.update(
                    i,
                    (AdtMapping { actor_role_id: role, subject_id: subject, option }),
                ),
                (None, Some(option)) => old(self).mappings@.push(
                    (AdtMapping { actor_role_id: role, subject_id: subject, option }),
                ),
                (Some(i), None) => old(self).mappings@.remove(i),
                (None, None) => old(self).mappings@,
            },
    {
        match AdtOption::from_str(choice) {
            Some(option) => {
                let _ = self.insert(role, subject, option);
            },
            None => {
                let _ = self.remove(&role, &subject);
            },
        }
    }

    /// Whether some subject holds the role `ar_id`.
    pub fn is_mapped(&self, ar_id: &ActorRoleId) -> (held: bool)
        ensures
            held == self.role_is_held(*ar_id),
    {
        let mut i: usize = 0;
        while i < self.mappings.len()
            invariant
                i <= self.mappings@.len(),
                forall|j: int| 0 <= j < i ==> #[trigger] self.mappings@[j].actor_role_id != *ar_id,
            decreases self.mappings@.len() - i,
        {
            if self.mappings[i].actor_role_id == *ar_id {
                return true;
            }
            i += 1;
        }
        false
    }

    /// The roles that `subject` holds, in the order of the table's lines.
    pub fn get_roles_of_subject(&self, subject: &Subject) -> (roles: Vec<&ActorRoleId>)
        ensures
            roles@.map_values(|r: &ActorRoleId| *r) == self.roles_of(subject.id),
    {
        let ghost pred = of_subject(subject.id);
        let ghost pick = |m: AdtMapping| m.actor_role_id;
        let ghost open = |r: &ActorRoleId| *r;
        let mut roles: Vec<&ActorRoleId> = Vec::new();
        let mut i: usize = 0;
        assert(self.mappings@.take(0) =~= Seq::<AdtMapping>::empty());
        assert(Seq::<AdtMapping>::empty().filter(pred) =~= Seq::<AdtMapping>::empty()) by {
            reveal(Seq::filter);
        }
        assert(roles@.map_values(open) =~= self.mappings@.take(0).filter(pred).map_values(pick));
        while i < self.mappings.len()
            invariant
                i <= self.mappings@.len(),
                pred == of_subject(subject.id),
                pick == |m: AdtMapping| m.actor_role_id,
                open == |r: &ActorRoleId| *r,
                roles@.map_values(open) == self.mappings@.take(i as int).filter(pred).map_values(
                    pick,
                ),
            decreases self.mappings@.len() - i,
        {
            let line = &self.mappings[i];
            let ghost earlier = roles@;
            proof {
                self.mappings@.take(i as int).lemma_filter_push(*line, pred);
                assert(self.mappings@.take(i + 1) =~= self.mappings@.take(i as int).push(*line));
            }
            if line.subject_id == subject.id {
                roles.push(&line.actor_role_id);
                assert(roles@.map_values(open) =~= earlier.map_values(open).push(
                    line.actor_role_id,
                ));
                assert(self.mappings@.take(i + 1).filter(pred).map_values(pick)
                    =~= self.mappings@.take(i as int).filter(pred).map_values(pick).push(
                    line.actor_role_id,
                ));
            }
            i += 1;
        }
        assert(self.mappings@.take(i as int) =~= self.mappings@);
        roles
    }

    /// The subjects that hold the role `ar_id`, each with its option, in the
    /// order of the table's lines.
    pub fn get_adt_options_for_role(&self, ar_id: &ActorRoleId) -> (holders: Vec<
        (&SubjectId, &AdtOption),
    >)
        ensures
            holders@.map_values(|h: (&SubjectId, &AdtOption)| (*h.0, *h.1)) == self.holders_of(
                *ar_id,
            ),
    {
        let ghost pred = of_role(*ar_id);
        let ghost pick = |m: AdtMapping| (m.subject_id, m.option);
        let ghost open = |h: (&SubjectId, &AdtOption)| (*h.0, *h.1);
        let mut holders: Vec<(&SubjectId, &AdtOption)> = Vec::new();
        let mut i: usize = 0;
        assert(self.mappings@.take(0) =~= Seq::<AdtMapping>::empty());
        assert(Seq::<AdtMapping>::empty().filter(pred) =~= Seq::<AdtMapping>::empty()) by {
            reveal(Seq::filter);
        }
        assert(holders@.map_values(open) =~= self.mappings@.take(0).filter(pred).map_values(pick));
        while i < self.mappings.len()
            invariant
                i <= self.mappings@.len(),
                pred == of_role(*ar_id),
                pick == |m: AdtMapping| (m.subject_id, m.option),
                open == |h: (&SubjectId, &AdtOption)| (*h.0, *h.1),
                holders@.map_values(open) == self.mappings@.take(i as int).filter(pred).map_values(
                    pick,
                ),
            decreases self.mappings@.len() - i,
        {
            let line = &self.mappings[i];
            let ghost earlier = holders@;
            proof {
                self.mappings@.take(i as int).lemma_filter_push(*line, pred);
                assert(self.mappings@.take(i + 1) =~= self.mappings@.take(i as int).push(*line));
            }
            if line.actor_role_id == *ar_id {
                holders.push((&line.subject_id, &line.option));
                assert(holders@.map_values(open) =~= earlier.map_values(open).push(
                    (line.subject_id, line.option),
                ));
                assert(self.mappings@.take(i + 1).filter(pred).map_values(pick)
                    =~= self.mappings@.take(i as int).filter(pred).map_values(pick).push(
                    (line.subject_id, line.option),
                ));
            }
            i += 1;
        }
        assert(self.mappings@.take(i as int) =~= self.mappings@);
        holders
    }
}

impl Default for Adt {
    fn default() -> (table: Self)
        ensures
            table.mappings@ == Seq::<AdtMapping>::empty(),
            table.wf(),
    {
        Adt::new()
    }
}

/// A process model: its roles, transaction kinds and subjects, and the table
/// that joins subjects to roles.
#[derive(Debug)]
pub struct Model {
    pub name: String,
    pub actor_roles: Vec<ActorRole>,
    pub transactions: Vec<Transaction>,
    pub subjects: Vec<Subject>,
    pub adt: Adt,
}

/// The subjects that hold `role` in `adt`.
pub open spec fn holds_role(adt: Adt, role: ActorRoleId) -> spec_fn(Subject) -> bool {
    |s: Subject| adt.grants(role, s.id)
}

/// The kinds that `subject` may start on its own in `model`.
pub open spec fn starts_alone(model: Model, subject: SubjectId) -> spec_fn(Transaction) -> bool {
    |t: Transaction| model.adt.grants(t.initiator_id, subject) && !model.is_initiated(t.id)
}

/// The roles that are the executor of no kind of `model`.
pub open spec fn idle(model: Model) -> spec_fn(ActorRole) -> bool {
    |r: ActorRole| !model.role_executes(r.id)
}

impl Default for Model {
    /// A model that holds nothing yet.
    fn default() -> (model: Self)
        ensures
            model.name@ == "No name"@,
            model.actor_roles@ == Seq::<ActorRole>::empty(),
            model.transactions@ == Seq::<Transaction>::empty(),
            model.subjects@ == Seq::<Subject>::empty(),
            model.adt.mappings@ == Seq::<AdtMapping>::empty(),
    {
        Model {
            name: String::from_str("No name"),
            actor_roles: Vec::new(),
            transactions: Vec::new(),
            subjects: Vec::new(),
            adt: Adt::new(),
        }
    }
}

impl Model {
    /// For each role, whether it is the one called `id`.
    pub open spec fn actor_role_flags(&self, id: ActorRoleId) -> Seq<bool> {
        Seq::new(self.actor_roles@.len(), |i: int| self.actor_roles@[i].id == id)
    }

    /// For each kind, whether it is the one called `id`.
    pub open spec fn transaction_flags(&self, id: TransactionId) -> Seq<bool> {
        Seq::new(self.transactions@.len(), |i: int| self.transactions@[i].id == id)
    }

    /// For each subject, whether it is the one called `id`.
    pub open spec fn subject_flags(&self, id: SubjectId) -> Seq<bool> {
        Seq::new(self.subjects@.len(), |i: int| self.subjects@[i].id == id)
    }

    /// The first role called `id`.
    pub open spec fn actor_role(&self, id: ActorRoleId) -> Option<ActorRole> {
        match first_true(self.actor_role_flags(id)) {
            Some(i) => Some(self.actor_roles@[i]),
            None => None,
        }
    }

    /// The first kind called `id`.
    pub open spec fn transaction(&self, id: TransactionId) -> Option<Transaction> {
        match first_true(self.transaction_flags(id)) {
            Some(i) => Some(self.transactions@[i]),
            None => None,
        }
    }

    /// The first subject called `id`.
    pub open spec fn subject(&self, id: SubjectId) -> Option<Subject> {
        match first_true(self.subject_flags(id)) {
            Some(i) => Some(self.subjects@[i]),
            None => None,
        }
    }

    /// The subjects that hold `role`, in the order of the model's subjects.
    pub open spec fn holders(&self, role: ActorRoleId) -> Seq<SubjectId> {
        self.subjects@.filter(holds_role(self.adt, role)).map_values(|s: Subject| s.id)
    }

    /// Whether `subject` may start an instance of the kind `id`: the kind
    /// exists and the subject is among the holders of its initiator role.
    pub open spec fn may_initiate(&self, id: TransactionId, subject: SubjectId) -> bool {
        match self.transaction(id) {
            Some(kind) => self.holders(kind.initiator_id).contains(subject),
            None => false,
        }
    }

    /// Whether a rule of some kind initiates the kind `id`.
    pub open spec fn is_initiated(&self, id: TransactionId) -> bool {
        exists|i: int, k: int|
            #![trigger self.transactions@[i].initiations@[k]]
            0 <= i < self.transactions@.len() && 0 <= k < self.transactions@[i].initiations@.len()
                && self.transactions@[i].initiations@[k].initiated_transaction_id == id
    }

    /// Whether some kind has the role `id` as its initiator or its executor.
    pub open spec fn role_is_used(&self, id: ActorRoleId) -> bool {
        exists|i: int|
            0 <= i < self.transactions@.len() && ((#[trigger] self.transactions@[i]).initiator_id
                == id || self.transactions@[i].executor_id == id)
    }

    /// Whether some kind has the role `id` as its executor.
    pub open spec fn role_executes(&self, id: ActorRoleId) -> bool {
        exists|i: int|
            0 <= i < self.transactions@.len() && (#[trigger] self.transactions@[i]).executor_id
                == id
    }

    /// Whether a wait link of some kind waits for the kind `id`.
    pub open spec fn is_impeding(&self, id: TransactionId) -> bool {
        exists|i: int, k: int|
            #![trigger self.transactions@[i].impediments@[k]]
            0 <= i < self.transactions@.len() && 0 <= k < self.transactions@[i].impediments@.len()
                && self.transactions@[i].impediments@[k].impeding_transaction_id == id
    }

    /// Whether `kind` names only what the model knows: its two roles and the
    /// kinds of its rules. A kind does not wait for itself.
    pub open spec fn kind_is_sound(&self, kind: Transaction) -> bool {
        &&& self.actor_role(kind.initiator_id) is Some
        &&& self.actor_role(kind.executor_id) is Some
        &&& forall|k: int|
            0 <= k < kind.initiations@.len() ==> self.transaction(
                (#[trigger] kind.initiations@[k]).initiated_transaction_id,
            ) is Some
        &&& forall|k: int|
            0 <= k < kind.impediments@.len() ==> self.transaction(
                (#[trigger] kind.impediments@[k]).impeding_transaction_id,
            ) is Some && kind.impediments@[k].impeding_transaction_id != kind.id
    }

    /// Whether the model is consistent: every kind is sound, no role is the
    /// executor of two kinds, and the table is well-formed and joins only roles
    /// and subjects that the model knows.
    pub open spec fn wf(&self) -> bool {
        &&& self.adt.wf()
        &&& forall|i: int|
            0 <= i < self.transactions@.len() ==> self.kind_is_sound(#[trigger] self.transactions@[i])
        &&& forall|i: int, j: int|
            0 <= i < j < self.transactions@.len() ==> (#[trigger] self.transactions@[i]).executor_id
                != (#[trigger] self.transactions@[j]).executor_id
        &&& forall|m: int|
            0 <= m < self.adt.mappings@.len() ==> self.actor_role(
                (#[trigger] self.adt.mappings@[m]).actor_role_id,
            ) is Some && self.subject(self.adt.mappings@[m].subject_id) is Some
    }

    /// Whether `kind` names only what the model knows.
    fn kind_is_consistent(&self, kind: &Transaction) -> (sound: bool)
        ensures
            sound == self.kind_is_sound(*kind),
    {
        if self.get_actor_role(&kind.initiator_id).is_err() || self.get_actor_role(
            &kind.executor_id,
        ).is_err() {
            return false;
        }
        let mut k: usize = 0;
        while k < kind.initiations.len()
            invariant
                k <= kind.initiations@.len(),
                forall|b: int|
                    0 <= b < k ==> self.transaction(
                        (#[trigger] kind.initiations@[b]).initiated_transaction_id,
                    ) is Some,
            decreases kind.initiations@.len() - k,
        {
            if self.get_transaction(&kind.initiations[k].initiated_transaction_id).is_err() {
                assert(self.transaction(kind.initiations@[k as int].initiated_transaction_id) is None);
                return false;
            }
            k += 1;
        }
        let mut k: usize = 0;
        while k < kind.impediments.len()
            invariant
                k <= kind.impediments@.len(),
                forall|b: int|
                    0 <= b < k ==> self.transaction(
                        (#[trigger] kind.impediments@[b]).impeding_transaction_id,
                    ) is Some && kind.impediments@[b].impeding_transaction_id != kind.id,
            decreases kind.impediments@.len() - k,
        {
            let target = kind.impediments[k].impeding_transaction_id;
            if target == kind.id || self.get_transaction(&target).is_err() {
                assert(!(self.transaction(kind.impediments@[k as int].impeding_transaction_id) is Some
                    && kind.impediments@[k as int].impeding_transaction_id != kind.id));
                return false;
            }
            k += 1;
        }
        true
    }

    /// Whether the model is consistent.
    pub fn is_consistent(&self) -> (ok: bool)
        ensures
            ok == self.wf(),
    {
        if !self.adt.is_well_formed() {
            return false;
        }
        let mut j: usize = 0;
        while j < self.transactions.len()
            invariant
                j <= self.transactions@.len(),
                forall|a: int| 0 <= a < j ==> self.kind_is_sound(#[trigger] self.transactions@[a]),
                forall|a: int, b: int|
                    0 <= a < b < j ==> (#[trigger] self.transactions@[a]).executor_id != (
                    #[trigger] self.transactions@[b]).executor_id,
            decreases self.transactions@.len() - j,
        {
            if !self.kind_is_consistent(&self.transactions[j]) {
                assert(!self.kind_is_sound(self.transactions@[j as int]));
                return false;
            }
            let mut i: usize = 0;
            while i < j
                invariant
                    i <= j < self.transactions@.len(),
                    forall|a: int|
                        0 <= a < i ==> (#[trigger] self.transactions@[a]).executor_id
                            != self.transactions@[j as int].executor_id,
                decreases j - i,
            {
                if self.transactions[i].executor_id == self.transactions[j].executor_id {
                    assert(self.transactions@[i as int].executor_id
                        == self.transactions@[j as int].executor_id);
                    return false;
                }
                i += 1;
            }
            j += 1;
        }
        let mut m: usize = 0;
        while m < self.adt.mappings.len()
            invariant
                m <= self.adt.mappings@.len(),
                forall|a: int|
                    0 <= a < m ==> self.actor_role(
                        (#[trigger] self.adt.mappings@[a]).actor_role_id,
                    ) is Some && self.subject(self.adt.mappings@[a].subject_id) is Some,
            decreases self.adt.mappings@.len() - m,
        {
            let line = self.adt.mappings[m];
            if self.get_actor_role(&line.actor_role_id).is_err() || self.get_subject(
                &line.subject_id,
            ).is_err() {
                assert(!(self.actor_role(self.adt.mappings@[m as int].actor_role_id) is Some
                    && self.subject(self.adt.mappings@[m as int].subject_id) is Some));
                return false;
            }
            m += 1;
        }
        true
    }

    /// Whether the role `ar_id` may be deleted: no kind has it as its
    /// initiator or its executor, and no subject holds it.
    pub fn can_delete_actor_role(&self, ar_id: &ActorRoleId) -> (free: bool)
        ensures
            free == !(self.role_is_used(*ar_id) || self.adt.role_is_held(*ar_id)),
    {
        if self.adt.is_mapped(ar_id) {
            return false;
        }
        let mut i: usize = 0;
        while i < self.transactions.len()
            invariant
                i <= self.transactions@.len(),
                forall|j: int|
                    0 <= j < i ==> (#[trigger] self.transactions@[j]).initiator_id != *ar_id
                        && self.transactions@[j].executor_id != *ar_id,
            decreases self.transactions@.len() - i,
        {
            if self.transactions[i].initiator_id == *ar_id || self.transactions[i].executor_id
                == *ar_id {
                return false;
            }
            i += 1;
        }
        true
    }

    /// Whether the kind `t_id` may be deleted: no wait link of any kind waits
    /// for it.
    pub fn can_delete_transaction(&self, t_id: &TransactionId) -> (free: bool)
        ensures
            free == !self.is_impeding(*t_id),
    {
        let mut i: usize = 0;
        while i < self.transactions.len()
            invariant
                i <= self.transactions@.len(),
                forall|a: int, b: int|
                    #![trigger self.transactions@[a].impediments@[b]]
                    0 <= a < i && 0 <= b < self.transactions@[a].impediments@.len()
                        ==> self.transactions@[a].impediments@[b].impeding_transaction_id != *t_id,
            decreases self.transactions@.len() - i,
        {
            let kind = &self.transactions[i];
            let mut k: usize = 0;
            while k < kind.impediments.len()
                invariant
                    i < self.transactions@.len(),
                    *kind == self.transactions@[i as int],
                    k <= kind.impediments@.len(),
                    forall|b: int|
                        0 <= b < k ==> (#[trigger] kind.impediments@[b]).impeding_transaction_id
                            != *t_id,
                decreases kind.impediments@.len() - k,
            {
                if kind.impediments[k].impeding_transaction_id == *t_id {
                    assert(self.transactions@[i as int].impediments@[k as int].impeding_transaction_id
                        == *t_id);
                    return false;
                }
                k += 1;
            }
            i += 1;
        }
        true
    }

    /// The roles that may still become the executor of a kind: those that are
    /// the executor of none, in the order of the model's roles.
    pub fn available_executors(&self) -> (roles: Vec<&ActorRole>)
        ensures
            roles@.map_values(|r: &ActorRole| *r) == self.actor_roles@.filter(idle(*self)),
    {
        let ghost pred = idle(*self);
        let ghost open = |r: &ActorRole| *r;
        let mut roles: Vec<&ActorRole> = Vec::new();
        let mut i: usize = 0;
        assert(self.actor_roles@.take(0) =~= Seq::<ActorRole>::empty());
        assert(Seq::<ActorRole>::empty().filter(pred) =~= Seq::<ActorRole>::empty()) by {
            reveal(Seq::filter);
        }
        assert(roles@.map_values(open) =~= self.actor_roles@.take(0).filter(pred));
        while i < self.actor_roles.len()
            invariant
                i <= self.actor_roles@.len(),
                pred == idle(*self),
                open == |r: &ActorRole| *r,
                roles@.map_values(open) == self.actor_roles@.take(i as int).filter(pred),
            decreases self.actor_roles@.len() - i,
        {
            let role = &self.actor_roles[i];
            let ghost earlier = roles@;
            proof {
                self.actor_roles@.take(i as int).lemma_filter_push(*role, pred);
                assert(self.actor_roles@.take(i + 1) =~= self.actor_roles@.take(i as int).push(
                    *role,
                ));
            }
            let mut executes = false;
            let mut k: usize = 0;
            while k < self.transactions.len() && !executes
                invariant
                    k <= self.transactions@.len(),
                    !executes ==> forall|j: int|
                        0 <= j < k ==> (#[trigger] self.transactions@[j]).executor_id != role.id,
                    executes ==> self.role_executes(role.id),
                decreases self.transactions@.len() - k,
            {
                if self.transactions[k].executor_id == role.id {
                    executes = true;
                }
                k += 1;
            }
            if !executes {
                roles.push(role);
                assert(roles@.map_values(open) =~= earlier.map_values(open).push(*role));
            }
            i += 1;
        }
        assert(self.actor_roles@.take(i as int) =~= self.actor_roles@);
        roles
    }

    /// The role called `ar_id`.
    pub fn get_actor_role(&self, ar_id: &ActorRoleId) -> (found: Result<&ActorRole, LookupError>)
        ensures
            match found {
                Ok(role) => self.actor_role(*ar_id) == Some(*role),
                Err(e) => e == LookupError::UnknownActorRole && self.actor_role(*ar_id) is None,
            },
    {
        let ghost flags = self.actor_role_flags(*ar_id);
        let mut i: usize = 0;
        while i < self.actor_roles.len()
            invariant
                i <= self.actor_roles@.len(),
                flags == self.actor_role_flags(*ar_id),
                forall|j: int| 0 <= j < i ==> !#[trigger] flags[j],
            decreases self.actor_roles@.len() - i,
        {
            if self.actor_roles[i].id == *ar_id {
                proof {
                    assert(is_first_true(flags, i as int));
                    lemma_first_true_is(flags, i as int);
                }
                return Ok(&self.actor_roles[i]);
            }
            i += 1;
        }
        proof {
            lemma_first_true_none(flags);
        }
        Err(LookupError::UnknownActorRole)
    }

    /// The kind called `t_id`.
    pub fn get_transaction(&self, t_id: &TransactionId) -> (found: Result<
        &Transaction,
        LookupError,
    >)
        ensures
            match found {
                Ok(kind) => self.transaction(*t_id) == Some(*kind) && kind.id == *t_id,
                Err(e) => e == LookupError::UnknownTransaction && self.transaction(*t_id) is None,
            },
    {
        let ghost flags = self.transaction_flags(*t_id);
        let mut i: usize = 0;
        while i < self.transactions.len()
            invariant
                i <= self.transactions@.len(),
                flags == self.transaction_flags(*t_id),
                forall|j: int| 0 <= j < i ==> !#[trigger] flags[j],
            decreases self.transactions@.len() - i,
        {
            if self.transactions[i].id == *t_id {
                proof {
                    assert(is_first_true(flags, i as int));
                    lemma_first_true_is(flags, i as int);
                }
                return Ok(&self.transactions[i]);
            }
            i += 1;
        }
        proof {
            lemma_first_true_none(flags);
        }
        Err(LookupError::UnknownTransaction)
    }

    /// The subject called `s_id`.
    pub fn get_subject(&self, s_id: &SubjectId) -> (found: Result<&Subject, LookupError>)
        ensures
            match found {
                Ok(subject) => self.subject(*s_id) == Some(*subject) && subject.id == *s_id,
                Err(e) => e == LookupError::UnknownSubject && self.subject(*s_id) is None,
            },
    {
        let ghost flags = self.subject_flags(*s_id);
        let mut i: usize = 0;
        while i < self.subjects.len()
            invariant
                i <= self.subjects@.len(),
                flags == self.subject_flags(*s_id),
                forall|j: int| 0 <= j < i ==> !#[trigger] flags[j],
            decreases self.subjects@.len() - i,
        {
            if self.subjects[i].id == *s_id {
                proof {
                    assert(is_first_true(flags, i as int));
                    lemma_first_true_is(flags, i as int);
                }
                return Ok(&self.subjects[i]);
            }
            i += 1;
        }
        proof {
            lemma_first_true_none(flags);
        }
        Err(LookupError::UnknownSubject)
    }

    /// The subjects that may start an instance of the kind `t_id`: the holders
    /// of its initiator role, in the order of the model's subjects.
    pub fn get_initiator_subjects_ids(&self, t_id: &TransactionId) -> (found: Result<
        Vec<SubjectId>,
        LookupError,
    >)
        ensures
            match found {
                Ok(ids) => self.transaction(*t_id) is Some && ids@ == self.holders(
                    self.transaction(*t_id).unwrap().initiator_id,
                ),
                Err(e) => e == LookupError::UnknownTransaction && self.transaction(*t_id) is None,
            },
    {
        let role = match self.get_transaction(t_id) {
            Ok(kind) => kind.initiator_id,
            Err(e) => {
                return Err(e);
            },
        };
        let ghost pred = holds_role(self.adt, role);
        let ghost pick = |s: Subject| s.id;
        let mut ids: Vec<SubjectId> = Vec::new();
        let mut i: usize = 0;
        assert(self.subjects@.take(0) =~= Seq::<Subject>::empty());
        assert(Seq::<Subject>::empty().filter(pred) =~= Seq::<Subject>::empty()) by {
            reveal(Seq::filter);
        }
        assert(ids@ =~= self.subjects@.take(0).filter(pred).map_values(pick));
        while i < self.subjects.len()
            invariant
                i <= self.subjects@.len(),
                pred == holds_role(self.adt, role),
                pick == |s: Subject| s.id,
                ids@ == self.subjects@.take(i as int).filter(pred).map_values(pick),
            decreases self.subjects@.len() - i,
        {
            let subject = &self.subjects[i];
            proof {
                self.subjects@.take(i as int).lemma_filter_push(*subject, pred);
                assert(self.subjects@.take(i + 1) =~= self.subjects@.take(i as int).push(*subject));
            }
            if self.adt.get(&role, &subject.id).is_some() {
                ids.push(subject.id);
                assert(ids@ =~= self.subjects@.take(i + 1).filter(pred).map_values(pick));
            }
            i += 1;
        }
        assert(self.subjects@.take(i as int) =~= self.subjects@);
        Ok(ids)
    }

    /// Whether a rule of some kind initiates the kind `id`.
    fn initiated_by_some_rule(&self, id: TransactionId) -> (initiated: bool)
        ensures
            initiated == self.is_initiated(id),
    {
        let mut i: usize = 0;
        while i < self.transactions.len()
            invariant
                i <= self.transactions@.len(),
                forall|a: int, b: int|
                    #![trigger self.transactions@[a].initiations@[b]]
                    0 <= a < i && 0 <= b < self.transactions@[a].initiations@.len()
                        ==> self.transactions@[a].initiations@[b].initiated_transaction_id != id,
            decreases self.transactions@.len() - i,
        {
            let kind = &self.transactions[i];
            let mut k: usize = 0;
            while k < kind.initiations.len()
                invariant
                    i < self.transactions@.len(),
                    *kind == self.transactions@[i as int],
                    k <= kind.initiations@.len(),
                    forall|b: int|
                        0 <= b < k ==> (#[trigger] kind.initiations@[b]).initiated_transaction_id
                            != id,
                decreases kind.initiations@.len() - k,
            {
                if kind.initiations[k].initiated_transaction_id == id {
                    assert(self.transactions@[i as int].initiations@[k as int].initiated_transaction_id
                        == id);
                    return true;
                }
                k += 1;
            }
            i += 1;
        }
        false
    }

    /// The kinds that `subject_id` may start on its own: it holds the
    /// initiator role, and no rule of any kind initiates the kind. They come in
    /// the order of the model's kinds.
    pub fn directly_startable_transactions(&self, subject_id: &SubjectId) -> (found: Result<
        Vec<&Transaction>,
        LookupError,
    >)
        ensures
            match found {
                Ok(kinds) => self.subject(*subject_id) is Some && kinds@.map_values(
                    |t: &Transaction| *t,
                ) == self.transactions@.filter(starts_alone(*self, *subject_id)),
                Err(e) => e == LookupError::UnknownSubject && self.subject(*subject_id) is None,
            },
    {
        match self.get_subject(subject_id) {
            Ok(_) => {},
            Err(e) => {
                return Err(e);
            },
        }
        let ghost pred = starts_alone(*self, *subject_id);
        let ghost open = |t: &Transaction| *t;
        let mut kinds: Vec<&Transaction> = Vec::new();
        let mut i: usize = 0;
        assert(self.transactions@.take(0) =~= Seq::<Transaction>::empty());
        assert(Seq::<Transaction>::empty().filter(pred) =~= Seq::<Transaction>::empty()) by {
            reveal(Seq::filter);
        }
        assert(kinds@.map_values(open) =~= self.transactions@.take(0).filter(pred));
        while i < self.transactions.len()
            invariant
                i <= self.transactions@.len(),
                pred == starts_alone(*self, *subject_id),
                open == |t: &Transaction| *t,
                kinds@.map_values(open) == self.transactions@.take(i as int).filter(pred),
            decreases self.transactions@.len() - i,
        {
            let kind = &self.transactions[i];
            let ghost earlier = kinds@;
            proof {
                self.transactions@.take(i as int).lemma_filter_push(*kind, pred);
                assert(self.transactions@.take(i + 1) =~= self.transactions@.take(i as int).push(
                    *kind,
                ));
            }
            if self.adt.get(&kind.initiator_id, subject_id).is_some()
                && !self.initiated_by_some_rule(kind.id) {
                kinds.push(kind);
                assert(kinds@.map_values(open) =~= earlier.map_values(open).push(*kind));
            }
            i += 1;
        }
        assert(self.transactions@.take(i as int) =~= self.transactions@);
        Ok(kinds)
    }
}

} // verus!
