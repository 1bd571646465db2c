//! The fixed transaction pattern: coordination and production acts, the facts
//! they create, and which acts may answer which fact.

use vstd::prelude::*;
use vstd::string::*;

verus! {

/// A coordination act.
#[derive(Clone, Copy, Debug, PartialEq, Eq, Hash, Structural)]
pub enum CAct {
    Request,
    Promise,
    Decline,
    Declare,
    Accept,
    Reject,
    RevokeRequest,
    RevokePromise,
    RevokeDecline,
    RevokeAccept,
    RevokeReject,
}

/// A coordination fact: the result of the coordination act of the same rank.
#[derive(Clone, Copy, Debug, PartialEq, Eq, Hash, Structural)]
pub enum CFact {
    Requested,
    Promised,
    Declined,
    Declared,
    Accepted,
    Rejected,
    RequestRevoked,
    PromiseRevoked,
    DeclineRevoked,
    AcceptRevoked,
    RejectRevoked,
}

/// A coordination act or the production act.
#[derive(Clone, Copy, Debug, PartialEq, Eq, Hash, Structural)]
pub enum CPAct {
    CAct(CAct),
    PAct,
}

/// A coordination fact or the production fact.
#[derive(Clone, Copy, Debug, PartialEq, Eq, Hash, Structural)]
pub enum CPFact {
    CFact(CFact),
    PFact,
}

impl CAct {
    /// The fact that this act creates.
    pub open spec fn fact(self) -> CFact {
        match self {
            CAct::Request => CFact::Requested,
            CAct::Promise => CFact::Promised,
            CAct::Decline => CFact::Declined,
            CAct::Declare => CFact::Declared,
            CAct::Accept => CFact::Accepted,
            CAct::Reject => CFact::Rejected,
            CAct::RevokeRequest => CFact::RequestRevoked,
            CAct::RevokePromise => CFact::PromiseRevoked,
            CAct::RevokeDecline => CFact::DeclineRevoked,
            CAct::RevokeAccept => CFact::AcceptRevoked,
            CAct::RevokeReject => CFact::RejectRevoked,
        }
    }

    /// The act's name as it is shown to a user.
    pub open spec fn label(self) -> Seq<char> {
        match self {
            CAct::Request => "Request"@,
            CAct::Promise => "Promise"@,
            CAct::Decline => "Decline"@,
            CAct::Declare => "Declare"@,
            CAct::Accept => "Accept"@,
            CAct::Reject => "Reject"@,
            CAct::RevokeRequest => "Revoke Request"@,
            CAct::RevokePromise => "Revoke Promise"@,
            CAct::RevokeDecline => "Revoke Decline"@,
            CAct::RevokeAccept => "Revoke Accept"@,
            CAct::RevokeReject => "Revoke Reject"@,
        }
    }

    pub fn to_fact(&self) -> (fact: CFact)
        ensures
            fact == self.fact(),
    {
        match self {
            CAct::Request => CFact::Requested,
            CAct::Promise => CFact::Promised,
            CAct::Decline => CFact::Declined,
            CAct::Declare => CFact::Declared,
            CAct::Accept => CFact::Accepted,
            CAct::Reject => CFact::Rejected,
            CAct::RevokeRequest => CFact::RequestRevoked,
            CAct::RevokePromise => CFact::PromiseRevoked,
            CAct::RevokeDecline => CFact::DeclineRevoked,
            CAct::RevokeAccept => CFact::AcceptRevoked,
            CAct::RevokeReject => CFact::RejectRevoked,
        }
    }

    pub fn to_string(&self) -> (text: String)
        ensures
            text@ == self.label(),
    {
        match self {
            CAct::Request => String::from_str("Request"),
            CAct::Promise => String::from_str("Promise"),
            CAct::Decline => String::from_str("Decline"),
            CAct::Declare => String::from_str("Declare"),
            CAct::Accept => String::from_str("Accept"),
            CAct::Reject => String::from_str("Reject"),
            CAct::RevokeRequest => String::from_str("Revoke Request"),
            CAct::RevokePromise => String::from_str("Revoke Promise"),
            CAct::RevokeDecline => String::from_str("Revoke Decline"),
            CAct::RevokeAccept => String::from_str("Revoke Accept"),
            CAct::RevokeReject => String::from_str("Revoke Reject"),
        }
    }
}

impl Default for CAct {
    fn default() -> (act: Self)
        ensures
            act == CAct::Request,
    {
        CAct::Request
    }
}

impl CFact {
    /// The fact's name as it is shown to a user.
    pub open spec fn label(self) -> Seq<char> {
        match self {
            CFact::Requested => "Requested"@,
            CFact::Promised => "Promised"@,
            CFact::Declined => "Declined"@,
            CFact::Declared => "Declared"@,
            CFact::Accepted => "Accepted"@,
            CFact::Rejected => "Rejected"@,
            CFact::RequestRevoked => "Request Revoked"@,
            CFact::PromiseRevoked => "Promise Revoked"@,
            CFact::DeclineRevoked => "Decline Revoked"@,
            CFact::AcceptRevoked => "Accept Revoked"@,
            CFact::RejectRevoked => "Reject Revoked"@,
        }
    }

    pub fn to_string(&self) -> (text: String)
        ensures
            text@ == self.label(),
    {
        match self {
            CFact::Requested => String::from_str("Requested"),
            CFact::Promised => String::from_str("Promised"),
            CFact::Declined => String::from_str("Declined"),
            CFact::Declared => String::from_str("Declared"),
            CFact::Accepted => String::from_str("Accepted"),
            CFact::Rejected => String::from_str("Rejected"),
            CFact::RequestRevoked => String::from_str("Request Revoked"),
            CFact::PromiseRevoked => String::from_str("Promise Revoked"),
            CFact::DeclineRevoked => String::from_str("Decline Revoked"),
            CFact::AcceptRevoked => String::from_str("Accept Revoked"),
            CFact::RejectRevoked => String::from_str("Reject Revoked"),
        }
    }
}

impl Default for CFact {
    fn default() -> (fact: Self)
        ensures
            fact == CFact::Requested,
    {
        CFact::Requested
    }
}

impl CPAct {
    /// The fact that this act creates.
    pub open spec fn fact(self) -> CPFact {
        match self {
            CPAct::CAct(c_act) => CPFact::CFact(c_act.fact()),
            CPAct::PAct => CPFact::PFact,
        }
    }

    /// The act's name as it is shown to a user.
    pub open spec fn label(self) -> Seq<char> {
        match self {
            CPAct::CAct(c_act) => c_act.label(),
            CPAct::PAct => "Execute"@,
        }
    }

    pub fn to_fact(&self) -> (fact: CPFact)
        ensures
            fact == self.fact(),
    {
        match self {
            CPAct::CAct(c_act) => CPFact::CFact(c_act.to_fact()),
            CPAct::PAct => CPFact::PFact,
        }
    }

    pub fn to_string(&self) -> (text: String)
        ensures
            text@ == self.label(),
    {
        match self {
            CPAct::CAct(c_act) => c_act.to_string(),
            CPAct::PAct => String::from_str("Execute"),
        }
    }
}

impl CPFact {
    /// The acts that may answer this fact, in the order in which they are
    /// offered. A fact with no answer ends its chain of acts.
    pub open spec fn answers(self) -> Seq<CPAct> {
        match self {
            CPFact::PFact => seq![CPAct::CAct(CAct::Declare)],
            CPFact::CFact(CFact::Requested) => seq![
                CPAct::CAct(CAct::Promise),
                CPAct::CAct(CAct::Decline),
            ],
            CPFact::CFact(CFact::Promised) => seq![CPAct::PAct],
            CPFact::CFact(CFact::Declared) => seq![
                CPAct::CAct(CAct::Accept),
                CPAct::CAct(CAct::Reject),
            ],
            CPFact::CFact(CFact::Rejected) => seq![CPAct::CAct(CAct::Declare)],
            CPFact::CFact(_) => Seq::empty(),
        }
    }

    /// Whether some act may answer this fact.
    pub open spec fn has_answer(self) -> bool {
        self == CPFact::PFact || self == CPFact::CFact(CFact::Requested) || self == CPFact::CFact(
            CFact::Promised,
        ) || self == CPFact::CFact(CFact::Declared) || self == CPFact::CFact(CFact::Rejected)
    }

    /// The fact's name as it is shown to a user.
    pub open spec fn label(self) -> Seq<char> {
        match self {
            CPFact::CFact(c_fact) => c_fact.label(),
            CPFact::PFact => "Executed"@,
        }
    }

    pub fn next_acts(&self) -> (acts: Vec<CPAct>)
        ensures
            acts@ == self.answers(),
            acts@.len() > 0 <==> self.has_answer(),
    {
        let acts = match self {
            CPFact::PFact => vec![CPAct::CAct(CAct::Declare)],
            CPFact::CFact(c_fact) => match c_fact {
                CFact::Requested => vec![CPAct::CAct(CAct::Promise), CPAct::CAct(CAct::Decline)],
                CFact::Promised => vec![CPAct::PAct],
                CFact::Declared => vec![CPAct::CAct(CAct::Accept), CPAct::CAct(CAct::Reject)],
                CFact::Rejected => vec![CPAct::CAct(CAct::Declare)],
                _ => Vec::new(),
            },
        };
        assert(acts@ =~= self.answers());
        acts
    }

    pub fn to_string(&self) -> (text: String)
        ensures
            text@ == self.label(),
    {
        match self {
            CPFact::CFact(c_fact) => c_fact.to_string(),
            CPFact::PFact => String::from_str("Executed"),
        }
    }
}

/// The coordination acts in the order of their declaration.
pub open spec fn c_acts() -> Seq<CAct> {
    seq![
        CAct::Request,
        CAct::Promise,
        CAct::Decline,
        CAct::Declare,
        CAct::Accept,
        CAct::Reject,
        CAct::RevokeRequest,
        CAct::RevokePromise,
        CAct::RevokeDecline,
        CAct::RevokeAccept,
        CAct::RevokeReject,
    ]
}

/// The coordination facts in the order of their declaration.
pub open spec fn c_facts() -> Seq<CFact> {
    Seq::new(c_acts().len(), |i: int| c_acts()[i].fact())
}

/// All acts: the coordination acts in their order, with the production act
/// where it happens, after the promise.
pub open spec fn acts() -> Seq<CPAct> {
    Seq::new(c_acts().len(), |i: int| CPAct::CAct(c_acts()[i])).insert(2, CPAct::PAct)
}

pub fn all_c_acts() -> (all: Vec<CAct>)
    ensures
        all@ == c_acts(),
        forall|act: CAct| all@.contains(act),
{
    let all = vec![
        CAct::Request,
        CAct::Promise,
        CAct::Decline,
        CAct::Declare,
        CAct::Accept,
        CAct::Reject,
        CAct::RevokeRequest,
        CAct::RevokePromise,
        CAct::RevokeDecline,
        CAct::RevokeAccept,
        CAct::RevokeReject,
    ];
    assert(all@ =~= c_acts());
    assert forall|act: CAct| all@.contains(act) by {
        let rank: int = match act {
            CAct::Request => 0,
            CAct::Promise => 1,
            CAct::Decline => 2,
            CAct::Declare => 3,
            CAct::Accept => 4,
            CAct::Reject => 5,
            CAct::RevokeRequest => 6,
            CAct::RevokePromise => 7,
            CAct::RevokeDecline => 8,
            CAct::RevokeAccept => 9,
            CAct::RevokeReject => 10,
        };
        assert(all@[rank] == act);
    }
    all
}

pub fn all_c_facts() -> (all: Vec<CFact>)
    ensures
        all@ == c_facts(),
        forall|fact: CFact| all@.contains(fact),
{
    let c_acts = all_c_acts();
    let mut all: Vec<CFact> = Vec::new();
    let mut i: usize = 0;
    while i < c_acts.len()
        invariant
            i <= c_acts@.len(),
            c_acts@ == self::c_acts(),
            all@ == Seq::new(i as nat, |k: int| self::c_acts()[k].fact()),
        decreases c_acts@.len() - i,
    {
        all.push(c_acts[i].to_fact());
        i += 1;
        assert(all@ =~= Seq::new(i as nat, |k: int| self::c_acts()[k].fact()));
    }
    assert(all@ =~= c_facts());
    assert forall|fact: CFact| all@.contains(fact) by {
        let rank: int = match fact {
            CFact::Requested => 0,
            CFact::Promised => 1,
            CFact::Declined => 2,
            CFact::Declared => 3,
            CFact::Accepted => 4,
            CFact::Rejected => 5,
            CFact::RequestRevoked => 6,
            CFact::PromiseRevoked => 7,
            CFact::DeclineRevoked => 8,
            CFact::AcceptRevoked => 9,
            CFact::RejectRevoked => 10,
        };
        assert(self::c_acts()[rank].fact() == fact);
        assert(all@[rank] == fact);
    }
    all
}

pub fn all_acts() -> (all: Vec<CPAct>)
    ensures
        all@ == acts(),
        forall|act: CPAct| all@.contains(act),
{
    let c_acts = all_c_acts();
    let mut all: Vec<CPAct> = Vec::new();
    let mut i: usize = 0;
    while i < c_acts.len()
        invariant
            i <= c_acts@.len(),
            c_acts@ == self::c_acts(),
            all@ == Seq::new(i as nat, |k: int| CPAct::CAct(self::c_acts()[k])),
        decreases c_acts@.len() - i,
    {
        all.push(CPAct::CAct(c_acts[i]));
        i += 1;
        assert(all@ =~= Seq::new(i as nat, |k: int| CPAct::CAct(self::c_acts()[k])));
    }
    all.insert(2, CPAct::PAct);
    assert(all@ =~= acts());
    assert forall|act: CPAct| all@.contains(act) by {
        match act {
            CPAct::PAct => {
                assert(all@[2] == act);
            },
            CPAct::CAct(c_act) => {
                assert(c_acts@.contains(c_act));
                let rank = choose|rank: int| 0 <= rank < c_acts@.len() && c_acts@[rank] == c_act;
                let place = if rank < 2 {
                    rank
                } else {
                    rank + 1
                };
                assert(all@[place] == act);
            },
        }
    }
    all
}

} // verus!
