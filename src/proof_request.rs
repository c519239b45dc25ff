use vstd::prelude::*;
use crate::wql::Query;

verus! {

/// A window of time, in seconds; an absent bound leaves that side open.
#[derive(Debug, Clone, Copy, PartialEq, Eq, Structural)]
pub struct Interval {
    pub from: Option<u64>,
    pub to: Option<u64>,
}

/// One attribute referent of a proof request: the attribute names it asks
/// for (one, or a group), which credentials may serve, and the window in
/// which they must be shown unrevoked.
pub struct AttributeInfo {
    pub referent: String,
    pub names: Vec<String>,
    pub restrictions: Option<Query>,
    pub non_revoked: Option<Interval>,
}

#[derive(Debug, Clone, Copy, PartialEq, Eq, Structural)]
pub enum PredicateType {
    GE,
    GT,
    LE,
    LT,
}

/// One predicate referent: `name <p_type> p_value` over the attribute's value.
pub struct PredicateInfo {
    pub referent: String,
    pub name: String,
    pub p_type: PredicateType,
    pub p_value: i32,
    pub restrictions: Option<Query>,
    pub non_revoked: Option<Interval>,
}

/// A verifier's proof request.
pub struct ProofRequest {
    pub name: String,
    pub version: String,
    pub nonce: String,
    pub requested_attributes: Vec<AttributeInfo>,
    pub requested_predicates: Vec<PredicateInfo>,
    pub non_revoked: Option<Interval>,
}

/// The window that applies to a referent: its own, else the request's.
pub open spec fn effective(local: Option<Interval>, global: Option<Interval>) -> Option<Interval> {
    if local is Some {
        local
    } else {
        global
    }
}

pub open spec fn in_interval(i: Interval, t: u64) -> bool {
    (i.from matches Some(f) ==> f <= t) && (i.to matches Some(u) ==> t <= u)
}

/// Whether `value <p_type> bound` holds.
pub open spec fn predicate_holds(p_type: PredicateType, value: int, bound: int) -> bool {
    match p_type {
        PredicateType::GE => value >= bound,
        PredicateType::GT => value > bound,
        PredicateType::LE => value <= bound,
        PredicateType::LT => value < bound,
    }
}

pub fn effective_interval(local: Option<Interval>, global: Option<Interval>) -> (r: Option<Interval>)
    ensures
        r == effective(local, global),
{
    if local.is_some() {
        local
    } else {
        global
    }
}

pub fn is_in_interval(i: Interval, t: u64) -> (r: bool)
    ensures
        r == in_interval(i, t),
{
    let lo = match i.from {
        Some(f) => f <= t,
        None => true,
    };
    let hi = match i.to {
        Some(u) => t <= u,
        None => true,
    };
    lo && hi
}

pub fn check_predicate(p_type: PredicateType, value: i32, bound: i32) -> (r: bool)
    ensures
        r == predicate_holds(p_type, value as int, bound as int),
{
    match p_type {
        PredicateType::GE => value >= bound,
        PredicateType::GT => value > bound,
        PredicateType::LE => value <= bound,
        PredicateType::LT => value < bound,
    }
}

} // verus!
