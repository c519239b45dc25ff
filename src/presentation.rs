use vstd::prelude::*;
use crate::proof_request::PredicateType;

verus! {

/// Which public artefacts a sub-proof was made against.
pub struct Identifier {
    pub schema_id: String,
    pub cred_def_id: String,
    pub rev_reg_id: Option<String>,
    pub timestamp: Option<u64>,
}

/// A revealed attribute value, with its encoding.
pub struct RevealedValue {
    pub name: String,
    pub raw: String,
    pub encoded: String,
}

/// A revealed attribute referent (one value, or a group of them) and the
/// sub-proof that shows it.
pub struct RevealedAttr {
    pub referent: String,
    pub sub_proof_index: usize,
    pub values: Vec<RevealedValue>,
}

/// A referent proved by a sub-proof without revealing its value.
pub struct SubProofRef {
    pub referent: String,
    pub sub_proof_index: usize,
}

/// A value that the prover states without a credential.
pub struct SelfAttestedAttr {
    pub referent: String,
    pub value: String,
}

/// How each referent of the request is answered.
pub struct RequestedProof {
    pub revealed_attrs: Vec<RevealedAttr>,
    pub unrevealed_attrs: Vec<SubProofRef>,
    pub self_attested_attrs: Vec<SelfAttestedAttr>,
    pub predicates: Vec<SubProofRef>,
}

/// A value that a sub-proof discloses, under the attribute's normalised name.
pub struct DisclosedValue {
    pub name: String,
    pub encoded: String,
}

/// A predicate that a sub-proof proves, over the attribute's normalised name.
pub struct ProvenPredicate {
    pub name: String,
    pub p_type: PredicateType,
    pub p_value: i32,
}

/// What one credential's sub-proof discloses and proves.
pub struct SubProof {
    pub revealed: Vec<DisclosedValue>,
    pub predicates: Vec<ProvenPredicate>,
}

/// A presentation: the answers per referent, one sub-proof per credential
/// used, and the identifiers of each sub-proof's artefacts.
pub struct Proof {
    pub requested_proof: RequestedProof,
    pub proofs: Vec<SubProof>,
    pub identifiers: Vec<Identifier>,
}

/// A revocation registry state known to the verifier.
pub struct RevRegEntry {
    pub rev_reg_id: String,
    pub timestamp: u64,
}

} // verus!
