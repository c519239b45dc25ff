use vstd::prelude::*;
use crate::credential::{AttributeValue, Credential};
use crate::encoding::{int_value, parse_i32};
use crate::error::ErrorKind;
use crate::presentation::{
    DisclosedValue, Identifier, Proof, ProvenPredicate, RequestedProof, RevRegEntry, RevealedAttr,
    RevealedValue, SelfAttestedAttr, SubProof, SubProofRef,
};
use crate::proof_request::{ProofRequest, check_predicate, effective, effective_interval, predicate_holds};
use crate::encoding::encoded_of;
use crate::store::{CredentialStore, StoredCredential, has_id};
use crate::tags::{encodings_match, identity_pairs, list_has, rev_reg_tag, string_views, well_identified};
use crate::text::{chars_of, normalize_attr_name, normalized};
use crate::wql::{lemma_seq_less_irreflexive, lemma_seq_less_transitive, seq_less, text_less};
use crate::verification::{
    all_distinct, answered_attr_keys, answered_pred_keys, attr_key_list, bound, covered, discloses, distinct,
    has_rev_reg, keys_match, names_agree, names_match, requested_attr_keys, requested_pred_keys,
    same_keys,
    pred_key_list, predicate_sound, proves, referent_tags, request_key_lists, restricted_ok, rev_reg_known,
    revealed_sound, self_attested_sound, sound, structurally_sound, timely, unrevealed_sound,
    values_sound,
};

verus! {

/// A credential chosen for an attribute referent, and whether to reveal it.
pub struct RequestedAttribute {
    pub referent: String,
    pub cred_id: String,
    pub timestamp: Option<u64>,
    pub revealed: bool,
}

/// A credential chosen for a predicate referent.
pub struct RequestedPredicate {
    pub referent: String,
    pub cred_id: String,
    pub timestamp: Option<u64>,
}

/// A value the prover states without a credential.
pub struct SelfAttestedValue {
    pub referent: String,
    pub value: String,
}

/// The prover's answer to each referent of a proof request.
pub struct RequestedCredentials {
    pub self_attested_attributes: Vec<SelfAttestedValue>,
    pub requested_attributes: Vec<RequestedAttribute>,
    pub requested_predicates: Vec<RequestedPredicate>,
}

/// The attribute of a credential that answers for name `n`: the last one
/// whose normalised name is `n`'s.
pub open spec fn attr_value(vals: Seq<AttributeValue>, n: Seq<char>) -> Option<AttributeValue>
    decreases vals.len(),
{
    if vals.len() == 0 {
        None
    } else if normalized(vals.last().name@) == normalized(n) {
        Some(vals.last())
    } else {
        attr_value(vals.drop_last(), n)
    }
}

/// The stored credential `rp` names meets every predicate of its referent.
pub open spec fn predicate_met(recs: Seq<StoredCredential>, req: ProofRequest, rp: RequestedPredicate) -> bool {
    exists|x: int|
        0 <= x < recs.len() && #[trigger] recs[x].id@ == rp.cred_id@ && forall|k: int|
            0 <= k < req.requested_predicates.len() && #[trigger] req.requested_predicates[k].referent@
                == rp.referent@ ==> {
                let info = req.requested_predicates[k];
                match attr_value(recs[x].credential.values@, info.name@) {
                    Some(v) => int_value(v.raw@) matches Some(n) && predicate_holds(
                        info.p_type,
                        n,
                        info.p_value as int,
                    ),
                    None => false,
                }
            }
}

/// The credential `cred_id` is revocable and no revocation state is known
/// for its registry at timestamp `t`.
pub open spec fn unknown_revocation_state(
    recs: Seq<StoredCredential>,
    cred_id: Seq<char>,
    t: Option<u64>,
    rev_states: Seq<RevRegEntry>,
) -> bool {
    exists|x: int|
        0 <= x < recs.len() && #[trigger] recs[x].id@ == cred_id && match (recs[x].credential.rev_reg_id, t) {
            (Some(r), Some(t)) => !has_rev_reg(rev_states, r@, t),
            _ => false,
        }
}

/// Every sub-proof index that the answers use is in range.
pub open spec fn indexes_in_range(p: RequestedProof, n: nat) -> bool {
    &&& forall|i: int| 0 <= i < p.revealed_attrs.len() ==> (#[trigger] p.revealed_attrs[i]).sub_proof_index < n
    &&& forall|i: int|
        0 <= i < p.unrevealed_attrs.len() ==> (#[trigger] p.unrevealed_attrs[i]).sub_proof_index < n
    &&& forall|i: int| 0 <= i < p.predicates.len() ==> (#[trigger] p.predicates[i]).sub_proof_index < n
}

/// The identifier names a schema and definition the prover was given, and a
/// revocation state it was given where it carries a timestamp.
pub open spec fn identifier_ok(
    id: Identifier,
    schemas: Seq<String>,
    cred_defs: Seq<String>,
    rev_states: Seq<RevRegEntry>,
) -> bool {
    &&& string_views(schemas).contains(id.schema_id@)
    &&& string_views(cred_defs).contains(id.cred_def_id@)
    &&& identity_pairs(id.schema_id@, id.cred_def_id@, rev_reg_tag(id.rev_reg_id)) is Some
    &&& match (id.rev_reg_id, id.timestamp) {
        (Some(r), Some(t)) => has_rev_reg(rev_states, r@, t),
        _ => true,
    }
}

/// Some stored credential has an attribute with this raw value and encoding.
pub open spec fn stored_value(recs: Seq<StoredCredential>, raw: Seq<char>, encoded: Seq<char>) -> bool {
    exists|x: int, m: int|
        0 <= x < recs.len() && 0 <= m < recs[x].credential.values.len()
            && #[trigger] recs[x].credential.values@[m].raw@ == raw
            && recs[x].credential.values@[m].encoded@ == encoded
}

/// A revealed answer carries the names its referent asks for, and values
/// taken from a stored credential that its sub-proof discloses.
pub open spec fn revealed_built(
    recs: Seq<StoredCredential>,
    req: ProofRequest,
    proofs: Seq<SubProof>,
    a: RevealedAttr,
) -> bool {
    &&& a.sub_proof_index < proofs.len()
    &&& forall|k: int|
        0 <= k < req.requested_attributes.len()
            && #[trigger] req.requested_attributes[k].referent@ == a.referent@
            ==> names_match(req.requested_attributes[k], a)
    &&& forall|j: int|
        0 <= j < a.values.len() ==> stored_value(recs, (#[trigger] a.values@[j]).raw@, a.values@[j].encoded@)
            && discloses(proofs[a.sub_proof_index as int], normalized(a.values@[j].name@), a.values@[j].encoded@)
}

/// A predicate answer's sub-proof proves every predicate of its referent.
pub open spec fn predicate_built(req: ProofRequest, proofs: Seq<SubProof>, u: SubProofRef) -> bool {
    &&& u.sub_proof_index < proofs.len()
    &&& forall|k: int|
        0 <= k < req.requested_predicates.len()
            && #[trigger] req.requested_predicates[k].referent@ == u.referent@ ==> {
            let info = req.requested_predicates[k];
            proves(proofs[u.sub_proof_index as int], normalized(info.name@), info.p_type, info.p_value)
        }
}

/// What `create_proof` guarantees of the proof it builds.
pub open spec fn built(
    store: CredentialStore,
    req: ProofRequest,
    sel: RequestedCredentials,
    schemas: Seq<String>,
    cred_defs: Seq<String>,
    rev_states: Seq<RevRegEntry>,
    pr: Proof,
) -> bool {
    let p = pr.requested_proof;
    &&& covered(req, p)
    &&& pr.identifiers.len() == pr.proofs.len()
    &&& indexes_in_range(p, pr.proofs.len() as nat)
    &&& forall|g: int|
        0 <= g < pr.identifiers.len() ==> identifier_ok(#[trigger] pr.identifiers@[g], schemas, cred_defs, rev_states)
            && registry_from_store(store.credentials@, pr.identifiers@[g])
    &&& forall|i: int|
        0 <= i < p.revealed_attrs.len() ==> revealed_built(
            store.credentials@,
            req,
            pr.proofs@,
            #[trigger] p.revealed_attrs@[i],
        )
    &&& forall|i: int| 0 <= i < p.predicates.len() ==> predicate_built(req, pr.proofs@, #[trigger] p.predicates@[i])
    &&& forall|i: int|
        0 <= i < p.revealed_attrs.len() ==> revealed_origin(
            store.credentials@,
            sel,
            pr.identifiers@,
            #[trigger] p.revealed_attrs@[i],
        )
    &&& forall|i: int|
        0 <= i < p.unrevealed_attrs.len() ==> unrevealed_origin(
            store.credentials@,
            sel,
            pr.identifiers@,
            #[trigger] p.unrevealed_attrs@[i],
        )
    &&& forall|i: int|
        0 <= i < p.predicates.len() ==> predicate_origin(
            store.credentials@,
            sel,
            pr.identifiers@,
            #[trigger] p.predicates@[i],
        )
    &&& p.self_attested_attrs.len() == sel.self_attested_attributes.len()
    &&& forall|i: int|
        0 <= i < p.self_attested_attrs.len() ==> (#[trigger] p.self_attested_attrs@[i]).referent@
            == sel.self_attested_attributes@[i].referent@ && p.self_attested_attrs@[i].value@
            == sel.self_attested_attributes@[i].value@
}

/// The identifier of a sub-proof for credential `c` shown at `t`: the
/// timestamp is kept only for a revocable credential.
pub open spec fn ident_of(c: Credential, t: Option<u64>) -> Identifier {
    Identifier {
        schema_id: c.schema_id,
        cred_def_id: c.cred_def_id,
        rev_reg_id: c.rev_reg_id,
        timestamp: if c.rev_reg_id is Some {
            t
        } else {
            None
        },
    }
}

/// Each revealed value is the raw value the credential holds under its name.
pub open spec fn values_from(c: Credential, vals: Seq<RevealedValue>) -> bool {
    forall|j: int|
        0 <= j < vals.len() ==> (attr_value(c.values@, (#[trigger] vals[j]).name@) matches Some(v)
            && v.raw@ == vals[j].raw@)
}

/// A revealed answer comes from a revealing entry of the selection for its
/// referent: its sub-proof's identifier is that of the chosen credential,
/// and its values are that credential's.
pub open spec fn revealed_origin(
    recs: Seq<StoredCredential>,
    sel: RequestedCredentials,
    ids: Seq<Identifier>,
    a: RevealedAttr,
) -> bool {
    exists|e: int, x: int|
        #![trigger sel.requested_attributes@[e], recs[x]]
        0 <= e < sel.requested_attributes.len() && 0 <= x < recs.len()
            && sel.requested_attributes@[e].referent@ == a.referent@ && sel.requested_attributes@[e].revealed
            && recs[x].id@ == sel.requested_attributes@[e].cred_id@ && a.sub_proof_index < ids.len()
            && ids[a.sub_proof_index as int] == ident_of(recs[x].credential, sel.requested_attributes@[e].timestamp)
            && values_from(recs[x].credential, a.values@)
}

/// An unrevealed answer comes from an entry of the selection for its referent.
pub open spec fn unrevealed_origin(
    recs: Seq<StoredCredential>,
    sel: RequestedCredentials,
    ids: Seq<Identifier>,
    u: SubProofRef,
) -> bool {
    exists|e: int, x: int|
        #![trigger sel.requested_attributes@[e], recs[x]]
        0 <= e < sel.requested_attributes.len() && 0 <= x < recs.len()
            && sel.requested_attributes@[e].referent@ == u.referent@ && !sel.requested_attributes@[e].revealed
            && recs[x].id@ == sel.requested_attributes@[e].cred_id@ && u.sub_proof_index < ids.len()
            && ids[u.sub_proof_index as int] == ident_of(recs[x].credential, sel.requested_attributes@[e].timestamp)
}

/// A predicate answer comes from an entry of the selection for its referent.
pub open spec fn predicate_origin(
    recs: Seq<StoredCredential>,
    sel: RequestedCredentials,
    ids: Seq<Identifier>,
    u: SubProofRef,
) -> bool {
    exists|e: int, x: int|
        #![trigger sel.requested_predicates@[e], recs[x]]
        0 <= e < sel.requested_predicates.len() && 0 <= x < recs.len()
            && sel.requested_predicates@[e].referent@ == u.referent@
            && recs[x].id@ == sel.requested_predicates@[e].cred_id@ && u.sub_proof_index < ids.len()
            && ids[u.sub_proof_index as int] == ident_of(recs[x].credential, sel.requested_predicates@[e].timestamp)
}

/// `later` keeps every identifier of `earlier` in place.
pub open spec fn ids_extend(later: Seq<Identifier>, earlier: Seq<Identifier>) -> bool {
    later.len() >= earlier.len() && forall|g: int| 0 <= g < earlier.len() ==> #[trigger] later[g] == earlier[g]
}

proof fn lemma_origins_kept(
    recs: Seq<StoredCredential>,
    sel: RequestedCredentials,
    earlier: Seq<Identifier>,
    later: Seq<Identifier>,
    revealed: Seq<RevealedAttr>,
    unrevealed: Seq<SubProofRef>,
    predicates: Seq<SubProofRef>,
)
    requires
        ids_extend(later, earlier),
        forall|i: int| 0 <= i < revealed.len() ==> revealed_origin(recs, sel, earlier, #[trigger] revealed[i]),
        forall|i: int| 0 <= i < unrevealed.len() ==> unrevealed_origin(recs, sel, earlier, #[trigger] unrevealed[i]),
        forall|i: int| 0 <= i < predicates.len() ==> predicate_origin(recs, sel, earlier, #[trigger] predicates[i]),
    ensures
        forall|i: int| 0 <= i < revealed.len() ==> revealed_origin(recs, sel, later, #[trigger] revealed[i]),
        forall|i: int| 0 <= i < unrevealed.len() ==> unrevealed_origin(recs, sel, later, #[trigger] unrevealed[i]),
        forall|i: int| 0 <= i < predicates.len() ==> predicate_origin(recs, sel, later, #[trigger] predicates[i]),
{
    assert forall|i: int| 0 <= i < revealed.len() implies revealed_origin(recs, sel, later, #[trigger] revealed[i]) by {
        let a = revealed[i];
        let (e, x) = choose|e: int, x: int|
            #![trigger sel.requested_attributes@[e], recs[x]]
            0 <= e < sel.requested_attributes.len() && 0 <= x < recs.len()
                && sel.requested_attributes@[e].referent@ == a.referent@ && sel.requested_attributes@[e].revealed
                && recs[x].id@ == sel.requested_attributes@[e].cred_id@ && a.sub_proof_index < earlier.len()
                && earlier[a.sub_proof_index as int] == ident_of(recs[x].credential, sel.requested_attributes@[e].timestamp)
                && values_from(recs[x].credential, a.values@);
        assert(later[a.sub_proof_index as int] == earlier[a.sub_proof_index as int]);
    }
    assert forall|i: int| 0 <= i < unrevealed.len() implies unrevealed_origin(recs, sel, later, #[trigger] unrevealed[i]) by {
        let u = unrevealed[i];
        let (e, x) = choose|e: int, x: int|
            #![trigger sel.requested_attributes@[e], recs[x]]
            0 <= e < sel.requested_attributes.len() && 0 <= x < recs.len()
                && sel.requested_attributes@[e].referent@ == u.referent@ && !sel.requested_attributes@[e].revealed
                && recs[x].id@ == sel.requested_attributes@[e].cred_id@ && u.sub_proof_index < earlier.len()
                && earlier[u.sub_proof_index as int] == ident_of(recs[x].credential, sel.requested_attributes@[e].timestamp);
        assert(later[u.sub_proof_index as int] == earlier[u.sub_proof_index as int]);
    }
    assert forall|i: int| 0 <= i < predicates.len() implies predicate_origin(recs, sel, later, #[trigger] predicates[i]) by {
        let u = predicates[i];
        let (e, x) = choose|e: int, x: int|
            #![trigger sel.requested_predicates@[e], recs[x]]
            0 <= e < sel.requested_predicates.len() && 0 <= x < recs.len()
                && sel.requested_predicates@[e].referent@ == u.referent@
                && recs[x].id@ == sel.requested_predicates@[e].cred_id@ && u.sub_proof_index < earlier.len()
                && earlier[u.sub_proof_index as int] == ident_of(recs[x].credential, sel.requested_predicates@[e].timestamp);
        assert(later[u.sub_proof_index as int] == earlier[u.sub_proof_index as int]);
    }
}

/// The identifier names the revocation registry of some stored credential (or none).
pub open spec fn registry_from_store(recs: Seq<StoredCredential>, id: Identifier) -> bool {
    exists|x: int| 0 <= x < recs.len() && (#[trigger] recs[x]).credential.rev_reg_id == id.rev_reg_id
}

/// Sub-proofs only grow: each keeps what it disclosed and proved.
pub open spec fn extends(later: Seq<SubProof>, earlier: Seq<SubProof>) -> bool {
    &&& later.len() >= earlier.len()
    &&& forall|g: int|
        0 <= g < earlier.len() ==> {
            &&& (#[trigger] later[g]).revealed.len() >= earlier[g].revealed.len()
            &&& forall|k: int| 0 <= k < earlier[g].revealed.len() ==> later[g].revealed@[k] == earlier[g].revealed@[k]
            &&& later[g].predicates.len() >= earlier[g].predicates.len()
            &&& forall|k: int| 0 <= k < earlier[g].predicates.len() ==> later[g].predicates@[k] == earlier[g].predicates@[k]
        }
}

proof fn lemma_revealed_kept(recs: Seq<StoredCredential>, req: ProofRequest, earlier: Seq<SubProof>, later: Seq<SubProof>, a: RevealedAttr)
    requires
        extends(later, earlier),
        revealed_built(recs, req, earlier, a),
    ensures
        revealed_built(recs, req, later, a),
{
    let g = a.sub_proof_index as int;
    assert forall|j: int| 0 <= j < a.values.len() implies discloses(
        later[g],
        normalized((#[trigger] a.values@[j]).name@),
        a.values@[j].encoded@,
    ) by {
        let n = normalized(a.values@[j].name@);
        let e = a.values@[j].encoded@;
        assert(discloses(earlier[g], n, e));
        let k = choose|k: int|
            0 <= k < earlier[g].revealed.len() && #[trigger] earlier[g].revealed@[k].name@ == n
                && earlier[g].revealed@[k].encoded@ == e;
        assert(later[g].revealed@[k] == earlier[g].revealed@[k]);
    }
}

proof fn lemma_predicate_kept(req: ProofRequest, earlier: Seq<SubProof>, later: Seq<SubProof>, u: SubProofRef)
    requires
        extends(later, earlier),
        predicate_built(req, earlier, u),
    ensures
        predicate_built(req, later, u),
{
    let g = u.sub_proof_index as int;
    assert forall|k: int|
        0 <= k < req.requested_predicates.len()
            && #[trigger] req.requested_predicates[k].referent@ == u.referent@ implies proves(
        later[g],
        normalized(req.requested_predicates[k].name@),
        req.requested_predicates[k].p_type,
        req.requested_predicates[k].p_value,
    ) by {
        let info = req.requested_predicates[k];
        let n = normalized(info.name@);
        assert(proves(earlier[g], n, info.p_type, info.p_value));
        let x = choose|x: int|
            0 <= x < earlier[g].predicates.len() && #[trigger] earlier[g].predicates@[x].name@ == n
                && earlier[g].predicates@[x].p_type == info.p_type && earlier[g].predicates@[x].p_value
                == info.p_value;
        assert(later[g].predicates@[x] == earlier[g].predicates@[x]);
    }
}

fn find_attr(vals: &Vec<AttributeValue>, n: &String) -> (r: Option<usize>)
    ensures
        r is None <==> attr_value(vals@, n@) is None,
        r matches Some(i) ==> i < vals.len() && attr_value(vals@, n@) == Some(vals@[i as int]),
{
    let target = normalize_attr_name(n.as_str());
    let mut i: usize = vals.len();
    assert(vals@.take(i as int) =~= vals@);
    while i > 0
        invariant
            i <= vals.len(),
            target@ == normalized(n@),
            attr_value(vals@.take(i as int), n@) == attr_value(vals@, n@),
        decreases i,
    {
        assert(vals@.take(i as int).drop_last() =~= vals@.take(i - 1));
        let m = normalize_attr_name(vals[i - 1].name.as_str());
        if m == target {
            return Some(i - 1);
        }
        i = i - 1;
    }
    None
}

fn find_record(store: &CredentialStore, id: &String) -> (r: Option<usize>)
    ensures
        r is None ==> forall|x: int| 0 <= x < store.credentials.len() ==> #[trigger] store.credentials@[x].id@ != id@,
        r matches Some(i) ==> i < store.credentials.len() && store.credentials@[i as int].id@ == id@,
{
    let mut i: usize = 0;
    while i < store.credentials.len()
        invariant
            i <= store.credentials.len(),
            forall|k: int| 0 <= k < i ==> #[trigger] store.credentials@[k].id@ != id@,
        decreases store.credentials.len() - i,
    {
        if store.credentials[i].id == *id {
            return Some(i);
        }
        i = i + 1;
    }
    None
}

fn copy_value(v: &AttributeValue, name: &String) -> (r: RevealedValue)
    ensures
        r == (RevealedValue { name: *name, raw: v.raw, encoded: v.encoded }),
        r.name@ == name@,
        r.raw@ == v.raw@,
        r.encoded@ == v.encoded@,
{
    RevealedValue { name: name.clone(), raw: v.raw.clone(), encoded: v.encoded.clone() }
}

/// Referents of the revealed entries, in order.
pub open spec fn revealed_keys(v: Seq<RequestedAttribute>) -> Seq<Seq<char>>
    decreases v.len(),
{
    if v.len() == 0 {
        Seq::empty()
    } else if v.last().revealed {
        revealed_keys(v.drop_last()).push(v.last().referent@)
    } else {
        revealed_keys(v.drop_last())
    }
}

/// Referents of the entries that are not revealed, in order.
pub open spec fn unrevealed_keys(v: Seq<RequestedAttribute>) -> Seq<Seq<char>>
    decreases v.len(),
{
    if v.len() == 0 {
        Seq::empty()
    } else if !v.last().revealed {
        unrevealed_keys(v.drop_last()).push(v.last().referent@)
    } else {
        unrevealed_keys(v.drop_last())
    }
}

/// The attribute referents a selection answers, in the order a proof lists
/// them: revealed, unrevealed, then self-attested.
pub open spec fn selection_attr_keys(sel: RequestedCredentials) -> Seq<Seq<char>> {
    revealed_keys(sel.requested_attributes@) + unrevealed_keys(sel.requested_attributes@) + Seq::new(
        sel.self_attested_attributes.len() as nat,
        |i: int| sel.self_attested_attributes@[i].referent@,
    )
}

pub open spec fn selection_pred_keys(sel: RequestedCredentials) -> Seq<Seq<char>> {
    Seq::new(sel.requested_predicates.len() as nat, |i: int| sel.requested_predicates@[i].referent@)
}

/// The store holds credential `id`, the prover was given its schema and
/// definition, and a revocation state for it at `t` where it is revocable.
pub open spec fn entry_ok(
    recs: Seq<StoredCredential>,
    id: Seq<char>,
    t: Option<u64>,
    schemas: Seq<String>,
    cred_defs: Seq<String>,
    rev_states: Seq<RevRegEntry>,
) -> bool {
    exists|x: int|
        0 <= x < recs.len() && #[trigger] recs[x].id@ == id && {
            let c = recs[x].credential;
            &&& string_views(schemas).contains(c.schema_id@)
            &&& string_views(cred_defs).contains(c.cred_def_id@)
            &&& match (c.rev_reg_id, t) {
                (Some(r), Some(t)) => has_rev_reg(rev_states, r@, t),
                _ => true,
            }
        }
}

/// The credential an attribute entry names holds every attribute its referent asks for.
pub open spec fn attr_entry_ok(recs: Seq<StoredCredential>, req: ProofRequest, e: RequestedAttribute) -> bool {
    forall|x: int, k: int|
        #![trigger recs[x], req.requested_attributes@[k]]
        0 <= x < recs.len() && recs[x].id@ == e.cred_id@ && 0 <= k < req.requested_attributes.len()
            && req.requested_attributes@[k].referent@ == e.referent@ ==> forall|j: int|
            0 <= j < req.requested_attributes@[k].names.len() ==> attr_value(
                recs[x].credential.values@,
                (#[trigger] req.requested_attributes@[k].names@[j])@,
            ) is Some
}

/// Every predicate of a predicate entry's referent holds of an integer
/// value of the credential it names.
pub open spec fn pred_entry_ok(recs: Seq<StoredCredential>, req: ProofRequest, e: RequestedPredicate) -> bool {
    forall|x: int, k: int|
        #![trigger recs[x], req.requested_predicates@[k]]
        0 <= x < recs.len() && recs[x].id@ == e.cred_id@ && 0 <= k < req.requested_predicates.len()
            && req.requested_predicates@[k].referent@ == e.referent@ ==> match attr_value(
            recs[x].credential.values@,
            req.requested_predicates@[k].name@,
        ) {
            Some(v) => int_value(v.raw@) matches Some(n) && predicate_holds(
                req.requested_predicates@[k].p_type,
                n,
                req.requested_predicates@[k].p_value as int,
            ),
            None => false,
        }
}

/// The inputs on which `create_proof` succeeds: the link secret exists, the
/// request's attribute referents are distinct and the selection answers
/// each referent exactly once, and every chosen credential exists, was
/// given with its schema, definition and revocation state, holds the
/// attributes asked for and meets the predicates.
pub open spec fn proof_possible(
    store: CredentialStore,
    req: ProofRequest,
    sel: RequestedCredentials,
    ms_id: Seq<char>,
    schemas: Seq<String>,
    cred_defs: Seq<String>,
    rev_states: Seq<RevRegEntry>,
) -> bool {
    let recs = store.credentials@;
    &&& string_views(store.master_secrets@).contains(ms_id)
    &&& distinct(requested_attr_keys(req))
    &&& same_keys(selection_attr_keys(sel), requested_attr_keys(req))
    &&& same_keys(selection_pred_keys(sel), requested_pred_keys(req))
    &&& forall|i: int|
        0 <= i < sel.requested_attributes.len() ==> entry_ok(
            recs,
            (#[trigger] sel.requested_attributes@[i]).cred_id@,
            sel.requested_attributes@[i].timestamp,
            schemas,
            cred_defs,
            rev_states,
        ) && attr_entry_ok(recs, req, sel.requested_attributes@[i])
    &&& forall|i: int|
        0 <= i < sel.requested_predicates.len() ==> entry_ok(
            recs,
            (#[trigger] sel.requested_predicates@[i]).cred_id@,
            sel.requested_predicates@[i].timestamp,
            schemas,
            cred_defs,
            rev_states,
        ) && pred_entry_ok(recs, req, sel.requested_predicates@[i])
}

proof fn lemma_entry_key(v: Seq<RequestedAttribute>, i: int)
    requires
        0 <= i < v.len(),
    ensures
        (revealed_keys(v) + unrevealed_keys(v)).contains(v[i].referent@),
    decreases v.len(),
{
    let d = v.drop_last();
    if i == v.len() - 1 {
        if v.last().revealed {
            assert(revealed_keys(v).last() == v[i].referent@);
            assert((revealed_keys(v) + unrevealed_keys(v))[revealed_keys(v).len() - 1] == v[i].referent@);
        } else {
            assert(unrevealed_keys(v).last() == v[i].referent@);
            assert((revealed_keys(v) + unrevealed_keys(v))[revealed_keys(v).len() + unrevealed_keys(v).len() - 1]
                == v[i].referent@);
        }
    } else {
        lemma_entry_key(d, i);
        assert(d[i] == v[i]);
        let w = choose|w: int| 0 <= w < (revealed_keys(d) + unrevealed_keys(d)).len() && (revealed_keys(d) + unrevealed_keys(d))[w] == v[i].referent@;
        if w < revealed_keys(d).len() {
            assert(revealed_keys(v)[w] == revealed_keys(d)[w]);
            assert((revealed_keys(v) + unrevealed_keys(v))[w] == v[i].referent@);
        } else {
            let u = w - revealed_keys(d).len();
            assert(unrevealed_keys(v)[u] == unrevealed_keys(d)[u]);
            assert((revealed_keys(v) + unrevealed_keys(v))[revealed_keys(v).len() + u] == v[i].referent@);
        }
    }
}

/// Some entry of the selection names this credential and timestamp.
pub open spec fn chosen(sel: RequestedCredentials, id: Seq<char>, t: Option<u64>) -> bool {
    (exists|i: int|
        0 <= i < sel.requested_attributes.len() && (#[trigger] sel.requested_attributes@[i]).cred_id@ == id
            && sel.requested_attributes@[i].timestamp == t) || (exists|i: int|
        0 <= i < sel.requested_predicates.len() && (#[trigger] sel.requested_predicates@[i]).cred_id@ == id
            && sel.requested_predicates@[i].timestamp == t)
}

/// A credential and timestamp that one sub-proof is made for.
struct GroupKey {
    cred_id: String,
    chars: Vec<char>,
    timestamp: Option<u64>,
}

spec fn keys_sorted(keys: Seq<GroupKey>) -> bool {
    forall|a: int, b: int| 0 <= a < b < keys.len() ==> !seq_less(#[trigger] keys[b].cred_id@, #[trigger] keys[a].cred_id@)
}

spec fn keys_distinct(keys: Seq<GroupKey>) -> bool {
    forall|a: int, b: int|
        0 <= a < b < keys.len() ==> !(#[trigger] keys[a].cred_id@ == #[trigger] keys[b].cred_id@ && keys[a].timestamp
            == keys[b].timestamp)
}

spec fn keys_chars(keys: Seq<GroupKey>) -> bool {
    forall|k: int| 0 <= k < keys.len() ==> (#[trigger] keys[k]).chars@ == keys[k].cred_id@
}

spec fn has_key(keys: Seq<GroupKey>, id: Seq<char>, t: Option<u64>) -> bool {
    exists|k: int| 0 <= k < keys.len() && (#[trigger] keys[k]).cred_id@ == id && keys[k].timestamp == t
}

/// Adds a key to a list kept in ascending order of credential id, unless
/// the list holds it already.
fn insert_key(keys: &mut Vec<GroupKey>, cred_id: &String, timestamp: Option<u64>)
    requires
        keys_sorted(old(keys)@),
        keys_distinct(old(keys)@),
        keys_chars(old(keys)@),
    ensures
        keys_sorted(final(keys)@),
        keys_distinct(final(keys)@),
        keys_chars(final(keys)@),
        has_key(final(keys)@, cred_id@, timestamp),
        forall|j: int| 0 <= j < old(keys).len() ==> has_key(final(keys)@, (#[trigger] old(keys)@[j]).cred_id@, old(keys)@[j].timestamp),
        forall|k: int|
            0 <= k < final(keys).len() ==> (#[trigger] final(keys)@[k]).cred_id@ == cred_id@
                && final(keys)@[k].timestamp == timestamp || exists|j: int|
                0 <= j < old(keys).len() && #[trigger] old(keys)@[j] == final(keys)@[k],
{
    let mut j: usize = 0;
    while j < keys.len()
        invariant
            j <= keys.len(),
            *keys == *old(keys),
            keys_sorted(keys@),
            keys_distinct(keys@),
            keys_chars(keys@),
            forall|k: int| 0 <= k < j ==> !((#[trigger] keys@[k]).cred_id@ == cred_id@ && keys@[k].timestamp == timestamp),
        decreases keys.len() - j,
    {
        if keys[j].cred_id == *cred_id && keys[j].timestamp == timestamp {
            assert(keys@[j as int].cred_id@ == cred_id@);
            assert forall|jj: int| 0 <= jj < old(keys).len() implies has_key(keys@, (#[trigger] old(keys)@[jj]).cred_id@, old(keys)@[jj].timestamp) by {
                assert(keys@[jj] == old(keys)@[jj]);
            }
            assert forall|k: int| 0 <= k < keys.len() implies #[trigger] keys@[k].cred_id@ == cred_id@
                && keys@[k].timestamp == timestamp || exists|jj: int|
                0 <= jj < old(keys).len() && #[trigger] old(keys)@[jj] == keys@[k] by {
                assert(old(keys)@[k] == keys@[k]);
            }
            return;
        }
        j = j + 1;
    }
    let cs = chars_of(cred_id.as_str());
    let mut pos: usize = 0;
    while pos < keys.len() && !text_less(&cs, &keys[pos].chars)
        invariant
            pos <= keys.len(),
            *keys == *old(keys),
            cs@ == cred_id@,
            keys_chars(keys@),
            forall|k: int| 0 <= k < pos ==> !seq_less(cred_id@, (#[trigger] keys@[k]).cred_id@),
        decreases keys.len() - pos,
    {
        assert(keys@[pos as int].chars@ == keys@[pos as int].cred_id@);
        pos = pos + 1;
    }
    let ghost before = keys@;
    proof {
        if pos < before.len() {
            assert(before[pos as int].chars@ == before[pos as int].cred_id@);
            assert(seq_less(cred_id@, before[pos as int].cred_id@));
        }
    }
    let key = GroupKey { cred_id: cred_id.clone(), chars: cs, timestamp };
    keys.insert(pos, key);
    assert(keys@ == before.insert(pos as int, key));
    proof {
        assert forall|a: int, b: int| 0 <= a < b < keys.len() implies !seq_less(#[trigger] keys@[b].cred_id@, #[trigger] keys@[a].cred_id@) by {
            if b < pos {
                assert(keys@[a] == before[a] && keys@[b] == before[b]);
            } else if b == pos {
                assert(keys@[a] == before[a]);
            } else if a > pos {
                assert(keys@[a] == before[a - 1] && keys@[b] == before[b - 1]);
            } else if a == pos {
                assert(keys@[b] == before[b - 1]);
                if seq_less(before[b - 1].cred_id@, cred_id@) {
                    lemma_seq_less_transitive(before[b - 1].cred_id@, cred_id@, before[pos as int].cred_id@);
                    if b - 1 == pos {
                        lemma_seq_less_irreflexive(before[pos as int].cred_id@);
                    }
                }
            } else {
                assert(keys@[a] == before[a] && keys@[b] == before[b - 1]);
            }
        }
        assert forall|a: int, b: int| 0 <= a < b < keys.len() implies !(#[trigger] keys@[a].cred_id@ == #[trigger] keys@[b].cred_id@
            && keys@[a].timestamp == keys@[b].timestamp) by {
            if b < pos {
                assert(keys@[a] == before[a] && keys@[b] == before[b]);
            } else if b == pos {
                assert(keys@[a] == before[a]);
            } else if a > pos {
                assert(keys@[a] == before[a - 1] && keys@[b] == before[b - 1]);
            } else if a == pos {
                assert(keys@[b] == before[b - 1]);
            } else {
                assert(keys@[a] == before[a] && keys@[b] == before[b - 1]);
            }
        }
        assert forall|k: int| 0 <= k < keys.len() implies (#[trigger] keys@[k]).chars@ == keys@[k].cred_id@ by {
            if k < pos {
                assert(keys@[k] == before[k]);
            } else if k > pos {
                assert(keys@[k] == before[k - 1]);
            }
        }
        assert(keys@[pos as int].cred_id@ == cred_id@);
        assert forall|jj: int| 0 <= jj < old(keys).len() implies has_key(keys@, (#[trigger] old(keys)@[jj]).cred_id@, old(keys)@[jj].timestamp) by {
            if jj < pos {
                assert(keys@[jj] == old(keys)@[jj]);
            } else {
                assert(keys@[jj + 1] == old(keys)@[jj]);
            }
        }
    }
    assert forall|k: int| 0 <= k < keys.len() && k != pos implies #[trigger] keys@[k].cred_id@ == cred_id@
        && keys@[k].timestamp == timestamp || exists|jj: int|
        0 <= jj < old(keys).len() && #[trigger] old(keys)@[jj] == keys@[k] by {
        if k < pos {
            assert(old(keys)@[k] == keys@[k]);
        } else {
            assert(old(keys)@[k - 1] == keys@[k]);
        }
    }
}

/// The credential and timestamp of every selection entry, once each, in
/// ascending order of credential id.
fn group_keys(sel: &RequestedCredentials) -> (r: Vec<GroupKey>)
    ensures
        forall|k: int| 0 <= k < r.len() ==> chosen(*sel, (#[trigger] r@[k]).cred_id@, r@[k].timestamp),
        keys_sorted(r@),
        keys_distinct(r@),
        keys_chars(r@),
        forall|i: int|
            0 <= i < sel.requested_attributes.len() ==> has_key(
                r@,
                (#[trigger] sel.requested_attributes@[i]).cred_id@,
                sel.requested_attributes@[i].timestamp,
            ),
        forall|i: int|
            0 <= i < sel.requested_predicates.len() ==> has_key(
                r@,
                (#[trigger] sel.requested_predicates@[i]).cred_id@,
                sel.requested_predicates@[i].timestamp,
            ),
{
    let mut keys: Vec<GroupKey> = Vec::new();
    let mut i: usize = 0;
    while i < sel.requested_attributes.len()
        invariant
            i <= sel.requested_attributes.len(),
            forall|k: int| 0 <= k < keys.len() ==> chosen(*sel, (#[trigger] keys@[k]).cred_id@, keys@[k].timestamp),
            keys_sorted(keys@),
            keys_distinct(keys@),
            keys_chars(keys@),
            forall|y: int|
                0 <= y < i ==> has_key(
                    keys@,
                    (#[trigger] sel.requested_attributes@[y]).cred_id@,
                    sel.requested_attributes@[y].timestamp,
                ),
        decreases sel.requested_attributes.len() - i,
    {
        let ghost before = keys@;
        let ra = &sel.requested_attributes[i];
        insert_key(&mut keys, &ra.cred_id, ra.timestamp);
        assert forall|k: int| 0 <= k < keys.len() implies chosen(*sel, (#[trigger] keys@[k]).cred_id@, keys@[k].timestamp) by {
            if !(keys@[k].cred_id@ == ra.cred_id@ && keys@[k].timestamp == ra.timestamp) {
                let jj = choose|jj: int| 0 <= jj < before.len() && #[trigger] before[jj] == keys@[k];
                assert(chosen(*sel, before[jj].cred_id@, before[jj].timestamp));
            } else {
                assert(sel.requested_attributes@[i as int] == *ra);
            }
        }
        assert forall|y: int| 0 <= y <= i implies has_key(
            keys@,
            (#[trigger] sel.requested_attributes@[y]).cred_id@,
            sel.requested_attributes@[y].timestamp,
        ) by {
            if y < i {
                let k = choose|k: int| 0 <= k < before.len() && (#[trigger] before[k]).cred_id@
                    == sel.requested_attributes@[y].cred_id@ && before[k].timestamp == sel.requested_attributes@[y].timestamp;
                assert(has_key(keys@, before[k].cred_id@, before[k].timestamp));
            } else {
                assert(sel.requested_attributes@[i as int] == *ra);
            }
        }
        i = i + 1;
    }
    let mut i: usize = 0;
    while i < sel.requested_predicates.len()
        invariant
            i <= sel.requested_predicates.len(),
            forall|k: int| 0 <= k < keys.len() ==> chosen(*sel, (#[trigger] keys@[k]).cred_id@, keys@[k].timestamp),
            keys_sorted(keys@),
            keys_distinct(keys@),
            keys_chars(keys@),
            forall|y: int|
                0 <= y < sel.requested_attributes.len() ==> has_key(
                    keys@,
                    (#[trigger] sel.requested_attributes@[y]).cred_id@,
                    sel.requested_attributes@[y].timestamp,
                ),
            forall|y: int|
                0 <= y < i ==> has_key(
                    keys@,
                    (#[trigger] sel.requested_predicates@[y]).cred_id@,
                    sel.requested_predicates@[y].timestamp,
                ),
        decreases sel.requested_predicates.len() - i,
    {
        let ghost before = keys@;
        let rp = &sel.requested_predicates[i];
        insert_key(&mut keys, &rp.cred_id, rp.timestamp);
        assert forall|k: int| 0 <= k < keys.len() implies chosen(*sel, (#[trigger] keys@[k]).cred_id@, keys@[k].timestamp) by {
            if !(keys@[k].cred_id@ == rp.cred_id@ && keys@[k].timestamp == rp.timestamp) {
                let jj = choose|jj: int| 0 <= jj < before.len() && #[trigger] before[jj] == keys@[k];
                assert(chosen(*sel, before[jj].cred_id@, before[jj].timestamp));
            } else {
                assert(sel.requested_predicates@[i as int] == *rp);
            }
        }
        assert forall|y: int| 0 <= y < sel.requested_attributes.len() implies has_key(
            keys@,
            (#[trigger] sel.requested_attributes@[y]).cred_id@,
            sel.requested_attributes@[y].timestamp,
        ) by {
            let k = choose|k: int| 0 <= k < before.len() && (#[trigger] before[k]).cred_id@
                == sel.requested_attributes@[y].cred_id@ && before[k].timestamp == sel.requested_attributes@[y].timestamp;
            assert(has_key(keys@, before[k].cred_id@, before[k].timestamp));
        }
        assert forall|y: int| 0 <= y <= i implies has_key(
            keys@,
            (#[trigger] sel.requested_predicates@[y]).cred_id@,
            sel.requested_predicates@[y].timestamp,
        ) by {
            if y < i {
                let k = choose|k: int| 0 <= k < before.len() && (#[trigger] before[k]).cred_id@
                    == sel.requested_predicates@[y].cred_id@ && before[k].timestamp == sel.requested_predicates@[y].timestamp;
                assert(has_key(keys@, before[k].cred_id@, before[k].timestamp));
            } else {
                assert(sel.requested_predicates@[i as int] == *rp);
            }
        }
        i = i + 1;
    }
    keys
}

/// The sub-proofs under construction: one per (credential, timestamp) pair.
struct Groups {
    cred_ids: Vec<String>,
    timestamps: Vec<Option<u64>>,
    records: Vec<usize>,
    proofs: Vec<SubProof>,
    identifiers: Vec<Identifier>,
}

impl Groups {
    spec fn wf(
        &self,
        store: &CredentialStore,
        schemas: Seq<String>,
        cred_defs: Seq<String>,
        rev_states: Seq<RevRegEntry>,
    ) -> bool {
        &&& self.cred_ids.len() == self.proofs.len()
        &&& self.timestamps.len() == self.proofs.len()
        &&& self.records.len() == self.proofs.len()
        &&& self.identifiers.len() == self.proofs.len()
        &&& forall|g: int|
            0 <= g < self.records.len() ==> #[trigger] self.records@[g] < store.credentials.len()
                && store.credentials@[self.records@[g] as int].id@ == self.cred_ids@[g]@
        &&& forall|g: int|
            0 <= g < self.identifiers.len() ==> identifier_ok(
                #[trigger] self.identifiers@[g],
                schemas,
                cred_defs,
                rev_states,
            )
        &&& forall|g: int|
            0 <= g < self.identifiers.len() ==> #[trigger] self.identifiers@[g] == ident_of(
                store.credentials@[self.records@[g] as int].credential,
                self.timestamps@[g],
            )
    }

    /// The group of a credential shown at a timestamp, opened if new.
    fn group_of(
        &mut self,
        store: &CredentialStore,
        cred_id: &String,
        timestamp: Option<u64>,
        schemas: &Vec<String>,
        cred_defs: &Vec<String>,
        rev_states: &Vec<RevRegEntry>,
    ) -> (r: Result<usize, ErrorKind>)
        requires
            store.wf(),
            old(self).wf(store, schemas@, cred_defs@, rev_states@),
        ensures
            final(self).wf(store, schemas@, cred_defs@, rev_states@),
            extends(final(self).proofs@, old(self).proofs@),
            ids_extend(final(self).identifiers@, old(self).identifiers@),
            r matches Ok(g) ==> g < final(self).proofs.len() && final(self).cred_ids@[g as int]@
                == cred_id@ && final(self).timestamps@[g as int] == timestamp,
            r matches Err(e) ==> (e == ErrorKind::ItemNotFound && !has_id(store.credentials@, cred_id@))
                || e == ErrorKind::InvalidStructure || (e == ErrorKind::InvalidUserRevocId
                && unknown_revocation_state(store.credentials@, cred_id@, timestamp, rev_states@)),
            entry_ok(store.credentials@, cred_id@, timestamp, schemas@, cred_defs@, rev_states@) ==> r is Ok,
            (exists|g: int|
                0 <= g < old(self).cred_ids.len() && (#[trigger] old(self).cred_ids@[g])@ == cred_id@
                    && old(self).timestamps@[g] == timestamp) ==> *final(self) == *old(self) && r is Ok,
            final(self).cred_ids.len() <= old(self).cred_ids.len() + 1,
            forall|g: int|
                0 <= g < old(self).cred_ids.len() ==> #[trigger] final(self).cred_ids@[g] == old(self).cred_ids@[g]
                    && final(self).timestamps@[g] == old(self).timestamps@[g] && final(self).records@[g]
                    == old(self).records@[g],
    {
        let mut g: usize = 0;
        while g < self.cred_ids.len()
            invariant
                g <= self.cred_ids.len(),
                self.wf(store, schemas@, cred_defs@, rev_states@),
                *self == *old(self),
                forall|k: int|
                    0 <= k < g ==> !((#[trigger] self.cred_ids@[k])@ == cred_id@ && self.timestamps@[k] == timestamp),
            decreases self.cred_ids.len() - g,
        {
            if self.cred_ids[g] == *cred_id && self.timestamps[g] == timestamp {
                return Ok(g);
            }
            g = g + 1;
        }
        let ghost ok = entry_ok(store.credentials@, cred_id@, timestamp, schemas@, cred_defs@, rev_states@);
        let x = match find_record(store, cred_id) {
            Some(x) => x,
            None => {
                assert(!has_id(store.credentials@, cred_id@));
                assert(!ok);
                return Err(ErrorKind::ItemNotFound);
            },
        };
        proof {
            if ok {
                let w = choose|w: int|
                    0 <= w < store.credentials@.len() && #[trigger] store.credentials@[w].id@ == cred_id@ && {
                        let c = store.credentials@[w].credential;
                        &&& string_views(schemas@).contains(c.schema_id@)
                        &&& string_views(cred_defs@).contains(c.cred_def_id@)
                        &&& match (c.rev_reg_id, timestamp) {
                            (Some(r), Some(t)) => has_rev_reg(rev_states@, r@, t),
                            _ => true,
                        }
                    };
                assert(w == x as int);
            }
        }
        let c = &store.credentials[x].credential;
        if !list_has(schemas, &c.schema_id) || !list_has(cred_defs, &c.cred_def_id) {
            return Err(ErrorKind::InvalidStructure);
        }
        let ts = match &c.rev_reg_id {
            None => None,
            Some(rr) => match timestamp {
                None => None,
                Some(t) => {
                    if !rev_reg_known(rev_states, rr, t) {
                        assert(store.credentials@[x as int].id@ == cred_id@);
                        return Err(ErrorKind::InvalidUserRevocId);
                    }
                    Some(t)
                },
            },
        };
        let id = Identifier {
            schema_id: c.schema_id.clone(),
            cred_def_id: c.cred_def_id.clone(),
            rev_reg_id: crate::credential::copy_opt(&c.rev_reg_id),
            timestamp: ts,
        };
        assert(well_identified(store.credentials@[x as int].credential));
        assert(identifier_ok(id, schemas@, cred_defs@, rev_states@));
        let n = self.proofs.len();
        self.cred_ids.push(cred_id.clone());
        self.timestamps.push(timestamp);
        self.records.push(x);
        self.identifiers.push(id);
        self.proofs.push(SubProof { revealed: Vec::new(), predicates: Vec::new() });
        assert forall|g: int| 0 <= g < self.records.len() implies #[trigger] self.records@[g]
            < store.credentials.len() && store.credentials@[self.records@[g] as int].id@
            == self.cred_ids@[g]@ by {
            if g < n {
                assert(self.records@[g] == old(self).records@[g]);
                assert(self.cred_ids@[g] == old(self).cred_ids@[g]);
            }
        }
        assert forall|g: int| 0 <= g < self.identifiers.len() implies identifier_ok(
            #[trigger] self.identifiers@[g],
            schemas@,
            cred_defs@,
            rev_states@,
        ) by {
            if g < n {
                assert(self.identifiers@[g] == old(self).identifiers@[g]);
            }
        }
        assert forall|g: int| 0 <= g < self.identifiers.len() implies #[trigger] self.identifiers@[g] == ident_of(
            store.credentials@[self.records@[g] as int].credential,
            self.timestamps@[g],
        ) by {
            if g < n {
                assert(self.identifiers@[g] == old(self).identifiers@[g]);
                assert(self.records@[g] == old(self).records@[g]);
                assert(self.timestamps@[g] == old(self).timestamps@[g]);
            }
        }
        assert forall|g: int| 0 <= g < old(self).proofs.len() implies #[trigger] self.proofs@[g]
            == old(self).proofs@[g] by {}
        assert forall|g: int| 0 <= g < old(self).cred_ids.len() implies #[trigger] self.cred_ids@[g] == old(self).cred_ids@[g]
            && self.timestamps@[g] == old(self).timestamps@[g] && self.records@[g] == old(self).records@[g] by {}
        Ok(n)
    }

    /// Adds a disclosed value or a proven predicate to sub-proof `g`.
    fn add(&mut self, g: usize, d: Option<DisclosedValue>, p: Option<ProvenPredicate>)
        requires
            g < old(self).proofs.len(),
        ensures
            final(self).proofs.len() == old(self).proofs.len(),
            final(self).cred_ids == old(self).cred_ids,
            final(self).timestamps == old(self).timestamps,
            final(self).records == old(self).records,
            final(self).identifiers == old(self).identifiers,
            extends(final(self).proofs@, old(self).proofs@),
            d matches Some(d) ==> final(self).proofs@[g as int].revealed@.last() == d
                && final(self).proofs@[g as int].revealed.len() > 0,
            p matches Some(p) ==> final(self).proofs@[g as int].predicates@.last() == p
                && final(self).proofs@[g as int].predicates.len() > 0,
    {
        let ghost before = self.proofs@;
        let mut sp = self.proofs.remove(g);
        match d {
            Some(d) => sp.revealed.push(d),
            None => {},
        }
        match p {
            Some(p) => sp.predicates.push(p),
            None => {},
        }
        self.proofs.insert(g, sp);
        assert(self.proofs@ =~= before.update(g as int, sp));
    }
}

/// Every stored credential under `id` names a schema and a definition the
/// prover was given.
pub open spec fn artifacts_known(
    recs: Seq<StoredCredential>,
    id: Seq<char>,
    schemas: Seq<String>,
    cred_defs: Seq<String>,
) -> bool {
    forall|x: int|
        0 <= x < recs.len() && #[trigger] recs[x].id@ == id ==> string_views(schemas).contains(
            recs[x].credential.schema_id@,
        ) && string_views(cred_defs).contains(recs[x].credential.cred_def_id@)
}

/// A revocable credential under `id` is given a timestamp wherever its
/// referent asks for a revocation window (`needs`).
pub open spec fn timestamp_given(recs: Seq<StoredCredential>, id: Seq<char>, t: Option<u64>, needs: bool) -> bool {
    forall|x: int|
        0 <= x < recs.len() && #[trigger] recs[x].id@ == id ==> !(recs[x].credential.rev_reg_id is Some
            && t is None && needs)
}

/// Some attribute referent with this name has a revocation window.
pub open spec fn attr_window(req: ProofRequest, referent: Seq<char>) -> bool {
    exists|k: int|
        0 <= k < req.requested_attributes.len() && #[trigger] req.requested_attributes@[k].referent@ == referent
            && effective(req.requested_attributes@[k].non_revoked, req.non_revoked) is Some
}

/// Some predicate referent with this name has a revocation window.
pub open spec fn pred_window(req: ProofRequest, referent: Seq<char>) -> bool {
    exists|k: int|
        0 <= k < req.requested_predicates.len() && #[trigger] req.requested_predicates@[k].referent@ == referent
            && effective(req.requested_predicates@[k].non_revoked, req.non_revoked) is Some
}

/// The credential a predicate entry names holds an integer value for every
/// predicate of its referent.
pub open spec fn pred_values_integer(recs: Seq<StoredCredential>, req: ProofRequest, e: RequestedPredicate) -> bool {
    forall|x: int, k: int|
        #![trigger recs[x], req.requested_predicates@[k]]
        0 <= x < recs.len() && recs[x].id@ == e.cred_id@ && 0 <= k < req.requested_predicates.len()
            && req.requested_predicates@[k].referent@ == e.referent@ ==> match attr_value(
            recs[x].credential.values@,
            req.requested_predicates@[k].name@,
        ) {
            Some(v) => int_value(v.raw@) is Some,
            None => false,
        }
}

/// Why `create_proof` fails, checked in this order; `None` when it succeeds.
pub open spec fn proof_error(
    store: CredentialStore,
    req: ProofRequest,
    sel: RequestedCredentials,
    ms_id: Seq<char>,
    schemas: Seq<String>,
    cred_defs: Seq<String>,
    rev_states: Seq<RevRegEntry>,
) -> Option<ErrorKind> {
    let recs = store.credentials@;
    let a = sel.requested_attributes@;
    let p = sel.requested_predicates@;
    if !string_views(store.master_secrets@).contains(ms_id) {
        Some(ErrorKind::MasterSecretNotFound)
    } else if (exists|i: int| 0 <= i < a.len() && !has_id(recs, (#[trigger] a[i]).cred_id@)) || (exists|i: int|
        0 <= i < p.len() && !has_id(recs, (#[trigger] p[i]).cred_id@)) {
        Some(ErrorKind::ItemNotFound)
    } else if (exists|i: int|
        0 <= i < a.len() && !artifacts_known(recs, (#[trigger] a[i]).cred_id@, schemas, cred_defs)) || (exists|i: int|
        0 <= i < p.len() && !artifacts_known(recs, (#[trigger] p[i]).cred_id@, schemas, cred_defs)) {
        Some(ErrorKind::InvalidStructure)
    } else if (exists|i: int|
        0 <= i < a.len() && unknown_revocation_state(recs, (#[trigger] a[i]).cred_id@, a[i].timestamp, rev_states))
        || (exists|i: int|
        0 <= i < p.len() && unknown_revocation_state(recs, (#[trigger] p[i]).cred_id@, p[i].timestamp, rev_states)) {
        Some(ErrorKind::InvalidUserRevocId)
    } else if (exists|i: int|
        0 <= i < a.len() && !timestamp_given(
            recs,
            (#[trigger] a[i]).cred_id@,
            a[i].timestamp,
            attr_window(req, a[i].referent@),
        )) || (exists|i: int|
        0 <= i < p.len() && !timestamp_given(
            recs,
            (#[trigger] p[i]).cred_id@,
            p[i].timestamp,
            pred_window(req, p[i].referent@),
        )) {
        Some(ErrorKind::InvalidStructure)
    } else if !distinct(requested_attr_keys(req)) || !same_keys(selection_attr_keys(sel), requested_attr_keys(req))
        || !same_keys(selection_pred_keys(sel), requested_pred_keys(req)) {
        Some(ErrorKind::InvalidStructure)
    } else if (exists|i: int| 0 <= i < a.len() && !attr_entry_ok(recs, req, #[trigger] a[i])) || (exists|i: int|
        0 <= i < p.len() && !pred_values_integer(recs, req, #[trigger] p[i])) {
        Some(ErrorKind::InvalidStructure)
    } else if exists|i: int| 0 <= i < p.len() && !pred_entry_ok(recs, req, #[trigger] p[i]) {
        Some(ErrorKind::ProofRejected)
    } else {
        None
    }
}

/// The one stored credential under `id`.
fn unique_record(store: &CredentialStore, id: &String) -> (x: usize)
    requires
        store.wf(),
        has_id(store.credentials@, id@),
    ensures
        x < store.credentials.len(),
        store.credentials@[x as int].id@ == id@,
        forall|y: int| 0 <= y < store.credentials.len() && #[trigger] store.credentials@[y].id@ == id@ ==> y == x,
{
    match find_record(store, id) {
        Some(x) => x,
        None => 0,
    }
}

fn entry_artifacts(store: &CredentialStore, id: &String, schemas: &Vec<String>, cred_defs: &Vec<String>) -> (r: bool)
    requires
        store.wf(),
        has_id(store.credentials@, id@),
    ensures
        r == artifacts_known(store.credentials@, id@, schemas@, cred_defs@),
{
    let x = unique_record(store, id);
    let c = &store.credentials[x].credential;
    list_has(schemas, &c.schema_id) && list_has(cred_defs, &c.cred_def_id)
}

fn entry_revocation(store: &CredentialStore, id: &String, t: Option<u64>, rev_states: &Vec<RevRegEntry>) -> (r: bool)
    requires
        store.wf(),
        has_id(store.credentials@, id@),
    ensures
        r == !unknown_revocation_state(store.credentials@, id@, t, rev_states@),
{
    let x = unique_record(store, id);
    match (&store.credentials[x].credential.rev_reg_id, t) {
        (Some(rr), Some(t)) => rev_reg_known(rev_states, rr, t),
        _ => true,
    }
}

fn entry_timestamp(store: &CredentialStore, id: &String, t: Option<u64>, needs: bool) -> (r: bool)
    requires
        store.wf(),
        has_id(store.credentials@, id@),
    ensures
        r == timestamp_given(store.credentials@, id@, t, needs),
{
    let x = unique_record(store, id);
    !(store.credentials[x].credential.rev_reg_id.is_some() && t.is_none() && needs)
}

fn attr_needs_window(req: &ProofRequest, referent: &String) -> (r: bool)
    ensures
        r == attr_window(*req, referent@),
{
    let mut k: usize = 0;
    while k < req.requested_attributes.len()
        invariant
            k <= req.requested_attributes.len(),
            forall|y: int|
                0 <= y < k ==> !(#[trigger] req.requested_attributes@[y].referent@ == referent@ && effective(
                    req.requested_attributes@[y].non_revoked,
                    req.non_revoked,
                ) is Some),
        decreases req.requested_attributes.len() - k,
    {
        let info = &req.requested_attributes[k];
        if info.referent == *referent && effective_interval(info.non_revoked, req.non_revoked).is_some() {
            assert(req.requested_attributes@[k as int].referent@ == referent@);
            return true;
        }
        k = k + 1;
    }
    false
}

fn pred_needs_window(req: &ProofRequest, referent: &String) -> (r: bool)
    ensures
        r == pred_window(*req, referent@),
{
    let mut k: usize = 0;
    while k < req.requested_predicates.len()
        invariant
            k <= req.requested_predicates.len(),
            forall|y: int|
                0 <= y < k ==> !(#[trigger] req.requested_predicates@[y].referent@ == referent@ && effective(
                    req.requested_predicates@[y].non_revoked,
                    req.non_revoked,
                ) is Some),
        decreases req.requested_predicates.len() - k,
    {
        let info = &req.requested_predicates[k];
        if info.referent == *referent && effective_interval(info.non_revoked, req.non_revoked).is_some() {
            assert(req.requested_predicates@[k as int].referent@ == referent@);
            return true;
        }
        k = k + 1;
    }
    false
}

#[verifier::loop_isolation(false)]
fn attr_entry_check(store: &CredentialStore, req: &ProofRequest, e: &RequestedAttribute) -> (r: bool)
    requires
        store.wf(),
        has_id(store.credentials@, e.cred_id@),
    ensures
        r == attr_entry_ok(store.credentials@, *req, *e),
{
    let ghost recs = store.credentials@;
    let x = unique_record(store, &e.cred_id);
    let c = &store.credentials[x].credential;
    let mut k: usize = 0;
    while k < req.requested_attributes.len()
        invariant
            k <= req.requested_attributes.len(),
            x < recs.len(),
            recs == store.credentials@,
            *c == recs[x as int].credential,
            forall|y: int|
                0 <= y < k && #[trigger] req.requested_attributes@[y].referent@ == e.referent@ ==> forall|j: int|
                    0 <= j < req.requested_attributes@[y].names.len() ==> attr_value(
                        c.values@,
                        (#[trigger] req.requested_attributes@[y].names@[j])@,
                    ) is Some,
        decreases req.requested_attributes.len() - k,
    {
        let info = &req.requested_attributes[k];
        if info.referent == e.referent {
            let mut j: usize = 0;
            while j < info.names.len()
                invariant
                    j <= info.names.len(),
                    forall|z: int| 0 <= z < j ==> attr_value(c.values@, (#[trigger] info.names@[z])@) is Some,
                decreases info.names.len() - j,
            {
                if find_attr(&c.values, &info.names[j]).is_none() {
                    proof {
                        assert(req.requested_attributes@[k as int] == *info);
                        assert(recs[x as int] == recs[x as int]);
                    }
                    return false;
                }
                j = j + 1;
            }
        }
        k = k + 1;
    }
    proof {
        assert forall|xx: int, kk: int|
            #![trigger recs[xx], req.requested_attributes@[kk]]
            0 <= xx < recs.len() && recs[xx].id@ == e.cred_id@ && 0 <= kk < req.requested_attributes.len()
                && req.requested_attributes@[kk].referent@ == e.referent@ implies forall|j: int|
                0 <= j < req.requested_attributes@[kk].names.len() ==> attr_value(
                    recs[xx].credential.values@,
                    (#[trigger] req.requested_attributes@[kk].names@[j])@,
                ) is Some by {
            assert(xx == x);
        }
    }
    true
}

#[verifier::loop_isolation(false)]
fn pred_entry_checks(store: &CredentialStore, req: &ProofRequest, e: &RequestedPredicate) -> (r: (bool, bool))
    requires
        store.wf(),
        has_id(store.credentials@, e.cred_id@),
    ensures
        r.0 == pred_values_integer(store.credentials@, *req, *e),
        r.0 ==> r.1 == pred_entry_ok(store.credentials@, *req, *e),
{
    let ghost recs = store.credentials@;
    let x = unique_record(store, &e.cred_id);
    let c = &store.credentials[x].credential;
    let mut holds_all = true;
    let mut k: usize = 0;
    while k < req.requested_predicates.len()
        invariant
            k <= req.requested_predicates.len(),
            x < recs.len(),
            recs == store.credentials@,
            *c == recs[x as int].credential,
            forall|y: int|
                0 <= y < k && #[trigger] req.requested_predicates@[y].referent@ == e.referent@ ==> match attr_value(
                    c.values@,
                    req.requested_predicates@[y].name@,
                ) {
                    Some(v) => int_value(v.raw@) is Some,
                    None => false,
                },
            holds_all <==> forall|y: int|
                0 <= y < k && #[trigger] req.requested_predicates@[y].referent@ == e.referent@ ==> match attr_value(
                    c.values@,
                    req.requested_predicates@[y].name@,
                ) {
                    Some(v) => int_value(v.raw@) matches Some(n) && predicate_holds(
                        req.requested_predicates@[y].p_type,
                        n,
                        req.requested_predicates@[y].p_value as int,
                    ),
                    None => false,
                },
        decreases req.requested_predicates.len() - k,
    {
        let info = &req.requested_predicates[k];
        if info.referent == e.referent {
            let a = match find_attr(&c.values, &info.name) {
                Some(a) => a,
                None => {
                    proof {
                        assert(req.requested_predicates@[k as int] == *info);
                        assert(recs[x as int] == recs[x as int]);
                    }
                    return (false, false);
                },
            };
            let raw = chars_of(c.values[a].raw.as_str());
            match parse_i32(&raw) {
                Some(n) => {
                    if !check_predicate(info.p_type, n, info.p_value) {
                        holds_all = false;
                    }
                },
                None => {
                    proof {
                        assert(req.requested_predicates@[k as int] == *info);
                        assert(recs[x as int] == recs[x as int]);
                    }
                    return (false, false);
                },
            }
        }
        k = k + 1;
    }
    proof {
        assert forall|xx: int, kk: int|
            #![trigger recs[xx], req.requested_predicates@[kk]]
            0 <= xx < recs.len() && recs[xx].id@ == e.cred_id@ && 0 <= kk < req.requested_predicates.len()
                && req.requested_predicates@[kk].referent@ == e.referent@ implies match attr_value(
                recs[xx].credential.values@,
                req.requested_predicates@[kk].name@,
            ) {
                Some(v) => int_value(v.raw@) is Some,
                None => false,
            } by {
            assert(xx == x);
        }
        if holds_all {
            assert forall|xx: int, kk: int|
                #![trigger recs[xx], req.requested_predicates@[kk]]
                0 <= xx < recs.len() && recs[xx].id@ == e.cred_id@ && 0 <= kk < req.requested_predicates.len()
                    && req.requested_predicates@[kk].referent@ == e.referent@ implies match attr_value(
                    recs[xx].credential.values@,
                    req.requested_predicates@[kk].name@,
                ) {
                    Some(v) => int_value(v.raw@) matches Some(n) && predicate_holds(
                        req.requested_predicates@[kk].p_type,
                        n,
                        req.requested_predicates@[kk].p_value as int,
                    ),
                    None => false,
                } by {
                assert(xx == x);
            }
        } else {
            let kk = choose|y: int|
                0 <= y < k && #[trigger] req.requested_predicates@[y].referent@ == e.referent@ && !(match attr_value(
                    c.values@,
                    req.requested_predicates@[y].name@,
                ) {
                    Some(v) => int_value(v.raw@) matches Some(n) && predicate_holds(
                        req.requested_predicates@[y].p_type,
                        n,
                        req.requested_predicates@[y].p_value as int,
                    ),
                    None => false,
                });
            assert(recs[x as int] == recs[x as int] && req.requested_predicates@[kk] == req.requested_predicates@[kk]);
        }
    }
    (true, holds_all)
}

/// The keys of the selection's attribute answers, in proof order.
#[verifier::loop_isolation(false)]
fn selection_key_lists(sel: &RequestedCredentials) -> (r: (Vec<String>, Vec<String>))
    ensures
        string_views(r.0@) == selection_attr_keys(*sel),
        string_views(r.1@) == selection_pred_keys(*sel),
{
    let a = &sel.requested_attributes;
    let mut rk: Vec<String> = Vec::new();
    let mut uk: Vec<String> = Vec::new();
    let mut i: usize = 0;
    while i < a.len()
        invariant
            i <= a.len(),
            string_views(rk@) == revealed_keys(a@.take(i as int)),
            string_views(uk@) == unrevealed_keys(a@.take(i as int)),
        decreases a.len() - i,
    {
        assert(a@.take(i + 1).drop_last() =~= a@.take(i as int));
        let ghost r0 = string_views(rk@);
        let ghost u0 = string_views(uk@);
        if a[i].revealed {
            rk.push(a[i].referent.clone());
            assert(string_views(rk@) =~= r0.push(a@[i as int].referent@));
        } else {
            uk.push(a[i].referent.clone());
            assert(string_views(uk@) =~= u0.push(a@[i as int].referent@));
        }
        i = i + 1;
    }
    assert(a@.take(a.len() as int) =~= a@);
    let ghost sk = Seq::new(
        sel.self_attested_attributes.len() as nat,
        |y: int| sel.self_attested_attributes@[y].referent@,
    );
    let mut sv: Vec<String> = Vec::new();
    let mut i: usize = 0;
    while i < sel.self_attested_attributes.len()
        invariant
            i <= sel.self_attested_attributes.len(),
            string_views(sv@) == sk.take(i as int),
        decreases sel.self_attested_attributes.len() - i,
    {
        let ghost s0 = string_views(sv@);
        sv.push(sel.self_attested_attributes[i].referent.clone());
        assert(string_views(sv@) =~= sk.take(i + 1));
        i = i + 1;
    }
    assert(sk.take(i as int) =~= sk);
    let ghost base = string_views(rk@);
    rk.append(&mut uk);
    let ghost mid = string_views(rk@);
    assert(mid =~= base + unrevealed_keys(a@));
    rk.append(&mut sv);
    assert(string_views(rk@) =~= selection_attr_keys(*sel));
    let ghost pk = selection_pred_keys(*sel);
    let mut pv: Vec<String> = Vec::new();
    let mut i: usize = 0;
    while i < sel.requested_predicates.len()
        invariant
            i <= sel.requested_predicates.len(),
            string_views(pv@) == pk.take(i as int),
        decreases sel.requested_predicates.len() - i,
    {
        pv.push(sel.requested_predicates[i].referent.clone());
        assert(string_views(pv@) =~= pk.take(i + 1));
        i = i + 1;
    }
    assert(pk.take(i as int) =~= pk);
    (rk, pv)
}

/// Checks a selection against the store, the request and the artefacts
/// given, in the order `proof_error` states.
#[verifier::loop_isolation(false)]
#[verifier::rlimit(40)]
fn check_selection(
    store: &CredentialStore,
    req: &ProofRequest,
    sel: &RequestedCredentials,
    ms_id: &String,
    schemas: &Vec<String>,
    cred_defs: &Vec<String>,
    rev_states: &Vec<RevRegEntry>,
) -> (r: Result<(), ErrorKind>)
    requires
        store.wf(),
    ensures
        r is Err <==> proof_error(*store, *req, *sel, ms_id@, schemas@, cred_defs@, rev_states@) is Some,
        r matches Err(e) ==> proof_error(*store, *req, *sel, ms_id@, schemas@, cred_defs@, rev_states@) == Some(e),
        r is Ok ==> proof_possible(*store, *req, *sel, ms_id@, schemas@, cred_defs@, rev_states@),
{
    let ghost recs = store.credentials@;
    let a = &sel.requested_attributes;
    let p = &sel.requested_predicates;
    if !list_has(&store.master_secrets, ms_id) {
        return Err(ErrorKind::MasterSecretNotFound);
    }
    let mut i: usize = 0;
    while i < a.len()
        invariant
            i <= a.len(),
            forall|y: int| 0 <= y < i ==> has_id(recs, (#[trigger] a@[y]).cred_id@),
        decreases a.len() - i,
    {
        if find_record(store, &a[i].cred_id).is_none() {
            assert(!has_id(recs, a@[i as int].cred_id@));
            return Err(ErrorKind::ItemNotFound);
        }
        i = i + 1;
    }
    let mut i: usize = 0;
    while i < p.len()
        invariant
            i <= p.len(),
            forall|y: int| 0 <= y < i ==> has_id(recs, (#[trigger] p@[y]).cred_id@),
        decreases p.len() - i,
    {
        if find_record(store, &p[i].cred_id).is_none() {
            assert(!has_id(recs, p@[i as int].cred_id@));
            return Err(ErrorKind::ItemNotFound);
        }
        i = i + 1;
    }
    let mut i: usize = 0;
    while i < a.len()
        invariant
            i <= a.len(),
            forall|y: int| 0 <= y < i ==> artifacts_known(recs, (#[trigger] a@[y]).cred_id@, schemas@, cred_defs@),
        decreases a.len() - i,
    {
        assert(has_id(recs, a@[i as int].cred_id@));
        if !entry_artifacts(store, &a[i].cred_id, schemas, cred_defs) {
            return Err(ErrorKind::InvalidStructure);
        }
        i = i + 1;
    }
    let mut i: usize = 0;
    while i < p.len()
        invariant
            i <= p.len(),
            forall|y: int| 0 <= y < i ==> artifacts_known(recs, (#[trigger] p@[y]).cred_id@, schemas@, cred_defs@),
        decreases p.len() - i,
    {
        assert(has_id(recs, p@[i as int].cred_id@));
        if !entry_artifacts(store, &p[i].cred_id, schemas, cred_defs) {
            return Err(ErrorKind::InvalidStructure);
        }
        i = i + 1;
    }
    let mut i: usize = 0;
    while i < a.len()
        invariant
            i <= a.len(),
            forall|y: int|
                0 <= y < i ==> !unknown_revocation_state(recs, (#[trigger] a@[y]).cred_id@, a@[y].timestamp, rev_states@),
        decreases a.len() - i,
    {
        assert(has_id(recs, a@[i as int].cred_id@));
        if !entry_revocation(store, &a[i].cred_id, a[i].timestamp, rev_states) {
            return Err(ErrorKind::InvalidUserRevocId);
        }
        i = i + 1;
    }
    let mut i: usize = 0;
    while i < p.len()
        invariant
            i <= p.len(),
            forall|y: int|
                0 <= y < i ==> !unknown_revocation_state(recs, (#[trigger] p@[y]).cred_id@, p@[y].timestamp, rev_states@),
        decreases p.len() - i,
    {
        assert(has_id(recs, p@[i as int].cred_id@));
        if !entry_revocation(store, &p[i].cred_id, p[i].timestamp, rev_states) {
            return Err(ErrorKind::InvalidUserRevocId);
        }
        i = i + 1;
    }
    let mut i: usize = 0;
    while i < a.len()
        invariant
            i <= a.len(),
            forall|y: int|
                0 <= y < i ==> timestamp_given(
                    recs,
                    (#[trigger] a@[y]).cred_id@,
                    a@[y].timestamp,
                    attr_window(*req, a@[y].referent@),
                ),
        decreases a.len() - i,
    {
        assert(has_id(recs, a@[i as int].cred_id@));
        let needs = attr_needs_window(req, &a[i].referent);
        if !entry_timestamp(store, &a[i].cred_id, a[i].timestamp, needs) {
            return Err(ErrorKind::InvalidStructure);
        }
        i = i + 1;
    }
    let mut i: usize = 0;
    while i < p.len()
        invariant
            i <= p.len(),
            forall|y: int|
                0 <= y < i ==> timestamp_given(
                    recs,
                    (#[trigger] p@[y]).cred_id@,
                    p@[y].timestamp,
                    pred_window(*req, p@[y].referent@),
                ),
        decreases p.len() - i,
    {
        assert(has_id(recs, p@[i as int].cred_id@));
        let needs = pred_needs_window(req, &p[i].referent);
        if !entry_timestamp(store, &p[i].cred_id, p[i].timestamp, needs) {
            return Err(ErrorKind::InvalidStructure);
        }
        i = i + 1;
    }
    let (answered_attrs, answered_preds) = selection_key_lists(sel);
    let (asked_attrs, asked_preds) = request_key_lists(req);
    if !all_distinct(&asked_attrs) || !keys_match(&answered_attrs, &asked_attrs) || !keys_match(
        &answered_preds,
        &asked_preds,
    ) {
        return Err(ErrorKind::InvalidStructure);
    }
    let mut i: usize = 0;
    while i < a.len()
        invariant
            i <= a.len(),
            forall|y: int| 0 <= y < i ==> attr_entry_ok(recs, *req, #[trigger] a@[y]),
        decreases a.len() - i,
    {
        assert(has_id(recs, a@[i as int].cred_id@));
        if !attr_entry_check(store, req, &a[i]) {
            return Err(ErrorKind::InvalidStructure);
        }
        i = i + 1;
    }
    let mut i: usize = 0;
    let mut all_hold = true;
    while i < p.len()
        invariant
            i <= p.len(),
            forall|y: int| 0 <= y < i ==> pred_values_integer(recs, *req, #[trigger] p@[y]),
            all_hold <==> forall|y: int| 0 <= y < i ==> pred_entry_ok(recs, *req, #[trigger] p@[y]),
        decreases p.len() - i,
    {
        assert(has_id(recs, p@[i as int].cred_id@));
        let (integer, holds) = pred_entry_checks(store, req, &p[i]);
        if !integer {
            return Err(ErrorKind::InvalidStructure);
        }
        if !holds {
            all_hold = false;
        }
        i = i + 1;
    }
    if !all_hold {
        return Err(ErrorKind::ProofRejected);
    }
    proof {
        assert forall|y: int| 0 <= y < a.len() implies entry_ok(
            recs,
            (#[trigger] a@[y]).cred_id@,
            a@[y].timestamp,
            schemas@,
            cred_defs@,
            rev_states@,
        ) by {
            assert(has_id(recs, a@[y].cred_id@));
            let x = choose|x: int| 0 <= x < recs.len() && #[trigger] recs[x].id@ == a@[y].cred_id@;
            assert(artifacts_known(recs, a@[y].cred_id@, schemas@, cred_defs@));
            assert(!unknown_revocation_state(recs, a@[y].cred_id@, a@[y].timestamp, rev_states@));
            assert(recs[x].id@ == a@[y].cred_id@);
        }
        assert forall|y: int| 0 <= y < p.len() implies entry_ok(
            recs,
            (#[trigger] p@[y]).cred_id@,
            p@[y].timestamp,
            schemas@,
            cred_defs@,
            rev_states@,
        ) by {
            assert(has_id(recs, p@[y].cred_id@));
            let x = choose|x: int| 0 <= x < recs.len() && #[trigger] recs[x].id@ == p@[y].cred_id@;
            assert(artifacts_known(recs, p@[y].cred_id@, schemas@, cred_defs@));
            assert(!unknown_revocation_state(recs, p@[y].cred_id@, p@[y].timestamp, rev_states@));
            assert(recs[x].id@ == p@[y].cred_id@);
        }
    }
    Ok(())
}

/// Builds a proof for a proof request from the credentials the prover chose.
///
/// Each distinct (credential, timestamp) pair of the selection becomes one
/// sub-proof, in ascending order of credential id; revealed values are copied
/// from the stored credential; every predicate is evaluated on the
/// credential's value; self-attested values are copied as given. The inputs
/// are checked first, in the order `proof_error` states: the link secret
/// (`MasterSecretNotFound`), every chosen credential (`ItemNotFound`), its
/// schema and definition (`InvalidStructure`), its revocation state at the
/// chosen timestamp (`InvalidUserRevocId`), a timestamp for a revocable
/// credential whose referent has a revocation window (`InvalidStructure`),
/// that the selection answers each referent exactly once (`InvalidStructure`),
/// that the credentials hold the attributes asked for, with integer values
/// under predicates (`InvalidStructure`), and that the predicates hold
/// (`ProofRejected`).
#[verifier::loop_isolation(false)]
#[verifier::rlimit(60)]
pub fn create_proof(
    store: &CredentialStore,
    req: &ProofRequest,
    sel: &RequestedCredentials,
    ms_id: &String,
    schemas: &Vec<String>,
    cred_defs: &Vec<String>,
    rev_states: &Vec<RevRegEntry>,
) -> (r: Result<Proof, ErrorKind>)
    requires
        store.wf(),
    ensures
        r is Err <==> proof_error(*store, *req, *sel, ms_id@, schemas@, cred_defs@, rev_states@) is Some,
        r matches Err(e) ==> proof_error(*store, *req, *sel, ms_id@, schemas@, cred_defs@, rev_states@) == Some(e),
        r matches Ok(pr) ==> {
            &&& built(*store, *req, *sel, schemas@, cred_defs@, rev_states@, pr)
            &&& forall|i: int|
                0 <= i < sel.requested_predicates.len() ==> predicate_met(
                    store.credentials@,
                    *req,
                    #[trigger] sel.requested_predicates@[i],
                )
        },
{
    match check_selection(store, req, sel, ms_id, schemas, cred_defs, rev_states) {
        Err(e) => return Err(e),
        Ok(()) => {},
    }
    let ghost recs = store.credentials@;
    let ghost pp = proof_possible(*store, *req, *sel, ms_id@, schemas@, cred_defs@, rev_states@);
    assert(pp);
    let mut groups = Groups {
        cred_ids: Vec::new(),
        timestamps: Vec::new(),
        records: Vec::new(),
        proofs: Vec::new(),
        identifiers: Vec::new(),
    };
    let keys = group_keys(sel);
    let mut i: usize = 0;
    while i < keys.len()
        invariant
            i <= keys.len(),
            groups.wf(store, schemas@, cred_defs@, rev_states@),
        decreases keys.len() - i,
    {
        match groups.group_of(store, &keys[i].cred_id, keys[i].timestamp, schemas, cred_defs, rev_states) {
            Ok(_) => {},
            Err(e) => {
                proof {
                    let id = keys@[i as int].cred_id@;
                    let t = keys@[i as int].timestamp;
                    assert(chosen(*sel, id, t));
                    if exists|j: int|
                        0 <= j < sel.requested_attributes.len() && (#[trigger] sel.requested_attributes@[j]).cred_id@ == id
                            && sel.requested_attributes@[j].timestamp == t {
                        let j = choose|j: int|
                            0 <= j < sel.requested_attributes.len() && (#[trigger] sel.requested_attributes@[j]).cred_id@ == id
                                && sel.requested_attributes@[j].timestamp == t;
                        assert(sel.requested_attributes@[j].cred_id@ == id);
                        if pp {
                            assert(entry_ok(recs, id, t, schemas@, cred_defs@, rev_states@));
                        }
                    } else {
                        let j = choose|j: int|
                            0 <= j < sel.requested_predicates.len() && (#[trigger] sel.requested_predicates@[j]).cred_id@ == id
                                && sel.requested_predicates@[j].timestamp == t;
                        assert(sel.requested_predicates@[j].cred_id@ == id);
                        if pp {
                            assert(entry_ok(recs, id, t, schemas@, cred_defs@, rev_states@));
                        }
                    }
                    assert(!pp);
                }
                return Err(e);
            },
        }
        i = i + 1;
    }
    let mut revealed: Vec<RevealedAttr> = Vec::new();
    let mut unrevealed: Vec<SubProofRef> = Vec::new();
    let mut i: usize = 0;
    while i < sel.requested_attributes.len()
        invariant
            i <= sel.requested_attributes.len(),
            groups.wf(store, schemas@, cred_defs@, rev_states@),
            forall|x: int| 0 <= x < revealed.len() ==> revealed_built(recs, *req, groups.proofs@, #[trigger] revealed@[x]),
            forall|x: int| 0 <= x < unrevealed.len() ==> (#[trigger] unrevealed@[x]).sub_proof_index < groups.proofs.len(),
            Seq::new(revealed.len() as nat, |y: int| revealed@[y].referent@) == revealed_keys(sel.requested_attributes@.take(i as int)),
            Seq::new(unrevealed.len() as nat, |y: int| unrevealed@[y].referent@) == unrevealed_keys(sel.requested_attributes@.take(i as int)),
            forall|y: int| 0 <= y < revealed.len() ==> revealed_origin(recs, *sel, groups.identifiers@, #[trigger] revealed@[y]),
            forall|y: int| 0 <= y < unrevealed.len() ==> unrevealed_origin(recs, *sel, groups.identifiers@, #[trigger] unrevealed@[y]),
        decreases sel.requested_attributes.len() - i,
    {
        assert(sel.requested_attributes@.take(i + 1).drop_last() =~= sel.requested_attributes@.take(i as int));
        let ra = &sel.requested_attributes[i];
        let ghost at_start = groups.proofs@;
        let ghost ids_start = groups.identifiers@;
        let g = match groups.group_of(store, &ra.cred_id, ra.timestamp, schemas, cred_defs, rev_states) {
            Ok(g) => g,
            Err(e) => {
                assert(sel.requested_attributes@[i as int] == *ra);
                assert(!pp);
                return Err(e);
            },
        };
        proof {
            assert forall|x: int| 0 <= x < revealed.len() implies revealed_built(recs, *req, groups.proofs@, #[trigger] revealed@[x]) by {
                lemma_revealed_kept(recs, *req, at_start, groups.proofs@, revealed@[x]);
            }
            let no_preds: Seq<SubProofRef> = Seq::empty();
            lemma_origins_kept(recs, *sel, ids_start, groups.identifiers@, revealed@, unrevealed@, no_preds);
        }
        let x = groups.records[g];
        let mut k: usize = 0;
        while k < req.requested_attributes.len() && req.requested_attributes[k].referent != ra.referent
            invariant
                k <= req.requested_attributes.len(),
                forall|y: int| 0 <= y < k ==> #[trigger] req.requested_attributes@[y].referent@ != ra.referent@,
            decreases req.requested_attributes.len() - k,
        {
            k = k + 1;
        }
        if k == req.requested_attributes.len() {
            proof {
                if pp {
                    lemma_entry_key(sel.requested_attributes@, i as int);
                    let ab = revealed_keys(sel.requested_attributes@) + unrevealed_keys(sel.requested_attributes@);
                    let w = choose|w: int| 0 <= w < ab.len() && ab[w] == ra.referent@;
                    assert(selection_attr_keys(*sel)[w] == ra.referent@);
                    assert(requested_attr_keys(*req).contains(ra.referent@));
                    let y = choose|y: int| 0 <= y < requested_attr_keys(*req).len() && requested_attr_keys(*req)[y] == ra.referent@;
                    assert(req.requested_attributes@[y].referent@ == ra.referent@);
                }
                assert(!pp);
            }
            return Err(ErrorKind::InvalidStructure);
        }
        assert(req.requested_attributes@[k as int].referent@ == ra.referent@);
        let info = &req.requested_attributes[k];
        let c = &store.credentials[x].credential;
        if ra.revealed {
            let mut values: Vec<RevealedValue> = Vec::new();
            let mut j: usize = 0;
            while j < info.names.len()
                invariant
                    j <= info.names.len(),
                    groups.wf(store, schemas@, cred_defs@, rev_states@),
                    g < groups.proofs.len(),
                    x == groups.records@[g as int],
                    *c == store.credentials@[x as int].credential,
                    values.len() == j,
                    forall|y: int| 0 <= y < revealed.len() ==> revealed_built(recs, *req, groups.proofs@, #[trigger] revealed@[y]),
                    forall|y: int| 0 <= y < unrevealed.len() ==> (#[trigger] unrevealed@[y]).sub_proof_index < groups.proofs.len(),
                    forall|y: int|
                        0 <= y < j ==> (#[trigger] values@[y]).name@ == info.names@[y]@
                            && stored_value(recs, values@[y].raw@, values@[y].encoded@)
                            && discloses(groups.proofs@[g as int], normalized(values@[y].name@), values@[y].encoded@),
                    values_from(*c, values@),
                    groups.timestamps@[g as int] == ra.timestamp,
    
            forall|y: int| 0 <= y < revealed.len() ==> revealed_origin(recs, *sel, groups.identifiers@, #[trigger] revealed@[y]),
            forall|y: int| 0 <= y < unrevealed.len() ==> unrevealed_origin(recs, *sel, groups.identifiers@, #[trigger] unrevealed@[y]),
                decreases info.names.len() - j,
            {
                let a = match find_attr(&c.values, &info.names[j]) {
                    Some(a) => a,
                    None => {
                        proof {
                            if pp {
                                assert(attr_entry_ok(recs, *req, sel.requested_attributes@[i as int]));
                                assert(recs[x as int].id@ == ra.cred_id@);
                                assert(req.requested_attributes@[k as int] == *info);
                                assert(attr_value(recs[x as int].credential.values@, req.requested_attributes@[k as int].names@[j as int]@) is Some);
                            }
                            assert(!pp);
                        }
                        return Err(ErrorKind::InvalidStructure);
                    },
                };
                let v = copy_value(&c.values[a], &info.names[j]);
                assert(recs[x as int].credential.values@[a as int].raw@ == v.raw@);
                let d = DisclosedValue {
                    name: normalize_attr_name(info.names[j].as_str()),
                    encoded: v.encoded.clone(),
                };
                let ghost earlier = groups.proofs@;
                let ghost vn = v.name@;
                let ghost ve = v.encoded@;
                let ghost vr = v.raw@;
                let ghost dn = d.name@;
                assert(stored_value(recs, vr, ve));
                groups.add(g, Some(d), None);
                proof {
                    assert forall|y: int| 0 <= y < revealed.len() implies revealed_built(recs, *req, groups.proofs@, #[trigger] revealed@[y]) by {
                        lemma_revealed_kept(recs, *req, earlier, groups.proofs@, revealed@[y]);
                    }
                    assert forall|y: int| 0 <= y < j implies discloses(
                        groups.proofs@[g as int],
                        normalized((#[trigger] values@[y]).name@),
                        values@[y].encoded@,
                    ) by {
                        let n = normalized(values@[y].name@);
                        let e = values@[y].encoded@;
                        let kk = choose|kk: int|
                            0 <= kk < earlier[g as int].revealed.len() && #[trigger] earlier[g as int].revealed@[kk].name@ == n
                                && earlier[g as int].revealed@[kk].encoded@ == e;
                        assert(groups.proofs@[g as int].revealed@[kk] == earlier[g as int].revealed@[kk]);
                    }
                    let last = groups.proofs@[g as int].revealed.len() - 1;
                    assert(groups.proofs@[g as int].revealed@[last].name@ == dn);
                    assert(dn == normalized(vn));
                    assert(groups.proofs@[g as int].revealed@[last].encoded@ == ve);
                    assert(discloses(groups.proofs@[g as int], normalized(vn), ve));
                }
                let ghost vbefore = values@;
                values.push(v);
                assert(values@[j as int] == v);
                assert forall|y: int| 0 <= y < values.len() implies (attr_value(c.values@, (#[trigger] values@[y]).name@) matches Some(w)
                    && w.raw@ == values@[y].raw@) by {
                    if y < j {
                        assert(values@[y] == vbefore[y]);
                    }
                }
                j = j + 1;
            }
            let attr = RevealedAttr { referent: ra.referent.clone(), sub_proof_index: g, values };
            assert(names_match(*info, attr));
            proof {
                assert(sel.requested_attributes@[i as int] == *ra);
                assert(recs[x as int].id@ == ra.cred_id@);
                assert(groups.identifiers@[g as int] == ident_of(recs[x as int].credential, ra.timestamp));
                assert(revealed_origin(recs, *sel, groups.identifiers@, attr));
            }
            let mut k2: usize = 0;
            while k2 < req.requested_attributes.len()
                invariant
                    k2 <= req.requested_attributes.len(),
                    attr.referent@ == ra.referent@,
                    forall|y: int|
                        0 <= y < k2 && #[trigger] req.requested_attributes@[y].referent@ == attr.referent@
                            ==> names_match(req.requested_attributes@[y], attr),
                decreases req.requested_attributes.len() - k2,
            {
                if req.requested_attributes[k2].referent == attr.referent && !names_agree(
                    &req.requested_attributes[k2],
                    &attr,
                ) {
                    proof {
                        if pp {
                            assert(requested_attr_keys(*req)[k2 as int] == requested_attr_keys(*req)[k as int]);
                            assert(k2 == k);
                        }
                        assert(!pp);
                    }
                    return Err(ErrorKind::InvalidStructure);
                }
                k2 = k2 + 1;
            }
            assert(revealed_built(recs, *req, groups.proofs@, attr));
            let ghost rk = Seq::new(revealed.len() as nat, |y: int| revealed@[y].referent@);
            revealed.push(attr);
            assert(Seq::new(revealed.len() as nat, |y: int| revealed@[y].referent@) =~= rk.push(ra.referent@));
        } else {
            let mut j: usize = 0;
            while j < info.names.len()
                invariant
                    j <= info.names.len(),
                decreases info.names.len() - j,
            {
                if find_attr(&c.values, &info.names[j]).is_none() {
                    proof {
                        if pp {
                            assert(attr_entry_ok(recs, *req, sel.requested_attributes@[i as int]));
                            assert(recs[x as int].id@ == ra.cred_id@);
                            assert(req.requested_attributes@[k as int] == *info);
                            assert(attr_value(recs[x as int].credential.values@, req.requested_attributes@[k as int].names@[j as int]@) is Some);
                        }
                        assert(!pp);
                    }
                    return Err(ErrorKind::InvalidStructure);
                }
                j = j + 1;
            }
            let ghost uk = Seq::new(unrevealed.len() as nat, |y: int| unrevealed@[y].referent@);
            let u = SubProofRef { referent: ra.referent.clone(), sub_proof_index: g };
            proof {
                assert(sel.requested_attributes@[i as int] == *ra);
                assert(recs[x as int].id@ == ra.cred_id@);
                assert(groups.identifiers@[g as int] == ident_of(recs[x as int].credential, ra.timestamp));
                assert(unrevealed_origin(recs, *sel, groups.identifiers@, u));
            }
            unrevealed.push(u);
            assert(Seq::new(unrevealed.len() as nat, |y: int| unrevealed@[y].referent@) =~= uk.push(ra.referent@));
        }
        i = i + 1;
    }
    assert(sel.requested_attributes@.take(sel.requested_attributes.len() as int) =~= sel.requested_attributes@);
    let mut predicates: Vec<SubProofRef> = Vec::new();
    let mut i: usize = 0;
    while i < sel.requested_predicates.len()
        invariant
            i <= sel.requested_predicates.len(),
            groups.wf(store, schemas@, cred_defs@, rev_states@),
            forall|x: int| 0 <= x < revealed.len() ==> revealed_built(recs, *req, groups.proofs@, #[trigger] revealed@[x]),
            forall|x: int| 0 <= x < unrevealed.len() ==> (#[trigger] unrevealed@[x]).sub_proof_index < groups.proofs.len(),
            forall|x: int| 0 <= x < predicates.len() ==> predicate_built(*req, groups.proofs@, #[trigger] predicates@[x]),
            forall|y: int|
                0 <= y < i ==> predicate_met(store.credentials@, *req, #[trigger] sel.requested_predicates@[y]),
            Seq::new(revealed.len() as nat, |y: int| revealed@[y].referent@) == revealed_keys(sel.requested_attributes@),
            Seq::new(unrevealed.len() as nat, |y: int| unrevealed@[y].referent@) == unrevealed_keys(sel.requested_attributes@),
            Seq::new(predicates.len() as nat, |y: int| predicates@[y].referent@) == selection_pred_keys(*sel).take(i as int),
            forall|y: int| 0 <= y < revealed.len() ==> revealed_origin(recs, *sel, groups.identifiers@, #[trigger] revealed@[y]),
            forall|y: int| 0 <= y < unrevealed.len() ==> unrevealed_origin(recs, *sel, groups.identifiers@, #[trigger] unrevealed@[y]),
            forall|y: int| 0 <= y < predicates.len() ==> predicate_origin(recs, *sel, groups.identifiers@, #[trigger] predicates@[y]),
        decreases sel.requested_predicates.len() - i,
    {
        let rp = &sel.requested_predicates[i];
        let ghost at_start = groups.proofs@;
        let ghost ids_start = groups.identifiers@;
        let g = match groups.group_of(store, &rp.cred_id, rp.timestamp, schemas, cred_defs, rev_states) {
            Ok(g) => g,
            Err(e) => {
                assert(sel.requested_predicates@[i as int] == *rp);
                assert(!pp);
                return Err(e);
            },
        };
        proof {
            assert forall|y: int| 0 <= y < revealed.len() implies revealed_built(recs, *req, groups.proofs@, #[trigger] revealed@[y]) by {
                lemma_revealed_kept(recs, *req, at_start, groups.proofs@, revealed@[y]);
            }
            assert forall|y: int| 0 <= y < predicates.len() implies predicate_built(*req, groups.proofs@, #[trigger] predicates@[y]) by {
                lemma_predicate_kept(*req, at_start, groups.proofs@, predicates@[y]);
            }
            lemma_origins_kept(recs, *sel, ids_start, groups.identifiers@, revealed@, unrevealed@, predicates@);
        }
        let x = groups.records[g];
        let c = &store.credentials[x].credential;
        let ghost pg = groups.proofs@;
        let mut k: usize = 0;
        while k < req.requested_predicates.len()
            invariant
                k <= req.requested_predicates.len(),
                groups.wf(store, schemas@, cred_defs@, rev_states@),
                g < groups.proofs.len(),
                x == groups.records@[g as int],
                x < store.credentials.len(),
                store.credentials@[x as int].id@ == rp.cred_id@,
                *c == store.credentials@[x as int].credential,
                extends(groups.proofs@, pg),
                groups.timestamps@[g as int] == rp.timestamp,
    
            forall|y: int| 0 <= y < revealed.len() ==> revealed_origin(recs, *sel, groups.identifiers@, #[trigger] revealed@[y]),
            forall|y: int| 0 <= y < unrevealed.len() ==> unrevealed_origin(recs, *sel, groups.identifiers@, #[trigger] unrevealed@[y]),
            forall|y: int| 0 <= y < predicates.len() ==> predicate_origin(recs, *sel, groups.identifiers@, #[trigger] predicates@[y]),

                forall|y: int| 0 <= y < revealed.len() ==> revealed_built(recs, *req, groups.proofs@, #[trigger] revealed@[y]),
                forall|y: int| 0 <= y < unrevealed.len() ==> (#[trigger] unrevealed@[y]).sub_proof_index < groups.proofs.len(),
                forall|y: int| 0 <= y < predicates.len() ==> predicate_built(*req, groups.proofs@, #[trigger] predicates@[y]),
                forall|y: int|
                    0 <= y < k && #[trigger] req.requested_predicates@[y].referent@ == rp.referent@ ==> {
                        let info = req.requested_predicates@[y];
                        &&& match attr_value(c.values@, info.name@) {
                            Some(v) => int_value(v.raw@) matches Some(n) && predicate_holds(
                                info.p_type,
                                n,
                                info.p_value as int,
                            ),
                            None => false,
                        }
                        &&& proves(groups.proofs@[g as int], normalized(info.name@), info.p_type, info.p_value)
                    },
            decreases req.requested_predicates.len() - k,
        {
            let info = &req.requested_predicates[k];
            if info.referent == rp.referent {
                proof {
                    if pp {
                        assert(pred_entry_ok(recs, *req, sel.requested_predicates@[i as int]));
                        assert(recs[x as int].id@ == rp.cred_id@);
                        assert(req.requested_predicates@[k as int] == *info);
                        assert(recs[x as int] == recs[x as int] && req.requested_predicates@[k as int] == req.requested_predicates@[k as int]);
                    }
                }
                let a = match find_attr(&c.values, &info.name) {
                    Some(a) => a,
                    None => {
                        assert(!pp);
                        return Err(ErrorKind::InvalidStructure);
                    },
                };
                let raw = chars_of(c.values[a].raw.as_str());
                let n = match parse_i32(&raw) {
                    Some(n) => n,
                    None => {
                        assert(!pp);
                        return Err(ErrorKind::InvalidStructure);
                    },
                };
                if !check_predicate(info.p_type, n, info.p_value) {
                    proof {
                        assert(int_value(c.values@[a as int].raw@) == Some(n as int));
                        assert(req.requested_predicates@[k as int] == *info);
                        assert(store.credentials@[x as int].id@ == rp.cred_id@);
                        assert(sel.requested_predicates@[i as int] == *rp);
                        assert(!pp);
                    }
                    return Err(ErrorKind::ProofRejected);
                }
                assert(int_value(c.values@[a as int].raw@) == Some(n as int));
                let p = ProvenPredicate {
                    name: normalize_attr_name(info.name.as_str()),
                    p_type: info.p_type,
                    p_value: info.p_value,
                };
                let ghost earlier = groups.proofs@;
                groups.add(g, None, Some(p));
                proof {
                    assert forall|y: int| 0 <= y < revealed.len() implies revealed_built(recs, *req, groups.proofs@, #[trigger] revealed@[y]) by {
                        lemma_revealed_kept(recs, *req, earlier, groups.proofs@, revealed@[y]);
                    }
                    assert forall|y: int| 0 <= y < predicates.len() implies predicate_built(*req, groups.proofs@, #[trigger] predicates@[y]) by {
                        lemma_predicate_kept(*req, earlier, groups.proofs@, predicates@[y]);
                    }
                    assert forall|y: int|
                        0 <= y < k && #[trigger] req.requested_predicates@[y].referent@ == rp.referent@ implies proves(
                            groups.proofs@[g as int],
                            normalized(req.requested_predicates@[y].name@),
                            req.requested_predicates@[y].p_type,
                            req.requested_predicates@[y].p_value,
                        ) by {
                        let inf = req.requested_predicates@[y];
                        let nm = normalized(inf.name@);
                        let w = choose|w: int|
                            0 <= w < earlier[g as int].predicates.len() && #[trigger] earlier[g as int].predicates@[w].name@ == nm
                                && earlier[g as int].predicates@[w].p_type == inf.p_type && earlier[g as int].predicates@[w].p_value
                                == inf.p_value;
                        assert(groups.proofs@[g as int].predicates@[w] == earlier[g as int].predicates@[w]);
                    }
                    let last = groups.proofs@[g as int].predicates.len() - 1;
                    assert(groups.proofs@[g as int].predicates@[last].name@ == normalized(info.name@));
                    assert(proves(groups.proofs@[g as int], normalized(info.name@), info.p_type, info.p_value));
                    assert forall|gg: int| 0 <= gg < pg.len() implies {
                        &&& (#[trigger] groups.proofs@[gg]).revealed.len() >= pg[gg].revealed.len()
                        &&& forall|kk: int| 0 <= kk < pg[gg].revealed.len() ==> groups.proofs@[gg].revealed@[kk] == pg[gg].revealed@[kk]
                        &&& groups.proofs@[gg].predicates.len() >= pg[gg].predicates.len()
                        &&& forall|kk: int| 0 <= kk < pg[gg].predicates.len() ==> groups.proofs@[gg].predicates@[kk] == pg[gg].predicates@[kk]
                    } by {
                        assert(earlier[gg].revealed.len() >= pg[gg].revealed.len());
                        assert(earlier[gg].predicates.len() >= pg[gg].predicates.len());
                    }
                }
            }
            k = k + 1;
        }
        let u = SubProofRef { referent: rp.referent.clone(), sub_proof_index: g };
        assert(predicate_built(*req, groups.proofs@, u));
        proof {
            assert(sel.requested_predicates@[i as int] == *rp);
            assert(groups.identifiers@[g as int] == ident_of(recs[x as int].credential, rp.timestamp));
            assert(predicate_origin(recs, *sel, groups.identifiers@, u));
        }
        let ghost pk = Seq::new(predicates.len() as nat, |y: int| predicates@[y].referent@);
        predicates.push(u);
        assert(selection_pred_keys(*sel).take(i + 1) =~= selection_pred_keys(*sel).take(i as int).push(rp.referent@));
        assert(Seq::new(predicates.len() as nat, |y: int| predicates@[y].referent@) =~= pk.push(rp.referent@));
        i = i + 1;
    }
    assert(selection_pred_keys(*sel).take(sel.requested_predicates.len() as int) =~= selection_pred_keys(*sel));
    let ghost sk = Seq::new(
        sel.self_attested_attributes.len() as nat,
        |y: int| sel.self_attested_attributes@[y].referent@,
    );
    let mut self_attested: Vec<SelfAttestedAttr> = Vec::new();
    let mut i: usize = 0;
    while i < sel.self_attested_attributes.len()
        invariant
            i <= sel.self_attested_attributes.len(),
            Seq::new(self_attested.len() as nat, |y: int| self_attested@[y].referent@) == sk.take(i as int),
            self_attested.len() == i,
            forall|y: int| 0 <= y < i ==> (#[trigger] self_attested@[y]).value@ == sel.self_attested_attributes@[y].value@,
        decreases sel.self_attested_attributes.len() - i,
    {
        let s = &sel.self_attested_attributes[i];
        let ghost before = Seq::new(self_attested.len() as nat, |y: int| self_attested@[y].referent@);
        self_attested.push(SelfAttestedAttr { referent: s.referent.clone(), value: s.value.clone() });
        assert(Seq::new(self_attested.len() as nat, |y: int| self_attested@[y].referent@) =~= before.push(s.referent@));
        assert(sk.take(i + 1) =~= sk.take(i as int).push(s.referent@));
        i = i + 1;
    }
    assert(sk.take(i as int) =~= sk);
    assert forall|y: int| 0 <= y < self_attested.len() implies (#[trigger] self_attested@[y]).referent@
        == sel.self_attested_attributes@[y].referent@ && self_attested@[y].value@
        == sel.self_attested_attributes@[y].value@ by {
        assert(Seq::new(self_attested.len() as nat, |y: int| self_attested@[y].referent@)[y] == sk[y]);
    }
    let requested_proof = RequestedProof {
        revealed_attrs: revealed,
        unrevealed_attrs: unrevealed,
        self_attested_attrs: self_attested,
        predicates,
    };
    let answered_attrs = attr_key_list(&requested_proof);
    let answered_preds = pred_key_list(&requested_proof);
    let (asked_attrs, asked_preds) = request_key_lists(req);
    if !keys_match(&answered_attrs, &asked_attrs) || !keys_match(&answered_preds, &asked_preds) {
        proof {
            if pp {
                assert(answered_attr_keys(requested_proof) =~= selection_attr_keys(*sel));
                assert(answered_pred_keys(requested_proof) =~= selection_pred_keys(*sel));
            }
            assert(!pp);
        }
        return Err(ErrorKind::InvalidStructure);
    }
    let pr = Proof { requested_proof, proofs: groups.proofs, identifiers: groups.identifiers };
    assert forall|g: int| 0 <= g < pr.identifiers.len() implies registry_from_store(
        store.credentials@,
        #[trigger] pr.identifiers@[g],
    ) by {
        let x = groups.records@[g] as int;
        assert(store.credentials@[x].credential.rev_reg_id == pr.identifiers@[g].rev_reg_id);
    }
    assert(built(*store, *req, *sel, schemas@, cred_defs@, rev_states@, pr));
    Ok(pr)
}


/// The values a revealing answer shows: for each name asked, the raw value
/// (and its encoding) the credential holds under that name.
pub open spec fn chosen_values(c: Credential, names: Seq<String>) -> Seq<RevealedValue> {
    Seq::new(
        names.len(),
        |j: int|
            RevealedValue {
                name: names[j],
                raw: attr_value(c.values@, names[j]@)->Some_0.raw,
                encoded: attr_value(c.values@, names[j]@)->Some_0.encoded,
            },
    )
}

/// Every credential the selection chooses meets the restrictions and the
/// revocation window of its referent, evaluated as the verifier does on
/// what the answer will show; and no self-attested referent is restricted.
pub open spec fn choices_meet_restrictions(
    recs: Seq<StoredCredential>,
    req: ProofRequest,
    sel: RequestedCredentials,
) -> bool {
    &&& forall|e: int, x: int, k: int|
        #![trigger sel.requested_attributes@[e], recs[x], req.requested_attributes@[k]]
        0 <= e < sel.requested_attributes.len() && 0 <= x < recs.len() && 0 <= k
            < req.requested_attributes.len() && recs[x].id@ == sel.requested_attributes@[e].cred_id@
            && req.requested_attributes@[k].referent@ == sel.requested_attributes@[e].referent@ ==> {
            let info = req.requested_attributes@[k];
            let id = ident_of(recs[x].credential, sel.requested_attributes@[e].timestamp);
            let vals = if sel.requested_attributes@[e].revealed {
                chosen_values(recs[x].credential, info.names@)
            } else {
                Seq::empty()
            };
            &&& restricted_ok(info.restrictions, referent_tags(id, string_views(info.names@), vals))
            &&& timely(effective(info.non_revoked, req.non_revoked), id)
        }
    &&& forall|e: int, x: int, k: int|
        #![trigger sel.requested_predicates@[e], recs[x], req.requested_predicates@[k]]
        0 <= e < sel.requested_predicates.len() && 0 <= x < recs.len() && 0 <= k
            < req.requested_predicates.len() && recs[x].id@ == sel.requested_predicates@[e].cred_id@
            && req.requested_predicates@[k].referent@ == sel.requested_predicates@[e].referent@ ==> {
            let info = req.requested_predicates@[k];
            let id = ident_of(recs[x].credential, sel.requested_predicates@[e].timestamp);
            &&& restricted_ok(info.restrictions, referent_tags(id, seq![info.name@], Seq::empty()))
            &&& timely(effective(info.non_revoked, req.non_revoked), id)
        }
    &&& forall|e: int, k: int|
        #![trigger sel.self_attested_attributes@[e], req.requested_attributes@[k]]
        0 <= e < sel.self_attested_attributes.len() && 0 <= k < req.requested_attributes.len()
            && req.requested_attributes@[k].referent@ == sel.self_attested_attributes@[e].referent@
            ==> req.requested_attributes@[k].restrictions is None
}

proof fn lemma_bound(
    recs: Seq<StoredCredential>,
    pr: Proof,
    idx: usize,
    schemas: Seq<String>,
    cred_defs: Seq<String>,
    rev_states: Seq<RevRegEntry>,
    rev_reg_defs: Seq<String>,
)
    requires
        idx < pr.identifiers.len(),
        idx < pr.proofs.len(),
        identifier_ok(pr.identifiers@[idx as int], schemas, cred_defs, rev_states),
        registry_from_store(recs, pr.identifiers@[idx as int]),
        forall|x: int|
            0 <= x < recs.len() ==> ((#[trigger] recs[x]).credential.rev_reg_id matches Some(r)
                ==> string_views(rev_reg_defs).contains(r@)),
    ensures
        bound(pr, idx, schemas, cred_defs, rev_reg_defs, rev_states),
{
    let id = pr.identifiers@[idx as int];
    let x = choose|x: int| 0 <= x < recs.len() && (#[trigger] recs[x]).credential.rev_reg_id == id.rev_reg_id;
    assert(recs[x].credential.rev_reg_id == id.rev_reg_id);
}

/// A proof that `create_proof` built is accepted by `verify_proof`: it has
/// the shape the request asks for and every answer holds up. This holds
/// when the credentials the selection chooses meet the restrictions and
/// revocation windows of their referents, and the verifier is given the same
/// schemas and definitions, the prover's revocation states as registries,
/// and the definition of every registry a stored credential names.
pub proof fn lemma_created_proof_verifies(
    store: CredentialStore,
    req: ProofRequest,
    sel: RequestedCredentials,
    schemas: Seq<String>,
    cred_defs: Seq<String>,
    rev_states: Seq<RevRegEntry>,
    rev_reg_defs: Seq<String>,
    pr: Proof,
)
    requires
        store.wf(),
        built(store, req, sel, schemas, cred_defs, rev_states, pr),
        choices_meet_restrictions(store.credentials@, req, sel),
        forall|x: int|
            0 <= x < store.credentials@.len() ==> ((#[trigger] store.credentials@[x]).credential.rev_reg_id matches Some(r)
                ==> string_views(rev_reg_defs).contains(r@)),
    ensures
        structurally_sound(req, pr, schemas, cred_defs, rev_reg_defs, rev_states),
        sound(req, pr),
{
    let p = pr.requested_proof;
    let recs = store.credentials@;
    let ids = pr.identifiers@;
    assert forall|i: int| 0 <= i < p.revealed_attrs.len() implies {
        let a = #[trigger] p.revealed_attrs[i];
        &&& bound(pr, a.sub_proof_index, schemas, cred_defs, rev_reg_defs, rev_states)
        &&& forall|k: int|
            0 <= k < req.requested_attributes.len()
                && #[trigger] req.requested_attributes[k].referent@ == a.referent@
                ==> names_match(req.requested_attributes[k], a)
    } by {
        let a = p.revealed_attrs[i];
        assert(revealed_built(recs, req, pr.proofs@, p.revealed_attrs@[i]));
        lemma_bound(recs, pr, a.sub_proof_index, schemas, cred_defs, rev_states, rev_reg_defs);
    }
    assert forall|i: int| 0 <= i < p.unrevealed_attrs.len() implies bound(
        pr,
        (#[trigger] p.unrevealed_attrs[i]).sub_proof_index,
        schemas,
        cred_defs,
        rev_reg_defs,
        rev_states,
    ) by {
        lemma_bound(recs, pr, p.unrevealed_attrs[i].sub_proof_index, schemas, cred_defs, rev_states, rev_reg_defs);
    }
    assert forall|i: int| 0 <= i < p.predicates.len() implies bound(
        pr,
        (#[trigger] p.predicates[i]).sub_proof_index,
        schemas,
        cred_defs,
        rev_reg_defs,
        rev_states,
    ) by {
        lemma_bound(recs, pr, p.predicates[i].sub_proof_index, schemas, cred_defs, rev_states, rev_reg_defs);
    }
    assert forall|i: int| 0 <= i < p.revealed_attrs.len() implies revealed_sound(req, pr, #[trigger] p.revealed_attrs[i]) by {
        let a = p.revealed_attrs[i];
        assert(revealed_built(recs, req, pr.proofs@, p.revealed_attrs@[i]));
        assert(revealed_origin(recs, sel, ids, p.revealed_attrs@[i]));
        assert forall|j: int| 0 <= j < a.values.len() implies encoded_of(#[trigger] a.values[j].raw@)
            == a.values[j].encoded@ && discloses(
            pr.proofs[a.sub_proof_index as int],
            normalized(a.values[j].name@),
            a.values[j].encoded@,
        ) by {
            assert(stored_value(recs, a.values@[j].raw@, a.values@[j].encoded@));
            let (x, m) = choose|x: int, m: int|
                0 <= x < recs.len() && 0 <= m < recs[x].credential.values.len()
                    && #[trigger] recs[x].credential.values@[m].raw@ == a.values@[j].raw@
                    && recs[x].credential.values@[m].encoded@ == a.values@[j].encoded@;
            assert(encodings_match(recs[x].credential.values@));
            assert(encoded_of(recs[x].credential.values@[m].raw@) == recs[x].credential.values@[m].encoded@);
        }
        assert(values_sound(pr, a));
        let (e, x) = choose|e: int, x: int|
            #![trigger sel.requested_attributes@[e], recs[x]]
            0 <= e < sel.requested_attributes.len() && 0 <= x < recs.len()
                && sel.requested_attributes@[e].referent@ == a.referent@ && sel.requested_attributes@[e].revealed
                && recs[x].id@ == sel.requested_attributes@[e].cred_id@ && a.sub_proof_index < ids.len()
                && ids[a.sub_proof_index as int] == ident_of(recs[x].credential, sel.requested_attributes@[e].timestamp)
                && values_from(recs[x].credential, a.values@);
        let c = recs[x].credential;
        assert forall|k: int|
            0 <= k < req.requested_attributes.len() && #[trigger] req.requested_attributes[k].referent@
                == a.referent@ implies restricted_ok(
            req.requested_attributes[k].restrictions,
            referent_tags(
                pr.identifiers[a.sub_proof_index as int],
                string_views(req.requested_attributes[k].names@),
                a.values@,
            ),
        ) && timely(
            effective(req.requested_attributes[k].non_revoked, req.non_revoked),
            pr.identifiers[a.sub_proof_index as int],
        ) by {
            let info = req.requested_attributes@[k];
            assert(names_match(req.requested_attributes[k], a));
            let cv = chosen_values(c, info.names@);
            assert forall|j: int| 0 <= j < a.values.len() implies (#[trigger] a.values@[j]).name@ == cv[j].name@
                && a.values@[j].raw@ == cv[j].raw@ by {
                assert(a.values@[j].name@ == info.names@[j]@);
            }
            let t1 = referent_tags(ids[a.sub_proof_index as int], string_views(info.names@), a.values@);
            let t2 = referent_tags(ids[a.sub_proof_index as int], string_views(info.names@), cv);
            assert(t1 =~= t2);
            assert(recs[x] == recs[x] && sel.requested_attributes@[e] == sel.requested_attributes@[e]);
        }
    }
    assert forall|i: int| 0 <= i < p.unrevealed_attrs.len() implies unrevealed_sound(
        req,
        pr,
        (#[trigger] p.unrevealed_attrs[i]).referent@,
        p.unrevealed_attrs[i].sub_proof_index,
    ) by {
        let u = p.unrevealed_attrs[i];
        assert(unrevealed_origin(recs, sel, ids, p.unrevealed_attrs@[i]));
        let (e, x) = choose|e: int, x: int|
            #![trigger sel.requested_attributes@[e], recs[x]]
            0 <= e < sel.requested_attributes.len() && 0 <= x < recs.len()
                && sel.requested_attributes@[e].referent@ == u.referent@ && !sel.requested_attributes@[e].revealed
                && recs[x].id@ == sel.requested_attributes@[e].cred_id@ && u.sub_proof_index < ids.len()
                && ids[u.sub_proof_index as int] == ident_of(recs[x].credential, sel.requested_attributes@[e].timestamp);
        assert forall|k: int|
            0 <= k < req.requested_attributes.len() && #[trigger] req.requested_attributes[k].referent@
                == u.referent@ implies restricted_ok(
            req.requested_attributes[k].restrictions,
            referent_tags(
                pr.identifiers[u.sub_proof_index as int],
                string_views(req.requested_attributes[k].names@),
                Seq::empty(),
            ),
        ) && timely(
            effective(req.requested_attributes[k].non_revoked, req.non_revoked),
            pr.identifiers[u.sub_proof_index as int],
        ) by {
            assert(recs[x] == recs[x] && sel.requested_attributes@[e] == sel.requested_attributes@[e]
                && req.requested_attributes@[k] == req.requested_attributes@[k]);
        }
    }
    assert forall|i: int| 0 <= i < p.self_attested_attrs.len() implies self_attested_sound(
        req,
        (#[trigger] p.self_attested_attrs[i]).referent@,
    ) by {
        assert(p.self_attested_attrs@[i].referent@ == sel.self_attested_attributes@[i].referent@);
        assert forall|k: int|
            0 <= k < req.requested_attributes.len() && #[trigger] req.requested_attributes[k].referent@
                == p.self_attested_attrs[i].referent@ implies req.requested_attributes[k].restrictions is None by {
            assert(sel.self_attested_attributes@[i] == sel.self_attested_attributes@[i]
                && req.requested_attributes@[k] == req.requested_attributes@[k]);
        }
    }
    assert forall|i: int| 0 <= i < p.predicates.len() implies predicate_sound(
        req,
        pr,
        (#[trigger] p.predicates[i]).referent@,
        p.predicates[i].sub_proof_index,
    ) by {
        let u = p.predicates[i];
        assert(predicate_built(req, pr.proofs@, p.predicates@[i]));
        assert(predicate_origin(recs, sel, ids, p.predicates@[i]));
        let (e, x) = choose|e: int, x: int|
            #![trigger sel.requested_predicates@[e], recs[x]]
            0 <= e < sel.requested_predicates.len() && 0 <= x < recs.len()
                && sel.requested_predicates@[e].referent@ == u.referent@
                && recs[x].id@ == sel.requested_predicates@[e].cred_id@ && u.sub_proof_index < ids.len()
                && ids[u.sub_proof_index as int] == ident_of(recs[x].credential, sel.requested_predicates@[e].timestamp);
        assert forall|k: int|
            0 <= k < req.requested_predicates.len() && #[trigger] req.requested_predicates[k].referent@
                == u.referent@ implies {
            let info = req.requested_predicates[k];
            &&& proves(pr.proofs[u.sub_proof_index as int], normalized(info.name@), info.p_type, info.p_value)
            &&& restricted_ok(
                info.restrictions,
                referent_tags(
                    pr.identifiers[u.sub_proof_index as int],
                    seq![info.name@],
                    Seq::empty(),
                ),
            )
            &&& timely(effective(info.non_revoked, req.non_revoked), pr.identifiers[u.sub_proof_index as int])
        } by {
            assert(recs[x] == recs[x] && sel.requested_predicates@[e] == sel.requested_predicates@[e]
                && req.requested_predicates@[k] == req.requested_predicates@[k]);
        }
    }
}

} // verus!
