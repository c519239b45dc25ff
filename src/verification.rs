use vstd::prelude::*;
use crate::encoding::{encoded_of, encode_attr};
use crate::error::ErrorKind;
use crate::presentation::{
    Identifier, Proof, RequestedProof, RevRegEntry, RevealedAttr, RevealedValue, SubProof,
};
use crate::proof_request::{
    AttributeInfo, Interval, PredicateType, ProofRequest, effective, effective_interval, in_interval,
    is_in_interval,
};
use crate::tags::{identity_pairs, identity_tags, list_has, marker_key, rev_reg_tag, string_views, value_key};
use crate::text::{concat3, normalize_attr_name, normalized};
use crate::wql::{Query, Tag, eval_query, holds, tag_pairs};

verus! {

/// No key occurs twice.
pub open spec fn distinct(s: Seq<Seq<char>>) -> bool {
    forall|i: int, j: int| 0 <= i < j < s.len() ==> s[i] != s[j]
}

/// `a` holds each key of `b` exactly once, and nothing else.
pub open spec fn same_keys(a: Seq<Seq<char>>, b: Seq<Seq<char>>) -> bool {
    &&& distinct(a)
    &&& forall|i: int| 0 <= i < a.len() ==> b.contains(#[trigger] a[i])
    &&& forall|j: int| 0 <= j < b.len() ==> a.contains(#[trigger] b[j])
}

/// The attribute referents that a proof answers: revealed, unrevealed, then self-attested.
pub open spec fn answered_attr_keys(p: RequestedProof) -> Seq<Seq<char>> {
    Seq::new(p.revealed_attrs.len() as nat, |i: int| p.revealed_attrs[i].referent@) + Seq::new(
        p.unrevealed_attrs.len() as nat,
        |i: int| p.unrevealed_attrs[i].referent@,
    ) + Seq::new(p.self_attested_attrs.len() as nat, |i: int| p.self_attested_attrs[i].referent@)
}

pub open spec fn answered_pred_keys(p: RequestedProof) -> Seq<Seq<char>> {
    Seq::new(p.predicates.len() as nat, |i: int| p.predicates[i].referent@)
}

pub open spec fn requested_attr_keys(req: ProofRequest) -> Seq<Seq<char>> {
    Seq::new(
        req.requested_attributes.len() as nat,
        |i: int| req.requested_attributes[i].referent@,
    )
}

pub open spec fn requested_pred_keys(req: ProofRequest) -> Seq<Seq<char>> {
    Seq::new(
        req.requested_predicates.len() as nat,
        |i: int| req.requested_predicates[i].referent@,
    )
}

/// Every referent of the request is answered exactly once, and no other.
pub open spec fn covered(req: ProofRequest, p: RequestedProof) -> bool {
    same_keys(answered_attr_keys(p), requested_attr_keys(req)) && same_keys(
        answered_pred_keys(p),
        requested_pred_keys(req),
    )
}

pub open spec fn has_rev_reg(rrs: Seq<RevRegEntry>, r: Seq<char>, t: u64) -> bool {
    exists|i: int| 0 <= i < rrs.len() && #[trigger] rrs[i].rev_reg_id@ == r && rrs[i].timestamp == t
}

/// Sub-proof `idx` exists and its identifiers name artefacts that the verifier holds.
pub open spec fn bound(
    pr: Proof,
    idx: usize,
    schemas: Seq<String>,
    cred_defs: Seq<String>,
    rev_reg_defs: Seq<String>,
    rev_regs: Seq<RevRegEntry>,
) -> bool {
    &&& idx < pr.identifiers.len()
    &&& idx < pr.proofs.len()
    &&& {
        let id = pr.identifiers[idx as int];
        &&& string_views(schemas).contains(id.schema_id@)
        &&& string_views(cred_defs).contains(id.cred_def_id@)
        &&& identity_pairs(id.schema_id@, id.cred_def_id@, rev_reg_tag(id.rev_reg_id)) is Some
        &&& match id.rev_reg_id {
            Some(r) => string_views(rev_reg_defs).contains(r@) && match id.timestamp {
                Some(t) => has_rev_reg(rev_regs, r@, t),
                None => true,
            },
            None => true,
        }
    }
}

/// The revealed values carry the names that the referent asks for, in order.
pub open spec fn names_match(info: AttributeInfo, a: RevealedAttr) -> bool {
    &&& a.values.len() == info.names.len()
    &&& forall|j: int| 0 <= j < a.values.len() ==> #[trigger] a.values[j].name@ == info.names[j]@
}

/// The proof has the shape the request asks for and names only known artefacts.
pub open spec fn structurally_sound(
    req: ProofRequest,
    pr: Proof,
    schemas: Seq<String>,
    cred_defs: Seq<String>,
    rev_reg_defs: Seq<String>,
    rev_regs: Seq<RevRegEntry>,
) -> bool {
    let p = pr.requested_proof;
    &&& covered(req, p)
    &&& forall|i: int|
        0 <= i < p.revealed_attrs.len() ==> {
            let a = #[trigger] p.revealed_attrs[i];
            &&& bound(pr, a.sub_proof_index, schemas, cred_defs, rev_reg_defs, rev_regs)
            &&& forall|k: int|
                0 <= k < req.requested_attributes.len()
                    && #[trigger] req.requested_attributes[k].referent@ == a.referent@
                    ==> names_match(req.requested_attributes[k], a)
        }
    &&& forall|i: int|
        0 <= i < p.unrevealed_attrs.len() ==> bound(
            pr,
            (#[trigger] p.unrevealed_attrs[i]).sub_proof_index,
            schemas,
            cred_defs,
            rev_reg_defs,
            rev_regs,
        )
    &&& forall|i: int|
        0 <= i < p.predicates.len() ==> bound(
            pr,
            (#[trigger] p.predicates[i]).sub_proof_index,
            schemas,
            cred_defs,
            rev_reg_defs,
            rev_regs,
        )
}

/// The tags that a referent's restrictions are evaluated on: those of the
/// credential's identifiers, a marker for each requested name, and the
/// value of each revealed attribute.
pub open spec fn referent_tags(id: Identifier, names: Seq<Seq<char>>, vals: Seq<RevealedValue>) -> Seq<
    (Seq<char>, Seq<char>),
> {
    identity_pairs(id.schema_id@, id.cred_def_id@, rev_reg_tag(id.rev_reg_id))->Some_0 + Seq::new(
        names.len(),
        |i: int| (marker_key(normalized(names[i])), "1"@),
    ) + Seq::new(vals.len(), |i: int| (value_key(normalized(vals[i].name@)), vals[i].raw@))
}

pub open spec fn restricted_ok(q: Option<Query>, tags: Seq<(Seq<char>, Seq<char>)>) -> bool {
    match q {
        None => true,
        Some(q) => holds(q, tags),
    }
}

/// A revocable credential was shown at a time inside the window.
pub open spec fn timely(iv: Option<Interval>, id: Identifier) -> bool {
    match iv {
        None => true,
        Some(i) => id.rev_reg_id is None || (id.timestamp matches Some(t) && in_interval(i, t)),
    }
}

pub open spec fn discloses(sp: SubProof, n: Seq<char>, e: Seq<char>) -> bool {
    exists|k: int|
        0 <= k < sp.revealed.len() && #[trigger] sp.revealed[k].name@ == n && sp.revealed[k].encoded@
            == e
}

pub open spec fn proves(sp: SubProof, n: Seq<char>, t: PredicateType, v: i32) -> bool {
    exists|k: int|
        0 <= k < sp.predicates.len() && #[trigger] sp.predicates[k].name@ == n
            && sp.predicates[k].p_type == t && sp.predicates[k].p_value == v
}

/// Each revealed value is the encoding of its raw text and is the one the sub-proof discloses.
pub open spec fn values_sound(pr: Proof, a: RevealedAttr) -> bool {
    forall|j: int|
        0 <= j < a.values.len() ==> encoded_of(#[trigger] a.values[j].raw@) == a.values[j].encoded@
            && discloses(
            pr.proofs[a.sub_proof_index as int],
            normalized(a.values[j].name@),
            a.values[j].encoded@,
        )
}

pub open spec fn revealed_sound(req: ProofRequest, pr: Proof, a: RevealedAttr) -> bool {
    let id = pr.identifiers[a.sub_proof_index as int];
    &&& values_sound(pr, a)
    &&& forall|k: int|
        0 <= k < req.requested_attributes.len() && #[trigger] req.requested_attributes[k].referent@
            == a.referent@ ==> {
            let info = req.requested_attributes[k];
            &&& restricted_ok(info.restrictions, referent_tags(id, string_views(info.names@), a.values@))
            &&& timely(effective(info.non_revoked, req.non_revoked), id)
        }
}

pub open spec fn unrevealed_sound(req: ProofRequest, pr: Proof, referent: Seq<char>, idx: usize) -> bool {
    let id = pr.identifiers[idx as int];
    forall|k: int|
        0 <= k < req.requested_attributes.len() && #[trigger] req.requested_attributes[k].referent@
            == referent ==> {
            let info = req.requested_attributes[k];
            &&& restricted_ok(info.restrictions, referent_tags(id, string_views(info.names@), Seq::empty()))
            &&& timely(effective(info.non_revoked, req.non_revoked), id)
        }
}

/// A self-attested answer is only accepted for a referent without restrictions.
pub open spec fn self_attested_sound(req: ProofRequest, referent: Seq<char>) -> bool {
    forall|k: int|
        0 <= k < req.requested_attributes.len() && #[trigger] req.requested_attributes[k].referent@
            == referent ==> req.requested_attributes[k].restrictions is None
}

pub open spec fn predicate_sound(req: ProofRequest, pr: Proof, referent: Seq<char>, idx: usize) -> bool {
    let id = pr.identifiers[idx as int];
    forall|k: int|
        0 <= k < req.requested_predicates.len() && #[trigger] req.requested_predicates[k].referent@
            == referent ==> {
            let info = req.requested_predicates[k];
            &&& proves(pr.proofs[idx as int], normalized(info.name@), info.p_type, info.p_value)
            &&& restricted_ok(info.restrictions, referent_tags(id, seq![info.name@], Seq::empty()))
            &&& timely(effective(info.non_revoked, req.non_revoked), id)
        }
}

/// Every answer holds up: values, restrictions, predicates and revocation windows.
pub open spec fn sound(req: ProofRequest, pr: Proof) -> bool {
    let p = pr.requested_proof;
    &&& forall|i: int|
        0 <= i < p.revealed_attrs.len() ==> revealed_sound(req, pr, #[trigger] p.revealed_attrs[i])
    &&& forall|i: int|
        0 <= i < p.unrevealed_attrs.len() ==> unrevealed_sound(
            req,
            pr,
            (#[trigger] p.unrevealed_attrs[i]).referent@,
            p.unrevealed_attrs[i].sub_proof_index,
        )
    &&& forall|i: int|
        0 <= i < p.self_attested_attrs.len() ==> self_attested_sound(
            req,
            (#[trigger] p.self_attested_attrs[i]).referent@,
        )
    &&& forall|i: int|
        0 <= i < p.predicates.len() ==> predicate_sound(
            req,
            pr,
            (#[trigger] p.predicates[i]).referent@,
            p.predicates[i].sub_proof_index,
        )
}


fn push_key(r: &mut Vec<String>, k: &String)
    ensures
        string_views(final(r)@) == string_views(old(r)@).push(k@),
{
    r.push(k.clone());
    assert(string_views(r@) =~= string_views(old(r)@).push(k@));
}

#[verifier::loop_isolation(false)]
pub fn attr_key_list(p: &RequestedProof) -> (r: Vec<String>)
    ensures
        string_views(r@) == answered_attr_keys(*p),
{
    let mut r: Vec<String> = Vec::new();
    let ghost s1 = Seq::new(p.revealed_attrs.len() as nat, |i: int| p.revealed_attrs[i].referent@);
    let ghost s2 = Seq::new(p.unrevealed_attrs.len() as nat, |i: int| p.unrevealed_attrs[i].referent@);
    let ghost s3 = Seq::new(
        p.self_attested_attrs.len() as nat,
        |i: int| p.self_attested_attrs[i].referent@,
    );
    let mut i: usize = 0;
    while i < p.revealed_attrs.len()
        invariant
            i <= p.revealed_attrs.len(),
            string_views(r@) == s1.take(i as int),
        decreases p.revealed_attrs.len() - i,
    {
        push_key(&mut r, &p.revealed_attrs[i].referent);
        assert(s1.take(i + 1) =~= s1.take(i as int).push(s1[i as int]));
        i = i + 1;
    }
    assert(s1.take(i as int) =~= s1);
    let mut i: usize = 0;
    while i < p.unrevealed_attrs.len()
        invariant
            i <= p.unrevealed_attrs.len(),
            string_views(r@) == s1 + s2.take(i as int),
        decreases p.unrevealed_attrs.len() - i,
    {
        push_key(&mut r, &p.unrevealed_attrs[i].referent);
        assert(s1 + s2.take(i + 1) =~= (s1 + s2.take(i as int)).push(s2[i as int]));
        i = i + 1;
    }
    assert(s2.take(i as int) =~= s2);
    let mut i: usize = 0;
    while i < p.self_attested_attrs.len()
        invariant
            i <= p.self_attested_attrs.len(),
            string_views(r@) == s1 + s2 + s3.take(i as int),
        decreases p.self_attested_attrs.len() - i,
    {
        push_key(&mut r, &p.self_attested_attrs[i].referent);
        assert(s1 + s2 + s3.take(i + 1) =~= (s1 + s2 + s3.take(i as int)).push(s3[i as int]));
        i = i + 1;
    }
    assert(s3.take(i as int) =~= s3);
    r
}

pub fn pred_key_list(p: &RequestedProof) -> (r: Vec<String>)
    ensures
        string_views(r@) == answered_pred_keys(*p),
{
    let mut r: Vec<String> = Vec::new();
    let mut i: usize = 0;
    while i < p.predicates.len()
        invariant
            i <= p.predicates.len(),
            string_views(r@) == answered_pred_keys(*p).take(i as int),
        decreases p.predicates.len() - i,
    {
        push_key(&mut r, &p.predicates[i].referent);
        assert(answered_pred_keys(*p).take(i + 1) =~= answered_pred_keys(*p).take(i as int).push(
            p.predicates[i as int].referent@,
        ));
        i = i + 1;
    }
    assert(answered_pred_keys(*p).take(i as int) =~= answered_pred_keys(*p));
    r
}

pub fn request_key_lists(req: &ProofRequest) -> (r: (Vec<String>, Vec<String>))
    ensures
        string_views(r.0@) == requested_attr_keys(*req),
        string_views(r.1@) == requested_pred_keys(*req),
{
    let mut a: Vec<String> = Vec::new();
    let mut i: usize = 0;
    while i < req.requested_attributes.len()
        invariant
            i <= req.requested_attributes.len(),
            string_views(a@) == requested_attr_keys(*req).take(i as int),
        decreases req.requested_attributes.len() - i,
    {
        push_key(&mut a, &req.requested_attributes[i].referent);
        assert(requested_attr_keys(*req).take(i + 1) =~= requested_attr_keys(*req).take(i as int).push(
            req.requested_attributes[i as int].referent@,
        ));
        i = i + 1;
    }
    assert(requested_attr_keys(*req).take(i as int) =~= requested_attr_keys(*req));
    let mut b: Vec<String> = Vec::new();
    let mut i: usize = 0;
    while i < req.requested_predicates.len()
        invariant
            i <= req.requested_predicates.len(),
            string_views(b@) == requested_pred_keys(*req).take(i as int),
        decreases req.requested_predicates.len() - i,
    {
        push_key(&mut b, &req.requested_predicates[i].referent);
        assert(requested_pred_keys(*req).take(i + 1) =~= requested_pred_keys(*req).take(i as int).push(
            req.requested_predicates[i as int].referent@,
        ));
        i = i + 1;
    }
    assert(requested_pred_keys(*req).take(i as int) =~= requested_pred_keys(*req));
    (a, b)
}

pub fn all_distinct(v: &Vec<String>) -> (r: bool)
    ensures
        r == distinct(string_views(v@)),
{
    let ghost s = string_views(v@);
    let mut j: usize = 0;
    while j < v.len()
        invariant
            j <= v.len(),
            s == string_views(v@),
            forall|a: int, b: int| 0 <= a < b < j ==> s[a] != s[b],
        decreases v.len() - j,
    {
        let mut i: usize = 0;
        while i < j
            invariant
                i <= j < v.len(),
                s == string_views(v@),
                forall|a: int, b: int| 0 <= a < b < j ==> s[a] != s[b],
                forall|a: int| 0 <= a < i ==> s[a] != s[j as int],
            decreases j - i,
        {
            if v[i] == v[j] {
                assert(s[i as int] == s[j as int]);
                return false;
            }
            i = i + 1;
        }
        j = j + 1;
    }
    true
}

fn all_in(a: &Vec<String>, b: &Vec<String>) -> (r: bool)
    ensures
        r == forall|i: int|
            0 <= i < a.len() ==> string_views(b@).contains(#[trigger] string_views(a@)[i]),
{
    let mut i: usize = 0;
    while i < a.len()
        invariant
            i <= a.len(),
            forall|k: int| 0 <= k < i ==> string_views(b@).contains(#[trigger] string_views(a@)[k]),
        decreases a.len() - i,
    {
        if !list_has(b, &a[i]) {
            assert(!string_views(b@).contains(string_views(a@)[i as int]));
            return false;
        }
        i = i + 1;
    }
    true
}

pub fn keys_match(a: &Vec<String>, b: &Vec<String>) -> (r: bool)
    ensures
        r == same_keys(string_views(a@), string_views(b@)),
{
    all_distinct(a) && all_in(a, b) && all_in(b, a)
}

pub fn rev_reg_known(rrs: &Vec<RevRegEntry>, r: &String, t: u64) -> (b: bool)
    ensures
        b == has_rev_reg(rrs@, r@, t),
{
    let mut i: usize = 0;
    while i < rrs.len()
        invariant
            i <= rrs.len(),
            forall|k: int| 0 <= k < i ==> !(#[trigger] rrs@[k].rev_reg_id@ == r@ && rrs@[k].timestamp == t),
        decreases rrs.len() - i,
    {
        if rrs[i].rev_reg_id == *r && rrs[i].timestamp == t {
            assert(rrs@[i as int].rev_reg_id@ == r@);
            return true;
        }
        i = i + 1;
    }
    false
}

fn is_bound(
    pr: &Proof,
    idx: usize,
    schemas: &Vec<String>,
    cred_defs: &Vec<String>,
    rev_reg_defs: &Vec<String>,
    rev_regs: &Vec<RevRegEntry>,
) -> (r: bool)
    ensures
        r == bound(*pr, idx, schemas@, cred_defs@, rev_reg_defs@, rev_regs@),
{
    if idx >= pr.identifiers.len() || idx >= pr.proofs.len() {
        return false;
    }
    let id = &pr.identifiers[idx];
    if !list_has(schemas, &id.schema_id) || !list_has(cred_defs, &id.cred_def_id) {
        return false;
    }
    if identity_tags(&id.schema_id, &id.cred_def_id, &id.rev_reg_id).is_err() {
        return false;
    }
    match &id.rev_reg_id {
        Some(r) => list_has(rev_reg_defs, r) && match id.timestamp {
            Some(t) => rev_reg_known(rev_regs, r, t),
            None => true,
        },
        None => true,
    }
}

pub fn names_agree(info: &AttributeInfo, a: &RevealedAttr) -> (r: bool)
    ensures
        r == names_match(*info, *a),
{
    if a.values.len() != info.names.len() {
        return false;
    }
    let mut j: usize = 0;
    while j < a.values.len()
        invariant
            j <= a.values.len(),
            a.values.len() == info.names.len(),
            forall|k: int| 0 <= k < j ==> #[trigger] a.values@[k].name@ == info.names@[k]@,
        decreases a.values.len() - j,
    {
        if a.values[j].name != info.names[j] {
            return false;
        }
        j = j + 1;
    }
    true
}

/// Checks the shape of a proof against the request and the artefacts the verifier holds.
#[verifier::loop_isolation(false)]
pub fn check_structure(
    req: &ProofRequest,
    pr: &Proof,
    schemas: &Vec<String>,
    cred_defs: &Vec<String>,
    rev_reg_defs: &Vec<String>,
    rev_regs: &Vec<RevRegEntry>,
) -> (r: bool)
    ensures
        r == structurally_sound(*req, *pr, schemas@, cred_defs@, rev_reg_defs@, rev_regs@),
{
    let p = &pr.requested_proof;
    let answered_attrs = attr_key_list(p);
    let answered_preds = pred_key_list(p);
    let (asked_attrs, asked_preds) = request_key_lists(req);
    if !keys_match(&answered_attrs, &asked_attrs) || !keys_match(&answered_preds, &asked_preds) {
        return false;
    }
    let mut i: usize = 0;
    while i < p.revealed_attrs.len()
        invariant
            i <= p.revealed_attrs.len(),
            forall|x: int|
                0 <= x < i ==> {
                    let a = #[trigger] p.revealed_attrs@[x];
                    &&& bound(*pr, a.sub_proof_index, schemas@, cred_defs@, rev_reg_defs@, rev_regs@)
                    &&& forall|k: int|
                        0 <= k < req.requested_attributes.len()
                            && #[trigger] req.requested_attributes@[k].referent@ == a.referent@
                            ==> names_match(req.requested_attributes@[k], a)
                },
        decreases p.revealed_attrs.len() - i,
    {
        let a = &p.revealed_attrs[i];
        if !is_bound(pr, a.sub_proof_index, schemas, cred_defs, rev_reg_defs, rev_regs) {
            return false;
        }
        let mut k: usize = 0;
        while k < req.requested_attributes.len()
            invariant
                k <= req.requested_attributes.len(),
                forall|y: int|
                    0 <= y < k && #[trigger] req.requested_attributes@[y].referent@ == a.referent@
                        ==> names_match(req.requested_attributes@[y], *a),
            decreases req.requested_attributes.len() - k,
        {
            if req.requested_attributes[k].referent == a.referent && !names_agree(
                &req.requested_attributes[k],
                a,
            ) {
                return false;
            }
            k = k + 1;
        }
        i = i + 1;
    }
    let mut i: usize = 0;
    while i < p.unrevealed_attrs.len()
        invariant
            i <= p.unrevealed_attrs.len(),
            forall|x: int|
                0 <= x < i ==> bound(
                    *pr,
                    (#[trigger] p.unrevealed_attrs@[x]).sub_proof_index,
                    schemas@,
                    cred_defs@,
                    rev_reg_defs@,
                    rev_regs@,
                ),
        decreases p.unrevealed_attrs.len() - i,
    {
        if !is_bound(pr, p.unrevealed_attrs[i].sub_proof_index, schemas, cred_defs, rev_reg_defs, rev_regs) {
            return false;
        }
        i = i + 1;
    }
    let mut i: usize = 0;
    while i < p.predicates.len()
        invariant
            i <= p.predicates.len(),
            forall|x: int|
                0 <= x < i ==> bound(
                    *pr,
                    (#[trigger] p.predicates@[x]).sub_proof_index,
                    schemas@,
                    cred_defs@,
                    rev_reg_defs@,
                    rev_regs@,
                ),
        decreases p.predicates.len() - i,
    {
        if !is_bound(pr, p.predicates[i].sub_proof_index, schemas, cred_defs, rev_reg_defs, rev_regs) {
            return false;
        }
        i = i + 1;
    }
    true
}


/// The tags a referent's restrictions are evaluated on.
#[verifier::loop_isolation(false)]
fn referent_tag_list(id: &Identifier, names: &Vec<String>, vals: &Vec<RevealedValue>) -> (r: Vec<Tag>)
    requires
        identity_pairs(id.schema_id@, id.cred_def_id@, rev_reg_tag(id.rev_reg_id)) is Some,
    ensures
        tag_pairs(r@) == referent_tags(*id, string_views(names@), vals@),
{
    let mut tags = match identity_tags(&id.schema_id, &id.cred_def_id, &id.rev_reg_id) {
        Ok(t) => t,
        Err(_) => Vec::new(),
    };
    let ghost base = tag_pairs(tags@);
    let ghost ms = Seq::new(names@.len(), |i: int| (marker_key(normalized(string_views(names@)[i])), "1"@));
    let ghost vs = Seq::new(vals@.len(), |i: int| (value_key(normalized(vals@[i].name@)), vals@[i].raw@));
    let mut i: usize = 0;
    while i < names.len()
        invariant
            i <= names.len(),
            tag_pairs(tags@) == base + ms.take(i as int),
        decreases names.len() - i,
    {
        let n = normalize_attr_name(names[i].as_str());
        let k = concat3("attr::", n.as_str(), "::marker");
        let one = crate::text::text("1");
        let ghost before = tags@;
        let ghost pair = (k@, one@);
        tags.push(Tag { name: k, value: one });
        assert(tag_pairs(tags@) =~= tag_pairs(before).push(pair));
        assert(ms[i as int] == pair);
        assert(ms.take(i + 1) =~= ms.take(i as int).push(ms[i as int]));
        assert(tag_pairs(tags@) =~= base + ms.take(i + 1));
        i = i + 1;
    }
    assert(ms.take(i as int) =~= ms);
    let mut j: usize = 0;
    while j < vals.len()
        invariant
            j <= vals.len(),
            tag_pairs(tags@) == base + ms + vs.take(j as int),
        decreases vals.len() - j,
    {
        let n = normalize_attr_name(vals[j].name.as_str());
        let k = concat3("attr::", n.as_str(), "::value");
        let ghost before = tags@;
        let raw = vals[j].raw.clone();
        let ghost pair = (k@, raw@);
        tags.push(Tag { name: k, value: raw });
        assert(tag_pairs(tags@) =~= tag_pairs(before).push(pair));
        assert(vs[j as int] == pair);
        assert(vs.take(j + 1) =~= vs.take(j as int).push(vs[j as int]));
        assert(tag_pairs(tags@) =~= base + ms + vs.take(j + 1));
        j = j + 1;
    }
    assert(vs.take(j as int) =~= vs);
    tags
}

fn restriction_ok(q: &Option<Query>, tags: &Vec<Tag>) -> (r: bool)
    ensures
        r == restricted_ok(*q, tag_pairs(tags@)),
{
    match q {
        None => true,
        Some(q) => eval_query(q, tags),
    }
}

fn is_timely(iv: Option<Interval>, id: &Identifier) -> (r: bool)
    ensures
        r == timely(iv, *id),
{
    match iv {
        None => true,
        Some(i) => id.rev_reg_id.is_none() || match id.timestamp {
            Some(t) => is_in_interval(i, t),
            None => false,
        },
    }
}

fn discloses_value(sp: &SubProof, n: &String, e: &String) -> (r: bool)
    ensures
        r == discloses(*sp, n@, e@),
{
    let mut k: usize = 0;
    while k < sp.revealed.len()
        invariant
            k <= sp.revealed.len(),
            forall|x: int|
                0 <= x < k ==> !(#[trigger] sp.revealed@[x].name@ == n@ && sp.revealed@[x].encoded@
                    == e@),
        decreases sp.revealed.len() - k,
    {
        if sp.revealed[k].name == *n && sp.revealed[k].encoded == *e {
            assert(sp.revealed@[k as int].name@ == n@);
            return true;
        }
        k = k + 1;
    }
    false
}

fn proves_predicate(sp: &SubProof, n: &String, t: PredicateType, v: i32) -> (r: bool)
    ensures
        r == proves(*sp, n@, t, v),
{
    let mut k: usize = 0;
    while k < sp.predicates.len()
        invariant
            k <= sp.predicates.len(),
            forall|x: int|
                0 <= x < k ==> !(#[trigger] sp.predicates@[x].name@ == n@ && sp.predicates@[x].p_type
                    == t && sp.predicates@[x].p_value == v),
        decreases sp.predicates.len() - k,
    {
        if sp.predicates[k].name == *n && sp.predicates[k].p_type == t && sp.predicates[k].p_value == v {
            assert(sp.predicates@[k as int].name@ == n@);
            return true;
        }
        k = k + 1;
    }
    false
}

fn values_ok(pr: &Proof, a: &RevealedAttr) -> (r: bool)
    requires
        a.sub_proof_index < pr.proofs.len(),
    ensures
        r == values_sound(*pr, *a),
{
    let sp = &pr.proofs[a.sub_proof_index];
    let mut j: usize = 0;
    while j < a.values.len()
        invariant
            j <= a.values.len(),
            a.sub_proof_index < pr.proofs.len(),
            *sp == pr.proofs@[a.sub_proof_index as int],
            forall|x: int|
                0 <= x < j ==> encoded_of(#[trigger] a.values@[x].raw@) == a.values@[x].encoded@
                    && discloses(*sp, normalized(a.values@[x].name@), a.values@[x].encoded@),
        decreases a.values.len() - j,
    {
        let v = &a.values[j];
        let e = encode_attr(v.raw.as_str());
        let n = normalize_attr_name(v.name.as_str());
        if e != v.encoded || !discloses_value(sp, &n, &v.encoded) {
            return false;
        }
        j = j + 1;
    }
    true
}

fn revealed_ok(req: &ProofRequest, pr: &Proof, a: &RevealedAttr) -> (r: bool)
    requires
        a.sub_proof_index < pr.identifiers.len(),
        a.sub_proof_index < pr.proofs.len(),
        identity_pairs(
            pr.identifiers@[a.sub_proof_index as int].schema_id@,
            pr.identifiers@[a.sub_proof_index as int].cred_def_id@,
            rev_reg_tag(pr.identifiers@[a.sub_proof_index as int].rev_reg_id),
        ) is Some,
    ensures
        r == revealed_sound(*req, *pr, *a),
{
    if !values_ok(pr, a) {
        return false;
    }
    let id = &pr.identifiers[a.sub_proof_index];
    let mut k: usize = 0;
    while k < req.requested_attributes.len()
        invariant
            k <= req.requested_attributes.len(),
            *id == pr.identifiers@[a.sub_proof_index as int],
            identity_pairs(id.schema_id@, id.cred_def_id@, rev_reg_tag(id.rev_reg_id)) is Some,
            forall|y: int|
                0 <= y < k && #[trigger] req.requested_attributes@[y].referent@ == a.referent@ ==> {
                    let info = req.requested_attributes@[y];
                    &&& restricted_ok(
                        info.restrictions,
                        referent_tags(*id, string_views(info.names@), a.values@),
                    )
                    &&& timely(effective(info.non_revoked, req.non_revoked), *id)
                },
        decreases req.requested_attributes.len() - k,
    {
        let info = &req.requested_attributes[k];
        if info.referent == a.referent {
            let tags = referent_tag_list(id, &info.names, &a.values);
            if !restriction_ok(&info.restrictions, &tags) || !is_timely(
                effective_interval(info.non_revoked, req.non_revoked),
                id,
            ) {
                return false;
            }
        }
        k = k + 1;
    }
    true
}

fn unrevealed_ok(req: &ProofRequest, pr: &Proof, referent: &String, idx: usize) -> (r: bool)
    requires
        idx < pr.identifiers.len(),
        identity_pairs(
            pr.identifiers@[idx as int].schema_id@,
            pr.identifiers@[idx as int].cred_def_id@,
            rev_reg_tag(pr.identifiers@[idx as int].rev_reg_id),
        ) is Some,
    ensures
        r == unrevealed_sound(*req, *pr, referent@, idx),
{
    let id = &pr.identifiers[idx];
    let none: Vec<RevealedValue> = Vec::new();
    let mut k: usize = 0;
    while k < req.requested_attributes.len()
        invariant
            k <= req.requested_attributes.len(),
            *id == pr.identifiers@[idx as int],
            none@ == Seq::<RevealedValue>::empty(),
            identity_pairs(id.schema_id@, id.cred_def_id@, rev_reg_tag(id.rev_reg_id)) is Some,
            forall|y: int|
                0 <= y < k && #[trigger] req.requested_attributes@[y].referent@ == referent@ ==> {
                    let info = req.requested_attributes@[y];
                    &&& restricted_ok(
                        info.restrictions,
                        referent_tags(*id, string_views(info.names@), Seq::empty()),
                    )
                    &&& timely(effective(info.non_revoked, req.non_revoked), *id)
                },
        decreases req.requested_attributes.len() - k,
    {
        let info = &req.requested_attributes[k];
        if info.referent == *referent {
            let tags = referent_tag_list(id, &info.names, &none);
            if !restriction_ok(&info.restrictions, &tags) || !is_timely(
                effective_interval(info.non_revoked, req.non_revoked),
                id,
            ) {
                return false;
            }
        }
        k = k + 1;
    }
    true
}

fn self_attested_ok(req: &ProofRequest, referent: &String) -> (r: bool)
    ensures
        r == self_attested_sound(*req, referent@),
{
    let mut k: usize = 0;
    while k < req.requested_attributes.len()
        invariant
            k <= req.requested_attributes.len(),
            forall|y: int|
                0 <= y < k && #[trigger] req.requested_attributes@[y].referent@ == referent@
                    ==> req.requested_attributes@[y].restrictions is None,
        decreases req.requested_attributes.len() - k,
    {
        if req.requested_attributes[k].referent == *referent
            && req.requested_attributes[k].restrictions.is_some() {
            return false;
        }
        k = k + 1;
    }
    true
}

fn predicate_ok(req: &ProofRequest, pr: &Proof, referent: &String, idx: usize) -> (r: bool)
    requires
        idx < pr.identifiers.len(),
        idx < pr.proofs.len(),
        identity_pairs(
            pr.identifiers@[idx as int].schema_id@,
            pr.identifiers@[idx as int].cred_def_id@,
            rev_reg_tag(pr.identifiers@[idx as int].rev_reg_id),
        ) is Some,
    ensures
        r == predicate_sound(*req, *pr, referent@, idx),
{
    let id = &pr.identifiers[idx];
    let sp = &pr.proofs[idx];
    let none: Vec<RevealedValue> = Vec::new();
    let mut k: usize = 0;
    while k < req.requested_predicates.len()
        invariant
            k <= req.requested_predicates.len(),
            *id == pr.identifiers@[idx as int],
            *sp == pr.proofs@[idx as int],
            none@ == Seq::<RevealedValue>::empty(),
            identity_pairs(id.schema_id@, id.cred_def_id@, rev_reg_tag(id.rev_reg_id)) is Some,
            forall|y: int|
                0 <= y < k && #[trigger] req.requested_predicates@[y].referent@ == referent@ ==> {
                    let info = req.requested_predicates@[y];
                    &&& proves(*sp, normalized(info.name@), info.p_type, info.p_value)
                    &&& restricted_ok(info.restrictions, referent_tags(*id, seq![info.name@], Seq::empty()))
                    &&& timely(effective(info.non_revoked, req.non_revoked), *id)
                },
        decreases req.requested_predicates.len() - k,
    {
        let info = &req.requested_predicates[k];
        if info.referent == *referent {
            let n = normalize_attr_name(info.name.as_str());
            let mut names: Vec<String> = Vec::new();
            names.push(info.name.clone());
            assert(string_views(names@) =~= seq![info.name@]);
            let tags = referent_tag_list(id, &names, &none);
            if !proves_predicate(sp, &n, info.p_type, info.p_value) || !restriction_ok(
                &info.restrictions,
                &tags,
            ) || !is_timely(effective_interval(info.non_revoked, req.non_revoked), id) {
                return false;
            }
        }
        k = k + 1;
    }
    true
}

/// Checks every answer of a proof whose shape has been checked.
#[verifier::loop_isolation(false)]
pub fn check_soundness(
    req: &ProofRequest,
    pr: &Proof,
    schemas: &Vec<String>,
    cred_defs: &Vec<String>,
    rev_reg_defs: &Vec<String>,
    rev_regs: &Vec<RevRegEntry>,
) -> (r: bool)
    requires
        structurally_sound(*req, *pr, schemas@, cred_defs@, rev_reg_defs@, rev_regs@),
    ensures
        r == sound(*req, *pr),
{
    let p = &pr.requested_proof;
    let mut i: usize = 0;
    while i < p.revealed_attrs.len()
        invariant
            i <= p.revealed_attrs.len(),
            forall|x: int| 0 <= x < i ==> revealed_sound(*req, *pr, #[trigger] p.revealed_attrs@[x]),
        decreases p.revealed_attrs.len() - i,
    {
        assert(bound(*pr, p.revealed_attrs@[i as int].sub_proof_index, schemas@, cred_defs@, rev_reg_defs@, rev_regs@));
        if !revealed_ok(req, pr, &p.revealed_attrs[i]) {
            return false;
        }
        i = i + 1;
    }
    let mut i: usize = 0;
    while i < p.unrevealed_attrs.len()
        invariant
            i <= p.unrevealed_attrs.len(),
            forall|x: int|
                0 <= x < i ==> unrevealed_sound(
                    *req,
                    *pr,
                    (#[trigger] p.unrevealed_attrs@[x]).referent@,
                    p.unrevealed_attrs@[x].sub_proof_index,
                ),
        decreases p.unrevealed_attrs.len() - i,
    {
        assert(bound(*pr, p.unrevealed_attrs@[i as int].sub_proof_index, schemas@, cred_defs@, rev_reg_defs@, rev_regs@));
        if !unrevealed_ok(req, pr, &p.unrevealed_attrs[i].referent, p.unrevealed_attrs[i].sub_proof_index) {
            return false;
        }
        i = i + 1;
    }
    let mut i: usize = 0;
    while i < p.self_attested_attrs.len()
        invariant
            i <= p.self_attested_attrs.len(),
            forall|x: int|
                0 <= x < i ==> self_attested_sound(*req, (#[trigger] p.self_attested_attrs@[x]).referent@),
        decreases p.self_attested_attrs.len() - i,
    {
        if !self_attested_ok(req, &p.self_attested_attrs[i].referent) {
            return false;
        }
        i = i + 1;
    }
    let mut i: usize = 0;
    while i < p.predicates.len()
        invariant
            i <= p.predicates.len(),
            forall|x: int|
                0 <= x < i ==> predicate_sound(
                    *req,
                    *pr,
                    (#[trigger] p.predicates@[x]).referent@,
                    p.predicates@[x].sub_proof_index,
                ),
        decreases p.predicates.len() - i,
    {
        assert(bound(*pr, p.predicates@[i as int].sub_proof_index, schemas@, cred_defs@, rev_reg_defs@, rev_regs@));
        if !predicate_ok(req, pr, &p.predicates[i].referent, p.predicates[i].sub_proof_index) {
            return false;
        }
        i = i + 1;
    }
    true
}

/// Verifies a proof against its request and the artefacts the verifier
/// holds: `Err(InvalidStructure)` when its shape does not fit, otherwise
/// whether every answer holds up.
pub fn verify_proof(
    req: &ProofRequest,
    pr: &Proof,
    schemas: &Vec<String>,
    cred_defs: &Vec<String>,
    rev_reg_defs: &Vec<String>,
    rev_regs: &Vec<RevRegEntry>,
) -> (r: Result<bool, ErrorKind>)
    ensures
        r is Err <==> !structurally_sound(*req, *pr, schemas@, cred_defs@, rev_reg_defs@, rev_regs@),
        r matches Err(e) ==> e == ErrorKind::InvalidStructure,
        r matches Ok(b) ==> b == sound(*req, *pr),
{
    if !check_structure(req, pr, schemas, cred_defs, rev_reg_defs, rev_regs) {
        return Err(ErrorKind::InvalidStructure);
    }
    Ok(check_soundness(req, pr, schemas, cred_defs, rev_reg_defs, rev_regs))
}


/// A revealed value whose raw text does not encode to the value the proof
/// states (the raw text was changed without its encoding) makes the proof
/// unsound, so `verify_proof` does not accept it.
pub proof fn lemma_tampered_value_rejected(req: ProofRequest, pr: Proof, i: int, j: int)
    requires
        0 <= i < pr.requested_proof.revealed_attrs.len(),
        0 <= j < pr.requested_proof.revealed_attrs[i].values.len(),
        encoded_of(pr.requested_proof.revealed_attrs[i].values[j].raw@)
            != pr.requested_proof.revealed_attrs[i].values[j].encoded@,
    ensures
        !sound(req, pr),
{
    let a = pr.requested_proof.revealed_attrs[i];
    assert(!values_sound(pr, a)) by {
        assert(a.values[j] == a.values@[j]);
    }
    assert(!revealed_sound(req, pr, pr.requested_proof.revealed_attrs[i]));
}

/// A proof whose sub-proof for a revealed referent has identifiers that do
/// not meet that referent's restrictions is unsound, so `verify_proof` does
/// not accept it.
pub proof fn lemma_restriction_soundness_revealed(req: ProofRequest, pr: Proof, i: int, k: int)
    requires
        0 <= i < pr.requested_proof.revealed_attrs.len(),
        0 <= k < req.requested_attributes.len(),
        req.requested_attributes[k].referent@ == pr.requested_proof.revealed_attrs[i].referent@,
        !restricted_ok(
            req.requested_attributes[k].restrictions,
            referent_tags(
                pr.identifiers[pr.requested_proof.revealed_attrs[i].sub_proof_index as int],
                string_views(req.requested_attributes[k].names@),
                pr.requested_proof.revealed_attrs[i].values@,
            ),
        ),
    ensures
        !sound(req, pr),
{
    let a = pr.requested_proof.revealed_attrs[i];
    assert(req.requested_attributes@[k].referent@ == a.referent@);
    assert(!revealed_sound(req, pr, pr.requested_proof.revealed_attrs[i]));
}

/// The same for a predicate referent.
pub proof fn lemma_restriction_soundness_predicate(req: ProofRequest, pr: Proof, i: int, k: int)
    requires
        0 <= i < pr.requested_proof.predicates.len(),
        0 <= k < req.requested_predicates.len(),
        req.requested_predicates[k].referent@ == pr.requested_proof.predicates[i].referent@,
        !restricted_ok(
            req.requested_predicates[k].restrictions,
            referent_tags(
                pr.identifiers[pr.requested_proof.predicates[i].sub_proof_index as int],
                seq![req.requested_predicates[k].name@],
                Seq::empty(),
            ),
        ),
    ensures
        !sound(req, pr),
{
    let u = pr.requested_proof.predicates[i];
    assert(req.requested_predicates@[k].referent@ == u.referent@);
    assert(!predicate_sound(req, pr, pr.requested_proof.predicates[i].referent@, u.sub_proof_index));
}

} // verus!
