use vstd::prelude::*;
use crate::credential::{CredentialInfo, describes, info_of};
use crate::proof_request::{Interval, ProofRequest, effective, effective_interval};
use crate::store::{CredentialStore, StoredCredential};
use crate::tags::marker_key;
use crate::text::{concat3, normalize_attr_name, normalized, text};
use crate::verification::restricted_ok;
use crate::wql::{Query, Tag, eval_query, has_tag_eq, holds, tag_pairs};

verus! {

/// A credential that can answer a referent, with the window it must be
/// shown unrevoked in.
pub struct RequestedCredential {
    pub cred_info: CredentialInfo,
    pub interval: Option<Interval>,
}

/// The credentials that can answer one referent.
pub struct ReferentCredentials {
    pub referent: String,
    pub credentials: Vec<RequestedCredential>,
}

/// For each referent of a proof request, the credentials that can answer it.
pub struct CredentialsForProofRequest {
    pub attrs: Vec<ReferentCredentials>,
    pub predicates: Vec<ReferentCredentials>,
}

/// A query that the caller adds to a referent's own.
pub struct ExtraQuery {
    pub referent: String,
    pub query: Query,
}

/// The credential carries a marker for each asked-for attribute.
pub open spec fn markers_present(names: Seq<Seq<char>>, tags: Seq<(Seq<char>, Seq<char>)>) -> bool {
    forall|i: int|
        0 <= i < names.len() ==> has_tag_eq(tags, marker_key(normalized(#[trigger] names[i])), "1"@, true)
}

/// A credential with these tags can answer the referent.
pub open spec fn accepts(
    names: Seq<Seq<char>>,
    restrictions: Option<Query>,
    extra: Option<Query>,
    tags: Seq<(Seq<char>, Seq<char>)>,
) -> bool {
    markers_present(names, tags) && restricted_ok(restrictions, tags) && restricted_ok(extra, tags)
}

/// The stored credentials that can answer a referent, in store order.
pub open spec fn candidates(
    recs: Seq<StoredCredential>,
    names: Seq<Seq<char>>,
    restrictions: Option<Query>,
    extra: Option<Query>,
) -> Seq<StoredCredential>
    decreases recs.len(),
{
    if recs.len() == 0 {
        Seq::empty()
    } else if accepts(names, restrictions, extra, tag_pairs(recs.last().tags@)) {
        candidates(recs.drop_last(), names, restrictions, extra).push(recs.last())
    } else {
        candidates(recs.drop_last(), names, restrictions, extra)
    }
}

/// Each entry describes the candidate at the same place and carries the window.
pub open spec fn resolved(
    r: Seq<RequestedCredential>,
    recs: Seq<StoredCredential>,
    interval: Option<Interval>,
) -> bool {
    &&& r.len() == recs.len()
    &&& forall|i: int|
        0 <= i < r.len() ==> describes((#[trigger] r[i]).cred_info, recs[i].id@, recs[i].credential)
            && r[i].interval == interval
}

/// The extra query given for a referent: the last one given.
pub open spec fn extra_for(extras: Seq<ExtraQuery>, referent: Seq<char>) -> Option<Query>
    decreases extras.len(),
{
    if extras.len() == 0 {
        None
    } else if extras.last().referent@ == referent {
        Some(extras.last().query)
    } else {
        extra_for(extras.drop_last(), referent)
    }
}

pub open spec fn string_seq(v: Seq<String>) -> Seq<Seq<char>> {
    Seq::new(v.len(), |i: int| v[i]@)
}

fn has_markers(names: &Vec<String>, tags: &Vec<Tag>) -> (r: bool)
    ensures
        r == markers_present(string_seq(names@), tag_pairs(tags@)),
{
    let mut i: usize = 0;
    while i < names.len()
        invariant
            i <= names.len(),
            forall|k: int|
                0 <= k < i ==> has_tag_eq(
                    tag_pairs(tags@),
                    marker_key(normalized(#[trigger] string_seq(names@)[k])),
                    "1"@,
                    true,
                ),
        decreases names.len() - i,
    {
        let n = normalize_attr_name(names[i].as_str());
        let q = Query::Eq(concat3("attr::", n.as_str(), "::marker"), text("1"));
        if !eval_query(&q, tags) {
            assert(!has_tag_eq(
                tag_pairs(tags@),
                marker_key(normalized(string_seq(names@)[i as int])),
                "1"@,
                true,
            ));
            return false;
        }
        i = i + 1;
    }
    true
}

fn optional_holds(q: Option<&Query>, tags: &Vec<Tag>) -> (r: bool)
    ensures
        r == match q {
            None => true,
            Some(q) => holds(*q, tag_pairs(tags@)),
        },
{
    match q {
        None => true,
        Some(q) => eval_query(q, tags),
    }
}

pub open spec fn opt_query(q: Option<&Query>) -> Option<Query> {
    match q {
        None => None,
        Some(q) => Some(*q),
    }
}

/// The stored credentials that can answer a referent asking for `names`.
pub fn resolve_referent(
    store: &CredentialStore,
    names: &Vec<String>,
    restrictions: &Option<Query>,
    extra: Option<&Query>,
    interval: Option<Interval>,
) -> (r: Vec<RequestedCredential>)
    ensures
        resolved(
            r@,
            candidates(store.credentials@, string_seq(names@), *restrictions, opt_query(extra)),
            interval,
        ),
{
    let ghost ns = string_seq(names@);
    let ghost ex = opt_query(extra);
    let mut out: Vec<RequestedCredential> = Vec::new();
    let mut i: usize = 0;
    while i < store.credentials.len()
        invariant
            i <= store.credentials.len(),
            ns == string_seq(names@),
            ex == opt_query(extra),
            resolved(out@, candidates(store.credentials@.take(i as int), ns, *restrictions, ex), interval),
        decreases store.credentials.len() - i,
    {
        assert(store.credentials@.take(i + 1).drop_last() =~= store.credentials@.take(i as int));
        let rec = &store.credentials[i];
        let ok = has_markers(names, &rec.tags) && optional_holds(restrictions.as_ref(), &rec.tags)
            && optional_holds(extra, &rec.tags);
        if ok {
            out.push(RequestedCredential { cred_info: info_of(&rec.id, &rec.credential), interval });
        }
        i = i + 1;
    }
    assert(store.credentials@.take(store.credentials.len() as int) =~= store.credentials@);
    out
}

/// The extra query given for a referent, if any.
pub fn find_extra<'a>(extras: &'a Vec<ExtraQuery>, referent: &String) -> (r: Option<&'a Query>)
    ensures
        opt_query(r) == extra_for(extras@, referent@),
{
    let mut i: usize = extras.len();
    assert(extras@.take(i as int) =~= extras@);
    while i > 0
        invariant
            i <= extras.len(),
            extra_for(extras@.take(i as int), referent@) == extra_for(extras@, referent@),
        decreases i,
    {
        assert(extras@.take(i as int).drop_last() =~= extras@.take(i - 1));
        if extras[i - 1].referent == *referent {
            return Some(&extras[i - 1].query);
        }
        i = i - 1;
    }
    None
}

/// The credentials that can answer each referent of a proof request, with
/// the window that applies to it.
pub fn get_credentials_for_proof_req(store: &CredentialStore, req: &ProofRequest) -> (r:
    CredentialsForProofRequest)
    ensures
        r.attrs.len() == req.requested_attributes.len(),
        forall|i: int|
            0 <= i < r.attrs.len() ==> {
                let info = req.requested_attributes@[i];
                &&& (#[trigger] r.attrs@[i]).referent@ == info.referent@
                &&& resolved(
                    r.attrs@[i].credentials@,
                    candidates(store.credentials@, string_seq(info.names@), info.restrictions, None),
                    effective(info.non_revoked, req.non_revoked),
                )
            },
        r.predicates.len() == req.requested_predicates.len(),
        forall|i: int|
            0 <= i < r.predicates.len() ==> {
                let info = req.requested_predicates@[i];
                &&& (#[trigger] r.predicates@[i]).referent@ == info.referent@
                &&& resolved(
                    r.predicates@[i].credentials@,
                    candidates(store.credentials@, seq![info.name@], info.restrictions, None),
                    effective(info.non_revoked, req.non_revoked),
                )
            },
{
    let mut attrs: Vec<ReferentCredentials> = Vec::new();
    let mut i: usize = 0;
    while i < req.requested_attributes.len()
        invariant
            i <= req.requested_attributes.len(),
            attrs.len() == i,
            forall|k: int|
                0 <= k < i ==> {
                    let info = req.requested_attributes@[k];
                    &&& (#[trigger] attrs@[k]).referent@ == info.referent@
                    &&& resolved(
                        attrs@[k].credentials@,
                        candidates(store.credentials@, string_seq(info.names@), info.restrictions, None),
                        effective(info.non_revoked, req.non_revoked),
                    )
                },
        decreases req.requested_attributes.len() - i,
    {
        let info = &req.requested_attributes[i];
        let iv = effective_interval(info.non_revoked, req.non_revoked);
        let creds = resolve_referent(store, &info.names, &info.restrictions, None, iv);
        attrs.push(ReferentCredentials { referent: info.referent.clone(), credentials: creds });
        i = i + 1;
    }
    let mut preds: Vec<ReferentCredentials> = Vec::new();
    let mut i: usize = 0;
    while i < req.requested_predicates.len()
        invariant
            i <= req.requested_predicates.len(),
            preds.len() == i,
            forall|k: int|
                0 <= k < i ==> {
                    let info = req.requested_predicates@[k];
                    &&& (#[trigger] preds@[k]).referent@ == info.referent@
                    &&& resolved(
                        preds@[k].credentials@,
                        candidates(store.credentials@, seq![info.name@], info.restrictions, None),
                        effective(info.non_revoked, req.non_revoked),
                    )
                },
        decreases req.requested_predicates.len() - i,
    {
        let info = &req.requested_predicates[i];
        let iv = effective_interval(info.non_revoked, req.non_revoked);
        let mut names: Vec<String> = Vec::new();
        names.push(info.name.clone());
        assert(string_seq(names@) =~= seq![info.name@]);
        let creds = resolve_referent(store, &names, &info.restrictions, None, iv);
        preds.push(ReferentCredentials { referent: info.referent.clone(), credentials: creds });
        i = i + 1;
    }
    CredentialsForProofRequest { attrs, predicates: preds }
}

} // verus!
