use vstd::prelude::*;
use crate::credential::{Credential, CredentialInfo, describes, info_of, opt_view};
use crate::error::ErrorKind;
use crate::ids::{issuer_of, cred_def_issuer_did};
use crate::tags::{
    build_tags, check_encodings, credential_tags, encodings_match, policy_view, string_views,
    well_identified,
};
use crate::text::{normalized, normalize_attr_name};
use crate::wql::{Query, Tag, holds, eval_query, tag_pairs};

verus! {

/// A credential kept in the store, with the tags it can be searched by.
pub struct StoredCredential {
    pub id: String,
    pub credential: Credential,
    pub tags: Vec<Tag>,
}

/// Which attributes of the credentials of one credential definition are tagged;
/// an absent list tags all of them.
pub struct TagPolicy {
    pub cred_def_id: String,
    pub tagged_attrs: Option<Vec<String>>,
}

/// The parts of an issuer's credential offer that the prover reads.
pub struct CredentialOffer {
    pub schema_id: String,
    pub cred_def_id: String,
    pub nonce: String,
}

/// The request sent to the issuer.
pub struct CredentialRequest {
    pub prover_did: String,
    pub cred_def_id: String,
    pub nonce: String,
}

/// What the prover keeps of its request, to receive the credential.
pub struct CredentialRequestMetadata {
    pub master_secret_name: String,
    pub nonce: String,
}

/// The prover's secure store: link-secret names, credentials and tag policies.
pub struct CredentialStore {
    pub master_secrets: Vec<String>,
    pub credentials: Vec<StoredCredential>,
    pub policies: Vec<TagPolicy>,
}

pub open spec fn has_id(recs: Seq<StoredCredential>, id: Seq<char>) -> bool {
    exists|i: int| 0 <= i < recs.len() && #[trigger] recs[i].id@ == id
}

/// The policy in force for a credential definition: the last one set.
pub open spec fn policy_of(ps: Seq<TagPolicy>, d: Seq<char>) -> Option<Seq<Seq<char>>>
    decreases ps.len(),
{
    if ps.len() == 0 {
        None
    } else if ps.last().cred_def_id@ == d {
        policy_view(ps.last().tagged_attrs)
    } else {
        policy_of(ps.drop_last(), d)
    }
}

/// The normal forms of a list of attribute names.
pub open spec fn normalized_list(v: Seq<String>) -> Seq<Seq<char>> {
    Seq::new(v.len(), |i: int| normalized(v[i]@))
}

pub open spec fn normalized_policy(p: Option<Vec<String>>) -> Option<Seq<Seq<char>>> {
    match p {
        Some(v) => Some(normalized_list(v@)),
        None => None,
    }
}

/// The stored credentials whose tags match the query, in store order.
pub open spec fn selection(recs: Seq<StoredCredential>, q: Query) -> Seq<StoredCredential>
    decreases recs.len(),
{
    if recs.len() == 0 {
        Seq::empty()
    } else if holds(q, tag_pairs(recs.last().tags@)) {
        selection(recs.drop_last(), q).push(recs.last())
    } else {
        selection(recs.drop_last(), q)
    }
}

/// Each info describes the credential at the same place.
pub open spec fn describes_all(infos: Seq<CredentialInfo>, recs: Seq<StoredCredential>) -> bool {
    &&& infos.len() == recs.len()
    &&& forall|i: int|
        0 <= i < infos.len() ==> #[trigger] describes(infos[i], recs[i].id@, recs[i].credential)
}

/// Why storing a credential fails, checked in this order; `None` when it succeeds.
pub open spec fn store_error(
    s: CredentialStore,
    id: Seq<char>,
    metadata: CredentialRequestMetadata,
    c: Credential,
    rev_reg_def_id: Option<String>,
) -> Option<ErrorKind> {
    if !string_views(s.master_secrets@).contains(metadata.master_secret_name@) {
        Some(ErrorKind::MasterSecretNotFound)
    } else if c.rev_reg_id is Some && rev_reg_def_id is None {
        Some(ErrorKind::RevocationRegistryNotFound)
    } else if c.rev_reg_id is Some && opt_view(rev_reg_def_id) != opt_view(c.rev_reg_id) {
        Some(ErrorKind::InvalidStructure)
    } else if !well_identified(c) {
        Some(ErrorKind::InvalidStructure)
    } else if !encodings_match(c.values@) {
        Some(ErrorKind::InvalidStructure)
    } else if has_id(s.credentials@, id) {
        Some(ErrorKind::ItemAlreadyExists)
    } else {
        None
    }
}

proof fn lemma_policy_of_remove(ps: Seq<TagPolicy>, i: int, d: Seq<char>)
    requires
        0 <= i < ps.len(),
        ps[i].cred_def_id@ != d,
    ensures
        policy_of(ps.remove(i), d) == policy_of(ps, d),
    decreases ps.len(),
{
    if i == ps.len() - 1 {
        assert(ps.remove(i) =~= ps.drop_last());
    } else {
        assert(ps.remove(i).drop_last() =~= ps.drop_last().remove(i));
        assert(ps.remove(i).last() == ps.last());
        lemma_policy_of_remove(ps.drop_last(), i, d);
    }
}

impl CredentialStore {
    /// Credential ids are unique, every credential has identifiers that its
    /// tags can be read from, and every stored encoding is the canonical one.
    pub open spec fn wf(&self) -> bool {
        &&& forall|i: int, j: int|
            0 <= i < self.credentials.len() && 0 <= j < self.credentials.len() && i != j
                ==> #[trigger] self.credentials@[i].id@ != #[trigger] self.credentials@[j].id@
        &&& forall|i: int|
            0 <= i < self.credentials.len() ==> #[trigger] well_identified(
                self.credentials@[i].credential,
            )
        &&& forall|i: int|
            0 <= i < self.credentials.len() ==> encodings_match(
                (#[trigger] self.credentials@[i]).credential.values@,
            )
    }

    pub fn new() -> (r: CredentialStore)
        ensures
            r.wf(),
            r.master_secrets@.len() == 0,
            r.credentials@.len() == 0,
            r.policies@.len() == 0,
    {
        CredentialStore { master_secrets: Vec::new(), credentials: Vec::new(), policies: Vec::new() }
    }

    fn has_master_secret(&self, name: &String) -> (r: bool)
        ensures
            r == string_views(self.master_secrets@).contains(name@),
    {
        crate::tags::list_has(&self.master_secrets, name)
    }

    fn find(&self, id: &String) -> (r: Option<usize>)
        ensures
            r is None <==> !has_id(self.credentials@, id@),
            r matches Some(i) ==> i < self.credentials.len() && self.credentials@[i as int].id@
                == id@,
    {
        let mut i: usize = 0;
        while i < self.credentials.len()
            invariant
                i <= self.credentials.len(),
                forall|k: int| 0 <= k < i ==> #[trigger] self.credentials@[k].id@ != id@,
            decreases self.credentials.len() - i,
        {
            if self.credentials[i].id == *id {
                return Some(i);
            }
            i = i + 1;
        }
        None
    }

    /// The attribute list of the policy in force for a credential definition.
    fn find_policy(&self, d: &String) -> (r: Option<Vec<String>>)
        ensures
            policy_view(r) == policy_of(self.policies@, d@),
    {
        let mut i: usize = self.policies.len();
        assert(self.policies@.take(i as int) =~= self.policies@);
        while i > 0
            invariant
                i <= self.policies.len(),
                policy_of(self.policies@.take(i as int), d@) == policy_of(self.policies@, d@),
            decreases i,
        {
            let ghost ps = self.policies@.take(i as int);
            assert(ps.drop_last() =~= self.policies@.take(i - 1));
            if self.policies[i - 1].cred_def_id == *d {
                return match &self.policies[i - 1].tagged_attrs {
                    None => None,
                    Some(v) => {
                        let c = clone_strings(v);
                        assert(string_views(c@) =~= string_views(v@));
                        Some(c)
                    },
                };
            }
            i = i - 1;
        }
        None
    }

    /// Stores a new link secret under `id`, or under a random id if none is given.
    pub fn create_master_secret(&mut self, id: Option<String>) -> (r: Result<String, ErrorKind>)
        requires
            old(self).wf(),
        ensures
            final(self).wf(),
            id matches Some(x) ==> (r is Err <==> string_views(old(self).master_secrets@).contains(x@)),
            id matches Some(x) ==> (r matches Ok(n) ==> n@ == x@),
            id is None ==> (r matches Ok(n) ==> is_uuid_text(n@)),
            id is None ==> (r is Err ==> old(self).master_secrets@.len() > 0),
            r matches Err(e) ==> e == ErrorKind::MasterSecretDuplicateName,
            r matches Ok(n) ==> !string_views(old(self).master_secrets@).contains(n@) && string_views(
                final(self).master_secrets@,
            ) == string_views(old(self).master_secrets@).push(n@),
            r is Err ==> final(self).master_secrets@ == old(self).master_secrets@,
            final(self).credentials@ == old(self).credentials@,
            final(self).policies@ == old(self).policies@,
    {
        let id = match id {
            Some(x) => x,
            None => random_id(),
        };
        if self.has_master_secret(&id) {
            return Err(ErrorKind::MasterSecretDuplicateName);
        }
        let out = id.clone();
        let ghost before = self.master_secrets@;
        self.master_secrets.push(id);
        assert(string_views(self.master_secrets@) =~= string_views(before).push(out@));
        Ok(out)
    }

    /// Builds the request for a credential offer, for the link secret `ms_id`
    /// and the fresh `nonce`.
    pub fn create_credential_request(
        &self,
        prover_did: &String,
        offer: &CredentialOffer,
        cred_def_id: &String,
        ms_id: &String,
        nonce: &String,
    ) -> (r: Result<(CredentialRequest, CredentialRequestMetadata), ErrorKind>)
        ensures
            r is Err <==> (!string_views(self.master_secrets@).contains(ms_id@) || offer.cred_def_id@
                != cred_def_id@),
            r matches Err(e) ==> (if !string_views(self.master_secrets@).contains(ms_id@) {
                e == ErrorKind::MasterSecretNotFound
            } else {
                e == ErrorKind::InvalidStructure
            }),
            r matches Ok((req, meta)) ==> req.prover_did@ == prover_did@ && req.cred_def_id@
                == cred_def_id@ && req.nonce@ == nonce@ && meta.master_secret_name@ == ms_id@
                && meta.nonce@ == nonce@,
    {
        if !self.has_master_secret(ms_id) {
            return Err(ErrorKind::MasterSecretNotFound);
        }
        if offer.cred_def_id != *cred_def_id {
            return Err(ErrorKind::InvalidStructure);
        }
        let req = CredentialRequest {
            prover_did: prover_did.clone(),
            cred_def_id: cred_def_id.clone(),
            nonce: nonce.clone(),
        };
        let meta = CredentialRequestMetadata { master_secret_name: ms_id.clone(), nonce: nonce.clone() };
        Ok((req, meta))
    }

    /// Stores a received credential under `cred_id`, tagged under the policy in
    /// force for its credential definition.
    fn store_credential_as(
        &mut self,
        cred_id: String,
        metadata: &CredentialRequestMetadata,
        credential: Credential,
        rev_reg_def_id: Option<String>,
    ) -> (r: Result<String, ErrorKind>)
        requires
            old(self).wf(),
        ensures
            final(self).wf(),
            r is Err <==> store_error(*old(self), cred_id@, *metadata, credential, rev_reg_def_id) is Some,
            r matches Err(e) ==> store_error(*old(self), cred_id@, *metadata, credential, rev_reg_def_id) == Some(e),
            r is Err ==> final(self).credentials@ == old(self).credentials@,
            r matches Ok(id) ==> {
                &&& id@ == cred_id@
                &&& final(self).credentials.len() == old(self).credentials.len() + 1
                &&& final(self).credentials@.drop_last() == old(self).credentials@
                &&& final(self).credentials@.last().id@ == cred_id@
                &&& final(self).credentials@.last().credential == credential
                &&& tag_pairs(final(self).credentials@.last().tags@) == credential_tags(
                    credential,
                    policy_of(old(self).policies@, credential.cred_def_id@),
                )
            },
            final(self).master_secrets@ == old(self).master_secrets@,
            final(self).policies@ == old(self).policies@,
    {
        if !self.has_master_secret(&metadata.master_secret_name) {
            return Err(ErrorKind::MasterSecretNotFound);
        }
        if credential.rev_reg_id.is_some() {
            match (&rev_reg_def_id, &credential.rev_reg_id) {
                (None, _) => {
                    return Err(ErrorKind::RevocationRegistryNotFound);
                },
                (Some(a), Some(b)) => {
                    if *a != *b {
                        return Err(ErrorKind::InvalidStructure);
                    }
                },
                _ => {},
            }
        }
        let policy = self.find_policy(&credential.cred_def_id);
        let tags = match build_tags(&credential, &policy) {
            Ok(t) => t,
            Err(e) => return Err(e),
        };
        if !check_encodings(&credential.values) {
            return Err(ErrorKind::InvalidStructure);
        }
        if self.find(&cred_id).is_some() {
            return Err(ErrorKind::ItemAlreadyExists);
        }
        let out = cred_id.clone();
        let ghost before = self.credentials@;
        self.credentials.push(StoredCredential { id: cred_id, credential, tags });
        assert(self.credentials@.drop_last() =~= before);
        Ok(out)
    }

    /// Stores a received credential under `cred_id`, or under a random id if
    /// none is given, tagged under the policy in force for its credential
    /// definition.
    pub fn store_credential(
        &mut self,
        cred_id: Option<String>,
        metadata: &CredentialRequestMetadata,
        credential: Credential,
        rev_reg_def_id: Option<String>,
    ) -> (r: Result<String, ErrorKind>)
        requires
            old(self).wf(),
        ensures
            final(self).wf(),
            cred_id matches Some(c) ==> (r is Err <==> store_error(*old(self), c@, *metadata, credential, rev_reg_def_id) is Some),
            cred_id matches Some(c) ==> (r matches Ok(id) ==> id@ == c@),
            cred_id is None ==> (r matches Ok(id) ==> is_uuid_text(id@)),
            r matches Err(e) ==> exists|x: Seq<char>|
                store_error(*old(self), x, *metadata, credential, rev_reg_def_id) == Some(e)
                    && (cred_id matches Some(c) ==> x == c@),
            r is Err ==> final(self).credentials@ == old(self).credentials@,
            r matches Ok(id) ==> {
                &&& store_error(*old(self), id@, *metadata, credential, rev_reg_def_id) is None
                &&& encodings_match(credential.values@)
                &&& final(self).credentials.len() == old(self).credentials.len() + 1
                &&& final(self).credentials@.drop_last() == old(self).credentials@
                &&& final(self).credentials@.last().id@ == id@
                &&& final(self).credentials@.last().credential == credential
                &&& tag_pairs(final(self).credentials@.last().tags@) == credential_tags(
                    credential,
                    policy_of(old(self).policies@, credential.cred_def_id@),
                )
            },
            final(self).master_secrets@ == old(self).master_secrets@,
            final(self).policies@ == old(self).policies@,
    {
        let id = match cred_id {
            Some(c) => c,
            None => random_id(),
        };
        self.store_credential_as(id, metadata, credential, rev_reg_def_id)
    }

    /// The info of the credential stored under `id`.
    pub fn get_credential(&self, id: &String) -> (r: Result<CredentialInfo, ErrorKind>)
        ensures
            r is Err <==> !has_id(self.credentials@, id@),
            r matches Err(e) ==> e == ErrorKind::ItemNotFound,
            r matches Ok(info) ==> exists|i: int|
                0 <= i < self.credentials.len() && #[trigger] self.credentials@[i].id@ == id@
                    && describes(info, id@, self.credentials@[i].credential),
    {
        match self.find(id) {
            None => Err(ErrorKind::ItemNotFound),
            Some(i) => {
                let info = info_of(&self.credentials[i].id, &self.credentials[i].credential);
                Ok(info)
            },
        }
    }

    /// Removes the credential stored under `id`.
    pub fn delete_credential(&mut self, id: &String) -> (r: Result<(), ErrorKind>)
        requires
            old(self).wf(),
        ensures
            final(self).wf(),
            r is Err <==> !has_id(old(self).credentials@, id@),
            r matches Err(e) ==> e == ErrorKind::ItemNotFound,
            r is Err ==> final(self).credentials@ == old(self).credentials@,
            r is Ok ==> exists|i: int|
                0 <= i < old(self).credentials.len() && #[trigger] old(self).credentials@[i].id@
                    == id@ && final(self).credentials@ == old(self).credentials@.remove(i),
            r is Ok ==> !has_id(final(self).credentials@, id@),
            final(self).master_secrets@ == old(self).master_secrets@,
            final(self).policies@ == old(self).policies@,
    {
        match self.find(id) {
            None => Err(ErrorKind::ItemNotFound),
            Some(i) => {
                let ghost before = self.credentials@;
                self.credentials.remove(i);
                assert forall|k: int| 0 <= k < self.credentials.len() implies #[trigger] self.credentials@[k].id@ != id@ by {
                    if k < i {
                        assert(self.credentials@[k] == before[k]);
                    } else {
                        assert(self.credentials@[k] == before[k + 1]);
                    }
                }
                Ok(())
            },
        }
    }

    /// The infos of the stored credentials whose tags match the query, in
    /// store order.
    pub fn get_credentials(&self, query: &Query) -> (r: Vec<CredentialInfo>)
        ensures
            describes_all(r@, selection(self.credentials@, *query)),
    {
        let mut out: Vec<CredentialInfo> = Vec::new();
        let mut i: usize = 0;
        while i < self.credentials.len()
            invariant
                i <= self.credentials.len(),
                describes_all(out@, selection(self.credentials@.take(i as int), *query)),
            decreases self.credentials.len() - i,
        {
            assert(self.credentials@.take(i + 1).drop_last() =~= self.credentials@.take(i as int));
            if eval_query(query, &self.credentials[i].tags) {
                let info = info_of(&self.credentials[i].id, &self.credentials[i].credential);
                out.push(info);
            }
            i = i + 1;
        }
        assert(self.credentials@.take(self.credentials.len() as int) =~= self.credentials@);
        out
    }

    /// The attribute list of the policy in force for a credential definition;
    /// `None` stands for the default, which tags every attribute.
    pub fn get_credential_attr_tag_policy(&self, cred_def_id: &String) -> (r: Result<
        Option<Vec<String>>,
        ErrorKind,
    >)
        ensures
            r is Err <==> issuer_of(cred_def_id@) is None,
            r matches Err(e) ==> e == ErrorKind::InvalidStructure,
            r matches Ok(p) ==> policy_view(p) == policy_of(self.policies@, cred_def_id@),
    {
        if cred_def_issuer_did(cred_def_id.as_str()).is_none() {
            return Err(ErrorKind::InvalidStructure);
        }
        Ok(self.find_policy(cred_def_id))
    }

    /// Sets the policy of a credential definition; attribute names are kept
    /// normalised. With `retroactive`, the tags of every stored credential of
    /// that definition are rebuilt under the new policy.
    pub fn set_credential_attr_tag_policy(
        &mut self,
        cred_def_id: &String,
        tagged_attrs: Option<Vec<String>>,
        retroactive: bool,
    ) -> (r: Result<(), ErrorKind>)
        requires
            old(self).wf(),
        ensures
            final(self).wf(),
            r is Err <==> issuer_of(cred_def_id@) is None,
            r matches Err(e) ==> e == ErrorKind::InvalidStructure,
            r is Err ==> *final(self) == *old(self),
            r is Ok ==> policy_of(final(self).policies@, cred_def_id@) == normalized_policy(
                tagged_attrs,
            ),
            forall|d: Seq<char>|
                d != cred_def_id@ ==> policy_of(final(self).policies@, d) == policy_of(
                    old(self).policies@,
                    d,
                ),
            final(self).master_secrets@ == old(self).master_secrets@,
            final(self).credentials.len() == old(self).credentials.len(),
            forall|i: int|
                0 <= i < final(self).credentials.len() ==> {
                    let n = #[trigger] final(self).credentials@[i];
                    let o = old(self).credentials@[i];
                    &&& n.id == o.id
                    &&& n.credential == o.credential
                    &&& if retroactive && r is Ok && o.credential.cred_def_id@ == cred_def_id@ {
                        tag_pairs(n.tags@) == credential_tags(
                            o.credential,
                            normalized_policy(tagged_attrs),
                        )
                    } else {
                        n.tags == o.tags
                    }
                },
    {
        if cred_def_issuer_did(cred_def_id.as_str()).is_none() {
            return Err(ErrorKind::InvalidStructure);
        }
        let attrs: Option<Vec<String>> = match &tagged_attrs {
            None => None,
            Some(list) => Some(normalize_all(list)),
        };
        assert(policy_view(attrs) == normalized_policy(tagged_attrs));
        let mut j: usize = 0;
        while j < self.policies.len()
            invariant
                j <= self.policies.len(),
                forall|d: Seq<char>|
                    d != cred_def_id@ ==> policy_of(self.policies@, d) == policy_of(
                        old(self).policies@,
                        d,
                    ),
                self.credentials == old(self).credentials,
                self.master_secrets == old(self).master_secrets,
            decreases self.policies.len() - j,
        {
            if self.policies[j].cred_def_id == *cred_def_id {
                let ghost before = self.policies@;
                self.policies.remove(j);
                proof {
                    assert forall|d: Seq<char>| d != cred_def_id@ implies policy_of(self.policies@, d)
                        == policy_of(before, d) by {
                        lemma_policy_of_remove(before, j as int, d);
                    }
                }
            } else {
                j = j + 1;
            }
        }
        let ghost before = self.policies@;
        let kept = match &attrs {
            None => None,
            Some(v) => Some(clone_strings(v)),
        };
        assert(policy_view(kept) == policy_view(attrs)) by {
            match kept {
                Some(k) => { assert(string_views(k@) =~= string_views(attrs->Some_0@)); },
                None => {},
            }
        };
        self.policies.push(TagPolicy { cred_def_id: cred_def_id.clone(), tagged_attrs: kept });
        assert(self.policies@.drop_last() =~= before);
        let ghost pol = self.policies@;
        assert forall|d: Seq<char>| d != cred_def_id@ implies policy_of(pol, d) == policy_of(
            old(self).policies@,
            d,
        ) by {
            assert(pol.drop_last() == before);
        }
        if retroactive {
            let mut i: usize = 0;
            while i < self.credentials.len()
                invariant
                    i <= self.credentials.len(),
                    self.credentials.len() == old(self).credentials.len(),
                    self.wf(),
                    old(self).wf(),
                    self.policies@ == pol,
                    self.master_secrets == old(self).master_secrets,
                    policy_view(attrs) == normalized_policy(tagged_attrs),
                    forall|k: int|
                        0 <= k < self.credentials.len() ==> {
                            let n = #[trigger] self.credentials@[k];
                            let o = old(self).credentials@[k];
                            &&& n.id == o.id
                            &&& n.credential == o.credential
                            &&& if k < i && o.credential.cred_def_id@ == cred_def_id@ {
                                tag_pairs(n.tags@) == credential_tags(
                                    o.credential,
                                    normalized_policy(tagged_attrs),
                                )
                            } else {
                                n.tags == o.tags
                            }
                        },
                decreases self.credentials.len() - i,
            {
                if self.credentials[i].credential.cred_def_id == *cred_def_id {
                    assert(well_identified(self.credentials@[i as int].credential));
                    let t = match build_tags(&self.credentials[i].credential, &attrs) {
                        Ok(t) => t,
                        Err(_) => {
                            return Ok(());
                        },
                    };
                    let ghost before_c = self.credentials@;
                    self.credentials[i].tags = t;
                    assert forall|a: int, b: int|
                        0 <= a < self.credentials.len() && 0 <= b < self.credentials.len() && a != b
                            implies #[trigger] self.credentials@[a].id@ != #[trigger] self.credentials@[b].id@ by {
                        assert(self.credentials@[a].id == before_c[a].id);
                        assert(self.credentials@[b].id == before_c[b].id);
                    }
                    assert forall|a: int| 0 <= a < self.credentials.len() implies #[trigger] well_identified(
                        self.credentials@[a].credential,
                    ) by {
                        assert(self.credentials@[a].credential == before_c[a].credential);
                    }
                    assert forall|a: int| 0 <= a < self.credentials.len() implies encodings_match(
                        (#[trigger] self.credentials@[a]).credential.values@,
                    ) by {
                        assert(self.credentials@[a].credential == before_c[a].credential);
                    }
                }
                i = i + 1;
            }
        }
        Ok(())
    }
}

/// A UUID in hyphenated lower-case form: 36 characters, hyphens at
/// positions 8, 13, 18 and 23, lower-case hexadecimal digits elsewhere.
pub open spec fn is_uuid_text(s: Seq<char>) -> bool {
    &&& s.len() == 36
    &&& forall|i: int|
        0 <= i < 36 ==> if i == 8 || i == 13 || i == 18 || i == 23 {
            #[trigger] s[i] == '-'
        } else {
            ('0' <= s[i] && s[i] <= '9') || ('a' <= s[i] && s[i] <= 'f')
        }
}

/// Relies on `uuid::Uuid::new_v4` and its `Display` form, which writes the
/// hyphenated lower-case hexadecimal text of the UUID.
#[verifier::external_body]
fn random_id() -> (r: String)
    ensures
        is_uuid_text(r@),
{
    String::from(uuid::Uuid::new_v4())
}

/// Copies of the strings.
pub fn clone_strings(v: &Vec<String>) -> (r: Vec<String>)
    ensures
        r@ == v@,
{
    let mut r: Vec<String> = Vec::new();
    let mut i: usize = 0;
    while i < v.len()
        invariant
            i <= v.len(),
            r@ == v@.take(i as int),
        decreases v.len() - i,
    {
        r.push(v[i].clone());
        assert(r@ =~= v@.take(i + 1));
        i = i + 1;
    }
    assert(v@.take(v.len() as int) =~= v@);
    r
}

/// The normal forms of attribute names.
pub fn normalize_all(v: &Vec<String>) -> (r: Vec<String>)
    ensures
        string_views(r@) == normalized_list(v@),
{
    let mut r: Vec<String> = Vec::new();
    let mut i: usize = 0;
    while i < v.len()
        invariant
            i <= v.len(),
            r.len() == i,
            forall|k: int| 0 <= k < i ==> #[trigger] r@[k]@ == normalized(v@[k]@),
        decreases v.len() - i,
    {
        r.push(normalize_attr_name(v[i].as_str()));
        i = i + 1;
    }
    assert(string_views(r@) =~= normalized_list(v@));
    r
}

} // verus!
