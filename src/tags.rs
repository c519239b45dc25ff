use vstd::prelude::*;
use crate::credential::{AttributeValue, Credential};
use crate::encoding::{encode_attr, encoded_of};
use crate::error::ErrorKind;
use crate::ids::{schema_parts, issuer_of, schema_id_parts, cred_def_issuer_did};
use crate::text::{normalized, normalize_attr_name, concat3, text};
use crate::wql::{Query, Tag, holds, tag_pairs};

verus! {

/// The views of a list of strings.
pub open spec fn string_views(v: Seq<String>) -> Seq<Seq<char>> {
    Seq::new(v.len(), |i: int| v[i]@)
}

/// Whether a policy tags the attribute with normalised name `n`: an absent
/// list tags every attribute.
pub open spec fn selected(policy: Option<Seq<Seq<char>>>, n: Seq<char>) -> bool {
    match policy {
        None => true,
        Some(list) => list.contains(n),
    }
}

pub open spec fn marker_key(n: Seq<char>) -> Seq<char> {
    "attr::"@ + n + "::marker"@
}

pub open spec fn value_key(n: Seq<char>) -> Seq<char> {
    "attr::"@ + n + "::value"@
}

/// The attribute tags that a policy asks for: a marker and the raw value of
/// each selected attribute, under its normalised name.
pub open spec fn attr_tags(values: Seq<AttributeValue>, policy: Option<Seq<Seq<char>>>) -> Seq<
    (Seq<char>, Seq<char>),
>
    decreases values.len(),
{
    if values.len() == 0 {
        Seq::empty()
    } else {
        let rest = attr_tags(values.drop_last(), policy);
        let n = normalized(values.last().name@);
        if selected(policy, n) {
            rest + seq![(marker_key(n), "1"@), (value_key(n), values.last().raw@)]
        } else {
            rest
        }
    }
}

pub open spec fn rev_reg_tag(r: Option<String>) -> Seq<char> {
    match r {
        Some(s) => s@,
        None => "None"@,
    }
}

/// The tags that name a credential's schema, issuer, definition and
/// revocation registry; `None` when an identifier has no usable shape.
pub open spec fn identity_pairs(schema_id: Seq<char>, cred_def_id: Seq<char>, rev: Seq<char>) -> Option<
    Seq<(Seq<char>, Seq<char>)>,
> {
    match (schema_parts(schema_id), issuer_of(cred_def_id)) {
        (Some(sp), Some(issuer)) => Some(
            seq![
                ("schema_id"@, schema_id),
                ("schema_issuer_did"@, sp.0),
                ("schema_name"@, sp.1),
                ("schema_version"@, sp.2),
                ("issuer_did"@, issuer),
                ("cred_def_id"@, cred_def_id),
                ("rev_reg_id"@, rev),
            ],
        ),
        _ => None,
    }
}

/// Every value's encoding is the canonical one of its raw text.
pub open spec fn encodings_match(vals: Seq<AttributeValue>) -> bool {
    forall|m: int| 0 <= m < vals.len() ==> encoded_of(#[trigger] vals[m].raw@) == vals[m].encoded@
}

/// Checks that every value's encoding is the canonical one of its raw text.
pub fn check_encodings(vals: &Vec<AttributeValue>) -> (r: bool)
    ensures
        r == encodings_match(vals@),
{
    let mut m: usize = 0;
    while m < vals.len()
        invariant
            m <= vals.len(),
            forall|k: int| 0 <= k < m ==> encoded_of(#[trigger] vals@[k].raw@) == vals@[k].encoded@,
        decreases vals.len() - m,
    {
        if encode_attr(vals[m].raw.as_str()) != vals[m].encoded {
            return false;
        }
        m = m + 1;
    }
    true
}

/// Both identifiers of the credential have a shape that the tags can be read from.
pub open spec fn well_identified(c: Credential) -> bool {
    schema_parts(c.schema_id@) is Some && issuer_of(c.cred_def_id@) is Some
}

/// The full tag list of a credential under a policy.
pub open spec fn credential_tags(c: Credential, policy: Option<Seq<Seq<char>>>) -> Seq<
    (Seq<char>, Seq<char>),
>
    recommends
        well_identified(c),
{
    identity_pairs(c.schema_id@, c.cred_def_id@, rev_reg_tag(c.rev_reg_id))->Some_0 + attr_tags(
        c.values@,
        policy,
    )
}

/// The identity tags of a credential with these identifiers.
pub fn identity_tags(schema_id: &String, cred_def_id: &String, rev_reg_id: &Option<String>) -> (r:
    Result<Vec<Tag>, ErrorKind>)
    ensures
        r is Err <==> identity_pairs(schema_id@, cred_def_id@, rev_reg_tag(*rev_reg_id)) is None,
        r matches Err(e) ==> e == ErrorKind::InvalidStructure,
        r matches Ok(t) ==> tag_pairs(t@) == identity_pairs(
            schema_id@,
            cred_def_id@,
            rev_reg_tag(*rev_reg_id),
        )->Some_0,
{
    let sp = match schema_id_parts(schema_id.as_str()) {
        Some(sp) => sp,
        None => return Err(ErrorKind::InvalidStructure),
    };
    let issuer = match cred_def_issuer_did(cred_def_id.as_str()) {
        Some(d) => d,
        None => return Err(ErrorKind::InvalidStructure),
    };
    let mut tags: Vec<Tag> = Vec::new();
    tags.push(make_tag("schema_id", schema_id.as_str()));
    tags.push(make_tag("schema_issuer_did", sp.0.as_str()));
    tags.push(make_tag("schema_name", sp.1.as_str()));
    tags.push(make_tag("schema_version", sp.2.as_str()));
    tags.push(make_tag("issuer_did", issuer.as_str()));
    tags.push(make_tag("cred_def_id", cred_def_id.as_str()));
    match rev_reg_id {
        Some(r) => tags.push(make_tag("rev_reg_id", r.as_str())),
        None => tags.push(make_tag("rev_reg_id", "None")),
    }
    assert(tag_pairs(tags@) =~= identity_pairs(
        schema_id@,
        cred_def_id@,
        rev_reg_tag(*rev_reg_id),
    )->Some_0);
    Ok(tags)
}

pub fn make_tag(name: &str, value: &str) -> (r: Tag)
    ensures
        r.name@ == name@,
        r.value@ == value@,
{
    Tag { name: text(name), value: text(value) }
}

/// Whether the normalised name is in the list.
pub fn list_has(list: &Vec<String>, n: &String) -> (r: bool)
    ensures
        r == string_views(list@).contains(n@),
{
    let mut i: usize = 0;
    while i < list.len()
        invariant
            i <= list.len(),
            forall|k: int| 0 <= k < i ==> list@[k]@ != n@,
        decreases list.len() - i,
    {
        if list[i] == *n {
            assert(string_views(list@)[i as int] == n@);
            return true;
        }
        i = i + 1;
    }
    assert(!string_views(list@).contains(n@)) by {
        assert(forall|k: int| 0 <= k < list.len() ==> string_views(list@)[k] != n@);
    }
    false
}

pub fn is_selected(policy: &Option<Vec<String>>, n: &String) -> (r: bool)
    ensures
        r == selected(policy_view(*policy), n@),
{
    match policy {
        None => true,
        Some(list) => list_has(list, n),
    }
}

/// The view of a policy's attribute list.
pub open spec fn policy_view(p: Option<Vec<String>>) -> Option<Seq<Seq<char>>> {
    match p {
        Some(v) => Some(string_views(v@)),
        None => None,
    }
}

/// The tag list of a credential under a policy. Fails with `InvalidStructure`
/// exactly when an identifier of the credential has no usable shape.
pub fn build_tags(c: &Credential, policy: &Option<Vec<String>>) -> (r: Result<Vec<Tag>, ErrorKind>)
    ensures
        r is Err <==> !well_identified(*c),
        r matches Err(e) ==> e == ErrorKind::InvalidStructure,
        r matches Ok(t) ==> tag_pairs(t@) == credential_tags(*c, policy_view(*policy)),
{
    let mut tags = match identity_tags(&c.schema_id, &c.cred_def_id, &c.rev_reg_id) {
        Ok(t) => t,
        Err(e) => return Err(e),
    };
    let ghost fixed = identity_pairs(c.schema_id@, c.cred_def_id@, rev_reg_tag(c.rev_reg_id))->Some_0;
    let mut i: usize = 0;
    while i < c.values.len()
        invariant
            i <= c.values.len(),
            tag_pairs(tags@) == fixed + attr_tags(c.values@.take(i as int), policy_view(*policy)),
        decreases c.values.len() - i,
    {
        let ghost before = tags@;
        assert(c.values@.take(i + 1).drop_last() =~= c.values@.take(i as int));
        let n = normalize_attr_name(c.values[i].name.as_str());
        if is_selected(policy, &n) {
            let mk = concat3("attr::", n.as_str(), "::marker");
            let vk = concat3("attr::", n.as_str(), "::value");
            tags.push(make_tag(mk.as_str(), "1"));
            tags.push(Tag { name: vk, value: c.values[i].raw.clone() });
            assert(tag_pairs(tags@) =~= tag_pairs(before) + seq![
                (marker_key(n@), "1"@),
                (value_key(n@), c.values@[i as int].raw@),
            ]);
        }
        i = i + 1;
    }
    assert(c.values@.take(c.values.len() as int) =~= c.values@);
    Ok(tags)
}


/// Attribute lists that differ only in the case and whitespace of their
/// names (values kept) give the same attribute tags.
pub proof fn lemma_attr_tags_normalized(
    v1: Seq<AttributeValue>,
    v2: Seq<AttributeValue>,
    policy: Option<Seq<Seq<char>>>,
)
    requires
        v1.len() == v2.len(),
        forall|i: int|
            0 <= i < v1.len() ==> normalized(#[trigger] v1[i].name@) == normalized(v2[i].name@)
                && v1[i].raw@ == v2[i].raw@,
    ensures
        attr_tags(v1, policy) == attr_tags(v2, policy),
    decreases v1.len(),
{
    if v1.len() > 0 {
        lemma_attr_tags_normalized(v1.drop_last(), v2.drop_last(), policy);
        assert(v1.last() == v1[v1.len() - 1]);
        assert(v2.last() == v2[v2.len() - 1]);
    }
}

/// Two credentials that differ only in the case and whitespace of their
/// attribute names get the same tags, so no query tells them apart.
pub proof fn lemma_normalization_invisible(c1: Credential, c2: Credential, policy: Option<Seq<Seq<char>>>)
    requires
        c1.schema_id@ == c2.schema_id@,
        c1.cred_def_id@ == c2.cred_def_id@,
        rev_reg_tag(c1.rev_reg_id) == rev_reg_tag(c2.rev_reg_id),
        c1.values@.len() == c2.values@.len(),
        forall|i: int|
            0 <= i < c1.values@.len() ==> normalized((#[trigger] c1.values@[i]).name@) == normalized(
                c2.values@[i].name@,
            ) && c1.values@[i].raw@ == c2.values@[i].raw@,
    ensures
        credential_tags(c1, policy) == credential_tags(c2, policy),
        forall|q: Query| holds(q, credential_tags(c1, policy)) == holds(q, credential_tags(c2, policy)),
{
    assert forall|i: int| 0 <= i < c1.values@.len() implies normalized(#[trigger] c1.values@[i].name@)
        == normalized(c2.values@[i].name@) && c1.values@[i].raw@ == c2.values@[i].raw@ by {
        assert(c1.values@[i] == c1.values@[i]);
    }
    lemma_attr_tags_normalized(c1.values@, c2.values@, policy);
}

} // verus!
