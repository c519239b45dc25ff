use vstd::prelude::*;

verus! {

/// One attribute of a credential: its name, the value as issued, and the
/// value's integer encoding as decimal text.
pub struct AttributeValue {
    pub name: String,
    pub raw: String,
    pub encoded: String,
}

/// A credential as issued, after its signature has been checked.
pub struct Credential {
    pub schema_id: String,
    pub cred_def_id: String,
    pub rev_reg_id: Option<String>,
    /// Index of the credential in its revocation registry, where it has one.
    pub cred_rev_id: Option<String>,
    pub values: Vec<AttributeValue>,
}

/// An attribute name with its raw value.
pub struct Attr {
    pub name: String,
    pub raw: String,
}

/// What the store tells about one stored credential.
pub struct CredentialInfo {
    pub referent: String,
    pub attrs: Vec<Attr>,
    pub schema_id: String,
    pub cred_def_id: String,
    pub rev_reg_id: Option<String>,
    pub cred_rev_id: Option<String>,
}

pub open spec fn opt_view(o: Option<String>) -> Option<Seq<char>> {
    match o {
        Some(s) => Some(s@),
        None => None,
    }
}

/// The info holds the raw values of the credential's attributes, in order.
pub open spec fn attrs_of(attrs: Seq<Attr>, values: Seq<AttributeValue>) -> bool {
    &&& attrs.len() == values.len()
    &&& forall|i: int|
        0 <= i < attrs.len() ==> #[trigger] attrs[i].name@ == values[i].name@ && attrs[i].raw@
            == values[i].raw@
}

/// `info` describes credential `c` stored under `id`.
pub open spec fn describes(info: CredentialInfo, id: Seq<char>, c: Credential) -> bool {
    &&& info.referent@ == id
    &&& attrs_of(info.attrs@, c.values@)
    &&& info.schema_id@ == c.schema_id@
    &&& info.cred_def_id@ == c.cred_def_id@
    &&& opt_view(info.rev_reg_id) == opt_view(c.rev_reg_id)
    &&& opt_view(info.cred_rev_id) == opt_view(c.cred_rev_id)
}

pub fn copy_opt(o: &Option<String>) -> (r: Option<String>)
    ensures
        r == *o,
        opt_view(r) == opt_view(*o),
{
    match o {
        Some(s) => Some(s.clone()),
        None => None,
    }
}

/// The info of credential `c` stored under `id`.
pub fn info_of(id: &String, c: &Credential) -> (r: CredentialInfo)
    ensures
        describes(r, id@, *c),
{
    let mut attrs: Vec<Attr> = Vec::new();
    let mut i: usize = 0;
    while i < c.values.len()
        invariant
            i <= c.values.len(),
            attrs.len() == i,
            forall|k: int|
                0 <= k < i ==> #[trigger] attrs@[k].name@ == c.values@[k].name@ && attrs@[k].raw@
                    == c.values@[k].raw@,
        decreases c.values.len() - i,
    {
        attrs.push(Attr { name: c.values[i].name.clone(), raw: c.values[i].raw.clone() });
        i = i + 1;
    }
    CredentialInfo {
        referent: id.clone(),
        attrs,
        schema_id: c.schema_id.clone(),
        cred_def_id: c.cred_def_id.clone(),
        rev_reg_id: copy_opt(&c.rev_reg_id),
        cred_rev_id: copy_opt(&c.cred_rev_id),
    }
}

} // verus!
