use vstd::prelude::*;
use crate::text::chars_of;

verus! {

/// One searchable tag of a stored record.
pub struct Tag {
    pub name: String,
    pub value: String,
}

/// A query of the wallet query language over the tags of one record.
pub enum Query {
    /// Matches every record (the empty query `{}`).
    All,
    /// The tag is present with this value.
    Eq(String, String),
    /// The tag is present with another value.
    Neq(String, String),
    /// The tag is present with one of these values.
    In(String, Vec<String>),
    /// The tag is present with a value after this one (`$gt`).
    Gt(String, String),
    /// The tag is present with this value or one after it (`$gte`).
    Gte(String, String),
    /// The tag is present with a value before this one (`$lt`).
    Lt(String, String),
    /// The tag is present with this value or one before it (`$lte`).
    Lte(String, String),
    And(Box<Query>, Box<Query>),
    Or(Box<Query>, Box<Query>),
    Not(Box<Query>),
}

/// Name and value of each tag, in order.
pub open spec fn tag_pairs(tags: Seq<Tag>) -> Seq<(Seq<char>, Seq<char>)> {
    Seq::new(tags.len(), |i: int| (tags[i].name@, tags[i].value@))
}

/// The tags hold `name` with the value `v` (with another value, if `eq` is false).
pub open spec fn has_tag_eq(tags: Seq<(Seq<char>, Seq<char>)>, name: Seq<char>, v: Seq<char>, eq: bool) -> bool {
    exists|i: int| 0 <= i < tags.len() && #[trigger] tags[i].0 == name && ((tags[i].1 == v) == eq)
}

/// The tags hold `name` with one of the values `vals`.
pub open spec fn has_tag_in(tags: Seq<(Seq<char>, Seq<char>)>, name: Seq<char>, vals: Seq<String>) -> bool {
    exists|i: int| 0 <= i < tags.len() && #[trigger] tags[i].0 == name && in_values(vals, tags[i].1)
}

pub open spec fn in_values(vals: Seq<String>, v: Seq<char>) -> bool {
    exists|j: int| 0 <= j < vals.len() && #[trigger] vals[j]@ == v
}

/// Lexicographic order of character sequences, by code point.
pub open spec fn seq_less(a: Seq<char>, b: Seq<char>) -> bool
    decreases a.len(),
{
    if a.len() == 0 {
        b.len() > 0
    } else if b.len() == 0 {
        false
    } else if a[0] != b[0] {
        (a[0] as u32) < (b[0] as u32)
    } else {
        seq_less(a.drop_first(), b.drop_first())
    }
}

/// No sequence comes before itself.
pub proof fn lemma_seq_less_irreflexive(a: Seq<char>)
    ensures
        !seq_less(a, a),
    decreases a.len(),
{
    if a.len() > 0 {
        lemma_seq_less_irreflexive(a.drop_first());
    }
}

/// The lexicographic order is transitive.
pub proof fn lemma_seq_less_transitive(a: Seq<char>, b: Seq<char>, c: Seq<char>)
    requires
        seq_less(a, b),
        seq_less(b, c),
    ensures
        seq_less(a, c),
    decreases a.len(),
{
    if a.len() > 0 && a[0] == b[0] && b[0] == c[0] {
        lemma_seq_less_transitive(a.drop_first(), b.drop_first(), c.drop_first());
    }
}

/// Whether tag value `t` stands before (`below`) or after the bound `v`,
/// strictly or not.
pub open spec fn ordered(t: Seq<char>, v: Seq<char>, below: bool, strict: bool) -> bool {
    if below {
        if strict {
            seq_less(t, v)
        } else {
            !seq_less(v, t)
        }
    } else {
        if strict {
            seq_less(v, t)
        } else {
            !seq_less(t, v)
        }
    }
}

/// The tags hold `name` with a value ordered as asked against `v`.
pub open spec fn has_tag_ordered(
    tags: Seq<(Seq<char>, Seq<char>)>,
    name: Seq<char>,
    v: Seq<char>,
    below: bool,
    strict: bool,
) -> bool {
    exists|i: int| 0 <= i < tags.len() && #[trigger] tags[i].0 == name && ordered(tags[i].1, v, below, strict)
}

/// Whether a record with these tags matches the query.
pub open spec fn holds(q: Query, tags: Seq<(Seq<char>, Seq<char>)>) -> bool
    decreases q,
{
    match q {
        Query::All => true,
        Query::Eq(n, v) => has_tag_eq(tags, n@, v@, true),
        Query::Neq(n, v) => has_tag_eq(tags, n@, v@, false),
        Query::In(n, vs) => has_tag_in(tags, n@, vs@),
        Query::Gt(n, v) => has_tag_ordered(tags, n@, v@, false, true),
        Query::Gte(n, v) => has_tag_ordered(tags, n@, v@, false, false),
        Query::Lt(n, v) => has_tag_ordered(tags, n@, v@, true, true),
        Query::Lte(n, v) => has_tag_ordered(tags, n@, v@, true, false),
        Query::And(a, b) => holds(*a, tags) && holds(*b, tags),
        Query::Or(a, b) => holds(*a, tags) || holds(*b, tags),
        Query::Not(a) => !holds(*a, tags),
    }
}

fn value_in(vals: &Vec<String>, v: &String) -> (r: bool)
    ensures
        r == in_values(vals@, v@),
{
    let mut j: usize = 0;
    while j < vals.len()
        invariant
            j <= vals.len(),
            forall|k: int| 0 <= k < j ==> vals@[k]@ != v@,
        decreases vals.len() - j,
    {
        if vals[j] == *v {
            return true;
        }
        j = j + 1;
    }
    false
}

/// Whether `a` comes before `b` in lexicographic order.
pub fn text_less(a: &Vec<char>, b: &Vec<char>) -> (r: bool)
    ensures
        r == seq_less(a@, b@),
{
    let mut i: usize = 0;
    assert(a@.skip(0) =~= a@ && b@.skip(0) =~= b@);
    while i < a.len() && i < b.len()
        invariant
            i <= a.len(),
            i <= b.len(),
            seq_less(a@, b@) == seq_less(a@.skip(i as int), b@.skip(i as int)),
        decreases a.len() - i,
    {
        assert(a@.skip(i as int)[0] == a@[i as int] && b@.skip(i as int)[0] == b@[i as int]);
        if a[i] != b[i] {
            return (a[i] as u32) < (b[i] as u32);
        }
        assert(a@.skip(i as int).drop_first() =~= a@.skip(i + 1));
        assert(b@.skip(i as int).drop_first() =~= b@.skip(i + 1));
        i = i + 1;
    }
    assert(a@.skip(i as int).len() == a.len() - i);
    i == a.len() && i < b.len()
}

fn tag_ordered(tags: &Vec<Tag>, n: &String, v: &String, below: bool, strict: bool) -> (r: bool)
    ensures
        r == has_tag_ordered(tag_pairs(tags@), n@, v@, below, strict),
{
    let bound = chars_of(v.as_str());
    let mut i: usize = 0;
    while i < tags.len()
        invariant
            i <= tags.len(),
            bound@ == v@,
            forall|k: int|
                0 <= k < i ==> !(#[trigger] tag_pairs(tags@)[k].0 == n@ && ordered(tag_pairs(tags@)[k].1, v@, below, strict)),
        decreases tags.len() - i,
    {
        if tags[i].name == *n {
            let t = chars_of(tags[i].value.as_str());
            let ok = if below {
                if strict {
                    text_less(&t, &bound)
                } else {
                    !text_less(&bound, &t)
                }
            } else {
                if strict {
                    text_less(&bound, &t)
                } else {
                    !text_less(&t, &bound)
                }
            };
            if ok {
                assert(tag_pairs(tags@)[i as int].0 == n@);
                return true;
            }
        }
        i = i + 1;
    }
    false
}

/// Evaluates a query on the tags of one record.
#[verifier::loop_isolation(false)]
pub fn eval_query(q: &Query, tags: &Vec<Tag>) -> (r: bool)
    ensures
        r == holds(*q, tag_pairs(tags@)),
    decreases q,
{
    match q {
        Query::All => true,
        Query::And(a, b) => eval_query(a, tags) && eval_query(b, tags),
        Query::Or(a, b) => eval_query(a, tags) || eval_query(b, tags),
        Query::Not(a) => !eval_query(a, tags),
        Query::Gt(n, v) => tag_ordered(tags, n, v, false, true),
        Query::Gte(n, v) => tag_ordered(tags, n, v, false, false),
        Query::Lt(n, v) => tag_ordered(tags, n, v, true, true),
        Query::Lte(n, v) => tag_ordered(tags, n, v, true, false),
        Query::Eq(n, v) | Query::Neq(n, v) => {
            let is_eq = match q {
                Query::Eq(_, _) => true,
                _ => false,
            };
            let mut i: usize = 0;
            while i < tags.len()
                invariant
                    i <= tags.len(),
                    is_eq <==> q is Eq,
                    forall|k: int|
                        0 <= k < i ==> !(#[trigger] tag_pairs(tags@)[k].0 == n@ && ((tag_pairs(
                            tags@,
                        )[k].1 == v@) == is_eq)),
                decreases tags.len() - i,
            {
                if tags[i].name == *n && ((tags[i].value == *v) == is_eq) {
                    assert(tag_pairs(tags@)[i as int].0 == n@);
                    return true;
                }
                i = i + 1;
            }
            false
        },
        Query::In(n, vs) => {
            let mut i: usize = 0;
            while i < tags.len()
                invariant
                    i <= tags.len(),
                    forall|k: int|
                        0 <= k < i ==> !(#[trigger] tag_pairs(tags@)[k].0 == n@ && in_values(
                            vs@,
                            tag_pairs(tags@)[k].1,
                        )),
                decreases tags.len() - i,
            {
                if tags[i].name == *n && value_in(vs, &tags[i].value) {
                    assert(tag_pairs(tags@)[i as int].0 == n@);
                    return true;
                }
                i = i + 1;
            }
            false
        },
    }
}

} // verus!
