use vstd::prelude::*;
use crate::text::{chars_of, push_char, append_str, string_of, is_space};

verus! {

/// The character sequences that the vectors hold.
pub open spec fn views(v: Seq<Vec<char>>) -> Seq<Seq<char>> {
    Seq::new(v.len(), |i: int| v[i]@)
}

/// The `:`-separated parts of an identifier (at least one, possibly empty).
pub open spec fn parts_of(s: Seq<char>) -> Seq<Seq<char>>
    decreases s.len(),
{
    if s.len() == 0 {
        seq![Seq::<char>::empty()]
    } else {
        let p = parts_of(s.drop_last());
        if s.last() == ':' {
            p.push(Seq::empty())
        } else {
            p.update(p.len() - 1, p.last().push(s.last()))
        }
    }
}

/// Parts joined back with `:`.
pub open spec fn joined(p: Seq<Seq<char>>) -> Seq<char>
    decreases p.len(),
{
    if p.len() == 0 {
        Seq::empty()
    } else if p.len() == 1 {
        p[0]
    } else {
        joined(p.drop_last()) + seq![':'] + p.last()
    }
}

/// The words that open a qualified identifier: `<word>:<method>:...`.
pub open spec fn is_qualifier(w: Seq<char>) -> bool {
    w == "did"@ || w == "schema"@ || w == "creddef"@ || w == "revreg"@
}

/// Parts with every `<qualifier>:<method>` pair taken out.
pub open spec fn stripped(p: Seq<Seq<char>>) -> Seq<Seq<char>>
    decreases p.len(),
{
    if p.len() == 0 {
        p
    } else if p.len() >= 2 && is_qualifier(p[0]) {
        stripped(p.skip(2))
    } else {
        seq![p[0]] + stripped(p.skip(1))
    }
}

/// The unqualified form of an identifier; an unqualified one is kept as it is.
pub open spec fn unqualified(s: Seq<char>) -> Seq<char> {
    let p = parts_of(s);
    if p.len() >= 3 && is_qualifier(p[0]) {
        joined(stripped(p))
    } else {
        s
    }
}

/// The DID of a qualified identifier `<kind>:<m>:did:<m>:<id>:...`.
pub open spec fn qualified_did(p: Seq<Seq<char>>) -> Seq<char> {
    "did:"@ + p[3] + seq![':'] + p[4]
}

/// Issuer DID, name and version of a schema identifier.
pub open spec fn schema_parts(s: Seq<char>) -> Option<(Seq<char>, Seq<char>, Seq<char>)> {
    let p = parts_of(s);
    if p.len() == 4 && p[1] == "2"@ {
        Some((p[0], p[2], p[3]))
    } else if p.len() == 8 && p[0] == "schema"@ && p[2] == "did"@ && p[5] == "2"@ {
        Some((qualified_did(p), p[6], p[7]))
    } else {
        None
    }
}

/// Issuer DID of a credential-definition identifier.
pub open spec fn issuer_of(s: Seq<char>) -> Option<Seq<char>> {
    let p = parts_of(s);
    if p.len() >= 5 && p[1] == "3"@ {
        Some(p[0])
    } else if p.len() >= 8 && p[0] == "creddef"@ && p[2] == "did"@ && p[5] == "3"@ {
        Some(qualified_did(p))
    } else {
        None
    }
}

proof fn lemma_parts_nonempty(s: Seq<char>)
    ensures
        parts_of(s).len() >= 1,
    decreases s.len(),
{
    if s.len() > 0 {
        lemma_parts_nonempty(s.drop_last());
    }
}

/// Splits an identifier at each `:`.
pub fn split_parts(s: &str) -> (r: Vec<Vec<char>>)
    ensures
        views(r@) == parts_of(s@),
        r.len() >= 1,
{
    let cs = chars_of(s);
    split_chars(&cs)
}

fn split_chars(cs: &Vec<char>) -> (r: Vec<Vec<char>>)
    ensures
        views(r@) == parts_of(cs@),
        r.len() >= 1,
{
    let ghost s = cs@;
    let mut done: Vec<Vec<char>> = Vec::new();
    let mut cur: Vec<char> = Vec::new();
    let mut i: usize = 0;
    while i < cs.len()
        invariant
            i <= cs.len(),
            cs@ == s,
            views(done@).push(cur@) == parts_of(cs@.take(i as int)),
        decreases cs.len() - i,
    {
        let c = cs[i];
        let ghost before = views(done@).push(cur@);
        assert(cs@.take(i + 1).drop_last() =~= cs@.take(i as int));
        proof {
            lemma_parts_nonempty(cs@.take(i as int));
        }
        if c == ':' {
            let full = cur;
            done.push(full);
            cur = Vec::new();
            assert(views(done@) =~= before);
            assert(views(done@).push(cur@) =~= parts_of(cs@.take(i + 1)));
        } else {
            cur.push(c);
            assert(views(done@).push(cur@) =~= parts_of(cs@.take(i + 1)));
        }
        i = i + 1;
    }
    assert(cs@.take(cs.len() as int) =~= cs@);
    let ghost before = views(done@).push(cur@);
    done.push(cur);
    assert(views(done@) =~= before);
    done
}

/// Whether the characters spell the word.
pub fn is_word(a: &Vec<char>, w: &str) -> (r: bool)
    ensures
        r == (a@ == w@),
{
    let b = chars_of(w);
    if a.len() != b.len() {
        return false;
    }
    let mut i: usize = 0;
    while i < a.len()
        invariant
            i <= a.len(),
            a.len() == b.len(),
            b@ == w@,
            forall|k: int| 0 <= k < i ==> a@[k] == b@[k],
        decreases a.len() - i,
    {
        if a[i] != b[i] {
            return false;
        }
        i = i + 1;
    }
    assert(a@ =~= b@);
    true
}

pub fn is_qualifier_word(a: &Vec<char>) -> (r: bool)
    ensures
        r == is_qualifier(a@),
{
    is_word(a, "did") || is_word(a, "schema") || is_word(a, "creddef") || is_word(a, "revreg")
}

/// Joins parts with `:`.
pub fn join_parts(p: &Vec<Vec<char>>) -> (r: String)
    ensures
        r@ == joined(views(p@)),
{
    let mut r = String::new();
    let mut i: usize = 0;
    while i < p.len()
        invariant
            i <= p.len(),
            r@ == joined(views(p@).take(i as int)),
        decreases p.len() - i,
    {
        let ghost before = r@;
        assert(views(p@).take(i + 1).drop_last() =~= views(p@).take(i as int));
        if i > 0 {
            push_char(&mut r, ':');
        }
        let part = string_of(&p[i]);
        append_str(&mut r, part.as_str());
        proof {
            if i == 0 {
                assert(r@ =~= views(p@).take(1)[0]);
            } else {
                assert(r@ =~= before + seq![':'] + views(p@)[i as int]);
            }
        }
        i = i + 1;
    }
    assert(views(p@).take(p.len() as int) =~= views(p@));
    r
}

/// Takes every `<qualifier>:<method>` pair out of the parts.
fn strip_parts(p: &Vec<Vec<char>>) -> (r: Vec<Vec<char>>)
    ensures
        views(r@) == stripped(views(p@)),
{
    let ghost pv = views(p@);
    let mut out: Vec<Vec<char>> = Vec::new();
    let mut i: usize = 0;
    assert(pv.skip(0) =~= pv);
    assert(views(out@) + stripped(pv) =~= stripped(pv));
    while i < p.len()
        invariant
            i <= p.len(),
            pv == views(p@),
            views(out@) + stripped(pv.skip(i as int)) == stripped(pv),
        decreases p.len() - i,
    {
        if i + 1 < p.len() && is_qualifier_word(&p[i]) {
            assert(pv.skip(i as int).skip(2) =~= pv.skip(i + 2));
            i = i + 2;
        } else {
            let part = p[i].clone();
            assert(part@ == p[i as int]@);
            let ghost before = views(out@);
            assert(pv.skip(i as int)[0] == pv[i as int]);
            out.push(part);
            assert(pv.skip(i as int).skip(1) =~= pv.skip(i + 1));
            assert(views(out@) =~= before + seq![pv[i as int]]);
            assert(seq![pv.skip(i as int)[0]] + stripped(pv.skip(i + 1)) == stripped(pv.skip(i as int)));
            assert(views(out@) + stripped(pv.skip(i + 1)) =~= before + stripped(pv.skip(i as int)));
            i = i + 1;
        }
    }
    assert(stripped(pv.skip(i as int)) =~= Seq::<Seq<char>>::empty());
    assert(views(out@) + Seq::<Seq<char>>::empty() =~= views(out@));
    out
}

/// The unqualified form of an identifier: every qualifier prefix
/// `<kind>:<method>:` inside it is removed. Unqualified input comes back as it is.
pub fn to_unqualified(id: &str) -> (r: String)
    ensures
        r@ == unqualified(id@),
{
    let cs = chars_of(id);
    unqualify_chars(&cs)
}

fn unqualify_chars(cs: &Vec<char>) -> (r: String)
    ensures
        r@ == unqualified(cs@),
{
    let p = split_chars(cs);
    if p.len() >= 3 && is_qualifier_word(&p[0]) {
        let s = strip_parts(&p);
        join_parts(&s)
    } else {
        string_of(cs)
    }
}

/// Index of the first `"` at or after `i`, or -1.
pub open spec fn next_quote(s: Seq<char>, i: int) -> int
    decreases s.len() - i,
{
    if i < 0 || i >= s.len() {
        -1
    } else if s[i] == '"' {
        i
    } else {
        next_quote(s, i + 1)
    }
}

/// Index of the `"` that closes a string literal whose text starts at `i`
/// (a character after `\` is skipped), or -1.
pub open spec fn string_end(s: Seq<char>, i: int) -> int
    decreases s.len() - i,
{
    if i < 0 || i >= s.len() {
        -1
    } else if s[i] == '"' {
        i
    } else if s[i] == '\\' {
        if i + 1 >= s.len() {
            -1
        } else {
            string_end(s, i + 2)
        }
    } else {
        string_end(s, i + 1)
    }
}

/// The JSON fields whose string value is an identifier.
pub open spec fn is_id_field(k: Seq<char>) -> bool {
    k == "id"@ || k == "did"@ || k == "schema_id"@ || k == "cred_def_id"@ || k == "rev_reg_id"@
        || k == "rev_reg_def_id"@ || k == "revoc_reg_id"@ || k == "revoc_reg_def_id"@ || k
        == "issuer_did"@ || k == "schema_issuer_did"@ || k == "prover_did"@
}

/// Index of the first non-whitespace character at or after `i`.
pub open spec fn skip_space(s: Seq<char>, i: int) -> int
    decreases s.len() - i,
{
    if 0 <= i < s.len() && is_space(s[i]) {
        skip_space(s, i + 1)
    } else {
        i
    }
}

/// JSON text from `i` on, with the value of every identifier field
/// unqualified and everything else (other fields, keys, values that are not
/// strings) kept as it is.
pub open spec fn unqualified_json(s: Seq<char>, i: int) -> Seq<char>
    decreases s.len() - i,
{
    if i < 0 || i >= s.len() {
        Seq::empty()
    } else {
        let p = next_quote(s, i);
        if p < 0 {
            s.subrange(i, s.len() as int)
        } else {
            let q = string_end(s, p + 1);
            if q <= i || q >= s.len() {
                s.subrange(i, s.len() as int)
            } else {
                let j = skip_space(s, q + 1);
                let k = skip_space(s, j + 1);
                if j < s.len() && s[j] == ':' && k < s.len() && s[k] == '"' {
                    let q2 = string_end(s, k + 1);
                    if q < k && k < q2 && q2 < s.len() {
                        let v = s.subrange(k + 1, q2);
                        s.subrange(i, k + 1) + (if is_id_field(s.subrange(p + 1, q)) {
                            unqualified(v)
                        } else {
                            v
                        }) + seq!['"'] + unqualified_json(s, q2 + 1)
                    } else {
                        s.subrange(i, s.len() as int)
                    }
                } else {
                    s.subrange(i, q + 1) + unqualified_json(s, q + 1)
                }
            }
        }
    }
}

/// The unqualified form of an entity: a JSON object has the value of every
/// identifier field unqualified, anything else is read as one identifier.
pub open spec fn unqualified_entity(s: Seq<char>) -> Seq<char> {
    if s.len() > 0 && s[0] == '{' {
        unqualified_json(s, 0)
    } else {
        unqualified(s)
    }
}

proof fn lemma_next_quote(s: Seq<char>, i: int)
    ensures
        next_quote(s, i) == -1 || (i <= next_quote(s, i) < s.len() && s[next_quote(s, i)] == '"'),
    decreases s.len() - i,
{
    if 0 <= i < s.len() && s[i] != '"' {
        lemma_next_quote(s, i + 1);
    }
}

proof fn lemma_string_end(s: Seq<char>, i: int)
    ensures
        string_end(s, i) == -1 || (i <= string_end(s, i) < s.len()),
    decreases s.len() - i,
{
    if 0 <= i < s.len() && s[i] != '"' {
        if s[i] == '\\' {
            if i + 1 < s.len() {
                lemma_string_end(s, i + 2);
            }
        } else {
            lemma_string_end(s, i + 1);
        }
    }
}

fn find_quote(s: &Vec<char>, i: usize) -> (r: Option<usize>)
    ensures
        r matches Some(p) ==> p as int == next_quote(s@, i as int),
        r is None ==> next_quote(s@, i as int) == -1,
{
    let mut p: usize = i;
    while p < s.len()
        invariant
            i <= p,
            next_quote(s@, i as int) == next_quote(s@, p as int),
        decreases s.len() - p,
    {
        if s[p] == '"' {
            return Some(p);
        }
        p = p + 1;
    }
    None
}

fn find_string_end(s: &Vec<char>, i: usize) -> (r: Option<usize>)
    requires
        i <= s.len(),
    ensures
        r matches Some(q) ==> q as int == string_end(s@, i as int),
        r is None ==> string_end(s@, i as int) == -1,
{
    let mut q: usize = i;
    while q < s.len()
        invariant
            i <= q <= s.len(),
            string_end(s@, i as int) == string_end(s@, q as int),
        decreases s.len() - q,
    {
        if s[q] == '"' {
            return Some(q);
        }
        if s[q] == '\\' {
            if q + 1 >= s.len() {
                return None;
            }
            q = q + 2;
        } else {
            q = q + 1;
        }
    }
    None
}

fn slice_chars(s: &Vec<char>, a: usize, b: usize) -> (r: Vec<char>)
    requires
        a <= b <= s.len(),
    ensures
        r@ == s@.subrange(a as int, b as int),
{
    let mut r: Vec<char> = Vec::new();
    let mut k: usize = a;
    while k < b
        invariant
            a <= k <= b,
            b <= s.len(),
            r@ == s@.subrange(a as int, k as int),
        decreases b - k,
    {
        r.push(s[k]);
        assert(r@ =~= s@.subrange(a as int, k + 1));
        k = k + 1;
    }
    r
}

proof fn lemma_skip_space(s: Seq<char>, i: int)
    requires
        0 <= i,
    ensures
        i <= skip_space(s, i),
        i <= s.len() ==> skip_space(s, i) <= s.len(),
    decreases s.len() - i,
{
    if 0 <= i < s.len() && is_space(s[i]) {
        lemma_skip_space(s, i + 1);
    }
}

fn skip_spaces(s: &Vec<char>, i: usize) -> (r: usize)
    requires
        i <= s.len(),
    ensures
        r as int == skip_space(s@, i as int),
        i <= r <= s.len(),
{
    let mut j: usize = i;
    while j < s.len() && crate::text::is_space_char(s[j])
        invariant
            i <= j <= s.len(),
            skip_space(s@, i as int) == skip_space(s@, j as int),
        decreases s.len() - j,
    {
        j = j + 1;
    }
    j
}

fn is_id_field_word(k: &Vec<char>) -> (r: bool)
    ensures
        r == is_id_field(k@),
{
    is_word(k, "id") || is_word(k, "did") || is_word(k, "schema_id") || is_word(k, "cred_def_id")
        || is_word(k, "rev_reg_id") || is_word(k, "rev_reg_def_id") || is_word(k, "revoc_reg_id")
        || is_word(k, "revoc_reg_def_id") || is_word(k, "issuer_did") || is_word(k, "schema_issuer_did")
        || is_word(k, "prover_did")
}

fn append_chars(out: &mut String, s: &Vec<char>, a: usize, b: usize)
    requires
        a <= b <= s.len(),
    ensures
        final(out)@ == old(out)@ + s@.subrange(a as int, b as int),
{
    let part = slice_chars(s, a, b);
    append_str(out, string_of(&part).as_str());
}

/// The unqualified form of an entity: a JSON object has the value of every
/// identifier field (`id`, `did`, `schema_id`, `cred_def_id`, `rev_reg_id`,
/// `rev_reg_def_id`, `revoc_reg_id`, `revoc_reg_def_id`, `issuer_did`,
/// `schema_issuer_did`, `prover_did`) unqualified and keeps everything else
/// as it is; any other text is read as one identifier.
#[verifier::loop_isolation(false)]
pub fn to_unqualified_entity(entity: &str) -> (r: String)
    ensures
        r@ == unqualified_entity(entity@),
{
    let s = chars_of(entity);
    if s.len() == 0 || s[0] != '{' {
        return unqualify_chars(&s);
    }
    let mut out = String::new();
    let mut i: usize = 0;
    while i < s.len()
        invariant
            i <= s.len(),
            s@ == entity@,
            out@ + unqualified_json(s@, i as int) == unqualified_json(s@, 0),
        decreases s.len() - i,
    {
        let ghost before = out@;
        let p = match find_quote(&s, i) {
            None => {
                append_chars(&mut out, &s, i, s.len());
                assert(unqualified_json(s@, s.len() as int) == Seq::<char>::empty());
                assert(out@ =~= unqualified_json(s@, 0));
                return out;
            },
            Some(p) => p,
        };
        proof {
            lemma_next_quote(s@, i as int);
        }
        let q = match find_string_end(&s, p + 1) {
            None => {
                append_chars(&mut out, &s, i, s.len());
                assert(out@ =~= unqualified_json(s@, 0));
                return out;
            },
            Some(q) => q,
        };
        proof {
            lemma_string_end(s@, (p + 1) as int);
        }
        let j = skip_spaces(&s, q + 1);
        let k = if j < s.len() {
            skip_spaces(&s, j + 1)
        } else {
            s.len()
        };
        proof {
            if j < s.len() {
                assert(k as int == skip_space(s@, j + 1));
            } else {
                lemma_skip_space(s@, j + 1);
                assert(skip_space(s@, j + 1) == j + 1);
            }
        }
        if j < s.len() && s[j] == ':' && k < s.len() && s[k] == '"' {
            let q2 = match find_string_end(&s, k + 1) {
                None => {
                    append_chars(&mut out, &s, i, s.len());
                    assert(out@ =~= unqualified_json(s@, 0));
                    return out;
                },
                Some(q2) => q2,
            };
            proof {
                lemma_string_end(s@, (k + 1) as int);
            }
            append_chars(&mut out, &s, i, k + 1);
            let key = slice_chars(&s, p + 1, q);
            let value = slice_chars(&s, k + 1, q2);
            if is_id_field_word(&key) {
                append_str(&mut out, unqualify_chars(&value).as_str());
            } else {
                append_str(&mut out, string_of(&value).as_str());
            }
            push_char(&mut out, '"');
            assert(out@ =~= before + (s@.subrange(i as int, k + 1) + (if is_id_field(s@.subrange(p + 1, q as int)) {
                unqualified(s@.subrange(k + 1, q2 as int))
            } else {
                s@.subrange(k + 1, q2 as int)
            }) + seq!['"']));
            i = q2 + 1;
        } else {
            append_chars(&mut out, &s, i, q + 1);
            i = q + 1;
        }
    }
    assert(unqualified_json(s@, i as int) == Seq::<char>::empty());
    assert(out@ =~= unqualified_json(s@, 0));
    out
}

/// Builds `did:<method>:<id>` out of parts three and four.
fn did_of(p: &Vec<Vec<char>>) -> (r: String)
    requires
        p.len() >= 5,
    ensures
        r@ == qualified_did(views(p@)),
{
    let mut r = String::new();
    append_str(&mut r, "did:");
    let m = string_of(&p[3]);
    append_str(&mut r, m.as_str());
    push_char(&mut r, ':');
    let d = string_of(&p[4]);
    append_str(&mut r, d.as_str());
    assert(r@ =~= qualified_did(views(p@)));
    r
}

/// Issuer DID, name and version of a schema identifier, if it has that shape.
pub fn schema_id_parts(id: &str) -> (r: Option<(String, String, String)>)
    ensures
        r is None <==> schema_parts(id@) is None,
        r matches Some((d, n, v)) ==> schema_parts(id@) == Some((d@, n@, v@)),
{
    let p = split_parts(id);
    if p.len() == 4 && is_word(&p[1], "2") {
        Some((string_of(&p[0]), string_of(&p[2]), string_of(&p[3])))
    } else if p.len() == 8 && is_word(&p[0], "schema") && is_word(&p[2], "did") && is_word(
        &p[5],
        "2",
    ) {
        Some((did_of(&p), string_of(&p[6]), string_of(&p[7])))
    } else {
        None
    }
}

/// Issuer DID of a credential-definition identifier, if it has that shape.
pub fn cred_def_issuer_did(id: &str) -> (r: Option<String>)
    ensures
        r is None <==> issuer_of(id@) is None,
        r matches Some(d) ==> issuer_of(id@) == Some(d@),
{
    let p = split_parts(id);
    if p.len() >= 5 && is_word(&p[1], "3") {
        Some(string_of(&p[0]))
    } else if p.len() >= 8 && is_word(&p[0], "creddef") && is_word(&p[2], "did") && is_word(
        &p[5],
        "3",
    ) {
        Some(did_of(&p))
    } else {
        None
    }
}

} // verus!
