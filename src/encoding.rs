use vstd::prelude::*;
use vstd::utf8::encode_utf8;
use crate::text::{chars_of, string_of};

verus! {

/// The value of a big-endian byte string.
pub open spec fn be_value(b: Seq<u8>) -> nat
    decreases b.len(),
{
    if b.len() == 0 {
        0
    } else {
        be_value(b.drop_last()) * 256 + b.last() as nat
    }
}

pub open spec fn digit_char(d: nat) -> char {
    ((d + 48) as u8) as char
}

/// The decimal digits of a natural number, without leading zeros.
pub open spec fn decimal(n: nat) -> Seq<char>
    decreases n,
{
    if n < 10 {
        seq![digit_char(n)]
    } else {
        decimal(n / 10).push(digit_char(n % 10))
    }
}

/// Decimal text of an integer, with `-` before a negative one.
pub open spec fn int_decimal(v: int) -> Seq<char> {
    if v < 0 {
        seq!['-'] + decimal((-v) as nat)
    } else {
        decimal(v as nat)
    }
}

pub open spec fn is_digit(c: char) -> bool {
    '0' <= c && c <= '9'
}

/// The value of a run of decimal digits.
pub open spec fn digits_value(s: Seq<char>) -> nat
    decreases s.len(),
{
    if s.len() == 0 {
        0
    } else {
        digits_value(s.drop_last()) * 10 + ((s.last() as u32 - 48) as nat)
    }
}

/// The text after an optional sign, and whether the sign was `-`.
pub open spec fn unsigned_part(s: Seq<char>) -> (bool, Seq<char>) {
    if s.len() > 0 && s[0] == '-' {
        (true, s.skip(1))
    } else if s.len() > 0 && s[0] == '+' {
        (false, s.skip(1))
    } else {
        (false, s)
    }
}

/// The 32-bit integer that the text spells (an optional sign, then one or
/// more decimal digits), if it is in range.
pub open spec fn int_value(s: Seq<char>) -> Option<int> {
    let (neg, body) = unsigned_part(s);
    if body.len() == 0 || !(forall|i: int| 0 <= i < body.len() ==> is_digit(#[trigger] body[i])) {
        None
    } else {
        let v = if neg {
            -(digits_value(body) as int)
        } else {
            digits_value(body) as int
        };
        if i32::MIN <= v && v <= i32::MAX {
            Some(v)
        } else {
            None
        }
    }
}

/// What SHA-256 gives for the bytes.
pub uninterp spec fn sha256_of(b: Seq<u8>) -> Seq<u8>;

/// The canonical encoding of an attribute value: a 32-bit integer stands for
/// itself; any other text for the SHA-256 digest of its UTF-8 bytes, read as
/// a big-endian number.
pub open spec fn encoded_of(raw: Seq<char>) -> Seq<char> {
    match int_value(raw) {
        Some(v) => int_decimal(v),
        None => decimal(be_value(sha256_of(encode_utf8(raw)))),
    }
}

/// Relies on `sha2::Sha256::digest`: the SHA-256 digest of the bytes, 32 bytes long.
#[verifier::external_body]
fn sha256(b: &[u8]) -> (r: Vec<u8>)
    ensures
        r@ == sha256_of(b@),
        r@.len() == 32,
{
    <sha2::Sha256 as sha2::Digest>::digest(b).to_vec()
}

proof fn lemma_digits_monotone(s: Seq<char>, i: int)
    requires
        0 <= i <= s.len(),
    ensures
        digits_value(s.take(i)) <= digits_value(s),
    decreases s.len() - i,
{
    if i < s.len() {
        lemma_digits_monotone(s, i + 1);
        assert(s.take(i + 1).drop_last() =~= s.take(i));
    } else {
        assert(s.take(i) =~= s);
    }
}

/// The 32-bit integer that the text spells, as `str::parse::<i32>` reads it.
pub fn parse_i32(s: &Vec<char>) -> (r: Option<i32>)
    ensures
        r matches Some(v) ==> int_value(s@) == Some(v as int),
        r is None ==> int_value(s@) is None,
{
    let ghost body = unsigned_part(s@).1;
    let neg = s.len() > 0 && s[0] == '-';
    let start: usize = if s.len() > 0 && (s[0] == '-' || s[0] == '+') {
        1
    } else {
        0
    };
    assert(body =~= s@.skip(start as int));
    if start == s.len() {
        return None;
    }
    let mut acc: u64 = 0;
    let mut i: usize = start;
    while i < s.len()
        invariant
            start <= i <= s.len(),
            body == s@.skip(start as int),
            body == unsigned_part(s@).1,
            acc == digits_value(body.take(i - start)),
            acc <= 2147483648,
            forall|k: int| 0 <= k < i - start ==> is_digit(#[trigger] body[k]),
        decreases s.len() - i,
    {
        let c = s[i];
        if !('0' <= c && c <= '9') {
            assert(!is_digit(body[i - start]));
            return None;
        }
        assert(body.take(i + 1 - start).drop_last() =~= body.take(i - start));
        acc = acc * 10 + (c as u64 - 48);
        i = i + 1;
        if acc > 2147483648 {
            proof {
                lemma_digits_monotone(body, i - start);
            }
            return None;
        }
    }
    assert(body.take(i - start) =~= body);
    if neg {
        Some((0 - acc as i64) as i32)
    } else if acc > 2147483647 {
        None
    } else {
        Some(acc as i32)
    }
}

proof fn lemma_decimal_step(n: nat)
    requires
        n >= 10,
    ensures
        decimal(n) == decimal(n / 10).push(digit_char(n % 10)),
{
}

/// Decimal text of a natural number.
pub fn u128_decimal(n: u128) -> (r: Vec<char>)
    ensures
        r@ == decimal(n as nat),
{
    let mut acc: Vec<char> = Vec::new();
    let mut cur: u128 = n;
    loop
        invariant
            decimal(n as nat) == decimal(cur as nat) + acc@,
        decreases cur,
    {
        let d = cur % 10;
        let c = ((d as u8) + 48) as char;
        acc.insert(0, c);
        if cur < 10 {
            assert(acc@ =~= decimal(cur as nat) + acc@.skip(1));
            assert(decimal(n as nat) =~= acc@);
            return acc;
        }
        proof {
            lemma_decimal_step(cur as nat);
        }
        let ghost before = cur;
        cur = cur / 10;
        assert(decimal(before as nat) + acc@.skip(1) =~= decimal(cur as nat) + acc@);
    }
}

/// Decimal text of a 32-bit integer.
pub fn i32_decimal(v: i32) -> (r: Vec<char>)
    ensures
        r@ == int_decimal(v as int),
{
    if v < 0 {
        let m: u128 = (0 - (v as i64)) as u128;
        let d = u128_decimal(m);
        let mut r: Vec<char> = Vec::new();
        r.push('-');
        let mut i: usize = 0;
        while i < d.len()
            invariant
                i <= d.len(),
                r@ == seq!['-'] + d@.take(i as int),
            decreases d.len() - i,
        {
            r.push(d[i]);
            assert(r@ =~= seq!['-'] + d@.take(i + 1));
            i = i + 1;
        }
        assert(d@.take(d.len() as int) =~= d@);
        r
    } else {
        u128_decimal(v as u128)
    }
}

/// Divides a big-endian number by ten in place; returns the remainder.
fn div10(b: &mut Vec<u8>) -> (r: u8)
    ensures
        final(b)@.len() == old(b)@.len(),
        be_value(final(b)@) * 10 + r == be_value(old(b)@),
        r < 10,
{
    let ghost orig = b@;
    let mut rem: u32 = 0;
    let mut i: usize = 0;
    while i < b.len()
        invariant
            i <= b.len(),
            b@.len() == orig.len(),
            rem < 10,
            be_value(b@.take(i as int)) * 10 + rem == be_value(orig.take(i as int)),
            forall|k: int| i <= k < b.len() ==> b@[k] == orig[k],
        decreases b.len() - i,
    {
        let cur: u32 = rem * 256 + b[i] as u32;
        let q = cur / 10;
        assert(q < 256) by (nonlinear_arith)
            requires
                cur == rem * 256 + b[i as int] as u32,
                rem < 10,
                q == cur / 10,
        ;
        let ghost prev = b@;
        b.set(i, q as u8);
        let ghost pb = prev.take(i as int);
        assert(b@.take(i + 1).drop_last() =~= pb);
        assert(orig.take(i + 1).drop_last() =~= orig.take(i as int));
        let ghost vb = be_value(pb);
        let ghost vo = be_value(orig.take(i as int));
        assert(b@.take(i as int) =~= pb);
        assert((vb * 256 + q) * 10 + cur % 10 == vo * 256 + orig[i as int]) by (nonlinear_arith)
            requires
                vb * 10 + rem == vo,
                cur == rem * 256 + orig[i as int] as u32,
                q == cur / 10,
        ;
        rem = cur % 10;
        i = i + 1;
    }
    assert(b@.take(b.len() as int) =~= b@);
    assert(orig.take(orig.len() as int) =~= orig);
    rem as u8
}

fn is_zero(b: &Vec<u8>) -> (r: bool)
    ensures
        r == (be_value(b@) == 0),
{
    let mut i: usize = 0;
    while i < b.len()
        invariant
            i <= b.len(),
            be_value(b@.take(i as int)) == 0,
        decreases b.len() - i,
    {
        assert(b@.take(i + 1).drop_last() =~= b@.take(i as int));
        if b[i] != 0 {
            proof {
                lemma_be_prefix(b@, i + 1);
            }
            return false;
        }
        i = i + 1;
    }
    assert(b@.take(b.len() as int) =~= b@);
    true
}

/// A longer prefix has at least the value of a shorter one.
proof fn lemma_be_prefix(b: Seq<u8>, i: int)
    requires
        0 <= i <= b.len(),
    ensures
        be_value(b.take(i)) <= be_value(b),
    decreases b.len() - i,
{
    if i < b.len() {
        lemma_be_prefix(b, i + 1);
        assert(b.take(i + 1).drop_last() =~= b.take(i));
    } else {
        assert(b.take(i) =~= b);
    }
}

/// Decimal text of a big-endian number.
pub fn be_decimal(bytes: &Vec<u8>) -> (r: Vec<char>)
    ensures
        r@ == decimal(be_value(bytes@)),
{
    let mut b = bytes.clone();
    assert(b@ =~= bytes@);
    let mut acc: Vec<char> = Vec::new();
    loop
        invariant
            decimal(be_value(bytes@)) == decimal(be_value(b@)) + acc@,
        decreases be_value(b@),
    {
        let ghost before = be_value(b@);
        let d = div10(&mut b);
        let c = (d + 48) as char;
        acc.insert(0, c);
        if is_zero(&b) {
            assert(before < 10);
            assert(acc@ =~= decimal(before) + acc@.skip(1));
            assert(decimal(be_value(bytes@)) =~= acc@);
            return acc;
        }
        proof {
            lemma_decimal_step(before);
        }
        assert(decimal(before) + acc@.skip(1) =~= decimal(be_value(b@)) + acc@);
    }
}

/// The canonical encoding of an attribute value.
pub fn encode_attr(raw: &str) -> (r: String)
    ensures
        r@ == encoded_of(raw@),
{
    let cs = chars_of(raw);
    match parse_i32(&cs) {
        Some(v) => string_of(&i32_decimal(v)),
        None => {
            let digest = sha256(raw.as_bytes());
            string_of(&be_decimal(&digest))
        },
    }
}


proof fn lemma_decimal_digits(n: nat)
    ensures
        decimal(n).len() >= 1,
        forall|i: int| 0 <= i < decimal(n).len() ==> is_digit(#[trigger] decimal(n)[i]),
        digits_value(decimal(n)) == n,
    decreases n,
{
    if n >= 10 {
        lemma_decimal_digits(n / 10);
        let d = decimal(n);
        assert(d.drop_last() =~= decimal(n / 10));
        let c = digit_char(n % 10);
        assert((c as u32 - 48) as nat == n % 10);
        assert(d.last() == c);
        assert((n / 10) * 10 + n % 10 == n) by (nonlinear_arith);
        assert(digits_value(d) == digits_value(decimal(n / 10)) * 10 + n % 10);
        assert(forall|i: int| 0 <= i < d.len() - 1 ==> d[i] == decimal(n / 10)[i]);
    } else {
        assert((digit_char(n) as u32 - 48) as nat == n);
        assert(decimal(n).drop_last() =~= Seq::<char>::empty());
        assert(decimal(n).last() == digit_char(n));
        assert(digits_value(decimal(n)) == digits_value(Seq::<char>::empty()) * 10 + n);
    }
}

/// Reading back the decimal text of a 32-bit integer gives the integer.
pub proof fn lemma_int_decimal_round_trip(v: int)
    requires
        i32::MIN <= v <= i32::MAX,
    ensures
        int_value(int_decimal(v)) == Some(v),
{
    if v < 0 {
        let d = decimal((-v) as nat);
        lemma_decimal_digits((-v) as nat);
        assert((seq!['-'] + d).skip(1) =~= d);
        assert((seq!['-'] + d)[0] == '-');
    } else {
        let d = decimal(v as nat);
        lemma_decimal_digits(v as nat);
        assert(d[0] != '-' && d[0] != '+') by {
            assert(is_digit(d[0]));
        }
    }
}

/// Encoding is idempotent on the values that encode to themselves: the
/// encoding of a 32-bit integer, encoded again, is unchanged.
pub proof fn lemma_encoding_idempotent(raw: Seq<char>)
    requires
        int_value(raw) is Some,
    ensures
        encoded_of(encoded_of(raw)) == encoded_of(raw),
{
    lemma_int_decimal_round_trip(int_value(raw)->Some_0);
}

} // verus!
