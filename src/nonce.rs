use vstd::prelude::*;
use crate::encoding::{be_value, decimal, u128_decimal};
use crate::text::string_of;

verus! {

/// 256 to the power `n`.
pub open spec fn pow256(n: nat) -> nat
    decreases n,
{
    if n == 0 {
        1
    } else {
        pow256((n - 1) as nat) * 256
    }
}

/// Relies on `rand::rngs::OsRng` (rand_core's `OsRng`) and `RngCore::fill_bytes`:
/// `n` bytes from the operating system's cryptographic generator. It panics
/// only when the operating system cannot provide randomness at all.
#[verifier::external_body]
fn random_bytes(n: usize) -> (r: Vec<u8>)
    ensures
        r@.len() == n,
{
    let mut b = vec![0u8; n];
    rand::RngCore::fill_bytes(&mut rand::rngs::OsRng, &mut b);
    b
}

/// A fresh 80-bit nonce in decimal: ten random bytes read as a big-endian number.
pub fn generate_nonce() -> (r: String)
    ensures
        exists|n: nat| n < pow256(10) && r@ == decimal(n),
{
    let b = random_bytes(10);
    nonce_from_bytes(&b)
}

/// The nonce that ten bytes stand for: their big-endian value in decimal.
pub fn nonce_from_bytes(b: &Vec<u8>) -> (r: String)
    requires
        b@.len() == 10,
    ensures
        r@ == decimal(be_value(b@)),
        be_value(b@) < pow256(10),
{
    let mut v: u128 = 0;
    let mut i: usize = 0;
    assert(pow256(10) == 1208925819614629174706176) by {
        reveal_with_fuel(pow256, 11);
    }
    while i < 10
        invariant
            i <= 10,
            b@.len() == 10,
            v == be_value(b@.take(i as int)),
            v < pow256(i as nat),
            pow256(10) == 1208925819614629174706176,
        decreases 10 - i,
    {
        assert(b@.take(i + 1).drop_last() =~= b@.take(i as int));
        proof {
            lemma_pow256_monotone(i as nat, 9);
        }
        assert(v * 256 + b[i as int] < pow256((i + 1) as nat)) by (nonlinear_arith)
            requires
                v < pow256(i as nat),
                b[i as int] < 256,
                pow256((i + 1) as nat) == pow256(i as nat) * 256,
        ;
        v = v * 256 + b[i] as u128;
        i = i + 1;
    }
    assert(b@.take(10) =~= b@);
    string_of(&u128_decimal(v))
}

proof fn lemma_pow256_monotone(i: nat, j: nat)
    requires
        i <= j,
    ensures
        pow256(i) <= pow256(j),
    decreases j,
{
    if i < j {
        lemma_pow256_monotone(i, (j - 1) as nat);
    }
}

} // verus!
