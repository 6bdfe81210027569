//! Hashcash-style proof of work over the capability bytes of a request: the
//! first sixteen digest bytes of `capability ++ token`, read as a little-
//! endian integer, must reach the difficulty threshold.

use vstd::prelude::*;
use vstd::arithmetic::mul::lemma_mul_is_associative;
use crate::codec::{le_val, pow256, enc_u64, write_u64, read_u64, lemma_pow256_8,
    lemma_le_val_bound, lemma_subrange_of_subrange};
use crate::crypto::{digest_of, hash_bytes};

verus! {

/// The difficulty threshold: a token is accepted when the digest value
/// reaches it. Roughly one try in ten succeeds.
pub const DIFFICULTY: u128 = u128::MAX - u128::MAX / 10;

/// Splitting a byte string splits its value by place.
pub proof fn lemma_le_val_concat(a: Seq<u8>, b: Seq<u8>)
    ensures
        le_val(a + b) == le_val(a) + pow256(a.len()) * le_val(b),
    decreases a.len(),
{
    if a.len() == 0 {
        assert(a + b =~= b);
        assert(pow256(0) == 1);
        assert(le_val(a) == 0);
        assert(pow256(a.len()) * le_val(b) == le_val(b));
    } else {
        let t = a.drop_first();
        assert((a + b).drop_first() =~= t + b);
        lemma_le_val_concat(t, b);
        assert(le_val(a + b) == (a + b)[0] as nat + 256 * le_val(t + b));
        assert((a + b)[0] == a[0]);
        assert(le_val(a + b) == a[0] as nat + 256 * (le_val(t) + pow256(t.len()) * le_val(b)));
        lemma_mul_is_associative(256, pow256(t.len()) as int, le_val(b) as int);
        assert(256 * (pow256(t.len()) * le_val(b)) == (256 * pow256(t.len())) * le_val(b));
        assert(256 * pow256(t.len()) == pow256(a.len()));
        assert(le_val(a + b) == (a[0] as nat + 256 * le_val(t)) + pow256(a.len()) * le_val(b));
        assert(le_val(a) == a[0] as nat + 256 * le_val(t));
    }
}

/// The value a proof-of-work token scores against the capability: the first
/// sixteen digest bytes of `capability ++ token`, little endian.
pub open spec fn pow_score(cap: Seq<u8>, token: Seq<u8>) -> nat {
    le_val(digest_of(cap + token).take(16))
}

/// Whether a token is an acceptable proof of work for the capability.
pub open spec fn pow_ok(cap: Seq<u8>, token: Seq<u8>) -> bool {
    token.len() == 8 && digest_of(cap + token).len() == 64 && pow_score(cap, token)
        >= DIFFICULTY as nat
}

/// Checks a proof-of-work token against the capability bytes.
pub fn confirm_proof_of_work(pow: &Vec<u8>, cap: &Vec<u8>) -> (r: bool)
    ensures
        r == pow_ok(cap@, pow@),
{
    if pow.len() != 8 {
        return false;
    }
    let mut m = cap.clone();
    let mut token = pow.clone();
    m.append(&mut token);
    let h = hash_bytes(&m);
    let (lo, _) = match read_u64(&h, 0) {
        Some(p) => p,
        None => {
            return false;
        },
    };
    let (hi, _) = match read_u64(&h, 8) {
        Some(p) => p,
        None => {
            return false;
        },
    };
    let score: u128 = lo as u128 + 0x10000000000000000u128 * (hi as u128);
    proof {
        let d = digest_of(cap@ + pow@);
        assert(d == h@);
        let head = d.take(16);
        assert(head =~= d.subrange(0, 8) + d.subrange(8, 16));
        lemma_le_val_concat(d.subrange(0, 8), d.subrange(8, 16));
        lemma_pow256_8();
        lemma_le_val_bound(d.subrange(0, 8));
        lemma_le_val_bound(d.subrange(8, 16));
        assert(le_val(head) == lo as nat + 0x10000000000000000 * (hi as nat));
        assert(score as nat == le_val(head));
    }
    score >= DIFFICULTY
}

/// Searches for a proof-of-work token by counting, giving up after
/// `max_tries` attempts.
pub fn generate_proof_of_work(cap: &Vec<u8>, max_tries: u64) -> (r: Option<Vec<u8>>)
    ensures
        match r {
            Some(token) => pow_ok(cap@, token@),
            None => true,
        },
{
    let mut t: u64 = 0;
    while t < max_tries
        invariant
            t <= max_tries,
        decreases max_tries - t,
    {
        let mut token: Vec<u8> = Vec::new();
        write_u64(&mut token, t);
        proof {
            assert(token@ =~= enc_u64(t));
        }
        if confirm_proof_of_work(&token, cap) {
            return Some(token);
        }
        t += 1;
    }
    None
}

} // verus!
