//! The wire and snapshot byte format: little-endian 64-bit integers,
//! length-prefixed byte strings, and counted lists. Every reader is exact
//! (its result is pinned by a spec function of the input), and every encoder
//! round-trips through its reader.

use vstd::prelude::*;
use vstd::arithmetic::div_mod::{lemma_fundamental_div_mod, lemma_div_denominator};

verus! {

/// 256 to the power `n`.
pub open spec fn pow256(n: nat) -> nat
    decreases n,
{
    if n == 0 {
        1
    } else {
        256 * pow256((n - 1) as nat)
    }
}

/// The `n` little-endian base-256 digits of `x`.
pub open spec fn le_bytes(x: nat, n: nat) -> Seq<u8>
    decreases n,
{
    if n == 0 {
        Seq::empty()
    } else {
        seq![(x % 256) as u8] + le_bytes(x / 256, (n - 1) as nat)
    }
}

/// The value of a little-endian byte string.
pub open spec fn le_val(s: Seq<u8>) -> nat
    decreases s.len(),
{
    if s.len() == 0 {
        0
    } else {
        s[0] as nat + 256 * le_val(s.drop_first())
    }
}

/// The encoding of a 64-bit integer: its eight little-endian bytes.
pub open spec fn enc_u64(x: u64) -> Seq<u8> {
    le_bytes(x as nat, 8)
}

/// The encoding of a byte string: its length, then its bytes.
pub open spec fn enc_bytes(b: Seq<u8>) -> Seq<u8> {
    enc_u64(b.len() as u64) + b
}

pub proof fn lemma_pow256_pos(n: nat)
    ensures
        pow256(n) >= 1,
    decreases n,
{
    if n > 0 {
        lemma_pow256_pos((n - 1) as nat);
    }
}

pub proof fn lemma_le_bytes_len(x: nat, n: nat)
    ensures
        le_bytes(x, n).len() == n,
    decreases n,
{
    if n > 0 {
        lemma_le_bytes_len(x / 256, (n - 1) as nat);
    }
}

pub proof fn lemma_le_val_bound(s: Seq<u8>)
    ensures
        le_val(s) < pow256(s.len()),
    decreases s.len(),
{
    if s.len() > 0 {
        lemma_le_val_bound(s.drop_first());
    }
}

pub proof fn lemma_le_val_le_bytes(x: nat, n: nat)
    requires
        x < pow256(n),
    ensures
        le_val(le_bytes(x, n)) == x,
    decreases n,
{
    if n == 0 {
    } else {
        let s = le_bytes(x, n);
        assert(s.drop_first() =~= le_bytes(x / 256, (n - 1) as nat));
        assert(x / 256 < pow256((n - 1) as nat)) by {
            lemma_fundamental_div_mod(x as int, 256);
        }
        lemma_le_val_le_bytes(x / 256, (n - 1) as nat);
        lemma_fundamental_div_mod(x as int, 256);
    }
}

/// Writing one more digit appends the next digit of the value.
pub proof fn lemma_le_bytes_snoc(x: nat, k: nat)
    ensures
        le_bytes(x, k + 1) == le_bytes(x, k).push(((x / pow256(k)) % 256) as u8),
    decreases k,
{
    if k == 0 {
        assert(pow256(0) == 1);
        assert(x / 1 == x) by {
            lemma_fundamental_div_mod(x as int, 1);
        }
        lemma_le_bytes_len(x, 1);
        assert(le_bytes(x, 1) == seq![(x % 256) as u8] + le_bytes(x / 256, 0));
        assert(le_bytes(x, 1)[0] == (x % 256) as u8);
        assert(le_bytes(x, 1) =~= le_bytes(x, 0).push(((x / pow256(0)) % 256) as u8));
    } else {
        lemma_le_bytes_snoc(x / 256, (k - 1) as nat);
        lemma_pow256_pos((k - 1) as nat);
        lemma_div_denominator(x as int, 256, pow256((k - 1) as nat) as int);
        assert(256 * pow256((k - 1) as nat) == pow256(k));
        assert((x / 256) / pow256((k - 1) as nat) == x / pow256(k));
        let d = ((x / pow256(k)) % 256) as u8;
        assert(le_bytes(x / 256, k) == le_bytes(x / 256, (k - 1) as nat).push(d));
        assert(le_bytes(x, k + 1) == seq![(x % 256) as u8] + le_bytes(x / 256, k));
        assert(le_bytes(x, k) == seq![(x % 256) as u8] + le_bytes(x / 256, (k - 1) as nat));
        assert(le_bytes(x, k + 1) =~= le_bytes(x, k).push(d));
    }
}

/// Reads a 64-bit integer at `i`: its value and the next position.
pub open spec fn rd_u64(s: Seq<u8>, i: int) -> Option<(u64, int)> {
    if 0 <= i && i + 8 <= s.len() {
        Some((le_val(s.subrange(i, i + 8)) as u64, i + 8))
    } else {
        None
    }
}

/// Reads a length-prefixed byte string at `i`.
pub open spec fn rd_bytes(s: Seq<u8>, i: int) -> Option<(Seq<u8>, int)> {
    match rd_u64(s, i) {
        None => None,
        Some((n, j)) => if n <= usize::MAX as u64 && j + n <= s.len() {
            Some((s.subrange(j, j + n), j + n as int))
        } else {
            None
        },
    }
}

/// Appends the eight little-endian bytes of `x`.
pub fn write_u64(out: &mut Vec<u8>, x: u64)
    ensures
        final(out)@ == old(out)@ + enc_u64(x),
{
    let ghost start = out@;
    let mut v: u64 = x;
    let mut k: usize = 0;
    proof {
        assert(out@ =~= start + le_bytes(x as nat, 0));
        assert(pow256(0) == 1);
    }
    while k < 8
        invariant
            0 <= k <= 8,
            out@ == start + le_bytes(x as nat, k as nat),
            v as nat == (x as nat) / pow256(k as nat),
        decreases 8 - k,
    {
        proof {
            lemma_le_bytes_snoc(x as nat, k as nat);
            assert(start + le_bytes(x as nat, (k + 1) as nat) =~= (start + le_bytes(
                x as nat,
                k as nat,
            )).push(((x as nat / pow256(k as nat)) % 256) as u8));
            lemma_pow256_pos(k as nat);
            lemma_div_denominator(x as int, pow256(k as nat) as int, 256);
        }
        out.push((v % 256) as u8);
        v = v / 256;
        k += 1;
    }
    proof {
        assert(out@ =~= start + enc_u64(x));
    }
}

/// The value of eight bytes, spelled out.
proof fn lemma_le_val8(s: Seq<u8>)
    requires
        s.len() == 8,
    ensures
        le_val(s) == s[0] as nat + 256 * (s[1] as nat + 256 * (s[2] as nat + 256 * (s[3] as nat
            + 256 * (s[4] as nat + 256 * (s[5] as nat + 256 * (s[6] as nat + 256 * (
        s[7] as nat))))))),
{
    let s1 = s.drop_first();
    let s2 = s1.drop_first();
    let s3 = s2.drop_first();
    let s4 = s3.drop_first();
    let s5 = s4.drop_first();
    let s6 = s5.drop_first();
    let s7 = s6.drop_first();
    assert(s1[0] == s[1] && s2[0] == s[2] && s3[0] == s[3] && s4[0] == s[4] && s5[0] == s[5]
        && s6[0] == s[6] && s7[0] == s[7]);
    assert(le_val(s7) == s7[0] as nat + 256 * le_val(s7.drop_first()));
    assert(le_val(s7.drop_first()) == 0);
    assert(le_val(s6) == s6[0] as nat + 256 * le_val(s7));
    assert(le_val(s5) == s5[0] as nat + 256 * le_val(s6));
    assert(le_val(s4) == s4[0] as nat + 256 * le_val(s5));
    assert(le_val(s3) == s3[0] as nat + 256 * le_val(s4));
    assert(le_val(s2) == s2[0] as nat + 256 * le_val(s3));
    assert(le_val(s1) == s1[0] as nat + 256 * le_val(s2));
    assert(le_val(s) == s[0] as nat + 256 * le_val(s1));
}

/// Reads a 64-bit little-endian integer.
pub fn read_u64(s: &Vec<u8>, i: usize) -> (r: Option<(u64, usize)>)
    ensures
        match r {
            Some((v, j)) => rd_u64(s@, i as int) == Some((v, j as int)),
            None => rd_u64(s@, i as int) is None,
        },
{
    if s.len() < 8 || i > s.len() - 8 {
        return None;
    }
    let b0 = s[i] as u64;
    let b1 = s[i + 1] as u64;
    let b2 = s[i + 2] as u64;
    let b3 = s[i + 3] as u64;
    let b4 = s[i + 4] as u64;
    let b5 = s[i + 5] as u64;
    let b6 = s[i + 6] as u64;
    let b7 = s[i + 7] as u64;
    let v: u64 = b0 + 256 * (b1 + 256 * (b2 + 256 * (b3 + 256 * (b4 + 256 * (b5 + 256 * (b6 + 256
        * b7))))));
    proof {
        let sub = s@.subrange(i as int, i as int + 8);
        lemma_le_val8(sub);
        assert(sub[0] == s@[i as int] && sub[1] == s@[i as int + 1] && sub[2] == s@[i as int + 2]
            && sub[3] == s@[i as int + 3] && sub[4] == s@[i as int + 4] && sub[5] == s@[i as int
            + 5] && sub[6] == s@[i as int + 6] && sub[7] == s@[i as int + 7]);
    }
    Some((v, i + 8))
}

/// Appends a length-prefixed byte string.
pub fn write_bytes(out: &mut Vec<u8>, b: &Vec<u8>)
    ensures
        final(out)@ == old(out)@ + enc_bytes(b@),
{
    write_u64(out, b.len() as u64);
    let ghost mid = out@;
    let n = b.len();
    let mut k: usize = 0;
    proof {
        assert(out@ =~= mid + b@.take(0));
    }
    while k < n
        invariant
            0 <= k <= n,
            n == b@.len(),
            out@ == mid + b@.take(k as int),
        decreases n - k,
    {
        out.push(b[k]);
        proof {
            assert(out@ =~= mid + b@.take(k + 1));
        }
        k += 1;
    }
    proof {
        assert(b@.take(n as int) =~= b@);
        assert(out@ =~= old(out)@ + enc_bytes(b@));
    }
}

/// Reads a length-prefixed byte string.
pub fn read_bytes(s: &Vec<u8>, i: usize) -> (r: Option<(Vec<u8>, usize)>)
    ensures
        match r {
            Some((v, j)) => rd_bytes(s@, i as int) == Some((v@, j as int)),
            None => rd_bytes(s@, i as int) is None,
        },
{
    let (n64, j) = match read_u64(s, i) {
        Some(p) => p,
        None => {
            return None;
        },
    };
    if n64 > usize::MAX as u64 {
        return None;
    }
    let n = n64 as usize;
    if n > s.len() || j > s.len() - n {
        return None;
    }
    let end = j + n;
    let mut out: Vec<u8> = Vec::new();
    let mut m: usize = j;
    while m < end
        invariant
            j <= m <= end,
            end <= s@.len(),
            out@ == s@.subrange(j as int, m as int),
        decreases end - m,
    {
        out.push(s[m]);
        proof {
            assert(out@ =~= s@.subrange(j as int, m + 1));
        }
        m += 1;
    }
    Some((out, end))
}

/// The byte-string views of a vector of index/bytes pairs.
pub open spec fn pairs_view(v: Seq<(usize, Vec<u8>)>) -> Seq<(usize, Seq<u8>)> {
    v.map_values(|p: (usize, Vec<u8>)| (p.0, p.1@))
}

/// The byte-string views of a vector of byte strings.
pub open spec fn blobs_view(v: Seq<Vec<u8>>) -> Seq<Seq<u8>> {
    v.map_values(|b: Vec<u8>| b@)
}

/// The encoding of a list of index/bytes pairs, element after element.
pub open spec fn enc_pairs(ps: Seq<(usize, Seq<u8>)>) -> Seq<u8>
    decreases ps.len(),
{
    if ps.len() == 0 {
        Seq::empty()
    } else {
        enc_u64(ps[0].0 as u64) + enc_bytes(ps[0].1) + enc_pairs(ps.drop_first())
    }
}

/// Reads `n` index/bytes pairs starting at `i`.
pub open spec fn rd_pairs(s: Seq<u8>, i: int, n: nat) -> Option<(Seq<(usize, Seq<u8>)>, int)>
    decreases n,
{
    if n == 0 {
        Some((Seq::empty(), i))
    } else {
        match rd_u64(s, i) {
            None => None,
            Some((a, j)) => if a <= usize::MAX as u64 {
                match rd_bytes(s, j) {
                    None => None,
                    Some((b, k)) => match rd_pairs(s, k, (n - 1) as nat) {
                        None => None,
                        Some((rest, e)) => Some((seq![(a as usize, b)] + rest, e)),
                    },
                }
            } else {
                None
            },
        }
    }
}

/// The encoding of a list of integers, element after element.
pub open spec fn enc_u64s(xs: Seq<usize>) -> Seq<u8>
    decreases xs.len(),
{
    if xs.len() == 0 {
        Seq::empty()
    } else {
        enc_u64(xs[0] as u64) + enc_u64s(xs.drop_first())
    }
}

/// Reads `n` integers starting at `i`.
pub open spec fn rd_u64s(s: Seq<u8>, i: int, n: nat) -> Option<(Seq<usize>, int)>
    decreases n,
{
    if n == 0 {
        Some((Seq::empty(), i))
    } else {
        match rd_u64(s, i) {
            None => None,
            Some((a, j)) => if a <= usize::MAX as u64 {
                match rd_u64s(s, j, (n - 1) as nat) {
                    None => None,
                    Some((rest, e)) => Some((seq![a as usize] + rest, e)),
                }
            } else {
                None
            },
        }
    }
}

/// The encoding of a list of byte strings, element after element.
pub open spec fn enc_blobs(bs: Seq<Seq<u8>>) -> Seq<u8>
    decreases bs.len(),
{
    if bs.len() == 0 {
        Seq::empty()
    } else {
        enc_bytes(bs[0]) + enc_blobs(bs.drop_first())
    }
}

/// Reads `n` byte strings starting at `i`.
pub open spec fn rd_blobs(s: Seq<u8>, i: int, n: nat) -> Option<(Seq<Seq<u8>>, int)>
    decreases n,
{
    if n == 0 {
        Some((Seq::empty(), i))
    } else {
        match rd_bytes(s, i) {
            None => None,
            Some((b, j)) => match rd_blobs(s, j, (n - 1) as nat) {
                None => None,
                Some((rest, e)) => Some((seq![b] + rest, e)),
            },
        }
    }
}

/// Eight base-256 digits cover exactly the 64-bit range.
pub proof fn lemma_pow256_8()
    ensures
        pow256(8) == 0x10000000000000000,
{
    reveal_with_fuel(pow256, 9);
}

/// A read at a position holding the encoding of `x` yields `x`.
pub proof fn lemma_rd_u64_at(s: Seq<u8>, i: int, x: u64)
    requires
        0 <= i,
        i + 8 <= s.len(),
        s.subrange(i, i + 8) == enc_u64(x),
    ensures
        rd_u64(s, i) == Some((x, i + 8)),
{
    lemma_le_bytes_len(x as nat, 8);
    lemma_pow256_8();
    lemma_le_val_le_bytes(x as nat, 8);
}

/// Appends each pair in turn, starting at element `k`.
pub fn write_pairs_from(out: &mut Vec<u8>, v: &Vec<(usize, Vec<u8>)>, k: usize)
    requires
        k <= v@.len(),
    ensures
        final(out)@ == old(out)@ + enc_pairs(pairs_view(v@).skip(k as int)),
    decreases v@.len() - k,
{
    if k == v.len() {
        proof {
            assert(pairs_view(v@).skip(k as int) =~= Seq::<(usize, Seq<u8>)>::empty());
            assert(out@ =~= out@ + enc_pairs(pairs_view(v@).skip(k as int)));
        }
        return ;
    }
    write_u64(out, v[k].0 as u64);
    write_bytes(out, &v[k].1);
    write_pairs_from(out, v, k + 1);
    proof {
        let tail = pairs_view(v@).skip(k as int);
        assert(tail[0] == (v@[k as int].0, v@[k as int].1@));
        assert(tail.drop_first() =~= pairs_view(v@).skip(k + 1));
        assert(enc_pairs(tail) == enc_u64(tail[0].0 as u64) + enc_bytes(tail[0].1) + enc_pairs(
            tail.drop_first(),
        ));
        assert(out@ =~= old(out)@ + enc_pairs(tail));
    }
}

/// Reads `n` index/bytes pairs.
pub fn read_pairs(s: &Vec<u8>, i: usize, n: u64) -> (r: Option<(Vec<(usize, Vec<u8>)>, usize)>)
    ensures
        match r {
            Some((v, j)) => rd_pairs(s@, i as int, n as nat) == Some((pairs_view(v@), j as int)),
            None => rd_pairs(s@, i as int, n as nat) is None,
        },
    decreases n,
{
    if n == 0 {
        let v: Vec<(usize, Vec<u8>)> = Vec::new();
        proof {
            assert(pairs_view(v@) =~= Seq::<(usize, Seq<u8>)>::empty());
        }
        return Some((v, i));
    }
    let (a64, j) = match read_u64(s, i) {
        Some(p) => p,
        None => {
            return None;
        },
    };
    if a64 > usize::MAX as u64 {
        return None;
    }
    let (b, k) = match read_bytes(s, j) {
        Some(p) => p,
        None => {
            return None;
        },
    };
    match read_pairs(s, k, n - 1) {
        None => None,
        Some((rest, e)) => {
            let mut v: Vec<(usize, Vec<u8>)> = Vec::new();
            v.push((a64 as usize, b));
            let mut tail = rest;
            v.append(&mut tail);
            proof {
                let ghost expect = seq![(a64 as usize, v@[0].1@)] + pairs_view(v@.drop_first());
                assert(pairs_view(v@) =~= expect);
            }
            Some((v, e))
        },
    }
}

/// Reads `n` integers.
pub fn read_u64s(s: &Vec<u8>, i: usize, n: u64) -> (r: Option<(Vec<usize>, usize)>)
    ensures
        match r {
            Some((v, j)) => rd_u64s(s@, i as int, n as nat) == Some((v@, j as int)),
            None => rd_u64s(s@, i as int, n as nat) is None,
        },
    decreases n,
{
    if n == 0 {
        let v: Vec<usize> = Vec::new();
        proof {
            assert(v@ =~= Seq::<usize>::empty());
        }
        return Some((v, i));
    }
    let (a64, j) = match read_u64(s, i) {
        Some(p) => p,
        None => {
            return None;
        },
    };
    if a64 > usize::MAX as u64 {
        return None;
    }
    match read_u64s(s, j, n - 1) {
        None => None,
        Some((rest, e)) => {
            let mut v: Vec<usize> = Vec::new();
            v.push(a64 as usize);
            let mut tail = rest;
            v.append(&mut tail);
            proof {
                assert(v@ =~= seq![a64 as usize] + v@.drop_first());
            }
            Some((v, e))
        },
    }
}

/// Appends each integer in turn, starting at element `k`.
pub fn write_u64s_from(out: &mut Vec<u8>, v: &Vec<usize>, k: usize)
    requires
        k <= v@.len(),
    ensures
        final(out)@ == old(out)@ + enc_u64s(v@.skip(k as int)),
    decreases v@.len() - k,
{
    if k == v.len() {
        proof {
            assert(v@.skip(k as int) =~= Seq::<usize>::empty());
            assert(out@ =~= out@ + enc_u64s(v@.skip(k as int)));
        }
        return ;
    }
    write_u64(out, v[k] as u64);
    write_u64s_from(out, v, k + 1);
    proof {
        let tail = v@.skip(k as int);
        assert(tail[0] == v@[k as int]);
        assert(tail.drop_first() =~= v@.skip(k + 1));
        assert(out@ =~= old(out)@ + enc_u64s(tail));
    }
}

/// Appends each byte string in turn, starting at element `k`.
pub fn write_blobs_from(out: &mut Vec<u8>, v: &Vec<Vec<u8>>, k: usize)
    requires
        k <= v@.len(),
    ensures
        final(out)@ == old(out)@ + enc_blobs(blobs_view(v@).skip(k as int)),
    decreases v@.len() - k,
{
    if k == v.len() {
        proof {
            assert(blobs_view(v@).skip(k as int) =~= Seq::<Seq<u8>>::empty());
            assert(out@ =~= out@ + enc_blobs(blobs_view(v@).skip(k as int)));
        }
        return ;
    }
    write_bytes(out, &v[k]);
    write_blobs_from(out, v, k + 1);
    proof {
        let tail = blobs_view(v@).skip(k as int);
        assert(tail[0] == v@[k as int]@);
        assert(tail.drop_first() =~= blobs_view(v@).skip(k + 1));
        assert(out@ =~= old(out)@ + enc_blobs(tail));
    }
}

/// Reads `n` byte strings.
pub fn read_blobs(s: &Vec<u8>, i: usize, n: u64) -> (r: Option<(Vec<Vec<u8>>, usize)>)
    ensures
        match r {
            Some((v, j)) => rd_blobs(s@, i as int, n as nat) == Some((blobs_view(v@), j as int)),
            None => rd_blobs(s@, i as int, n as nat) is None,
        },
    decreases n,
{
    if n == 0 {
        let v: Vec<Vec<u8>> = Vec::new();
        proof {
            assert(blobs_view(v@) =~= Seq::<Seq<u8>>::empty());
        }
        return Some((v, i));
    }
    let (b, j) = match read_bytes(s, i) {
        Some(p) => p,
        None => {
            return None;
        },
    };
    match read_blobs(s, j, n - 1) {
        None => None,
        Some((rest, e)) => {
            let mut v: Vec<Vec<u8>> = Vec::new();
            v.push(b);
            let mut tail = rest;
            v.append(&mut tail);
            proof {
                let ghost expect = seq![v@[0]@] + blobs_view(v@.drop_first());
                assert(blobs_view(v@) =~= expect);
            }
            Some((v, e))
        },
    }
}

/// A read at a position holding the encoding of `b` yields `b`.
pub proof fn lemma_rd_bytes_at(s: Seq<u8>, i: int, b: Seq<u8>)
    requires
        0 <= i,
        b.len() <= usize::MAX,
        i + 8 + b.len() <= s.len(),
        s.subrange(i, i + 8 + b.len()) == enc_bytes(b),
    ensures
        rd_bytes(s, i) == Some((b, i + 8 + b.len())),
{
    let n = b.len() as u64;
    lemma_le_bytes_len(n as nat, 8);
    assert(s.subrange(i, i + 8) =~= enc_bytes(b).subrange(0, 8));
    assert(enc_bytes(b).subrange(0, 8) =~= enc_u64(n));
    lemma_rd_u64_at(s, i, n);
    assert(s.subrange(i + 8, i + 8 + b.len()) =~= enc_bytes(b).subrange(8, 8 + b.len() as int));
    assert(enc_bytes(b).subrange(8, 8 + b.len() as int) =~= b);
}

/// A window into a window of a byte string is a window into the whole.
pub proof fn lemma_subrange_of_subrange(s: Seq<u8>, i: int, len: int, a: int, b: int)
    requires
        0 <= i,
        i + len <= s.len(),
        0 <= a <= b <= len,
    ensures
        s.subrange(i + a, i + b) == s.subrange(i, i + len).subrange(a, b),
{
    assert(s.subrange(i + a, i + b) =~= s.subrange(i, i + len).subrange(a, b));
}

/// A read at a position holding the encoding of `ps` yields `ps`.
pub proof fn lemma_rd_pairs_at(s: Seq<u8>, i: int, ps: Seq<(usize, Seq<u8>)>)
    requires
        0 <= i,
        forall|k: int| 0 <= k < ps.len() ==> (#[trigger] ps[k]).1.len() <= usize::MAX,
        i + enc_pairs(ps).len() <= s.len(),
        s.subrange(i, i + enc_pairs(ps).len()) == enc_pairs(ps),
    ensures
        rd_pairs(s, i, ps.len()) == Some((ps, i + enc_pairs(ps).len())),
    decreases ps.len(),
{
    if ps.len() == 0 {
    } else {
        let a = ps[0].0;
        let b = ps[0].1;
        let rest = ps.drop_first();
        let e0 = enc_u64(a as u64);
        let e1 = enc_bytes(b);
        let e2 = enc_pairs(rest);
        lemma_le_bytes_len((a as u64) as nat, 8);
        lemma_le_bytes_len((b.len() as u64) as nat, 8);
        assert(enc_pairs(ps) == e0 + e1 + e2);
        let total = enc_pairs(ps).len() as int;
        assert(total == 16 + b.len() + e2.len());
        lemma_subrange_of_subrange(s, i, total, 0, 8);
        assert(enc_pairs(ps).subrange(0, 8) =~= e0);
        lemma_rd_u64_at(s, i, a as u64);
        lemma_subrange_of_subrange(s, i, total, 8, 16 + b.len() as int);
        assert(enc_pairs(ps).subrange(8, 16 + b.len() as int) =~= e1);
        lemma_rd_bytes_at(s, i + 8, b);
        let j = i + 16 + b.len() as int;
        lemma_subrange_of_subrange(s, i, total, 16 + b.len() as int, total);
        assert(enc_pairs(ps).subrange(16 + b.len() as int, total) =~= e2);
        assert(s.subrange(j, j + e2.len()) == e2);
        lemma_rd_pairs_at(s, j, rest);
        assert(seq![(a, b)] + rest =~= ps);
    }
}

/// A read at a position holding the encoding of `xs` yields `xs`.
pub proof fn lemma_rd_u64s_at(s: Seq<u8>, i: int, xs: Seq<usize>)
    requires
        0 <= i,
        i + enc_u64s(xs).len() <= s.len(),
        s.subrange(i, i + enc_u64s(xs).len()) == enc_u64s(xs),
    ensures
        rd_u64s(s, i, xs.len()) == Some((xs, i + enc_u64s(xs).len())),
    decreases xs.len(),
{
    if xs.len() == 0 {
    } else {
        let a = xs[0];
        let rest = xs.drop_first();
        let e0 = enc_u64(a as u64);
        let e2 = enc_u64s(rest);
        lemma_le_bytes_len((a as u64) as nat, 8);
        assert(enc_u64s(xs) == e0 + e2);
        let total = enc_u64s(xs).len() as int;
        lemma_subrange_of_subrange(s, i, total, 0, 8);
        assert(enc_u64s(xs).subrange(0, 8) =~= e0);
        lemma_rd_u64_at(s, i, a as u64);
        let j = i + 8;
        lemma_subrange_of_subrange(s, i, total, 8, total);
        assert(enc_u64s(xs).subrange(8, total) =~= e2);
        assert(s.subrange(j, j + e2.len()) == e2);
        lemma_rd_u64s_at(s, j, rest);
        assert(seq![a] + rest =~= xs);
    }
}

/// A read at a position holding the encoding of `bs` yields `bs`.
pub proof fn lemma_rd_blobs_at(s: Seq<u8>, i: int, bs: Seq<Seq<u8>>)
    requires
        0 <= i,
        forall|k: int| 0 <= k < bs.len() ==> (#[trigger] bs[k]).len() <= usize::MAX,
        i + enc_blobs(bs).len() <= s.len(),
        s.subrange(i, i + enc_blobs(bs).len()) == enc_blobs(bs),
    ensures
        rd_blobs(s, i, bs.len()) == Some((bs, i + enc_blobs(bs).len())),
    decreases bs.len(),
{
    if bs.len() == 0 {
    } else {
        let b = bs[0];
        let rest = bs.drop_first();
        let e1 = enc_bytes(b);
        let e2 = enc_blobs(rest);
        lemma_le_bytes_len((b.len() as u64) as nat, 8);
        assert(enc_blobs(bs) == e1 + e2);
        let total = enc_blobs(bs).len() as int;
        lemma_subrange_of_subrange(s, i, total, 0, 8 + b.len() as int);
        assert(enc_blobs(bs).subrange(0, 8 + b.len() as int) =~= e1);
        lemma_rd_bytes_at(s, i, b);
        let j = i + 8 + b.len() as int;
        lemma_subrange_of_subrange(s, i, total, 8 + b.len() as int, total);
        assert(enc_blobs(bs).subrange(8 + b.len() as int, total) =~= e2);
        assert(s.subrange(j, j + e2.len()) == e2);
        lemma_rd_blobs_at(s, j, rest);
        assert(seq![b] + rest =~= bs);
    }
}

} // verus!
