//! Location proofs: a peer's signed statement that it saw the requester near
//! a cell during an epoch.

use vstd::prelude::*;
use crate::codec::{enc_u64, rd_u64, write_u64, read_u64, lemma_rd_u64_at, lemma_le_bytes_len,
    lemma_subrange_of_subrange};
use crate::crypto::{sign_keypair, signed_of, open_signed, sign_bytes, open_signed_bytes,
    SIGN_PK_LEN, SIGN_SK_LEN};

verus! {

/// The statement "I (`idx_ass`) saw `idx_req` near me at `loc_ass` during
/// `epoch`".
#[derive(Debug, PartialEq, Eq, Structural, Clone, Copy)]
pub struct Proof {
    pub idx_req: usize,
    pub idx_ass: usize,
    pub epoch: usize,
    pub loc_x: usize,
    pub loc_y: usize,
}

impl Proof {
    /// The proof with the given fields, for use in contracts.
    pub open spec fn build(epoch: usize, idx_req: usize, idx_ass: usize, x: usize, y: usize) -> Proof {
        Proof { idx_req, idx_ass, epoch, loc_x: x, loc_y: y }
    }

    pub fn new(epoch: usize, idx_req: usize, idx_ass: usize, loc_ass: (usize, usize)) -> (r:
        Proof)
        ensures
            r == (Proof { idx_req, idx_ass, epoch, loc_x: loc_ass.0, loc_y: loc_ass.1 }),
    {
        Proof { idx_req, idx_ass, epoch, loc_x: loc_ass.0, loc_y: loc_ass.1 }
    }

    pub fn epoch(&self) -> (r: usize)
        ensures
            r == self.epoch,
    {
        self.epoch
    }

    pub fn idx_req(&self) -> (r: usize)
        ensures
            r == self.idx_req,
    {
        self.idx_req
    }

    pub fn idx_ass(&self) -> (r: usize)
        ensures
            r == self.idx_ass,
    {
        self.idx_ass
    }

    pub fn loc_ass(&self) -> (r: (usize, usize))
        ensures
            r == (self.loc_x, self.loc_y),
    {
        (self.loc_x, self.loc_y)
    }
}

/// The byte encoding of a proof: its five fields as 64-bit integers.
pub open spec fn enc_proof(p: Proof) -> Seq<u8> {
    enc_u64(p.epoch as u64) + enc_u64(p.idx_req as u64) + enc_u64(p.idx_ass as u64) + enc_u64(
        p.loc_x as u64,
    ) + enc_u64(p.loc_y as u64)
}

/// Whether a 64-bit value fits an index.
pub open spec fn fits_usize(v: u64) -> bool {
    v <= usize::MAX as u64
}

/// The proof encoded in `s`, when `s` is exactly five 64-bit fields that all
/// fit an index.
pub open spec fn dec_proof(s: Seq<u8>) -> Option<Proof> {
    match rd_u64(s, 0) {
        None => None,
        Some((epoch, i1)) => match rd_u64(s, i1) {
            None => None,
            Some((idx_req, i2)) => match rd_u64(s, i2) {
                None => None,
                Some((idx_ass, i3)) => match rd_u64(s, i3) {
                    None => None,
                    Some((x, i4)) => match rd_u64(s, i4) {
                        None => None,
                        Some((y, i5)) => if i5 == s.len() && fits_usize(epoch) && fits_usize(
                            idx_req,
                        ) && fits_usize(idx_ass) && fits_usize(x) && fits_usize(y) {
                            Some(
                                Proof {
                                    epoch: epoch as usize,
                                    idx_req: idx_req as usize,
                                    idx_ass: idx_ass as usize,
                                    loc_x: x as usize,
                                    loc_y: y as usize,
                                },
                            )
                        } else {
                            None
                        },
                    },
                },
            },
        },
    }
}

/// Encodes a proof.
pub fn encode_proof(p: &Proof) -> (r: Vec<u8>)
    ensures
        r@ == enc_proof(*p),
{
    let mut out: Vec<u8> = Vec::new();
    write_u64(&mut out, p.epoch as u64);
    write_u64(&mut out, p.idx_req as u64);
    write_u64(&mut out, p.idx_ass as u64);
    write_u64(&mut out, p.loc_x as u64);
    write_u64(&mut out, p.loc_y as u64);
    proof {
        assert(out@ =~= enc_proof(*p));
    }
    out
}

/// Decodes a proof; exactly the inverse of `enc_proof` on valid encodings.
pub fn decode_proof(s: &Vec<u8>) -> (r: Option<Proof>)
    ensures
        r == dec_proof(s@),
{
    let (epoch, i1) = match read_u64(s, 0) {
        Some(p) => p,
        None => {
            return None;
        },
    };
    let (idx_req, i2) = match read_u64(s, i1) {
        Some(p) => p,
        None => {
            return None;
        },
    };
    let (idx_ass, i3) = match read_u64(s, i2) {
        Some(p) => p,
        None => {
            return None;
        },
    };
    let (x, i4) = match read_u64(s, i3) {
        Some(p) => p,
        None => {
            return None;
        },
    };
    let (y, i5) = match read_u64(s, i4) {
        Some(p) => p,
        None => {
            return None;
        },
    };
    if i5 == s.len() && epoch <= usize::MAX as u64 && idx_req <= usize::MAX as u64 && idx_ass
        <= usize::MAX as u64 && x <= usize::MAX as u64 && y <= usize::MAX as u64 {
        Some(
            Proof {
                epoch: epoch as usize,
                idx_req: idx_req as usize,
                idx_ass: idx_ass as usize,
                loc_x: x as usize,
                loc_y: y as usize,
            },
        )
    } else {
        None
    }
}

/// Decoding inverts encoding.
pub proof fn lemma_proof_round_trip(p: Proof)
    ensures
        dec_proof(enc_proof(p)) == Some(p),
{
    let s = enc_proof(p);
    lemma_le_bytes_len((p.epoch as u64) as nat, 8);
    lemma_le_bytes_len((p.idx_req as u64) as nat, 8);
    lemma_le_bytes_len((p.idx_ass as u64) as nat, 8);
    lemma_le_bytes_len((p.loc_x as u64) as nat, 8);
    lemma_le_bytes_len((p.loc_y as u64) as nat, 8);
    assert(s.len() == 40);
    assert(s.subrange(0, 8) =~= enc_u64(p.epoch as u64));
    lemma_rd_u64_at(s, 0, p.epoch as u64);
    assert(s.subrange(8, 16) =~= enc_u64(p.idx_req as u64));
    lemma_rd_u64_at(s, 8, p.idx_req as u64);
    assert(s.subrange(16, 24) =~= enc_u64(p.idx_ass as u64));
    lemma_rd_u64_at(s, 16, p.idx_ass as u64);
    assert(s.subrange(24, 32) =~= enc_u64(p.loc_x as u64));
    lemma_rd_u64_at(s, 24, p.loc_x as u64);
    assert(s.subrange(32, 40) =~= enc_u64(p.loc_y as u64));
    lemma_rd_u64_at(s, 32, p.loc_y as u64);
}

/// What verifying a signed proof under a public key yields: the embedded
/// proof, if the signature checks out and the payload decodes.
pub open spec fn proof_opened(pk: Seq<u8>, sp: Seq<u8>) -> Option<Proof> {
    match open_signed(pk, sp) {
        None => None,
        Some(m) => dec_proof(m),
    }
}

/// Signs a proof with the issuer's signing key. The result verifies back to
/// the proof under the issuer's public key.
pub fn sign_proof(oursk: &Vec<u8>, proof: Proof) -> (r: Vec<u8>)
    requires
        oursk@.len() == SIGN_SK_LEN as int,
    ensures
        r@ == signed_of(oursk@, enc_proof(proof)),
        forall|pk: Seq<u8>| #[trigger] sign_keypair(pk, oursk@) ==> proof_opened(pk, r@) == Some(
            proof,
        ),
{
    let m = encode_proof(&proof);
    let r = sign_bytes(oursk, &m);
    proof {
        lemma_proof_round_trip(proof);
    }
    r
}

/// Verifies a signed proof under the claimed issuer's public key.
pub fn verify_proof(theirpk: &Vec<u8>, ciphertext: &Vec<u8>) -> (r: Option<Proof>)
    requires
        theirpk@.len() == SIGN_PK_LEN as int,
    ensures
        r == proof_opened(theirpk@, ciphertext@),
{
    match open_signed_bytes(theirpk, ciphertext) {
        None => None,
        Some(m) => decode_proof(&m),
    }
}

} // verus!
