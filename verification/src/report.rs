//! Location reports: a user's signed bundle of epoch, location and
//! supporting peer proofs, and the sealed request envelope it travels in.

use vstd::prelude::*;
use crate::codec::{enc_u64, enc_bytes, enc_pairs, rd_u64, rd_bytes, rd_pairs, pairs_view,
    write_u64, write_bytes, read_u64, read_bytes, write_pairs_from, read_pairs, lemma_rd_u64_at,
    lemma_rd_bytes_at, lemma_rd_pairs_at, lemma_le_bytes_len, lemma_subrange_of_subrange};
use crate::crypto::{sign_keypair, signed_of, open_signed, box_keypair, open_sealed, sym_sealed,
    sym_opened, sign_bytes, open_signed_bytes, seal_box_bytes, open_box_bytes, gen_sym_key,
    gen_sym_nonce, seal_sym_bytes, open_sym_bytes, SIGN_PK_LEN, SIGN_SK_LEN, BOX_PK_LEN,
    BOX_SK_LEN, SYM_KEY_LEN, SYM_NONCE_LEN};
use crate::pow::{pow_ok, generate_proof_of_work};

verus! {

/// How many tokens the proof-of-work search tries before giving up. The
/// difficulty accepts roughly one try in ten, so this bound is generous.
pub const POW_MAX_TRIES: u64 = 1000000;

/// A user's report: epoch, location, own index, and the peer attestations as
/// `(assertor index, signed proof bytes)` pairs.
#[derive(Debug, PartialEq, Clone)]
pub struct Report {
    pub epoch: usize,
    pub loc_x: usize,
    pub loc_y: usize,
    pub proofs: Vec<(usize, Vec<u8>)>,
    pub idx: usize,
}

/// The mathematical content of a report.
pub struct ReportData {
    pub epoch: usize,
    pub loc_x: usize,
    pub loc_y: usize,
    pub proofs: Seq<(usize, Seq<u8>)>,
    pub idx: usize,
}

impl View for Report {
    type V = ReportData;

    open spec fn view(&self) -> ReportData {
        ReportData {
            epoch: self.epoch,
            loc_x: self.loc_x,
            loc_y: self.loc_y,
            proofs: pairs_view(self.proofs@),
            idx: self.idx,
        }
    }
}

impl Report {
    /// Bundles assertor indices with their signed proofs, pair by pair; a
    /// surplus on either side is dropped.
    pub fn new(
        epoch: usize,
        loc: (usize, usize),
        idx: usize,
        idxs_ass: Vec<usize>,
        proofs: Vec<Vec<u8>>,
    ) -> (r: Report)
        ensures
            r.epoch == epoch,
            r.loc_x == loc.0,
            r.loc_y == loc.1,
            r.idx == idx,
            r.proofs@.len() == vstd::math::min(idxs_ass@.len() as int, proofs@.len() as int),
            forall|k: int|
                0 <= k < r.proofs@.len() ==> (#[trigger] r.proofs@[k]).0 == idxs_ass@[k]
                    && r.proofs@[k].1 == proofs@[k],
    {
        let n = if idxs_ass.len() <= proofs.len() {
            idxs_ass.len()
        } else {
            proofs.len()
        };
        let mut pairs: Vec<(usize, Vec<u8>)> = Vec::new();
        let mut rest = proofs;
        let ghost orig = rest@;
        let mut k: usize = 0;
        while k < n
            invariant
                0 <= k <= n,
                n <= idxs_ass@.len(),
                n <= orig.len(),
                rest@ == orig.skip(k as int),
                pairs@.len() == k,
                forall|j: int|
                    0 <= j < k ==> (#[trigger] pairs@[j]).0 == idxs_ass@[j] && pairs@[j].1
                        == orig[j],
            decreases n - k,
        {
            let p = rest.remove(0);
            proof {
                assert(p == orig[k as int]);
                assert(rest@ =~= orig.skip(k + 1));
            }
            pairs.push((idxs_ass[k], p));
            k += 1;
        }
        Report { epoch, loc_x: loc.0, loc_y: loc.1, proofs: pairs, idx }
    }

    pub fn epoch(&self) -> (r: usize)
        ensures
            r == self.epoch,
    {
        self.epoch
    }

    pub fn idx(&self) -> (r: usize)
        ensures
            r == self.idx,
    {
        self.idx
    }

    pub fn loc(&self) -> (r: (usize, usize))
        ensures
            r == (self.loc_x, self.loc_y),
    {
        (self.loc_x, self.loc_y)
    }

    pub fn proofs(&self) -> (r: &Vec<(usize, Vec<u8>)>)
        ensures
            r == &self.proofs,
    {
        &self.proofs
    }
}

/// The byte encoding of a report: epoch, location, index, then the counted
/// list of attestation pairs.
pub open spec fn enc_report(r: ReportData) -> Seq<u8> {
    enc_u64(r.epoch as u64) + enc_u64(r.loc_x as u64) + enc_u64(r.loc_y as u64) + enc_u64(
        r.idx as u64,
    ) + enc_u64(r.proofs.len() as u64) + enc_pairs(r.proofs)
}

/// Whether a 64-bit value fits an index.
pub open spec fn fits_usize(v: u64) -> bool {
    v <= usize::MAX as u64
}

/// The report encoded in `s`, when `s` is exactly one.
pub open spec fn dec_report(s: Seq<u8>) -> Option<ReportData> {
    match rd_u64(s, 0) {
        None => None,
        Some((epoch, i1)) => match rd_u64(s, i1) {
            None => None,
            Some((x, i2)) => match rd_u64(s, i2) {
                None => None,
                Some((y, i3)) => match rd_u64(s, i3) {
                    None => None,
                    Some((idx, i4)) => match rd_u64(s, i4) {
                        None => None,
                        Some((count, i5)) => match rd_pairs(s, i5, count as nat) {
                            None => None,
                            Some((ps, e)) => if e == s.len() && fits_usize(epoch) && fits_usize(x)
                                && fits_usize(y) && fits_usize(idx) {
                                Some(
                                    ReportData {
                                        epoch: epoch as usize,
                                        loc_x: x as usize,
                                        loc_y: y as usize,
                                        proofs: ps,
                                        idx: idx as usize,
                                    },
                                )
                            } else {
                                None
                            },
                        },
                    },
                },
            },
        },
    }
}

/// Encodes a report.
pub fn encode_report_bytes(r: &Report) -> (out: Vec<u8>)
    ensures
        out@ == enc_report(r@),
{
    let mut out: Vec<u8> = Vec::new();
    write_u64(&mut out, r.epoch as u64);
    write_u64(&mut out, r.loc_x as u64);
    write_u64(&mut out, r.loc_y as u64);
    write_u64(&mut out, r.idx as u64);
    write_u64(&mut out, r.proofs.len() as u64);
    write_pairs_from(&mut out, &r.proofs, 0);
    proof {
        assert(pairs_view(r.proofs@).skip(0) =~= pairs_view(r.proofs@));
        assert(out@ =~= enc_report(r@));
    }
    out
}

/// Decodes a report; exactly the inverse of `enc_report` on valid encodings.
pub fn decode_report_bytes(s: &Vec<u8>) -> (r: Option<Report>)
    ensures
        match r {
            Some(rep) => dec_report(s@) == Some(rep@),
            None => dec_report(s@) is None,
        },
{
    let (epoch, i1) = match read_u64(s, 0) {
        Some(p) => p,
        None => {
            return None;
        },
    };
    let (x, i2) = match read_u64(s, i1) {
        Some(p) => p,
        None => {
            return None;
        },
    };
    let (y, i3) = match read_u64(s, i2) {
        Some(p) => p,
        None => {
            return None;
        },
    };
    let (idx, i4) = match read_u64(s, i3) {
        Some(p) => p,
        None => {
            return None;
        },
    };
    let (count, i5) = match read_u64(s, i4) {
        Some(p) => p,
        None => {
            return None;
        },
    };
    let (ps, e) = match read_pairs(s, i5, count) {
        Some(p) => p,
        None => {
            return None;
        },
    };
    if e == s.len() && epoch <= usize::MAX as u64 && x <= usize::MAX as u64 && y
        <= usize::MAX as u64 && idx <= usize::MAX as u64 {
        Some(
            Report {
                epoch: epoch as usize,
                loc_x: x as usize,
                loc_y: y as usize,
                proofs: ps,
                idx: idx as usize,
            },
        )
    } else {
        None
    }
}

/// Decoding inverts encoding, for any report whose attestations fit memory.
pub proof fn lemma_report_round_trip(r: ReportData)
    requires
        r.proofs.len() <= u64::MAX,
        forall|k: int| 0 <= k < r.proofs.len() ==> (#[trigger] r.proofs[k]).1.len() <= usize::MAX,
    ensures
        dec_report(enc_report(r)) == Some(r),
{
    let s = enc_report(r);
    let count = r.proofs.len() as u64;
    lemma_le_bytes_len((r.epoch as u64) as nat, 8);
    lemma_le_bytes_len((r.loc_x as u64) as nat, 8);
    lemma_le_bytes_len((r.loc_y as u64) as nat, 8);
    lemma_le_bytes_len((r.idx as u64) as nat, 8);
    lemma_le_bytes_len(count as nat, 8);
    let tail = enc_pairs(r.proofs);
    assert(s.len() == 40 + tail.len());
    assert(s.subrange(0, 8) =~= enc_u64(r.epoch as u64));
    lemma_rd_u64_at(s, 0, r.epoch as u64);
    assert(s.subrange(8, 16) =~= enc_u64(r.loc_x as u64));
    lemma_rd_u64_at(s, 8, r.loc_x as u64);
    assert(s.subrange(16, 24) =~= enc_u64(r.loc_y as u64));
    lemma_rd_u64_at(s, 16, r.loc_y as u64);
    assert(s.subrange(24, 32) =~= enc_u64(r.idx as u64));
    lemma_rd_u64_at(s, 24, r.idx as u64);
    assert(s.subrange(32, 40) =~= enc_u64(count));
    lemma_rd_u64_at(s, 32, count);
    assert(s.subrange(40, 40 + tail.len() as int) =~= tail);
    lemma_rd_pairs_at(s, 40, r.proofs);
}

/// The per-request capability: the requester's index, the fresh session key,
/// and the nonce the payload is sealed under.
#[derive(Debug, Clone)]
pub struct ReportInfo {
    pub idx: usize,
    pub key: Vec<u8>,
    pub nonce: Vec<u8>,
}

impl ReportInfo {
    pub fn new(idx: usize, key: Vec<u8>, nonce: Vec<u8>) -> (r: ReportInfo)
        ensures
            r.idx == idx,
            r.key == key,
            r.nonce == nonce,
    {
        ReportInfo { idx, key, nonce }
    }

    pub fn idx(&self) -> (r: usize)
        ensures
            r == self.idx,
    {
        self.idx
    }

    pub fn key(&self) -> (r: &Vec<u8>)
        ensures
            r == &self.key,
    {
        &self.key
    }

    pub fn nonce(&self) -> (r: &Vec<u8>)
        ensures
            r == &self.nonce,
    {
        &self.nonce
    }
}

/// The byte encoding of a capability record.
pub open spec fn enc_info(idx: usize, key: Seq<u8>, nonce: Seq<u8>) -> Seq<u8> {
    enc_u64(idx as u64) + enc_bytes(key) + enc_bytes(nonce)
}

/// The capability record encoded in `s`, when `s` is exactly one.
pub open spec fn dec_info(s: Seq<u8>) -> Option<(usize, Seq<u8>, Seq<u8>)> {
    match rd_u64(s, 0) {
        None => None,
        Some((idx, i1)) => match rd_bytes(s, i1) {
            None => None,
            Some((key, i2)) => match rd_bytes(s, i2) {
                None => None,
                Some((nonce, e)) => if e == s.len() && fits_usize(idx) {
                    Some((idx as usize, key, nonce))
                } else {
                    None
                },
            },
        },
    }
}

/// Encodes a capability record.
pub fn encode_info(info: &ReportInfo) -> (out: Vec<u8>)
    ensures
        out@ == enc_info(info.idx, info.key@, info.nonce@),
{
    let mut out: Vec<u8> = Vec::new();
    write_u64(&mut out, info.idx as u64);
    write_bytes(&mut out, &info.key);
    write_bytes(&mut out, &info.nonce);
    proof {
        assert(out@ =~= enc_info(info.idx, info.key@, info.nonce@));
    }
    out
}

/// Decodes a capability record.
pub fn decode_info_bytes(s: &Vec<u8>) -> (r: Option<ReportInfo>)
    ensures
        match r {
            Some(info) => dec_info(s@) == Some((info.idx, info.key@, info.nonce@)),
            None => dec_info(s@) is None,
        },
{
    let (idx, i1) = match read_u64(s, 0) {
        Some(p) => p,
        None => {
            return None;
        },
    };
    let (key, i2) = match read_bytes(s, i1) {
        Some(p) => p,
        None => {
            return None;
        },
    };
    let (nonce, e) = match read_bytes(s, i2) {
        Some(p) => p,
        None => {
            return None;
        },
    };
    if e == s.len() && idx <= usize::MAX as u64 {
        Some(ReportInfo { idx: idx as usize, key, nonce })
    } else {
        None
    }
}

/// Decoding inverts encoding of a capability record.
pub proof fn lemma_info_round_trip(idx: usize, key: Seq<u8>, nonce: Seq<u8>)
    requires
        key.len() <= usize::MAX,
        nonce.len() <= usize::MAX,
    ensures
        dec_info(enc_info(idx, key, nonce)) == Some((idx, key, nonce)),
{
    let s = enc_info(idx, key, nonce);
    lemma_le_bytes_len((idx as u64) as nat, 8);
    lemma_le_bytes_len((key.len() as u64) as nat, 8);
    lemma_le_bytes_len((nonce.len() as u64) as nat, 8);
    assert(s.len() == 24 + key.len() + nonce.len());
    assert(s.subrange(0, 8) =~= enc_u64(idx as u64));
    lemma_rd_u64_at(s, 0, idx as u64);
    assert(s.subrange(8, 16 + key.len() as int) =~= enc_bytes(key));
    lemma_rd_bytes_at(s, 8, key);
    let j = 16 + key.len() as int;
    assert(s.subrange(j, j + 8 + nonce.len() as int) =~= enc_bytes(nonce));
    lemma_rd_bytes_at(s, j, nonce);
}

/// What verifying signed report bytes under a public key yields.
pub open spec fn report_opened(pk: Seq<u8>, sm: Seq<u8>) -> Option<ReportData> {
    match open_signed(pk, sm) {
        None => None,
        Some(m) => dec_report(m),
    }
}

/// Verifies signed report bytes under the reporter's public key.
pub fn verify_report(signpk: &Vec<u8>, signed_report: &Vec<u8>) -> (r: Option<Report>)
    requires
        signpk@.len() == SIGN_PK_LEN as int,
    ensures
        match r {
            Some(rep) => report_opened(signpk@, signed_report@) == Some(rep@),
            None => report_opened(signpk@, signed_report@) is None,
        },
{
    match open_signed_bytes(signpk, signed_report) {
        None => None,
        Some(m) => decode_report_bytes(&m),
    }
}

/// Observes that every attestation of a report fits in memory, which the
/// round-trip argument for its encoding needs.
fn observe_pair_lengths(v: &Vec<(usize, Vec<u8>)>)
    ensures
        v@.len() <= u64::MAX,
        forall|k: int| 0 <= k < v@.len() ==> (#[trigger] v@[k]).1@.len() <= usize::MAX,
{
    let n = v.len();
    let mut k: usize = 0;
    while k < n
        invariant
            0 <= k <= n,
            n == v@.len(),
            forall|j: int| 0 <= j < k ==> (#[trigger] v@[j]).1@.len() <= usize::MAX,
        decreases n - k,
    {
        let _observed: usize = v[k].1.len();
        k += 1;
    }
}

/// Signs a report with the reporter's signing key. The result verifies back
/// to the report under the reporter's public key.
pub fn sign_report(signsk: &Vec<u8>, report: &Report) -> (r: Vec<u8>)
    requires
        signsk@.len() == SIGN_SK_LEN as int,
    ensures
        r@ == signed_of(signsk@, enc_report(report@)),
        forall|pk: Seq<u8>| #[trigger] sign_keypair(pk, signsk@) ==> report_opened(pk, r@)
            == Some(report@),
{
    let m = encode_report_bytes(report);
    observe_pair_lengths(&report.proofs);
    let r = sign_bytes(signsk, &m);
    proof {
        assert forall|k: int|
            0 <= k < report@.proofs.len() implies (#[trigger] report@.proofs[k]).1.len()
            <= usize::MAX by {
            assert(report@.proofs[k].1 == report.proofs@[k].1@);
        }
        lemma_report_round_trip(report@);
    }
    r
}

/// Builds the full submit-report request: the sealed capability, the signed
/// and sealed payload, the session key the caller keeps, and the
/// proof-of-work token. Fails only when the proof-of-work search gives up.
pub fn encode_report(signsk: &Vec<u8>, theirpk: &Vec<u8>, report: &Report, idx: usize) -> (r:
    Option<(Vec<u8>, Vec<u8>, Vec<u8>, Vec<u8>)>)
    requires
        signsk@.len() == SIGN_SK_LEN as int,
        theirpk@.len() == BOX_PK_LEN as int,
    ensures
        match r {
            Some(t) => {
                &&& t.2@.len() == SYM_KEY_LEN as int
                &&& pow_ok(t.0@, t.3@)
                &&& forall|sk: Seq<u8>| #[trigger]
                    box_keypair(theirpk@, sk) ==> match open_sealed(theirpk@, sk, t.0@) {
                        Some(ti) => match dec_info(ti) {
                            Some((i2, k2, n2)) => i2 == idx && k2 == t.2@ && n2.len()
                                == SYM_NONCE_LEN as int && sym_opened(t.2@, n2, t.1@) == Some(
                                signed_of(signsk@, enc_report(report@)),
                            ),
                            None => false,
                        },
                        None => false,
                    }
            },
            None => true,
        },
{
    let signtext = sign_report(signsk, report);
    let key = gen_sym_key();
    let box_nonce = gen_sym_nonce();
    let enc_payload = seal_sym_bytes(&signtext, &box_nonce, &key);
    let key_len = key.len();
    let nonce_len = box_nonce.len();
    let info = ReportInfo::new(idx, key.clone(), box_nonce);
    let textinfo = encode_info(&info);
    let cap = seal_box_bytes(&textinfo, theirpk);
    let pow = match generate_proof_of_work(&cap, POW_MAX_TRIES) {
        Some(p) => p,
        None => {
            return None;
        },
    };
    proof {
        lemma_info_round_trip(info.idx, info.key@, info.nonce@);
    }
    Some((cap, enc_payload, key, pow))
}

/// Opens the sealed capability of a request with the replica's key pair.
pub fn decode_info(oursk: &Vec<u8>, ourpk: &Vec<u8>, cipherinfo: &Vec<u8>) -> (r: Option<
    ReportInfo,
>)
    requires
        oursk@.len() == BOX_SK_LEN as int,
        ourpk@.len() == BOX_PK_LEN as int,
    ensures
        match r {
            Some(info) => match open_sealed(ourpk@, oursk@, cipherinfo@) {
                Some(ti) => dec_info(ti) == Some((info.idx, info.key@, info.nonce@)),
                None => false,
            },
            None => match open_sealed(ourpk@, oursk@, cipherinfo@) {
                Some(ti) => dec_info(ti) is None,
                None => true,
            },
        },
{
    match open_box_bytes(cipherinfo, ourpk, oursk) {
        None => None,
        Some(ti) => decode_info_bytes(&ti),
    }
}

/// Opens and verifies the sealed, signed report payload of a submit request:
/// the report and the signed bytes it arrived as.
pub fn decode_report(signpk: &Vec<u8>, sim_key: &Vec<u8>, cipherreport: &Vec<u8>, nonce: &Vec<
    u8,
>) -> (r: Option<(Report, Vec<u8>)>)
    requires
        signpk@.len() == SIGN_PK_LEN as int,
        sim_key@.len() == SYM_KEY_LEN as int,
    ensures
        match r {
            Some((rep, sm)) => {
                &&& sym_opened(sim_key@, nonce@, cipherreport@) == Some(sm@)
                &&& report_opened(signpk@, sm@) == Some(rep@)
            },
            None => match sym_opened(sim_key@, nonce@, cipherreport@) {
                Some(sm) => report_opened(signpk@, sm) is None,
                None => true,
            },
        },
{
    let signed = match open_sym_bytes(cipherreport, nonce, sim_key) {
        Some(m) => m,
        None => {
            return None;
        },
    };
    match verify_report(signpk, &signed) {
        Some(rep) => Some((rep, signed)),
        None => None,
    }
}

/// Whether a sealed reply opens under the session key and the reply nonce:
/// the canonical success acknowledgement for writes.
pub fn success_report(key: &Vec<u8>, nonce: &Vec<u8>, cyphertext: &Vec<u8>) -> (r: bool)
    requires
        key@.len() == SYM_KEY_LEN as int,
    ensures
        r == (sym_opened(key@, nonce@, cyphertext@) is Some),
{
    open_sym_bytes(cyphertext, nonce, key).is_some()
}

} // verus!
