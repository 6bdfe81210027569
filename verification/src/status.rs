//! The read-path payloads — obtain-report, users-at-location and
//! request-my-proofs — and the sealed envelopes they travel in.

use vstd::prelude::*;
use crate::codec::{enc_u64, enc_u64s, enc_blobs, enc_pairs, rd_u64, rd_u64s, rd_blobs, rd_pairs,
    blobs_view, pairs_view, write_u64, read_u64, write_u64s_from, read_u64s, write_blobs_from,
    read_blobs, write_pairs_from, read_pairs, lemma_rd_u64_at, lemma_rd_u64s_at, lemma_rd_blobs_at,
    lemma_rd_pairs_at, lemma_le_bytes_len};
use crate::crypto::{signed_of, open_signed, box_keypair, open_sealed, sym_sealed, sym_opened,
    sign_bytes, open_signed_bytes, seal_box_bytes, gen_sym_key, gen_sym_nonce, seal_sym_bytes,
    open_sym_bytes, SIGN_PK_LEN, SIGN_SK_LEN, BOX_PK_LEN, SYM_KEY_LEN, SYM_NONCE_LEN};
use crate::pow::{pow_ok, generate_proof_of_work};
use crate::report::{ReportInfo, enc_info, dec_info, encode_info, lemma_info_round_trip,
    fits_usize};

verus! {

/// How many tokens the proof-of-work search tries before giving up.
pub const QUERY_POW_MAX_TRIES: u64 = 1000000;

/// Seals a signed request payload into the three-part envelope: the sealed
/// capability, the signed and sealed payload, the session key the caller
/// keeps, and the proof-of-work token.
pub fn seal_request(signsk: &Vec<u8>, theirpk: &Vec<u8>, plaintext: &Vec<u8>, idx: usize) -> (r:
    Option<(Vec<u8>, Vec<u8>, Vec<u8>, Vec<u8>)>)
    requires
        signsk@.len() == SIGN_SK_LEN as int,
        theirpk@.len() == BOX_PK_LEN as int,
    ensures
        match r {
            Some(t) => {
                &&& t.2@.len() == SYM_KEY_LEN as int
                &&& pow_ok(t.0@, t.3@)
                &&& forall|sk: Seq<u8>| #[trigger]
                    box_keypair(theirpk@, sk) ==> match open_sealed(theirpk@, sk, t.0@) {
                        Some(ti) => match dec_info(ti) {
                            Some((i2, k2, n2)) => i2 == idx && k2 == t.2@ && n2.len()
                                == SYM_NONCE_LEN as int && sym_opened(t.2@, n2, t.1@) == Some(
                                signed_of(signsk@, plaintext@),
                            ),
                            None => false,
                        },
                        None => false,
                    }
            },
            None => true,
        },
{
    let signtext = sign_bytes(signsk, plaintext);
    let key = gen_sym_key();
    let box_nonce = gen_sym_nonce();
    let enc_payload = seal_sym_bytes(&signtext, &box_nonce, &key);
    let info = ReportInfo::new(idx, key.clone(), box_nonce);
    let textinfo = encode_info(&info);
    let cap = seal_box_bytes(&textinfo, theirpk);
    let pow = match generate_proof_of_work(&cap, QUERY_POW_MAX_TRIES) {
        Some(p) => p,
        None => {
            return None;
        },
    };
    proof {
        lemma_info_round_trip(info.idx, info.key@, info.nonce@);
    }
    Some((cap, enc_payload, key, pow))
}

/// Opens a signed request payload: the plain bytes, once the seal and the
/// signature both check out.
pub fn open_request(signpk: &Vec<u8>, sim_key: &Vec<u8>, cipher: &Vec<u8>, nonce: &Vec<u8>) -> (r:
    Option<Vec<u8>>)
    requires
        signpk@.len() == SIGN_PK_LEN as int,
        sim_key@.len() == SYM_KEY_LEN as int,
    ensures
        match r {
            Some(m) => match sym_opened(sim_key@, nonce@, cipher@) {
                Some(sm) => open_signed(signpk@, sm) == Some(m@),
                None => false,
            },
            None => match sym_opened(sim_key@, nonce@, cipher@) {
                Some(sm) => open_signed(signpk@, sm) is None,
                None => true,
            },
        },
{
    let signed = match open_sym_bytes(cipher, nonce, sim_key) {
        Some(m) => m,
        None => {
            return None;
        },
    };
    open_signed_bytes(signpk, &signed)
}

/// Seals a response payload under the session key with a fresh reply nonce:
/// the ciphertext and the nonce.
pub fn seal_response(key: &Vec<u8>, plaintext: &Vec<u8>) -> (r: (Vec<u8>, Vec<u8>))
    requires
        key@.len() == SYM_KEY_LEN as int,
    ensures
        r.1@.len() == SYM_NONCE_LEN as int,
        r.0@ == sym_sealed(key@, r.1@, plaintext@),
        sym_opened(key@, r.1@, r.0@) == Some(plaintext@),
{
    let nonce = gen_sym_nonce();
    let cipher = seal_sym_bytes(plaintext, &nonce, key);
    (cipher, nonce)
}

/// Opens a sealed response payload.
pub fn open_response(key: &Vec<u8>, nonce: &Vec<u8>, cipher: &Vec<u8>) -> (r: Option<Vec<u8>>)
    requires
        key@.len() == SYM_KEY_LEN as int,
    ensures
        match r {
            Some(m) => sym_opened(key@, nonce@, cipher@) == Some(m@),
            None => sym_opened(key@, nonce@, cipher@) is None,
        },
{
    open_sym_bytes(cipher, nonce, key)
}

/// The obtain-report query: whose report, at which epoch.
#[derive(Debug, PartialEq, Eq, Structural, Clone, Copy)]
pub struct LocationReportRequest {
    pub idx: usize,
    pub epoch: usize,
}

impl LocationReportRequest {
    pub fn new(idx: usize, epoch: usize) -> (r: LocationReportRequest)
        ensures
            r == (LocationReportRequest { idx, epoch }),
    {
        LocationReportRequest { idx, epoch }
    }

    pub fn epoch(&self) -> (r: usize)
        ensures
            r == self.epoch,
    {
        self.epoch
    }

    pub fn idx(&self) -> (r: usize)
        ensures
            r == self.idx,
    {
        self.idx
    }
}

/// The byte encoding of an obtain-report query.
pub open spec fn enc_loc_request(q: LocationReportRequest) -> Seq<u8> {
    enc_u64(q.idx as u64) + enc_u64(q.epoch as u64)
}

/// The obtain-report query encoded in `s`, when `s` is exactly one.
pub open spec fn dec_loc_request(s: Seq<u8>) -> Option<LocationReportRequest> {
    match rd_u64(s, 0) {
        None => None,
        Some((idx, i1)) => match rd_u64(s, i1) {
            None => None,
            Some((epoch, e)) => if e == s.len() && fits_usize(idx) && fits_usize(epoch) {
                Some(LocationReportRequest { idx: idx as usize, epoch: epoch as usize })
            } else {
                None
            },
        },
    }
}

/// Encodes an obtain-report query.
pub fn encode_loc_request(q: &LocationReportRequest) -> (out: Vec<u8>)
    ensures
        out@ == enc_loc_request(*q),
{
    let mut out: Vec<u8> = Vec::new();
    write_u64(&mut out, q.idx as u64);
    write_u64(&mut out, q.epoch as u64);
    proof {
        assert(out@ =~= enc_loc_request(*q));
    }
    out
}

/// Decodes an obtain-report query.
pub fn decode_loc_request(s: &Vec<u8>) -> (r: Option<LocationReportRequest>)
    ensures
        r == dec_loc_request(s@),
{
    let (idx, i1) = match read_u64(s, 0) {
        Some(p) => p,
        None => {
            return None;
        },
    };
    let (epoch, e) = match read_u64(s, i1) {
        Some(p) => p,
        None => {
            return None;
        },
    };
    if e == s.len() && idx <= usize::MAX as u64 && epoch <= usize::MAX as u64 {
        Some(LocationReportRequest { idx: idx as usize, epoch: epoch as usize })
    } else {
        None
    }
}

/// Decoding inverts encoding of an obtain-report query.
pub proof fn lemma_loc_request_round_trip(q: LocationReportRequest)
    ensures
        dec_loc_request(enc_loc_request(q)) == Some(q),
{
    let s = enc_loc_request(q);
    lemma_le_bytes_len((q.idx as u64) as nat, 8);
    lemma_le_bytes_len((q.epoch as u64) as nat, 8);
    assert(s.subrange(0, 8) =~= enc_u64(q.idx as u64));
    lemma_rd_u64_at(s, 0, q.idx as u64);
    assert(s.subrange(8, 16) =~= enc_u64(q.epoch as u64));
    lemma_rd_u64_at(s, 8, q.epoch as u64);
}

/// An obtain-report reply in coordinate form.
#[derive(Debug, PartialEq, Eq, Clone, Copy)]
pub struct LocationReportResponse {
    pub pos: (usize, usize),
}

impl LocationReportResponse {
    pub fn new(pos_x: usize, pos_y: usize) -> (r: LocationReportResponse)
        ensures
            r.pos == (pos_x, pos_y),
    {
        LocationReportResponse { pos: (pos_x, pos_y) }
    }
}

/// The users-at-location query: which cell, at which epoch.
#[derive(Debug, PartialEq, Eq, Clone, Copy)]
pub struct UsersAtLocationRequest {
    pub pos: (usize, usize),
    pub epoch: usize,
}

impl UsersAtLocationRequest {
    pub fn new(pos: (usize, usize), epoch: usize) -> (r: UsersAtLocationRequest)
        ensures
            r == (UsersAtLocationRequest { pos, epoch }),
    {
        UsersAtLocationRequest { pos, epoch }
    }

    pub fn pos(&self) -> (r: (usize, usize))
        ensures
            r == self.pos,
    {
        self.pos
    }

    pub fn epoch(&self) -> (r: usize)
        ensures
            r == self.epoch,
    {
        self.epoch
    }
}

/// The byte encoding of a users-at-location query.
pub open spec fn enc_users_request(q: UsersAtLocationRequest) -> Seq<u8> {
    enc_u64(q.pos.0 as u64) + enc_u64(q.pos.1 as u64) + enc_u64(q.epoch as u64)
}

/// The users-at-location query encoded in `s`, when `s` is exactly one.
pub open spec fn dec_users_request(s: Seq<u8>) -> Option<UsersAtLocationRequest> {
    match rd_u64(s, 0) {
        None => None,
        Some((x, i1)) => match rd_u64(s, i1) {
            None => None,
            Some((y, i2)) => match rd_u64(s, i2) {
                None => None,
                Some((epoch, e)) => if e == s.len() && fits_usize(x) && fits_usize(y)
                    && fits_usize(epoch) {
                    Some(
                        UsersAtLocationRequest {
                            pos: (x as usize, y as usize),
                            epoch: epoch as usize,
                        },
                    )
                } else {
                    None
                },
            },
        },
    }
}

/// Encodes a users-at-location query.
pub fn encode_users_request(q: &UsersAtLocationRequest) -> (out: Vec<u8>)
    ensures
        out@ == enc_users_request(*q),
{
    let mut out: Vec<u8> = Vec::new();
    write_u64(&mut out, q.pos.0 as u64);
    write_u64(&mut out, q.pos.1 as u64);
    write_u64(&mut out, q.epoch as u64);
    proof {
        assert(out@ =~= enc_users_request(*q));
    }
    out
}

/// Decodes a users-at-location query.
pub fn decode_users_request(s: &Vec<u8>) -> (r: Option<UsersAtLocationRequest>)
    ensures
        r == dec_users_request(s@),
{
    let (x, i1) = match read_u64(s, 0) {
        Some(p) => p,
        None => {
            return None;
        },
    };
    let (y, i2) = match read_u64(s, i1) {
        Some(p) => p,
        None => {
            return None;
        },
    };
    let (epoch, e) = match read_u64(s, i2) {
        Some(p) => p,
        None => {
            return None;
        },
    };
    if e == s.len() && x <= usize::MAX as u64 && y <= usize::MAX as u64 && epoch
        <= usize::MAX as u64 {
        Some(UsersAtLocationRequest { pos: (x as usize, y as usize), epoch: epoch as usize })
    } else {
        None
    }
}

/// Decoding inverts encoding of a users-at-location query.
pub proof fn lemma_users_request_round_trip(q: UsersAtLocationRequest)
    ensures
        dec_users_request(enc_users_request(q)) == Some(q),
{
    let s = enc_users_request(q);
    lemma_le_bytes_len((q.pos.0 as u64) as nat, 8);
    lemma_le_bytes_len((q.pos.1 as u64) as nat, 8);
    lemma_le_bytes_len((q.epoch as u64) as nat, 8);
    assert(s.subrange(0, 8) =~= enc_u64(q.pos.0 as u64));
    lemma_rd_u64_at(s, 0, q.pos.0 as u64);
    assert(s.subrange(8, 16) =~= enc_u64(q.pos.1 as u64));
    lemma_rd_u64_at(s, 8, q.pos.1 as u64);
    assert(s.subrange(16, 24) =~= enc_u64(q.epoch as u64));
    lemma_rd_u64_at(s, 16, q.epoch as u64);
}

/// A users-at-location reply in index form.
#[derive(Debug, PartialEq, Clone)]
pub struct UsersAtLocationResponse {
    pub idxs: Vec<usize>,
}

impl UsersAtLocationResponse {
    pub fn new(idxs: Vec<usize>) -> (r: UsersAtLocationResponse)
        ensures
            r.idxs == idxs,
    {
        UsersAtLocationResponse { idxs }
    }
}

/// The request-my-proofs query: the epochs asked for.
#[derive(Debug, PartialEq, Clone)]
pub struct MyProofsRequest {
    pub epochs: Vec<usize>,
}

impl MyProofsRequest {
    pub fn new(epochs: Vec<usize>) -> (r: MyProofsRequest)
        ensures
            r.epochs == epochs,
    {
        MyProofsRequest { epochs }
    }
}

/// The byte encoding of an epochs list: its count, then the epochs.
pub open spec fn enc_epochs(xs: Seq<usize>) -> Seq<u8> {
    enc_u64(xs.len() as u64) + enc_u64s(xs)
}

/// The epochs list encoded in `s`, when `s` is exactly one.
pub open spec fn dec_epochs(s: Seq<u8>) -> Option<Seq<usize>> {
    match rd_u64(s, 0) {
        None => None,
        Some((count, i1)) => match rd_u64s(s, i1, count as nat) {
            None => None,
            Some((xs, e)) => if e == s.len() {
                Some(xs)
            } else {
                None
            },
        },
    }
}

/// Encodes an epochs list.
pub fn encode_epochs(xs: &Vec<usize>) -> (out: Vec<u8>)
    ensures
        out@ == enc_epochs(xs@),
{
    let mut out: Vec<u8> = Vec::new();
    write_u64(&mut out, xs.len() as u64);
    write_u64s_from(&mut out, xs, 0);
    proof {
        assert(xs@.skip(0) =~= xs@);
        assert(out@ =~= enc_epochs(xs@));
    }
    out
}

/// Decodes an epochs list.
pub fn decode_epochs(s: &Vec<u8>) -> (r: Option<Vec<usize>>)
    ensures
        match r {
            Some(xs) => dec_epochs(s@) == Some(xs@),
            None => dec_epochs(s@) is None,
        },
{
    let (count, i1) = match read_u64(s, 0) {
        Some(p) => p,
        None => {
            return None;
        },
    };
    let (xs, e) = match read_u64s(s, i1, count) {
        Some(p) => p,
        None => {
            return None;
        },
    };
    if e == s.len() {
        Some(xs)
    } else {
        None
    }
}

/// Decoding inverts encoding of an epochs list.
pub proof fn lemma_epochs_round_trip(xs: Seq<usize>)
    requires
        xs.len() <= u64::MAX,
    ensures
        dec_epochs(enc_epochs(xs)) == Some(xs),
{
    let s = enc_epochs(xs);
    let count = xs.len() as u64;
    lemma_le_bytes_len(count as nat, 8);
    let tail = enc_u64s(xs);
    assert(s.subrange(0, 8) =~= enc_u64(count));
    lemma_rd_u64_at(s, 0, count);
    assert(s.subrange(8, 8 + tail.len() as int) =~= tail);
    lemma_rd_u64s_at(s, 8, xs);
}

/// A request-my-proofs reply: the stored signed proofs.
#[derive(Debug, PartialEq, Clone)]
pub struct MyProofsResponse {
    pub proofs: Vec<Vec<u8>>,
}

impl MyProofsResponse {
    pub fn new(proofs: Vec<Vec<u8>>) -> (r: MyProofsResponse)
        ensures
            r.proofs == proofs,
    {
        MyProofsResponse { proofs }
    }
}

/// The byte encoding of a list of byte strings: its count, then the strings.
pub open spec fn enc_blob_list(bs: Seq<Seq<u8>>) -> Seq<u8> {
    enc_u64(bs.len() as u64) + enc_blobs(bs)
}

/// The list of byte strings encoded in `s`, when `s` is exactly one.
pub open spec fn dec_blob_list(s: Seq<u8>) -> Option<Seq<Seq<u8>>> {
    match rd_u64(s, 0) {
        None => None,
        Some((count, i1)) => match rd_blobs(s, i1, count as nat) {
            None => None,
            Some((bs, e)) => if e == s.len() {
                Some(bs)
            } else {
                None
            },
        },
    }
}

/// Encodes a list of byte strings.
pub fn encode_blob_list(bs: &Vec<Vec<u8>>) -> (out: Vec<u8>)
    ensures
        out@ == enc_blob_list(blobs_view(bs@)),
{
    let mut out: Vec<u8> = Vec::new();
    write_u64(&mut out, bs.len() as u64);
    write_blobs_from(&mut out, bs, 0);
    proof {
        assert(blobs_view(bs@).skip(0) =~= blobs_view(bs@));
        assert(out@ =~= enc_blob_list(blobs_view(bs@)));
    }
    out
}

/// Decodes a list of byte strings.
pub fn decode_blob_list(s: &Vec<u8>) -> (r: Option<Vec<Vec<u8>>>)
    ensures
        match r {
            Some(bs) => dec_blob_list(s@) == Some(blobs_view(bs@)),
            None => dec_blob_list(s@) is None,
        },
{
    let (count, i1) = match read_u64(s, 0) {
        Some(p) => p,
        None => {
            return None;
        },
    };
    let (bs, e) = match read_blobs(s, i1, count) {
        Some(p) => p,
        None => {
            return None;
        },
    };
    if e == s.len() {
        Some(bs)
    } else {
        None
    }
}

/// Decoding inverts encoding of a list of byte strings.
pub proof fn lemma_blob_list_round_trip(bs: Seq<Seq<u8>>)
    requires
        bs.len() <= u64::MAX,
        forall|k: int| 0 <= k < bs.len() ==> (#[trigger] bs[k]).len() <= usize::MAX,
    ensures
        dec_blob_list(enc_blob_list(bs)) == Some(bs),
{
    let s = enc_blob_list(bs);
    let count = bs.len() as u64;
    lemma_le_bytes_len(count as nat, 8);
    let tail = enc_blobs(bs);
    assert(s.subrange(0, 8) =~= enc_u64(count));
    lemma_rd_u64_at(s, 0, count);
    assert(s.subrange(8, 8 + tail.len() as int) =~= tail);
    lemma_rd_blobs_at(s, 8, bs);
}

/// The byte encoding of a list of index/bytes pairs: its count, then the
/// pairs.
pub open spec fn enc_pair_list(ps: Seq<(usize, Seq<u8>)>) -> Seq<u8> {
    enc_u64(ps.len() as u64) + enc_pairs(ps)
}

/// The list of index/bytes pairs encoded in `s`, when `s` is exactly one.
pub open spec fn dec_pair_list(s: Seq<u8>) -> Option<Seq<(usize, Seq<u8>)>> {
    match rd_u64(s, 0) {
        None => None,
        Some((count, i1)) => match rd_pairs(s, i1, count as nat) {
            None => None,
            Some((ps, e)) => if e == s.len() {
                Some(ps)
            } else {
                None
            },
        },
    }
}

/// Encodes a list of index/bytes pairs.
pub fn encode_pair_list(ps: &Vec<(usize, Vec<u8>)>) -> (out: Vec<u8>)
    ensures
        out@ == enc_pair_list(pairs_view(ps@)),
{
    let mut out: Vec<u8> = Vec::new();
    write_u64(&mut out, ps.len() as u64);
    write_pairs_from(&mut out, ps, 0);
    proof {
        assert(pairs_view(ps@).skip(0) =~= pairs_view(ps@));
        assert(out@ =~= enc_pair_list(pairs_view(ps@)));
    }
    out
}

/// Decodes a list of index/bytes pairs.
pub fn decode_pair_list(s: &Vec<u8>) -> (r: Option<Vec<(usize, Vec<u8>)>>)
    ensures
        match r {
            Some(ps) => dec_pair_list(s@) == Some(pairs_view(ps@)),
            None => dec_pair_list(s@) is None,
        },
{
    let (count, i1) = match read_u64(s, 0) {
        Some(p) => p,
        None => {
            return None;
        },
    };
    let (ps, e) = match read_pairs(s, i1, count) {
        Some(p) => p,
        None => {
            return None;
        },
    };
    if e == s.len() {
        Some(ps)
    } else {
        None
    }
}

/// Decoding inverts encoding of a list of index/bytes pairs.
pub proof fn lemma_pair_list_round_trip(ps: Seq<(usize, Seq<u8>)>)
    requires
        ps.len() <= u64::MAX,
        forall|k: int| 0 <= k < ps.len() ==> (#[trigger] ps[k]).1.len() <= usize::MAX,
    ensures
        dec_pair_list(enc_pair_list(ps)) == Some(ps),
{
    let s = enc_pair_list(ps);
    let count = ps.len() as u64;
    lemma_le_bytes_len(count as nat, 8);
    let tail = enc_pairs(ps);
    assert(s.subrange(0, 8) =~= enc_u64(count));
    lemma_rd_u64_at(s, 0, count);
    assert(s.subrange(8, 8 + tail.len() as int) =~= tail);
    lemma_rd_pairs_at(s, 8, ps);
}

} // verus!
