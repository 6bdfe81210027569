//! The replica-to-replica WRITE message of the double-echo broadcast (an
//! ECHO or a READY carrying the signed report bytes), and the sealed
//! envelope it travels in.

use vstd::prelude::*;
use crate::codec::{enc_u64, enc_bytes, rd_u64, rd_bytes, write_u64, write_bytes, read_u64,
    read_bytes, lemma_rd_u64_at, lemma_rd_bytes_at, lemma_le_bytes_len};
use crate::crypto::{signed_of, open_signed, box_keypair, open_sealed, sym_opened, sign_bytes,
    open_signed_bytes, seal_box_bytes, open_box_bytes, gen_sym_key, gen_sym_nonce, seal_sym_bytes,
    open_sym_bytes, SIGN_PK_LEN, SIGN_SK_LEN, BOX_PK_LEN, BOX_SK_LEN, SYM_KEY_LEN, SYM_NONCE_LEN};
use crate::pow::{pow_ok, generate_proof_of_work};
use crate::report::{ReportInfo, enc_info, dec_info, encode_info, decode_info_bytes,
    lemma_info_round_trip, fits_usize};

verus! {

/// How many tokens the proof-of-work search tries before giving up.
pub const ECHO_POW_MAX_TRIES: u64 = 1000000;

/// One step of the broadcast for `(client_id, epoch)`: the signed report
/// bytes, flagged as an ECHO or a READY.
#[derive(Debug, PartialEq, Clone)]
pub struct Write {
    pub report: Vec<u8>,
    pub client_id: usize,
    pub epoch: usize,
    pub echo: bool,
}

/// The mathematical content of a WRITE message.
pub struct WriteData {
    pub report: Seq<u8>,
    pub client_id: usize,
    pub epoch: usize,
    pub echo: bool,
}

impl View for Write {
    type V = WriteData;

    open spec fn view(&self) -> WriteData {
        WriteData {
            report: self.report@,
            client_id: self.client_id,
            epoch: self.epoch,
            echo: self.echo,
        }
    }
}

impl Write {
    pub fn new_echo(report: Vec<u8>, client_id: usize, epoch: usize) -> (r: Write)
        ensures
            r.report == report,
            r.client_id == client_id,
            r.epoch == epoch,
            r.echo == true,
    {
        Write { report, client_id, epoch, echo: true }
    }

    pub fn new_ready(report: Vec<u8>, client_id: usize, epoch: usize) -> (r: Write)
        ensures
            r.report == report,
            r.client_id == client_id,
            r.epoch == epoch,
            r.echo == false,
    {
        Write { report, client_id, epoch, echo: false }
    }

    pub fn is_echo(&self) -> (r: bool)
        ensures
            r == self.echo,
    {
        self.echo
    }

    pub fn is_ready(&self) -> (r: bool)
        ensures
            r == !self.echo,
    {
        !self.echo
    }
}

/// The byte encoding of a WRITE message.
pub open spec fn enc_write(w: WriteData) -> Seq<u8> {
    enc_u64(w.client_id as u64) + enc_u64(w.epoch as u64) + enc_u64(
        if w.echo {
            1u64
        } else {
            0u64
        },
    ) + enc_bytes(w.report)
}

/// The WRITE message encoded in `s`, when `s` is exactly one.
pub open spec fn dec_write(s: Seq<u8>) -> Option<WriteData> {
    match rd_u64(s, 0) {
        None => None,
        Some((client_id, i1)) => match rd_u64(s, i1) {
            None => None,
            Some((epoch, i2)) => match rd_u64(s, i2) {
                None => None,
                Some((flag, i3)) => match rd_bytes(s, i3) {
                    None => None,
                    Some((report, e)) => if e == s.len() && fits_usize(client_id) && fits_usize(
                        epoch,
                    ) && (flag == 0 || flag == 1) {
                        Some(
                            WriteData {
                                report,
                                client_id: client_id as usize,
                                epoch: epoch as usize,
                                echo: flag == 1,
                            },
                        )
                    } else {
                        None
                    },
                },
            },
        },
    }
}

/// Encodes a WRITE message.
pub fn encode_write(w: &Write) -> (out: Vec<u8>)
    ensures
        out@ == enc_write(w@),
{
    let mut out: Vec<u8> = Vec::new();
    write_u64(&mut out, w.client_id as u64);
    write_u64(&mut out, w.epoch as u64);
    write_u64(
        &mut out,
        if w.echo {
            1u64
        } else {
            0u64
        },
    );
    write_bytes(&mut out, &w.report);
    proof {
        assert(out@ =~= enc_write(w@));
    }
    out
}

/// Decodes a WRITE message; exactly the inverse of `enc_write` on valid
/// encodings.
pub fn decode_write(s: &Vec<u8>) -> (r: Option<Write>)
    ensures
        match r {
            Some(w) => dec_write(s@) == Some(w@),
            None => dec_write(s@) is None,
        },
{
    let (client_id, i1) = match read_u64(s, 0) {
        Some(p) => p,
        None => {
            return None;
        },
    };
    let (epoch, i2) = match read_u64(s, i1) {
        Some(p) => p,
        None => {
            return None;
        },
    };
    let (flag, i3) = match read_u64(s, i2) {
        Some(p) => p,
        None => {
            return None;
        },
    };
    let (report, e) = match read_bytes(s, i3) {
        Some(p) => p,
        None => {
            return None;
        },
    };
    if e == s.len() && client_id <= usize::MAX as u64 && epoch <= usize::MAX as u64 && (flag == 0
        || flag == 1) {
        Some(
            Write {
                report,
                client_id: client_id as usize,
                epoch: epoch as usize,
                echo: flag == 1,
            },
        )
    } else {
        None
    }
}

/// Decoding inverts encoding of a WRITE message.
pub proof fn lemma_write_round_trip(w: WriteData)
    requires
        w.report.len() <= usize::MAX,
    ensures
        dec_write(enc_write(w)) == Some(w),
{
    let s = enc_write(w);
    let flag: u64 = if w.echo {
        1u64
    } else {
        0u64
    };
    lemma_le_bytes_len((w.client_id as u64) as nat, 8);
    lemma_le_bytes_len((w.epoch as u64) as nat, 8);
    lemma_le_bytes_len(flag as nat, 8);
    lemma_le_bytes_len((w.report.len() as u64) as nat, 8);
    assert(s.len() == 32 + w.report.len());
    assert(s.subrange(0, 8) =~= enc_u64(w.client_id as u64));
    lemma_rd_u64_at(s, 0, w.client_id as u64);
    assert(s.subrange(8, 16) =~= enc_u64(w.epoch as u64));
    lemma_rd_u64_at(s, 8, w.epoch as u64);
    assert(s.subrange(16, 24) =~= enc_u64(flag));
    lemma_rd_u64_at(s, 16, flag);
    assert(s.subrange(24, 32 + w.report.len() as int) =~= enc_bytes(w.report));
    lemma_rd_bytes_at(s, 24, w.report);
}

/// The capability of a replica-to-replica request: the sending replica's id,
/// the fresh session key, and the payload nonce. The layout is the one of
/// the client capability, with the replica id in the index field.
pub struct EchoInfo {
    pub server_id: usize,
    pub key: Vec<u8>,
    pub nonce: Vec<u8>,
}

impl EchoInfo {
    pub fn new(server_id: usize, key: Vec<u8>, nonce: Vec<u8>) -> (r: EchoInfo)
        ensures
            r.server_id == server_id,
            r.key == key,
            r.nonce == nonce,
    {
        EchoInfo { server_id, key, nonce }
    }
}

/// Builds a replica-to-replica WRITE request: the sealed capability, the
/// signed and sealed message, the session key the sender keeps, and the
/// proof-of-work token. Fails only when the proof-of-work search gives up.
pub fn encode_echo_request(signsk: &Vec<u8>, theirpk: &Vec<u8>, write: &Write, server_id: usize)
    -> (r: Option<(Vec<u8>, Vec<u8>, Vec<u8>, Vec<u8>)>)
    requires
        signsk@.len() == SIGN_SK_LEN as int,
        theirpk@.len() == BOX_PK_LEN as int,
    ensures
        match r {
            Some(t) => {
                &&& t.2@.len() == SYM_KEY_LEN as int
                &&& pow_ok(t.0@, t.3@)
                &&& forall|sk: Seq<u8>| #[trigger]
                    box_keypair(theirpk@, sk) ==> match open_sealed(theirpk@, sk, t.0@) {
                        Some(ti) => match dec_info(ti) {
                            Some((i2, k2, n2)) => i2 == server_id && k2 == t.2@ && n2.len()
                                == SYM_NONCE_LEN as int && sym_opened(t.2@, n2, t.1@) == Some(
                                signed_of(signsk@, enc_write(write@)),
                            ),
                            None => false,
                        },
                        None => false,
                    }
            },
            None => true,
        },
{
    let plaintext = encode_write(write);
    let signtext = sign_bytes(signsk, &plaintext);
    let key = gen_sym_key();
    let box_nonce = gen_sym_nonce();
    let enc_payload = seal_sym_bytes(&signtext, &box_nonce, &key);
    let info = ReportInfo::new(server_id, key.clone(), box_nonce);
    let textinfo = encode_info(&info);
    let cap = seal_box_bytes(&textinfo, theirpk);
    let pow = match generate_proof_of_work(&cap, ECHO_POW_MAX_TRIES) {
        Some(p) => p,
        None => {
            return None;
        },
    };
    proof {
        lemma_info_round_trip(info.idx, info.key@, info.nonce@);
    }
    Some((cap, enc_payload, key, pow))
}

/// Opens the sealed capability of a replica-to-replica request.
pub fn decode_echo_info(oursk: &Vec<u8>, ourpk: &Vec<u8>, cipherinfo: &Vec<u8>) -> (r: Option<
    EchoInfo,
>)
    requires
        oursk@.len() == BOX_SK_LEN as int,
        ourpk@.len() == BOX_PK_LEN as int,
    ensures
        match r {
            Some(info) => match open_sealed(ourpk@, oursk@, cipherinfo@) {
                Some(ti) => dec_info(ti) == Some((info.server_id, info.key@, info.nonce@)),
                None => false,
            },
            None => match open_sealed(ourpk@, oursk@, cipherinfo@) {
                Some(ti) => dec_info(ti) is None,
                None => true,
            },
        },
{
    match open_box_bytes(cipherinfo, ourpk, oursk) {
        None => None,
        Some(ti) => match decode_info_bytes(&ti) {
            None => None,
            Some(info) => Some(EchoInfo { server_id: info.idx, key: info.key, nonce: info.nonce }),
        },
    }
}

/// What verifying signed WRITE bytes under a public key yields.
pub open spec fn write_opened(pk: Seq<u8>, sm: Seq<u8>) -> Option<WriteData> {
    match open_signed(pk, sm) {
        None => None,
        Some(m) => dec_write(m),
    }
}

/// Opens and verifies the sealed, signed WRITE payload of a
/// replica-to-replica request: the message and the signed bytes it arrived
/// as.
pub fn decode_echo_request(signpk: &Vec<u8>, sim_key: &Vec<u8>, cipher_write: &Vec<u8>, nonce: &Vec<
    u8,
>) -> (r: Option<(Write, Vec<u8>)>)
    requires
        signpk@.len() == SIGN_PK_LEN as int,
        sim_key@.len() == SYM_KEY_LEN as int,
    ensures
        match r {
            Some((w, sm)) => {
                &&& sym_opened(sim_key@, nonce@, cipher_write@) == Some(sm@)
                &&& write_opened(signpk@, sm@) == Some(w@)
            },
            None => match sym_opened(sim_key@, nonce@, cipher_write@) {
                Some(sm) => write_opened(signpk@, sm) is None,
                None => true,
            },
        },
{
    let signed = match open_sym_bytes(cipher_write, nonce, sim_key) {
        Some(m) => m,
        None => {
            return None;
        },
    };
    match open_signed_bytes(signpk, &signed) {
        None => None,
        Some(m) => match decode_write(&m) {
            None => None,
            Some(w) => Some((w, signed)),
        },
    }
}

/// Whether a sealed acknowledgement opens under the session key and the
/// reply nonce.
pub fn success_echo(key: &Vec<u8>, nonce: &Vec<u8>, cyphertext: &Vec<u8>) -> (r: bool)
    requires
        key@.len() == SYM_KEY_LEN as int,
    ensures
        r == (sym_opened(key@, nonce@, cyphertext@) is Some),
{
    open_sym_bytes(cyphertext, nonce, key).is_some()
}

} // verus!
