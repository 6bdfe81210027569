//! The client's side of the read path: checking what a replica answered
//! before believing it. A report reply must verify under the reporter's key
//! and carry the asked-for epoch; a proofs reply must verify under the
//! requester's own key, proof by proof, inside the asked-for epochs.

use vstd::prelude::*;
use crate::crypto::{sym_opened, SIGN_PK_LEN, SYM_KEY_LEN};
use crate::proofs::{Proof, proof_opened, verify_proof};
use crate::report::{report_opened, verify_report};
use crate::status::{open_response, decode_blob_list, dec_blob_list};

verus! {

/// What a verified obtain-report reply means to the requester: the reported
/// location, once the reply opens under the session key, the signed bytes
/// verify under the reporter's key, and the epoch is the one asked for.
pub open spec fn location_reply(
    reporter_key: Seq<u8>,
    session_key: Seq<u8>,
    epoch: usize,
    nonce: Seq<u8>,
    cipher: Seq<u8>,
) -> Option<(usize, usize)> {
    match sym_opened(session_key, nonce, cipher) {
        None => None,
        Some(bytes) => match report_opened(reporter_key, bytes) {
            None => None,
            Some(rd) => if rd.epoch == epoch {
                Some((rd.loc_x, rd.loc_y))
            } else {
                None
            },
        },
    }
}

/// Opens and checks an obtain-report reply: the location the report claims,
/// exactly when the reply is authentic and about the asked-for epoch.
pub fn obtain_location_report(
    public_key: &Vec<u8>,
    session_key: &Vec<u8>,
    epoch: usize,
    nonce: &Vec<u8>,
    cipher: &Vec<u8>,
) -> (r: Option<(usize, usize)>)
    requires
        public_key@.len() == SIGN_PK_LEN as int,
        session_key@.len() == SYM_KEY_LEN as int,
    ensures
        r == location_reply(public_key@, session_key@, epoch, nonce@, cipher@),
{
    let bytes = match open_response(session_key, nonce, cipher) {
        Some(b) => b,
        None => {
            return None;
        },
    };
    let report = match verify_report(public_key, &bytes) {
        Some(rep) => rep,
        None => {
            return None;
        },
    };
    if report.epoch == epoch {
        Some((report.loc_x, report.loc_y))
    } else {
        None
    }
}

/// Whether every signed proof in a list verifies under the requester's key
/// and names an epoch from the asked-for set.
pub open spec fn proofs_all_sound(
    public_key: Seq<u8>,
    epochs: Seq<usize>,
    blobs: Seq<Seq<u8>>,
) -> bool {
    forall|k: int|
        0 <= k < blobs.len() ==> (match proof_opened(public_key, #[trigger] blobs[k]) {
            Some(pr) => epochs.contains(pr.epoch),
            None => false,
        })
}

/// Opens and checks a request-my-proofs reply. The result holds exactly the
/// proofs the reply carried, each verified under the requester's own key and
/// pinned to an epoch that was asked for; one bad entry rejects the whole
/// reply.
pub fn request_my_proofs(
    public_key: &Vec<u8>,
    session_key: &Vec<u8>,
    epochs: &Vec<usize>,
    nonce: &Vec<u8>,
    cipher: &Vec<u8>,
) -> (r: Option<Vec<Proof>>)
    requires
        public_key@.len() == SIGN_PK_LEN as int,
        session_key@.len() == SYM_KEY_LEN as int,
    ensures
        (match r {
            Some(v) => match sym_opened(session_key@, nonce@, cipher@) {
                Some(bytes) => match dec_blob_list(bytes) {
                    Some(blobs) => {
                        &&& proofs_all_sound(public_key@, epochs@, blobs)
                        &&& v@.len() == blobs.len()
                        &&& forall|k: int|
                            0 <= k < blobs.len() ==> proof_opened(public_key@, blobs[k]) == Some(
                                #[trigger] v@[k],
                            )
                    },
                    None => false,
                },
                None => false,
            },
            None => (match sym_opened(session_key@, nonce@, cipher@) {
                Some(bytes) => match dec_blob_list(bytes) {
                    Some(blobs) => !proofs_all_sound(public_key@, epochs@, blobs),
                    None => true,
                },
                None => true,
            }),
        }),
{
    let bytes = match open_response(session_key, nonce, cipher) {
        Some(b) => b,
        None => {
            return None;
        },
    };
    let blobs = match decode_blob_list(&bytes) {
        Some(bs) => bs,
        None => {
            return None;
        },
    };
    let ghost blob_views = crate::codec::blobs_view(blobs@);
    let n = blobs.len();
    let mut out: Vec<Proof> = Vec::new();
    let mut k: usize = 0;
    while k < n
        invariant
            public_key@.len() == SIGN_PK_LEN as int,
            sym_opened(session_key@, nonce@, cipher@) == Some(bytes@),
            dec_blob_list(bytes@) == Some(blob_views),
            n == blobs@.len(),
            blob_views == crate::codec::blobs_view(blobs@),
            blob_views.len() == n,
            0 <= k <= n,
            out@.len() == k,
            forall|j: int|
                0 <= j < k ==> (match proof_opened(public_key@, #[trigger] blob_views[j]) {
                    Some(pr) => epochs@.contains(pr.epoch) && pr == out@[j],
                    None => false,
                }),
        decreases n - k,
    {
        proof {
            assert(blob_views[k as int] == blobs@[k as int]@);
        }
        let pr = match verify_proof(public_key, &blobs[k]) {
            Some(pr) => pr,
            None => {
                proof {
                    assert(!proofs_all_sound(public_key@, epochs@, blob_views)) by {
                        assert(proof_opened(public_key@, blob_views[k as int]) is None);
                    }
                }
                return None;
            },
        };
        if !crate::collections::contains_usize(epochs, pr.epoch()) {
            proof {
                assert(!proofs_all_sound(public_key@, epochs@, blob_views)) by {
                    assert(proof_opened(public_key@, blob_views[k as int]) == Some(pr));
                    assert(!epochs@.contains(pr.epoch));
                }
            }
            return None;
        }
        out.push(pr);
        k += 1;
    }
    proof {
        assert(proofs_all_sound(public_key@, epochs@, blob_views)) by {
            assert forall|j: int|
                0 <= j < blob_views.len() implies (match proof_opened(
                public_key@,
                #[trigger] blob_views[j],
            ) {
                Some(pr) => epochs@.contains(pr.epoch),
                None => false,
            }) by {}
        }
    }
    Some(out)
}

} // verus!
