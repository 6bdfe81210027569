//! The peer proof exchange, as seen by the peer that answers: a prover hands
//! out a signed statement that the requester was next to it during an epoch,
//! but only to someone the timeline actually places in its neighbourhood.

use vstd::prelude::*;
use crate::crypto::{sign_keypair, signed_of, SIGN_SK_LEN};
use crate::grid::Timeline;
use crate::proofs::{Proof, enc_proof, proof_opened, sign_proof};

verus! {

/// Why a proof request was refused.
#[derive(Debug, PartialEq, Eq, Structural, Clone, Copy)]
pub enum ProoferError {
    /// The requester is not a user the timeline tracks.
    InvalidId,
    /// The epoch lies beyond the timeline.
    InvalidEpoch,
    /// The timeline does not place the requester next to this prover.
    NotNeighbour,
}

/// One user answering proof requests: its index, its copy of the timeline,
/// and its signing key.
pub struct Proofer {
    pub idx: usize,
    pub timeline: Timeline,
    pub sign_key: Vec<u8>,
}

impl Proofer {
    pub open spec fn wf(self) -> bool {
        &&& self.timeline.wf()
        &&& self.timeline.size > 0
        &&& self.sign_key@.len() == SIGN_SK_LEN as int
    }

    /// Whether this prover owes a proof: the requester is tracked, the epoch
    /// exists, the prover is placed somewhere at that epoch, and the
    /// requester stands in the prover's clamped neighbourhood there.
    pub open spec fn answers(self, req_idx: usize, epoch: usize) -> bool {
        &&& self.timeline.tracks(req_idx)
        &&& epoch < self.timeline.epochs
        &&& self.timeline.placed(epoch as int, self.idx)
        &&& self.timeline.timeline@[epoch as int].neighbour_of(
            self.timeline.first_cell(epoch as int, self.idx) as usize,
            self.idx,
            req_idx,
        )
    }

    /// The position this prover reports for `epoch`: the coordinates of its
    /// first cell there.
    pub open spec fn position_at(self, epoch: usize) -> (usize, usize) {
        (
            (self.timeline.first_cell(epoch as int, self.idx) % (
            self.timeline.size as int)) as usize,
            (self.timeline.first_cell(epoch as int, self.idx) / (
            self.timeline.size as int)) as usize,
        )
    }

    pub fn new(idx: usize, timeline: Timeline, sign_key: Vec<u8>) -> (r: Proofer)
        ensures
            r.idx == idx,
            r.timeline == timeline,
            r.sign_key == sign_key,
    {
        Proofer { idx, timeline, sign_key }
    }

    /// Answers one proof request: exactly when the timeline places `req_idx`
    /// in this prover's neighbourhood at `epoch`, the reply is this prover's
    /// own position at that epoch, signed into a proof naming the requester,
    /// the prover, the epoch and the position.
    pub fn request_location_proof(&self, req_idx: usize, epoch: usize) -> (r: Result<
        (Vec<u8>, usize),
        ProoferError,
    >)
        requires
            self.wf(),
        ensures
            (r == Result::<(Vec<u8>, usize), ProoferError>::Err(ProoferError::InvalidId))
                == !self.timeline.tracks(req_idx),
            (r == Result::<(Vec<u8>, usize), ProoferError>::Err(ProoferError::InvalidEpoch)) == (
            self.timeline.tracks(req_idx) && epoch >= self.timeline.epochs),
            (r is Ok) == self.answers(req_idx, epoch),
            (match r {
                Ok((sp, ass)) => {
                    &&& ass == self.idx
                    &&& sp@ == signed_of(
                        self.sign_key@,
                        enc_proof(
                            Proof::build(
                                epoch,
                                req_idx,
                                self.idx,
                                self.position_at(epoch).0,
                                self.position_at(epoch).1,
                            ),
                        ),
                    )
                    &&& forall|pk: Seq<u8>|
                        #[trigger] sign_keypair(pk, self.sign_key@) ==> proof_opened(pk, sp@)
                            == Some(
                            Proof::build(
                                epoch,
                                req_idx,
                                self.idx,
                                self.position_at(epoch).0,
                                self.position_at(epoch).1,
                            ),
                        )
                },
                Err(_) => true,
            }),
    {
        if !self.timeline.is_point(req_idx) {
            return Err(ProoferError::InvalidId);
        }
        if epoch >= self.timeline.epochs() {
            return Err(ProoferError::InvalidEpoch);
        }
        let neighbours = match self.timeline.get_neighbours_at_epoch(self.idx, epoch) {
            Some(v) => v,
            None => {
                return Err(ProoferError::NotNeighbour);
            },
        };
        if !crate::collections::contains_usize(&neighbours, req_idx) {
            return Err(ProoferError::NotNeighbour);
        }
        let (x, y) = match self.timeline.get_location_at_epoch(self.idx, epoch) {
            Some(p) => p,
            None => {
                return Err(ProoferError::NotNeighbour);
            },
        };
        let proof_stmt = Proof::new(epoch, req_idx, self.idx, (x, y));
        let sp = sign_proof(&self.sign_key, proof_stmt);
        proof {
            assert((x, y) == self.position_at(epoch));
            assert(proof_stmt == Proof::build(epoch, req_idx, self.idx, x, y));
            assert(sp@ == signed_of(
                self.sign_key@,
                enc_proof(Proof::build(epoch, req_idx, self.idx, x, y)),
            ));
        }
        Ok((sp, self.idx))
    }
}

/// A placeholder peer that answers every proof request with nothing: the
/// stand-in used where no timeline has been loaded yet.
#[derive(Debug, Default)]
pub struct MyLocationProof {
}

impl MyLocationProof {
    /// Declines to attest: no proof, whoever asks for whichever epoch.
    pub fn request_location_proof(&self, req_idx: usize, epoch: usize) -> (r: Option<
        (Vec<u8>, usize),
    >)
        ensures
            r is None,
    {
        let _asked: (usize, usize) = (req_idx, epoch);
        None
    }
}

} // verus!
