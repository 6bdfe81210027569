//! The replica's client-facing RPC handlers: submit-report, obtain-report
//! and request-my-proofs. Each opens the sealed envelope, checks the proof
//! of work and the nonce, verifies the signed payload, and answers from the
//! storage engine — or hands the write to the broadcast.

use vstd::prelude::*;
use crate::crypto::{open_sealed, sym_opened, open_signed, SYM_KEY_LEN, SYM_NONCE_LEN};
use crate::key_management::{ServerKeys, key_lookup};
use crate::pow::pow_ok;
use crate::report::{ReportData, dec_info, decode_info, report_opened, decode_report};
use crate::status::{LocationReportRequest, dec_loc_request, decode_loc_request, dec_epochs,
    decode_epochs, seal_response, open_request, encode_blob_list};
use crate::storage::{Timeline, has_route, route_of, proofs_for};
use crate::double_echo_report::{DoubleEcho, ConfirmOutcome, WriteProgress, valid_report};

verus! {

/// The error a handler answers a request with, mapped one to one onto the
/// wire status codes.
#[derive(Debug, PartialEq, Eq, Structural, Clone, Copy)]
pub enum ServerError {
    /// A broken envelope, a weak proof of work, or a malformed payload.
    PermissionDenied,
    /// A replayed nonce.
    AlreadyExists,
    /// Nothing stored under the queried key.
    NotFound,
    /// The write went through the broadcast and storage rejected it.
    Aborted,
}

/// What the capability of a request opens to under a replica's key pair.
pub open spec fn opened_info(keys: ServerKeys, cap: Seq<u8>) -> Option<(usize, Seq<u8>, Seq<u8>)> {
    match open_sealed(keys.public_key@, keys.private_key@, cap) {
        None => None,
        Some(ti) => dec_info(ti),
    }
}

/// Whether a capability opens to a well-shaped session: a known session-key
/// and nonce length.
pub open spec fn session_ok(idx: usize, key: Seq<u8>, nonce: Seq<u8>) -> bool {
    key.len() == SYM_KEY_LEN && nonce.len() == SYM_NONCE_LEN
}

/// What the sealed, signed payload of a request opens to under a session and
/// a signer's key.
pub open spec fn opened_payload(
    signer: Seq<u8>,
    key: Seq<u8>,
    nonce: Seq<u8>,
    cipher: Seq<u8>,
) -> Option<Seq<u8>> {
    match sym_opened(key, nonce, cipher) {
        None => None,
        Some(sm) => open_signed(signer, sm),
    }
}

/// How a submit-report request is decided, step by step: the envelope and
/// proof of work first, then the nonce, then the signed report, and last the
/// write itself.
pub enum SubmitDecision {
    /// The envelope, proof of work, key lookup or payload was rejected.
    Reject,
    /// The nonce was replayed.
    Replay,
    /// The same `(epoch, idx)` already has a committed report: answer
    /// success without writing, under the session key of the request.
    ShortCircuit(usize, Seq<u8>),
    /// The report goes to the broadcast, for this writer with this session
    /// key and report.
    Write(usize, Seq<u8>, ReportData),
}

/// The decision the submit handler owes for a request, as a function of the
/// replica's keys and storage and the three request parts.
pub open spec fn submit_decision(
    keys: ServerKeys,
    storage: Timeline,
    f_line: usize,
    cap: Seq<u8>,
    cipher: Seq<u8>,
    pow: Seq<u8>,
) -> SubmitDecision {
    if !pow_ok(cap, pow) {
        SubmitDecision::Reject
    } else {
        match opened_info(keys, cap) {
            None => SubmitDecision::Reject,
            Some((idx, key, nonce)) => if !session_ok(idx, key, nonce) {
                SubmitDecision::Reject
            } else {
                match key_lookup(keys.client_keys@, idx) {
                    None => SubmitDecision::Reject,
                    Some(signer) => if storage.has_nonce(idx, nonce) {
                        SubmitDecision::Replay
                    } else {
                        match sym_opened(key, nonce, cipher) {
                            None => SubmitDecision::Reject,
                            Some(sm) => match report_opened(signer@, sm) {
                                None => SubmitDecision::Reject,
                                Some(rd) => if (match route_of(storage.routes@, rd.epoch, idx) {
                                    Some(row) => row.report@ == sm,
                                    None => false,
                                }) {
                                    SubmitDecision::ShortCircuit(idx, key)
                                } else if !valid_report(
                                    keys.client_keys@,
                                    storage.size,
                                    f_line,
                                    idx,
                                    rd,
                                ) {
                                    SubmitDecision::Reject
                                } else {
                                    SubmitDecision::Write(idx, key, rd)
                                },
                            },
                        }
                    },
                }
            },
        }
    }
}

/// What the submit handler returns besides an error: either the sealed
/// success acknowledgement right away, or the broadcast progress the caller
/// must fan out together with the session key for the eventual reply.
#[derive(Debug, PartialEq, Eq, Clone)]
pub enum SubmitOutcome {
    /// The write is already committed or was delivered within this call:
    /// reply with this `(nonce, ciphertext)` acknowledgement.
    Acked(Vec<u8>, Vec<u8>),
    /// The broadcast is under way: fan out the progress, then acknowledge
    /// under the session key once the local waiter fires.
    Pending(WriteProgress, Vec<u8>, usize, usize),
}

/// The client-facing RPC surface of one replica. It owns the double-echo
/// engine, which owns the storage.
pub struct MyLocationStorage {
    pub echo: DoubleEcho,
}

impl MyLocationStorage {
    pub open spec fn wf(self) -> bool {
        self.echo.wf()
    }

    pub fn new(echo: DoubleEcho) -> (r: MyLocationStorage)
        ensures
            r.echo == echo,
    {
        MyLocationStorage { echo }
    }

    /// Handles one submit-report request: opens the envelope, checks the
    /// proof of work and nonce freshness, verifies the signed report, records
    /// the nonce, short-circuits a resubmit of an already committed report,
    /// and otherwise hands the write to the broadcast.
    pub fn submit_location_report(
        &mut self,
        report_info: &Vec<u8>,
        report_cipher: &Vec<u8>,
        pow: &Vec<u8>,
    ) -> (r: Result<SubmitOutcome, ServerError>)
        requires
            old(self).wf(),
        ensures
            final(self).wf(),
            final(self).echo.server_keys == old(self).echo.server_keys,
            forall|i: usize|
                old(self).echo.storage.blacklisted(i) ==> final(self).echo.storage.blacklisted(i),
            // every case of the decision pins the answer: rejections and
            // replays their error, a byte-identical resubmit its success
            // acknowledgement, and a fresh write either an acknowledgement,
            // a pending broadcast, or the abort its storage conflict causes
            (match submit_decision(
                old(self).echo.server_keys,
                old(self).echo.storage,
                old(self).echo.f_line,
                report_info@,
                report_cipher@,
                pow@,
            ) {
                SubmitDecision::Reject => r == Result::<SubmitOutcome, ServerError>::Err(
                    ServerError::PermissionDenied,
                ),
                SubmitDecision::Replay => r == Result::<SubmitOutcome, ServerError>::Err(
                    ServerError::AlreadyExists,
                ),
                SubmitDecision::ShortCircuit(idx, key) => {
                    &&& (r matches Ok(o) && o matches SubmitOutcome::Acked(n, c) && sym_opened(
                        key,
                        n@,
                        c@,
                    ) == Some(Seq::<u8>::empty()))
                    &&& final(self).echo.storage.has_nonce(idx, opened_info(
                        old(self).echo.server_keys,
                        report_info@,
                    ).unwrap().2)
                    &&& final(self).echo.storage.routes@ == old(self).echo.storage.routes@
                    &&& final(self).echo.storage.proof_rows@ == old(self).echo.storage.proof_rows@
                    &&& final(self).echo.storage.blacklist@ == old(self).echo.storage.blacklist@
                    &&& final(self).echo.logic == old(self).echo.logic
                },
                SubmitDecision::Write(idx, key, rd) => {
                    &&& valid_report(
                        old(self).echo.server_keys.client_keys@,
                        old(self).echo.storage.size,
                        old(self).echo.f_line,
                        idx,
                        rd,
                    )
                    &&& final(self).echo.storage.has_nonce(idx, opened_info(
                        old(self).echo.server_keys,
                        report_info@,
                    ).unwrap().2)
                    &&& (r is Ok || r == Result::<SubmitOutcome, ServerError>::Err(
                        ServerError::Aborted,
                    ))
                    &&& (r == Result::<SubmitOutcome, ServerError>::Err(ServerError::Aborted)
                        ==> old(self).echo.storage.blacklisted(idx) || (match route_of(
                        old(self).echo.storage.routes@,
                        rd.epoch,
                        idx,
                    ) {
                        Some(row) => !(row.x == rd.loc_x && row.y == rd.loc_y),
                        None => false,
                    }))
                    &&& (match r {
                        Ok(SubmitOutcome::Acked(n, c)) => sym_opened(key, n@, c@) == Some(
                            Seq::<u8>::empty(),
                        ) && crate::double_echo_report::pair_in(
                            final(self).echo.logic.delivered@,
                            idx,
                            rd.epoch,
                        ) && (route_of(final(self).echo.storage.routes@, rd.epoch, idx)
                            matches Some(row) && row.x == rd.loc_x && row.y == rd.loc_y && (
                        !has_route(old(self).echo.storage.routes@, rd.epoch, idx) ==> (match
                            sym_opened(
                            opened_info(old(self).echo.server_keys, report_info@).unwrap().1,
                            opened_info(old(self).echo.server_keys, report_info@).unwrap().2,
                            report_cipher@,
                        ) {
                            Some(sm) => row.report@ == sm,
                            None => false,
                        }))),
                        Ok(SubmitOutcome::Pending(p, k2, c2, e2)) => k2@ == key && c2 == idx && e2
                            == rd.epoch && p.delivered is None,
                        _ => true,
                    })
                },
            }),
            // a rejection never touches the committed state
            r == Result::<SubmitOutcome, ServerError>::Err(ServerError::PermissionDenied) ==> {
                &&& final(self).echo.storage.routes@ == old(self).echo.storage.routes@
                &&& final(self).echo.storage.proof_rows@ == old(self).echo.storage.proof_rows@
                &&& final(self).echo.storage.blacklist@ == old(self).echo.storage.blacklist@
            },
            // a replay changes nothing at all
            r == Result::<SubmitOutcome, ServerError>::Err(ServerError::AlreadyExists)
                ==> *final(self) == *old(self),
            // an aborted write never commits
            r == Result::<SubmitOutcome, ServerError>::Err(ServerError::Aborted) ==> {
                &&& final(self).echo.storage.routes@ == old(self).echo.storage.routes@
                &&& final(self).echo.storage.proof_rows@ == old(self).echo.storage.proof_rows@
            },
    {
        if !crate::pow::confirm_proof_of_work(pow, report_info) {
            return Err(ServerError::PermissionDenied);
        }
        let info = match decode_info(
            &self.echo.server_keys.private_key,
            &self.echo.server_keys.public_key,
            report_info,
        ) {
            Some(info) => info,
            None => {
                return Err(ServerError::PermissionDenied);
            },
        };
        if info.key.len() != crate::crypto::SYM_KEY_LEN || info.nonce.len()
            != crate::crypto::SYM_NONCE_LEN {
            return Err(ServerError::PermissionDenied);
        }
        let has_key = match self.echo.server_keys.client_sign_key(info.idx) {
            Some(_) => true,
            None => false,
        };
        if !has_key {
            return Err(ServerError::PermissionDenied);
        }
        if !self.echo.storage.valid_nonce(info.idx, &info.nonce) {
            return Err(ServerError::AlreadyExists);
        }
        let client_key = match self.echo.server_keys.client_sign_key(info.idx) {
            Some(k) => k.clone(),
            None => {
                return Err(ServerError::PermissionDenied);
            },
        };
        proof {
            crate::double_echo_report::lemma_key_len(
                self.echo.server_keys.client_keys@,
                info.idx,
            );
        }
        let decoded = decode_report(&client_key, &info.key, report_cipher, &info.nonce);
        let (report, signed) = match decoded {
            Some(p) => p,
            None => {
                return Err(ServerError::PermissionDenied);
            },
        };
        let _recorded = self.echo.storage.add_nonce(info.idx, info.nonce.clone());
        let resubmitted = match self.echo.storage.get_user_report_at_epoch(
            report.epoch,
            info.idx,
        ) {
            Some(stored) => crate::collections::bytes_eq(&stored, &signed),
            None => false,
        };
        if resubmitted {
            let empty: Vec<u8> = Vec::new();
            let (cipher, nonce) = seal_response(&info.key, &empty);
            return Ok(SubmitOutcome::Acked(nonce, cipher));
        }
        match self.echo.confirm_write(&signed, info.idx, &report) {
            ConfirmOutcome::Invalid => Err(ServerError::PermissionDenied),
            ConfirmOutcome::Rejected(_) => Err(ServerError::Aborted),
            ConfirmOutcome::AlreadyDelivered => {
                let empty: Vec<u8> = Vec::new();
                let (cipher, nonce) = seal_response(&info.key, &empty);
                Ok(SubmitOutcome::Acked(nonce, cipher))
            },
            ConfirmOutcome::InProgress(progress) => {
                match progress.delivered {
                    Some(Ok(())) => {
                        let empty: Vec<u8> = Vec::new();
                        let (cipher, nonce) = seal_response(&info.key, &empty);
                        Ok(SubmitOutcome::Acked(nonce, cipher))
                    },
                    Some(Err(_)) => Err(ServerError::Aborted),
                    None => Ok(
                        SubmitOutcome::Pending(progress, info.key.clone(), info.idx, report.epoch),
                    ),
                }
            },
        }
    }

    /// Handles one obtain-report request from a user: same envelope checks,
    /// then the stored signed report bytes for the queried `(idx, epoch)`,
    /// sealed under the session key.
    pub fn obtain_location_report(&mut self, user_info: &Vec<u8>, user: &Vec<u8>, pow: &Vec<u8>)
        -> (r: Result<(Vec<u8>, Vec<u8>), ServerError>)
        requires
            old(self).wf(),
        ensures
            final(self).wf(),
            final(self).echo.server_keys == old(self).echo.server_keys,
            final(self).echo.storage.routes@ == old(self).echo.storage.routes@,
            final(self).echo.storage.proof_rows@ == old(self).echo.storage.proof_rows@,
            final(self).echo.storage.blacklist@ == old(self).echo.storage.blacklist@,
            final(self).echo.logic == old(self).echo.logic,
            (match query_decision(
                old(self).echo.server_keys,
                old(self).echo.storage,
                user_info@,
                user@,
                pow@,
            ) {
                QueryDecision::Reject => r == Result::<(Vec<u8>, Vec<u8>), ServerError>::Err(
                    ServerError::PermissionDenied,
                ),
                QueryDecision::Replay => r == Result::<(Vec<u8>, Vec<u8>), ServerError>::Err(
                    ServerError::AlreadyExists,
                ),
                QueryDecision::Query(idx, key, q) => {
                    &&& final(self).echo.storage.has_nonce(idx, opened_info(
                        old(self).echo.server_keys,
                        user_info@,
                    ).unwrap().2)
                    &&& (match route_of(old(self).echo.storage.routes@, q.epoch, q.idx) {
                        Some(row) => r matches Ok((nonce, cipher)) && sym_opened(
                            key,
                            nonce@,
                            cipher@,
                        ) == Some(row.report@),
                        None => r == Result::<(Vec<u8>, Vec<u8>), ServerError>::Err(
                            ServerError::NotFound,
                        ),
                    })
                },
            }),
    {
        if !crate::pow::confirm_proof_of_work(pow, user_info) {
            return Err(ServerError::PermissionDenied);
        }
        let info = match decode_info(
            &self.echo.server_keys.private_key,
            &self.echo.server_keys.public_key,
            user_info,
        ) {
            Some(info) => info,
            None => {
                return Err(ServerError::PermissionDenied);
            },
        };
        if info.key.len() != crate::crypto::SYM_KEY_LEN || info.nonce.len()
            != crate::crypto::SYM_NONCE_LEN {
            return Err(ServerError::PermissionDenied);
        }
        let client_key = match self.echo.server_keys.client_sign_key(info.idx) {
            Some(k) => k.clone(),
            None => {
                return Err(ServerError::PermissionDenied);
            },
        };
        proof {
            crate::double_echo_report::lemma_key_len(
                self.echo.server_keys.client_keys@,
                info.idx,
            );
        }
        if !self.echo.storage.valid_nonce(info.idx, &info.nonce) {
            return Err(ServerError::AlreadyExists);
        }
        let plain = match open_request(&client_key, &info.key, user, &info.nonce) {
            Some(p) => p,
            None => {
                return Err(ServerError::PermissionDenied);
            },
        };
        let q = match decode_loc_request(&plain) {
            Some(q) => q,
            None => {
                return Err(ServerError::PermissionDenied);
            },
        };
        let _recorded = self.echo.storage.add_nonce(info.idx, info.nonce.clone());
        match self.echo.storage.get_user_report_at_epoch(q.epoch, q.idx) {
            Some(bytes) => {
                let (cipher, nonce) = seal_response(&info.key, &bytes);
                Ok((nonce, cipher))
            },
            None => Err(ServerError::NotFound),
        }
    }

    /// Handles one request-my-proofs request: same envelope checks, then
    /// every signed proof the requester issued during the queried epochs,
    /// sealed under the session key.
    pub fn request_my_proofs(&mut self, user_info: &Vec<u8>, epochs: &Vec<u8>, pow: &Vec<u8>) -> (r:
        Result<(Vec<u8>, Vec<u8>), ServerError>)
        requires
            old(self).wf(),
        ensures
            final(self).wf(),
            final(self).echo.server_keys == old(self).echo.server_keys,
            final(self).echo.storage.routes@ == old(self).echo.storage.routes@,
            final(self).echo.storage.proof_rows@ == old(self).echo.storage.proof_rows@,
            final(self).echo.storage.blacklist@ == old(self).echo.storage.blacklist@,
            final(self).echo.logic == old(self).echo.logic,
            (match proofs_decision(
                old(self).echo.server_keys,
                old(self).echo.storage,
                user_info@,
                epochs@,
                pow@,
            ) {
                ProofsDecision::Reject => r == Result::<(Vec<u8>, Vec<u8>), ServerError>::Err(
                    ServerError::PermissionDenied,
                ),
                ProofsDecision::Replay => r == Result::<(Vec<u8>, Vec<u8>), ServerError>::Err(
                    ServerError::AlreadyExists,
                ),
                ProofsDecision::Respond(idx, key, asked) => {
                    &&& final(self).echo.storage.has_nonce(idx, opened_info(
                        old(self).echo.server_keys,
                        user_info@,
                    ).unwrap().2)
                    &&& (r matches Ok((nonce, cipher)) && sym_opened(key, nonce@, cipher@) == Some(
                        crate::status::enc_blob_list(
                            proofs_for(old(self).echo.storage.proof_rows@, idx, asked),
                        ),
                    ))
                },
            }),
    {
        if !crate::pow::confirm_proof_of_work(pow, user_info) {
            return Err(ServerError::PermissionDenied);
        }
        let info = match decode_info(
            &self.echo.server_keys.private_key,
            &self.echo.server_keys.public_key,
            user_info,
        ) {
            Some(info) => info,
            None => {
                return Err(ServerError::PermissionDenied);
            },
        };
        if info.key.len() != crate::crypto::SYM_KEY_LEN || info.nonce.len()
            != crate::crypto::SYM_NONCE_LEN {
            return Err(ServerError::PermissionDenied);
        }
        let client_key = match self.echo.server_keys.client_sign_key(info.idx) {
            Some(k) => k.clone(),
            None => {
                return Err(ServerError::PermissionDenied);
            },
        };
        proof {
            crate::double_echo_report::lemma_key_len(
                self.echo.server_keys.client_keys@,
                info.idx,
            );
        }
        if !self.echo.storage.valid_nonce(info.idx, &info.nonce) {
            return Err(ServerError::AlreadyExists);
        }
        let plain = match open_request(&client_key, &info.key, epochs, &info.nonce) {
            Some(p) => p,
            None => {
                return Err(ServerError::PermissionDenied);
            },
        };
        let asked = match decode_epochs(&plain) {
            Some(xs) => xs,
            None => {
                return Err(ServerError::PermissionDenied);
            },
        };
        let _recorded = self.echo.storage.add_nonce(info.idx, info.nonce.clone());
        let proofs = self.echo.storage.get_proofs(info.idx, &asked);
        let payload = encode_blob_list(&proofs);
        proof {
            assert(crate::codec::blobs_view(proofs@) =~= proofs_for(
                self.echo.storage.proof_rows@,
                info.idx,
                asked@,
            ));
        }
        let (cipher, nonce) = seal_response(&info.key, &payload);
        Ok((nonce, cipher))
    }
}

/// How a read query is decided: the envelope checks first, then the query
/// itself, opened to `(requester, session key, query)`.
pub enum QueryDecision {
    /// The envelope, proof of work, key lookup or payload was rejected.
    Reject,
    /// The nonce was replayed.
    Replay,
    /// The query stands and is answered from storage.
    Query(usize, Seq<u8>, LocationReportRequest),
}

/// The decision the user obtain-report handler owes for a request.
pub open spec fn query_decision(
    keys: ServerKeys,
    storage: Timeline,
    cap: Seq<u8>,
    cipher: Seq<u8>,
    pow: Seq<u8>,
) -> QueryDecision {
    if !pow_ok(cap, pow) {
        QueryDecision::Reject
    } else {
        match opened_info(keys, cap) {
            None => QueryDecision::Reject,
            Some((idx, key, nonce)) => if !session_ok(idx, key, nonce) {
                QueryDecision::Reject
            } else {
                match key_lookup(keys.client_keys@, idx) {
                    None => QueryDecision::Reject,
                    Some(signer) => if storage.has_nonce(idx, nonce) {
                        QueryDecision::Replay
                    } else {
                        match opened_payload(signer@, key, nonce, cipher) {
                            None => QueryDecision::Reject,
                            Some(plain) => match dec_loc_request(plain) {
                                None => QueryDecision::Reject,
                                Some(q) => QueryDecision::Query(idx, key, q),
                            },
                        }
                    },
                }
            },
        }
    }
}

/// How a request-my-proofs request is decided.
pub enum ProofsDecision {
    /// The envelope, proof of work, key lookup or payload was rejected.
    Reject,
    /// The nonce was replayed.
    Replay,
    /// The epochs list stands and the stored proofs are returned.
    Respond(usize, Seq<u8>, Seq<usize>),
}

/// The decision the request-my-proofs handler owes for a request.
pub open spec fn proofs_decision(
    keys: ServerKeys,
    storage: Timeline,
    cap: Seq<u8>,
    cipher: Seq<u8>,
    pow: Seq<u8>,
) -> ProofsDecision {
    if !pow_ok(cap, pow) {
        ProofsDecision::Reject
    } else {
        match opened_info(keys, cap) {
            None => ProofsDecision::Reject,
            Some((idx, key, nonce)) => if !session_ok(idx, key, nonce) {
                ProofsDecision::Reject
            } else {
                match key_lookup(keys.client_keys@, idx) {
                    None => ProofsDecision::Reject,
                    Some(signer) => if storage.has_nonce(idx, nonce) {
                        ProofsDecision::Replay
                    } else {
                        match opened_payload(signer@, key, nonce, cipher) {
                            None => ProofsDecision::Reject,
                            Some(plain) => match dec_epochs(plain) {
                                None => ProofsDecision::Reject,
                                Some(xs) => ProofsDecision::Respond(idx, key, xs),
                            },
                        }
                    },
                }
            },
        }
    }
}

} // verus!
