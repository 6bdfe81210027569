//! The replica's auditor-facing RPC handlers: obtain-report and
//! users-at-location, authenticated with the auditor's signing key and the
//! auditor nonce set. The storage engine is borrowed per call, since the
//! same engine also serves the write path.

use vstd::prelude::*;
use crate::crypto::{sym_opened, SYM_KEY_LEN, SYM_NONCE_LEN};
use crate::key_management::ServerKeys;
use crate::pow::pow_ok;
use crate::report::decode_info;
use crate::status::{LocationReportRequest, UsersAtLocationRequest, dec_loc_request,
    decode_loc_request, dec_users_request, decode_users_request, seal_response, open_request,
    encode_pair_list, enc_pair_list};
use crate::storage::{Timeline, route_of, users_at};
use crate::validating::{ServerError, opened_info, opened_payload, session_ok};

verus! {

/// How an auditor query is decided: the envelope checks first, then the
/// query, opened to `(session key, query)`.
pub enum HaQueryDecision {
    /// The envelope, proof of work or payload was rejected.
    Reject,
    /// The auditor nonce was replayed.
    Replay,
    /// An obtain-report query stands.
    Report(Seq<u8>, LocationReportRequest),
    /// A users-at-location query stands.
    Users(Seq<u8>, UsersAtLocationRequest),
}

/// The decision the auditor obtain-report handler owes for a request.
pub open spec fn ha_report_decision(
    keys: ServerKeys,
    storage: Timeline,
    cap: Seq<u8>,
    cipher: Seq<u8>,
    pow: Seq<u8>,
) -> HaQueryDecision {
    if !pow_ok(cap, pow) {
        HaQueryDecision::Reject
    } else {
        match opened_info(keys, cap) {
            None => HaQueryDecision::Reject,
            Some((idx, key, nonce)) => if !session_ok(idx, key, nonce) {
                HaQueryDecision::Reject
            } else if storage.has_ha_nonce(nonce) {
                HaQueryDecision::Replay
            } else {
                match opened_payload(keys.ha_public_key@, key, nonce, cipher) {
                    None => HaQueryDecision::Reject,
                    Some(plain) => match dec_loc_request(plain) {
                        None => HaQueryDecision::Reject,
                        Some(q) => HaQueryDecision::Report(key, q),
                    },
                }
            },
        }
    }
}

/// The decision the auditor users-at-location handler owes for a request.
pub open spec fn ha_users_decision(
    keys: ServerKeys,
    storage: Timeline,
    cap: Seq<u8>,
    cipher: Seq<u8>,
    pow: Seq<u8>,
) -> HaQueryDecision {
    if !pow_ok(cap, pow) {
        HaQueryDecision::Reject
    } else {
        match opened_info(keys, cap) {
            None => HaQueryDecision::Reject,
            Some((idx, key, nonce)) => if !session_ok(idx, key, nonce) {
                HaQueryDecision::Reject
            } else if storage.has_ha_nonce(nonce) {
                HaQueryDecision::Replay
            } else {
                match opened_payload(keys.ha_public_key@, key, nonce, cipher) {
                    None => HaQueryDecision::Reject,
                    Some(plain) => match dec_users_request(plain) {
                        None => HaQueryDecision::Reject,
                        Some(q) => HaQueryDecision::Users(key, q),
                    },
                }
            },
        }
    }
}

/// The auditor-facing RPC surface of one replica: its key material and the
/// record of proof-of-work tokens already spent.
pub struct MyLocationMaster {
    pub server_keys: ServerKeys,
    pub pows: Vec<Vec<u8>>,
}

impl MyLocationMaster {
    pub open spec fn wf(self) -> bool {
        self.server_keys.wf()
    }

    pub fn new(server_keys: ServerKeys) -> (r: MyLocationMaster)
        ensures
            r.server_keys == server_keys,
            r.pows@.len() == 0,
    {
        MyLocationMaster { server_keys, pows: Vec::new() }
    }

    /// Checks the proof of work of a request against the capability bytes
    /// and records the spent token.
    pub fn check_proof_of_work(&mut self, pow: &Vec<u8>, info: &Vec<u8>) -> (r: Result<
        (),
        ServerError,
    >)
        ensures
            final(self).server_keys == old(self).server_keys,
            (r is Ok) == pow_ok(info@, pow@),
            r is Ok ==> final(self).pows@.len() == old(self).pows@.len() + 1
                && final(self).pows@.last()@ == pow@,
            r is Err ==> r == Result::<(), ServerError>::Err(ServerError::PermissionDenied)
                && final(self).pows@ == old(self).pows@,
    {
        if crate::pow::confirm_proof_of_work(pow, info) {
            self.pows.push(pow.clone());
            Ok(())
        } else {
            Err(ServerError::PermissionDenied)
        }
    }

    /// Handles one auditor obtain-report request against the shared storage:
    /// the stored signed report bytes for the queried `(idx, epoch)`, sealed
    /// under the session key.
    pub fn obtain_location_report(
        &mut self,
        storage: &mut Timeline,
        info: &Vec<u8>,
        user: &Vec<u8>,
        pow: &Vec<u8>,
    ) -> (r: Result<(Vec<u8>, Vec<u8>), ServerError>)
        requires
            old(self).wf(),
            old(storage).wf(),
        ensures
            final(self).wf(),
            final(storage).wf(),
            final(self).server_keys == old(self).server_keys,
            final(storage).routes@ == old(storage).routes@,
            final(storage).proof_rows@ == old(storage).proof_rows@,
            final(storage).blacklist@ == old(storage).blacklist@,
            final(storage).nonce_rows@ == old(storage).nonce_rows@,
            (match ha_report_decision(
                old(self).server_keys,
                *old(storage),
                info@,
                user@,
                pow@,
            ) {
                HaQueryDecision::Reject => r == Result::<(Vec<u8>, Vec<u8>), ServerError>::Err(
                    ServerError::PermissionDenied,
                ),
                HaQueryDecision::Replay => r == Result::<(Vec<u8>, Vec<u8>), ServerError>::Err(
                    ServerError::AlreadyExists,
                ),
                HaQueryDecision::Report(key, q) => {
                    &&& final(storage).has_ha_nonce(opened_info(
                        old(self).server_keys,
                        info@,
                    ).unwrap().2)
                    &&& (match route_of(old(storage).routes@, q.epoch, q.idx) {
                        Some(row) => r matches Ok((nonce, cipher)) && sym_opened(
                            key,
                            nonce@,
                            cipher@,
                        ) == Some(row.report@),
                        None => r == Result::<(Vec<u8>, Vec<u8>), ServerError>::Err(
                            ServerError::NotFound,
                        ),
                    })
                },
                _ => false,
            }),
    {
        match self.check_proof_of_work(pow, info) {
            Ok(()) => {},
            Err(e) => {
                return Err(e);
            },
        }
        let cap = match decode_info(
            &self.server_keys.private_key,
            &self.server_keys.public_key,
            info,
        ) {
            Some(cap) => cap,
            None => {
                return Err(ServerError::PermissionDenied);
            },
        };
        if cap.key.len() != SYM_KEY_LEN || cap.nonce.len() != SYM_NONCE_LEN {
            return Err(ServerError::PermissionDenied);
        }
        if !storage.valid_ha_nonce(&cap.nonce) {
            return Err(ServerError::AlreadyExists);
        }
        let plain = match open_request(&self.server_keys.ha_public_key, &cap.key, user, &cap.nonce) {
            Some(p) => p,
            None => {
                return Err(ServerError::PermissionDenied);
            },
        };
        let q = match decode_loc_request(&plain) {
            Some(q) => q,
            None => {
                return Err(ServerError::PermissionDenied);
            },
        };
        proof {
            assert(ha_report_decision(old(self).server_keys, *old(storage), info@, user@, pow@)
                == HaQueryDecision::Report(cap.key@, q));
        }
        let _recorded = storage.add_ha_nonce(cap.nonce.clone());
        match storage.get_user_report_at_epoch(q.epoch, q.idx) {
            Some(bytes) => {
                let (cipher, nonce) = seal_response(&cap.key, &bytes);
                Ok((nonce, cipher))
            },
            None => Err(ServerError::NotFound),
        }
    }

    /// Handles one auditor users-at-location request against the shared
    /// storage: every `(idx, signed report bytes)` pair committed for the
    /// queried epoch and cell, sealed under the session key.
    pub fn obtain_users_at_location(
        &mut self,
        storage: &mut Timeline,
        info: &Vec<u8>,
        place: &Vec<u8>,
        pow: &Vec<u8>,
    ) -> (r: Result<(Vec<u8>, Vec<u8>), ServerError>)
        requires
            old(self).wf(),
            old(storage).wf(),
        ensures
            final(self).wf(),
            final(storage).wf(),
            final(self).server_keys == old(self).server_keys,
            final(storage).routes@ == old(storage).routes@,
            final(storage).proof_rows@ == old(storage).proof_rows@,
            final(storage).blacklist@ == old(storage).blacklist@,
            final(storage).nonce_rows@ == old(storage).nonce_rows@,
            (match ha_users_decision(old(self).server_keys, *old(storage), info@, place@, pow@) {
                HaQueryDecision::Reject => r == Result::<(Vec<u8>, Vec<u8>), ServerError>::Err(
                    ServerError::PermissionDenied,
                ),
                HaQueryDecision::Replay => r == Result::<(Vec<u8>, Vec<u8>), ServerError>::Err(
                    ServerError::AlreadyExists,
                ),
                HaQueryDecision::Users(key, q) => {
                    &&& final(storage).has_ha_nonce(opened_info(
                        old(self).server_keys,
                        info@,
                    ).unwrap().2)
                    &&& (if old(storage).epoch_seen(q.epoch) && q.pos.0 < old(storage).size
                        && q.pos.1 < old(storage).size {
                        r matches Ok((nonce, cipher)) && sym_opened(key, nonce@, cipher@) == Some(
                            enc_pair_list(
                                users_at(old(storage).routes@, q.epoch, q.pos.0, q.pos.1),
                            ),
                        )
                    } else {
                        r == Result::<(Vec<u8>, Vec<u8>), ServerError>::Err(ServerError::NotFound)
                    })
                },
                _ => false,
            }),
    {
        match self.check_proof_of_work(pow, info) {
            Ok(()) => {},
            Err(e) => {
                return Err(e);
            },
        }
        let cap = match decode_info(
            &self.server_keys.private_key,
            &self.server_keys.public_key,
            info,
        ) {
            Some(cap) => cap,
            None => {
                return Err(ServerError::PermissionDenied);
            },
        };
        if cap.key.len() != SYM_KEY_LEN || cap.nonce.len() != SYM_NONCE_LEN {
            return Err(ServerError::PermissionDenied);
        }
        if !storage.valid_ha_nonce(&cap.nonce) {
            return Err(ServerError::AlreadyExists);
        }
        let plain = match open_request(
            &self.server_keys.ha_public_key,
            &cap.key,
            place,
            &cap.nonce,
        ) {
            Some(p) => p,
            None => {
                return Err(ServerError::PermissionDenied);
            },
        };
        let q = match decode_users_request(&plain) {
            Some(q) => q,
            None => {
                return Err(ServerError::PermissionDenied);
            },
        };
        let _recorded = storage.add_ha_nonce(cap.nonce.clone());
        match storage.get_users_at_epoch_at_location(q.epoch, q.pos) {
            Some(pairs) => {
                let payload = encode_pair_list(&pairs);
                proof {
                    assert(crate::codec::pairs_view(pairs@) =~= users_at(
                        storage.routes@,
                        q.epoch,
                        q.pos.0,
                        q.pos.1,
                    ));
                }
                let (cipher, nonce) = seal_response(&cap.key, &payload);
                Ok((nonce, cipher))
            },
            None => Err(ServerError::NotFound),
        }
    }
}

} // verus!
