//! The auditor's side of the read path: re-verifying everything a replica
//! answers. A users-at-location reply is believed only after every entry's
//! signed report verifies under that user's key, and only the entries whose
//! reports actually claim the queried epoch and cell are kept.

use vstd::prelude::*;
use crate::crypto::{sym_opened, SIGN_PK_LEN, SYM_KEY_LEN};
use crate::key_management::{key_lookup, keys_distinct, find_key};
use crate::report::{report_opened, verify_report};
use crate::status::{open_response, decode_pair_list, dec_pair_list};

verus! {

/// What a verified obtain-report reply means to the auditor: the reported
/// location, once the reply opens, the signed bytes verify under the
/// reporter's key, and the location lies inside the grid.
pub open spec fn ha_location_reply(
    reporter_key: Seq<u8>,
    session_key: Seq<u8>,
    grid_size: usize,
    nonce: Seq<u8>,
    cipher: Seq<u8>,
) -> Option<(usize, usize)> {
    match sym_opened(session_key, nonce, cipher) {
        None => None,
        Some(bytes) => match report_opened(reporter_key, bytes) {
            None => None,
            Some(rd) => if rd.loc_x < grid_size && rd.loc_y < grid_size {
                Some((rd.loc_x, rd.loc_y))
            } else {
                None
            },
        },
    }
}

/// Opens and checks an auditor obtain-report reply: the location the report
/// claims, exactly when the reply is authentic and inside the grid.
pub fn obtain_location_report(
    client_public_key: &Vec<u8>,
    session_key: &Vec<u8>,
    grid_size: usize,
    nonce: &Vec<u8>,
    cipher: &Vec<u8>,
) -> (r: Option<(usize, usize)>)
    requires
        client_public_key@.len() == SIGN_PK_LEN as int,
        session_key@.len() == SYM_KEY_LEN as int,
    ensures
        r == ha_location_reply(client_public_key@, session_key@, grid_size, nonce@, cipher@),
{
    let bytes = match open_response(session_key, nonce, cipher) {
        Some(b) => b,
        None => {
            return None;
        },
    };
    let report = match verify_report(client_public_key, &bytes) {
        Some(rep) => rep,
        None => {
            return None;
        },
    };
    let (x, y) = (report.loc_x, report.loc_y);
    if x < grid_size && y < grid_size {
        Some((x, y))
    } else {
        None
    }
}

/// How the auditor reads one entry of a users-at-location reply: the entry
/// fails when the user is unknown or the signature is bad, and otherwise
/// says whether the verified report matches the queried epoch and cell.
pub open spec fn entry_verdict(
    client_keys: Seq<(usize, Vec<u8>)>,
    epoch: usize,
    x: usize,
    y: usize,
    entry: (usize, Seq<u8>),
) -> Option<bool> {
    match key_lookup(client_keys, entry.0) {
        None => None,
        Some(k) => match report_opened(k@, entry.1) {
            None => None,
            Some(rd) => Some(rd.epoch == epoch && rd.loc_x == x && rd.loc_y == y),
        },
    }
}

/// The users the auditor keeps from a verified reply: the entries whose
/// reports match the query, in reply order.
pub open spec fn matching_users(
    client_keys: Seq<(usize, Vec<u8>)>,
    epoch: usize,
    x: usize,
    y: usize,
    entries: Seq<(usize, Seq<u8>)>,
) -> Seq<usize>
    decreases entries.len(),
{
    if entries.len() == 0 {
        Seq::empty()
    } else {
        let rest = matching_users(client_keys, epoch, x, y, entries.drop_last());
        if entry_verdict(client_keys, epoch, x, y, entries.last()) == Some(true) {
            rest.push(entries.last().0)
        } else {
            rest
        }
    }
}

/// Whether every entry of a reply verifies: a known user and a valid
/// signature, whatever the report says.
pub open spec fn all_entries_verify(
    client_keys: Seq<(usize, Vec<u8>)>,
    epoch: usize,
    x: usize,
    y: usize,
    entries: Seq<(usize, Seq<u8>)>,
) -> bool {
    forall|k: int|
        0 <= k < entries.len() ==> entry_verdict(client_keys, epoch, x, y, #[trigger] entries[k])
            is Some
}

/// Opens and checks a users-at-location reply: every entry must verify under
/// its claimed user's key, and of the verified entries exactly those whose
/// reports claim the queried epoch and cell are returned, in reply order.
pub fn obtain_users_at_location(
    clients_public_keys: &Vec<(usize, Vec<u8>)>,
    session_key: &Vec<u8>,
    epoch: usize,
    pos_x: usize,
    pos_y: usize,
    nonce: &Vec<u8>,
    cipher: &Vec<u8>,
) -> (r: Option<Vec<usize>>)
    requires
        keys_distinct(clients_public_keys@),
        forall|j: int|
            0 <= j < clients_public_keys@.len() ==> (#[trigger] clients_public_keys@[j]).1@.len()
                == SIGN_PK_LEN as int,
        session_key@.len() == SYM_KEY_LEN as int,
    ensures
        (match r {
            Some(v) => match sym_opened(session_key@, nonce@, cipher@) {
                Some(bytes) => match dec_pair_list(bytes) {
                    Some(entries) => {
                        &&& all_entries_verify(clients_public_keys@, epoch, pos_x, pos_y, entries)
                        &&& v@ == matching_users(
                            clients_public_keys@,
                            epoch,
                            pos_x,
                            pos_y,
                            entries,
                        )
                    },
                    None => false,
                },
                None => false,
            },
            None => (match sym_opened(session_key@, nonce@, cipher@) {
                Some(bytes) => match dec_pair_list(bytes) {
                    Some(entries) => !all_entries_verify(
                        clients_public_keys@,
                        epoch,
                        pos_x,
                        pos_y,
                        entries,
                    ),
                    None => true,
                },
                None => true,
            }),
        }),
{
    let bytes = match open_response(session_key, nonce, cipher) {
        Some(b) => b,
        None => {
            return None;
        },
    };
    let entries = match decode_pair_list(&bytes) {
        Some(es) => es,
        None => {
            return None;
        },
    };
    let ghost entry_views = crate::codec::pairs_view(entries@);
    let n = entries.len();
    let mut out: Vec<usize> = Vec::new();
    let mut k: usize = 0;
    while k < n
        invariant
            keys_distinct(clients_public_keys@),
            forall|j: int|
                0 <= j < clients_public_keys@.len() ==> (#[trigger] clients_public_keys@[j]).1@.len()
                    == SIGN_PK_LEN as int,
            sym_opened(session_key@, nonce@, cipher@) == Some(bytes@),
            dec_pair_list(bytes@) == Some(entry_views),
            n == entries@.len(),
            entry_views == crate::codec::pairs_view(entries@),
            entry_views.len() == n,
            0 <= k <= n,
            forall|j: int|
                0 <= j < k ==> entry_verdict(
                    clients_public_keys@,
                    epoch,
                    pos_x,
                    pos_y,
                    #[trigger] entry_views[j],
                ) is Some,
            out@ == matching_users(
                clients_public_keys@,
                epoch,
                pos_x,
                pos_y,
                entry_views.take(k as int),
            ),
        decreases n - k,
    {
        proof {
            assert(entry_views[k as int] == (entries@[k as int].0, entries@[k as int].1@));
            assert(entry_views.take(k + 1).drop_last() =~= entry_views.take(k as int));
            assert(entry_views.take(k + 1).last() == entry_views[k as int]);
        }
        let idx = entries[k].0;
        let key = match find_key(clients_public_keys, idx) {
            Some(key) => key,
            None => {
                proof {
                    assert(entry_verdict(
                        clients_public_keys@,
                        epoch,
                        pos_x,
                        pos_y,
                        entry_views[k as int],
                    ) is None);
                }
                return None;
            },
        };
        proof {
            crate::double_echo_report::lemma_key_len(clients_public_keys@, idx);
        }
        let report = match verify_report(key, &entries[k].1) {
            Some(rep) => rep,
            None => {
                proof {
                    assert(entry_verdict(
                        clients_public_keys@,
                        epoch,
                        pos_x,
                        pos_y,
                        entry_views[k as int],
                    ) is None);
                }
                return None;
            },
        };
        if report.epoch == epoch && report.loc_x == pos_x && report.loc_y == pos_y {
            out.push(idx);
        }
        k += 1;
    }
    proof {
        assert(entry_views.take(n as int) =~= entry_views);
    }
    Some(out)
}

} // verus!
