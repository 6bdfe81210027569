use loctrack::double_echo::Write;
use loctrack::double_echo_report::DoubleEcho;
use loctrack::key_management::{KeySet, generate_keys};
use loctrack::proofs::{Proof, sign_proof};
use loctrack::report::{Report, encode_report, sign_report, success_report};
use loctrack::status::{LocationReportRequest, UsersAtLocationRequest, encode_loc_request,
    encode_users_request, seal_request};
use loctrack::storage::Timeline;
use loctrack::validating::{MyLocationStorage, ServerError, SubmitOutcome};
use loctrack::management::MyLocationMaster;

const USER: usize = 7;
const OTHER_USER: usize = 3;
const EPOCH: usize = 4;

fn single_replica(keys: &KeySet, grid_size: usize, f_line: usize) -> MyLocationStorage {
    let storage = Timeline::new(grid_size, "snapshot".to_string());
    let echo = DoubleEcho::new(
        0,
        1,
        0, // quorum threshold f + n/2 for one replica
        0,
        keys.server_keys[0].clone(),
        f_line,
        storage,
    );
    MyLocationStorage::new(echo)
}

fn self_proof(keys: &KeySet, idx: usize, epoch: usize, loc: (usize, usize)) -> Vec<u8> {
    sign_proof(&keys.client_keys[idx].sign_key, Proof::new(epoch, idx, idx, loc))
}

fn peer_proof(
    keys: &KeySet,
    assistor: usize,
    requester: usize,
    epoch: usize,
    loc: (usize, usize),
) -> Vec<u8> {
    sign_proof(
        &keys.client_keys[assistor].sign_key,
        Proof::new(epoch, requester, assistor, loc),
    )
}

fn submit(
    handler: &mut MyLocationStorage,
    keys: &KeySet,
    idx: usize,
    report: &Report,
) -> Result<SubmitOutcome, ServerError> {
    let (cap, payload, _key, pow) = encode_report(
        &keys.client_keys[idx].sign_key,
        keys.server_public.public_key(0),
        report,
        idx,
    )
    .unwrap();
    handler.submit_location_report(&cap, &payload, &pow)
}

#[test]
fn happy_write_then_read() {
    loctrack::crypto::crypto_init();
    let keys = generate_keys(8, 1);
    let mut handler = single_replica(&keys, 3, 0);

    let report = Report::new(
        EPOCH,
        (1, 1),
        USER,
        vec![USER],
        vec![self_proof(&keys, USER, EPOCH, (1, 1))],
    );
    let (cap, payload, key, pow) = encode_report(
        &keys.client_keys[USER].sign_key,
        keys.server_public.public_key(0),
        &report,
        USER,
    )
    .unwrap();
    let outcome = handler.submit_location_report(&cap, &payload, &pow).unwrap();
    match outcome {
        SubmitOutcome::Acked(nonce, ok) => {
            assert!(success_report(&key, &nonce, &ok));
        }
        SubmitOutcome::Pending(..) => panic!("a single replica delivers at once"),
    }

    // read it back
    let q = LocationReportRequest::new(USER, EPOCH);
    let plain = encode_loc_request(&q);
    let (cap2, payload2, key2, pow2) = seal_request(
        &keys.client_keys[USER].sign_key,
        keys.server_public.public_key(0),
        &plain,
        USER,
    )
    .unwrap();
    let (nonce, cipher) = handler.obtain_location_report(&cap2, &payload2, &pow2).unwrap();
    let loc = loctrack::reports::obtain_location_report(
        &keys.client_keys[USER].public_key,
        &key2,
        EPOCH,
        &nonce,
        &cipher,
    );
    assert_eq!(Some((1, 1)), loc);
}

#[test]
fn insufficient_proofs() {
    loctrack::crypto::crypto_init();
    let keys = generate_keys(8, 1);
    let mut handler = single_replica(&keys, 3, 2);

    // only two independent valid proofs against a threshold of two
    let report = Report::new(
        EPOCH,
        (1, 1),
        USER,
        vec![1, 3],
        vec![
            peer_proof(&keys, 1, USER, EPOCH, (0, 0)),
            peer_proof(&keys, 3, USER, EPOCH, (1, 0)),
        ],
    );
    let r = submit(&mut handler, &keys, USER, &report);
    assert_eq!(Err(ServerError::PermissionDenied), r);

    // and nothing was stored
    let q = LocationReportRequest::new(USER, EPOCH);
    let plain = encode_loc_request(&q);
    let (cap2, payload2, _key2, pow2) = seal_request(
        &keys.client_keys[USER].sign_key,
        keys.server_public.public_key(0),
        &plain,
        USER,
    )
    .unwrap();
    let r2 = handler.obtain_location_report(&cap2, &payload2, &pow2);
    assert_eq!(Err(ServerError::NotFound), r2);
}

#[test]
fn equivocation_detection() {
    loctrack::crypto::crypto_init();
    let keys = generate_keys(8, 1);
    let mut handler = single_replica(&keys, 3, 0);

    let first = Report::new(
        EPOCH,
        (0, 0),
        USER,
        vec![USER],
        vec![self_proof(&keys, USER, EPOCH, (0, 0))],
    );
    assert!(submit(&mut handler, &keys, USER, &first).is_ok());

    // a second report for the same epoch at another cell is equivocation
    let second = Report::new(
        EPOCH,
        (2, 2),
        USER,
        vec![USER],
        vec![self_proof(&keys, USER, EPOCH, (2, 2))],
    );
    assert_eq!(Err(ServerError::Aborted), submit(&mut handler, &keys, USER, &second));
    assert!(handler.echo.storage.blacklist.contains(&USER));

    // from now on every write of the blacklisted user fails
    let third = Report::new(
        EPOCH + 1,
        (0, 0),
        USER,
        vec![USER],
        vec![self_proof(&keys, USER, EPOCH + 1, (0, 0))],
    );
    assert_eq!(Err(ServerError::Aborted), submit(&mut handler, &keys, USER, &third));
}

#[test]
fn brb_safety_with_one_byzantine_replica() {
    loctrack::crypto::crypto_init();
    let keys = generate_keys(8, 4);
    // four replicas, one byzantine (id 3), quorum threshold two
    let quorum: usize = 2;
    let f: usize = 1;
    let mut replicas: Vec<DoubleEcho> = Vec::new();
    for id in 0..3usize {
        let storage = Timeline::new(3, "snapshot".to_string());
        replicas.push(DoubleEcho::new(id, 4, quorum, f, keys.server_keys[id].clone(), 0, storage));
    }

    let report = Report::new(
        EPOCH,
        (1, 1),
        USER,
        vec![USER],
        vec![self_proof(&keys, USER, EPOCH, (1, 1))],
    );
    let honest_m = sign_report(&keys.client_keys[USER].sign_key, &report);

    // the byzantine replica floods a forged message it cannot sign
    let forged = b"forged report bytes".to_vec();
    for id in 0..3usize {
        let w = Write::new_ready(forged.clone(), USER, EPOCH);
        let r = replicas[id].on_echo_write(3, &w);
        assert!(r.is_err());
    }

    // the honest client submits to every honest replica; fan the resulting
    // ECHO and READY messages out until the network drains
    let mut wire: Vec<(usize, usize, Write)> = Vec::new();
    for id in 0..3usize {
        match replicas[id].confirm_write(&honest_m, USER, &report) {
            loctrack::double_echo_report::ConfirmOutcome::InProgress(p) => {
                if p.send_echo {
                    for to in 0..3usize {
                        if to != id {
                            wire.push((to, id, Write::new_echo(honest_m.clone(), USER, EPOCH)));
                        }
                    }
                }
                if p.send_ready {
                    for to in 0..3usize {
                        if to != id {
                            wire.push((to, id, Write::new_ready(honest_m.clone(), USER, EPOCH)));
                        }
                    }
                }
            }
            other => panic!("unexpected outcome {:?}", other),
        }
    }
    while let Some((to, from, w)) = wire.pop() {
        let progress = replicas[to].on_echo_write(from, &w).unwrap();
        if progress.send_ready {
            for peer in 0..3usize {
                if peer != to {
                    wire.push((peer, to, Write::new_ready(honest_m.clone(), USER, EPOCH)));
                }
            }
        }
    }

    // every honest replica delivered the honest message, never the forgery
    for id in 0..3usize {
        assert!(replicas[id].logic.has_been_delivered(USER, EPOCH));
        let stored = replicas[id].storage.get_user_report_at_epoch(EPOCH, USER).unwrap();
        assert_eq!(honest_m, stored);
    }
}

#[test]
fn users_at_location() {
    loctrack::crypto::crypto_init();
    let keys = generate_keys(8, 1);
    let mut handler = single_replica(&keys, 3, 0);

    let first = Report::new(
        EPOCH,
        (1, 1),
        USER,
        vec![USER],
        vec![self_proof(&keys, USER, EPOCH, (1, 1))],
    );
    assert!(submit(&mut handler, &keys, USER, &first).is_ok());
    let second = Report::new(
        EPOCH,
        (1, 1),
        OTHER_USER,
        vec![OTHER_USER],
        vec![self_proof(&keys, OTHER_USER, EPOCH, (1, 1))],
    );
    assert!(submit(&mut handler, &keys, OTHER_USER, &second).is_ok());

    let mut master = MyLocationMaster::new(keys.server_keys[0].clone());
    let q = UsersAtLocationRequest::new((1, 1), EPOCH);
    let plain = encode_users_request(&q);
    let (cap, payload, key, pow) = seal_request(
        &keys.ha_keys.private_key,
        keys.server_public.public_key(0),
        &plain,
        0,
    )
    .unwrap();
    let (nonce, cipher) = master
        .obtain_users_at_location(&mut handler.echo.storage, &cap, &payload, &pow)
        .unwrap();
    let users = loctrack::verifying::obtain_users_at_location(
        &keys.ha_keys.client_keys,
        &key,
        EPOCH,
        1,
        1,
        &nonce,
        &cipher,
    )
    .unwrap();
    assert_eq!(2, users.len());
    assert!(users.contains(&USER));
    assert!(users.contains(&OTHER_USER));
}

#[test]
fn nonce_replay() {
    loctrack::crypto::crypto_init();
    let keys = generate_keys(8, 1);
    let mut handler = single_replica(&keys, 3, 0);

    let report = Report::new(
        EPOCH,
        (1, 1),
        USER,
        vec![USER],
        vec![self_proof(&keys, USER, EPOCH, (1, 1))],
    );
    let (cap, payload, key, pow) = encode_report(
        &keys.client_keys[USER].sign_key,
        keys.server_public.public_key(0),
        &report,
        USER,
    )
    .unwrap();
    match handler.submit_location_report(&cap, &payload, &pow).unwrap() {
        SubmitOutcome::Acked(nonce, ok) => assert!(success_report(&key, &nonce, &ok)),
        SubmitOutcome::Pending(..) => panic!("a single replica delivers at once"),
    }
    let routes_before = handler.echo.storage.routes.len();
    let nonces_before = handler.echo.storage.nonce_rows.len();

    // replaying the exact byte sequence is rejected and changes nothing
    let replay = handler.submit_location_report(&cap, &payload, &pow);
    assert_eq!(Err(ServerError::AlreadyExists), replay);
    assert_eq!(routes_before, handler.echo.storage.routes.len());
    assert_eq!(nonces_before, handler.echo.storage.nonce_rows.len());
}

#[test]
fn idempotent_resubmit() {
    loctrack::crypto::crypto_init();
    let keys = generate_keys(8, 1);
    let mut handler = single_replica(&keys, 3, 0);

    let report = Report::new(
        EPOCH,
        (1, 1),
        USER,
        vec![USER],
        vec![self_proof(&keys, USER, EPOCH, (1, 1))],
    );
    // two submissions of the identical signed bytes, under fresh envelopes,
    // both succeed
    for _round in 0..2 {
        let (cap, payload, key, pow) = encode_report(
            &keys.client_keys[USER].sign_key,
            keys.server_public.public_key(0),
            &report,
            USER,
        )
        .unwrap();
        match handler.submit_location_report(&cap, &payload, &pow).unwrap() {
            SubmitOutcome::Acked(nonce, ok) => assert!(success_report(&key, &nonce, &ok)),
            SubmitOutcome::Pending(..) => panic!("a single replica delivers at once"),
        }
    }
    assert_eq!(1, handler.echo.storage.routes.len());
}

#[test]
fn my_proofs_round_trip() {
    loctrack::crypto::crypto_init();
    let keys = generate_keys(8, 1);
    let mut handler = single_replica(&keys, 3, 0);

    // the replica stores two proofs user seven assisted with
    let p4 = self_proof(&keys, USER, 4, (1, 1));
    let p5 = self_proof(&keys, USER, 5, (2, 1));
    handler.echo.storage.add_proofs(vec![(USER, 4, p4.clone()), (USER, 5, p5.clone())]);

    let asked: Vec<usize> = vec![4, 5];
    let plain = loctrack::status::encode_epochs(&asked);
    let (cap, payload, key, pow) = seal_request(
        &keys.client_keys[USER].sign_key,
        keys.server_public.public_key(0),
        &plain,
        USER,
    )
    .unwrap();
    let (nonce, cipher) = handler.request_my_proofs(&cap, &payload, &pow).unwrap();
    let proofs = loctrack::reports::request_my_proofs(
        &keys.client_keys[USER].public_key,
        &key,
        &asked,
        &nonce,
        &cipher,
    )
    .unwrap();
    assert_eq!(2, proofs.len());
    assert_eq!(4, proofs[0].epoch());
    assert_eq!(5, proofs[1].epoch());
    assert_eq!(USER, proofs[0].idx_ass());
}

#[test]
fn proofer_answers_neighbours_only() {
    loctrack::crypto::crypto_init();
    let keys = generate_keys(8, 1);
    let timeline = loctrack::grid::Timeline::create_timeline(2, 2, 6);
    let proofer = loctrack::proofing_system::Proofer::new(
        0,
        timeline,
        keys.client_keys[0].sign_key.clone(),
    );
    // user one exists somewhere on a 2x2 grid, so it is always a neighbour
    let r = proofer.request_location_proof(1, 3);
    let (sp, assistor) = r.unwrap();
    assert_eq!(0, assistor);
    let pr = loctrack::proofs::verify_proof(&keys.client_keys[0].public_key, &sp).unwrap();
    assert_eq!(3, pr.epoch());
    assert_eq!(1, pr.idx_req());
    assert_eq!(0, pr.idx_ass());
    // an unknown user gets nothing
    assert_eq!(
        Err(loctrack::proofing_system::ProoferError::InvalidId),
        proofer.request_location_proof(99, 3)
    );
    // an epoch beyond the timeline gets nothing
    assert_eq!(
        Err(loctrack::proofing_system::ProoferError::InvalidEpoch),
        proofer.request_location_proof(1, 99)
    );
}

#[test]
fn echo_write_rejections() {
    loctrack::crypto::crypto_init();
    let keys = generate_keys(8, 4);
    let storage = Timeline::new(3, "snapshot".to_string());
    let mut replica = DoubleEcho::new(0, 4, 2, 1, keys.server_keys[0].clone(), 0, storage);

    // a replica id outside the group is refused
    let w = Write::new_echo(b"whatever".to_vec(), USER, EPOCH);
    assert_eq!(
        Err(loctrack::double_echo_report::EchoRejection::InvalidServerId),
        replica.on_echo_write(9, &w)
    );

    // bytes that do not verify are refused on first sight
    assert_eq!(
        Err(loctrack::double_echo_report::EchoRejection::BadReport),
        replica.on_echo_write(1, &w)
    );

    // a well-signed report without enough proofs is refused as invalid
    let weak = Report::new(EPOCH, (1, 1), USER, vec![], vec![]);
    let weak_m = sign_report(&keys.client_keys[USER].sign_key, &weak);
    let w2 = Write::new_echo(weak_m, USER, EPOCH);
    assert_eq!(
        Err(loctrack::double_echo_report::EchoRejection::NotValid),
        replica.on_echo_write(1, &w2)
    );
}
