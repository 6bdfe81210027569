use loctrack::report::{Report, encode_report, decode_info, decode_report};

const EPOCH: usize = 10;
const IDX_REQ: usize = 5;
const LOC: (usize, usize) = (3, 6);

fn sample_report() -> Report {
    let idxs_ass: Vec<usize> = vec![1, 3, 7];
    let proofs: Vec<Vec<u8>> = vec![b"proof1".to_vec(), b"proof2".to_vec(), b"proof3".to_vec()];
    Report::new(EPOCH, LOC, IDX_REQ, idxs_ass, proofs)
}

#[test]
fn create_report() {
    let idxs_ass: Vec<usize> = vec![1, 3, 7];
    let proofs: Vec<Vec<u8>> = vec![b"proof1".to_vec(), b"proof2".to_vec(), b"proof3".to_vec()];

    let report = Report::new(EPOCH, LOC, IDX_REQ, idxs_ass.clone(), proofs.clone());

    let id_proofs: Vec<(usize, Vec<u8>)> =
        idxs_ass.iter().map(|&id| id).zip(proofs).collect();

    assert_eq!(EPOCH, report.epoch());
    assert_eq!(IDX_REQ, report.idx());
    assert_eq!(LOC, report.loc());
    assert_eq!(id_proofs, *report.proofs());
}

#[test]
fn encode_decode_report() {
    loctrack::crypto::crypto_init();
    let report = sample_report();

    let (sign_pk, sign_sk) = sodiumoxide::crypto::sign::gen_keypair();
    let (server_pk, server_sk) = sodiumoxide::crypto::box_::gen_keypair();

    let (cipherinfo, cipherreport, key, _pow) =
        encode_report(&sign_sk.0.to_vec(), &server_pk.0.to_vec(), &report, IDX_REQ).unwrap();

    let info = decode_info(&server_sk.0.to_vec(), &server_pk.0.to_vec(), &cipherinfo);

    assert!(info.is_some());
    let info = info.unwrap();
    assert_eq!(IDX_REQ, info.idx());

    let dec_report = decode_report(&sign_pk.0.to_vec(), &key, &cipherreport, info.nonce());

    assert!(dec_report.is_some());

    assert_eq!(report, dec_report.unwrap().0);
}

#[test]
fn encode_decode_report_fail() {
    loctrack::crypto::crypto_init();
    let report = sample_report();

    let (_, sign_sk) = sodiumoxide::crypto::sign::gen_keypair();
    let (fake_sign_pk, _) = sodiumoxide::crypto::sign::gen_keypair();
    let (server_pk, server_sk) = sodiumoxide::crypto::box_::gen_keypair();

    let (cipherinfo, cipherreport, key, _pow) =
        encode_report(&sign_sk.0.to_vec(), &server_pk.0.to_vec(), &report, IDX_REQ).unwrap();

    let info = decode_info(&server_sk.0.to_vec(), &server_pk.0.to_vec(), &cipherinfo);

    assert!(info.is_some());

    let dec_report =
        decode_report(&fake_sign_pk.0.to_vec(), &key, &cipherreport, info.unwrap().nonce());

    assert!(dec_report.is_none());
}

#[test]
fn encode_decode_report_info_fail() {
    loctrack::crypto::crypto_init();
    let report = sample_report();

    let (_, sign_sk) = sodiumoxide::crypto::sign::gen_keypair();
    let (server_pk, _) = sodiumoxide::crypto::box_::gen_keypair();
    let (_, fake_server_sk) = sodiumoxide::crypto::box_::gen_keypair();

    let (cipherinfo, _, _, _pow) =
        encode_report(&sign_sk.0.to_vec(), &server_pk.0.to_vec(), &report, IDX_REQ).unwrap();

    let info = decode_info(&fake_server_sk.0.to_vec(), &server_pk.0.to_vec(), &cipherinfo);

    assert!(info.is_none());
}

#[test]
fn report_codec_round_trip() {
    let report = sample_report();
    let bytes = loctrack::report::encode_report_bytes(&report);
    let back = loctrack::report::decode_report_bytes(&bytes).unwrap();
    assert_eq!(report, back);
}

#[test]
fn proof_of_work_accepts_and_rejects() {
    let cap = b"capability bytes".to_vec();
    let token = loctrack::pow::generate_proof_of_work(&cap, 1000000).unwrap();
    assert!(loctrack::pow::confirm_proof_of_work(&token, &cap));
    // a token for other capability bytes is overwhelmingly unlikely to fit a
    // different capability and must at least be checked against it
    let other = b"other capability".to_vec();
    let wrong_len = b"short".to_vec();
    assert!(!loctrack::pow::confirm_proof_of_work(&wrong_len, &other));
}
