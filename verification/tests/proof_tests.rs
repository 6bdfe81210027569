use loctrack::proofs::{Proof, sign_proof, verify_proof};

const EPOCH: usize = 10;
const IDX_REQ: usize = 5;
const IDX_ASS: usize = 16;
const LOC_ASS: (usize, usize) = (3, 6);

#[test]
fn create_proof() {
    let proof = Proof::new(EPOCH, IDX_REQ, IDX_ASS, LOC_ASS);
    assert_eq!(EPOCH, proof.epoch());
    assert_eq!(IDX_REQ, proof.idx_req());
    assert_eq!(IDX_ASS, proof.idx_ass());
    assert_eq!(LOC_ASS, proof.loc_ass());
}

#[test]
fn sign_and_confirm_prood() {
    loctrack::crypto::crypto_init();
    let proof = Proof::new(EPOCH, IDX_REQ, IDX_ASS, LOC_ASS);
    let proof_copy = Proof::new(EPOCH, IDX_REQ, IDX_ASS, LOC_ASS);

    let (pk, sk) = sodiumoxide::crypto::sign::gen_keypair();

    let signed_proof = sign_proof(&sk.0.to_vec(), proof);

    let verified_proof = verify_proof(&pk.0.to_vec(), &signed_proof);

    assert_eq!(proof_copy, verified_proof.unwrap())
}

#[test]
fn sign_and_fail_check_proof() {
    loctrack::crypto::crypto_init();
    let proof = Proof::new(EPOCH, IDX_REQ, IDX_ASS, LOC_ASS);

    let (_, sk) = sodiumoxide::crypto::sign::gen_keypair();
    let (bad_pk, _) = sodiumoxide::crypto::sign::gen_keypair();

    let signed_proof = sign_proof(&sk.0.to_vec(), proof);

    let verified_proof = verify_proof(&bad_pk.0.to_vec(), &signed_proof);

    assert!(verified_proof.is_none())
}

#[test]
fn proof_codec_round_trip() {
    let proof = Proof::new(7, 2, 9, (4, 5));
    let bytes = loctrack::proofs::encode_proof(&proof);
    // five 64-bit fields, little endian
    assert_eq!(40, bytes.len());
    assert_eq!(7u8, bytes[0]);
    assert_eq!(2u8, bytes[8]);
    assert_eq!(9u8, bytes[16]);
    assert_eq!(4u8, bytes[24]);
    assert_eq!(5u8, bytes[32]);
    assert_eq!(Some(proof), loctrack::proofs::decode_proof(&bytes));
}

#[test]
fn proof_codec_rejects_trailing_bytes() {
    let proof = Proof::new(7, 2, 9, (4, 5));
    let mut bytes = loctrack::proofs::encode_proof(&proof);
    bytes.push(0);
    assert_eq!(None, loctrack::proofs::decode_proof(&bytes));
}
