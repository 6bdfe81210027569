use loctrack::double_echo::{Write, encode_echo_request, decode_echo_info, decode_echo_request,
    success_echo};
use loctrack::key_management::generate_keys;
use loctrack::status::{LocationReportRequest, LocationReportResponse, UsersAtLocationRequest,
    UsersAtLocationResponse, MyProofsRequest, MyProofsResponse, encode_loc_request,
    decode_loc_request, encode_users_request, decode_users_request, encode_epochs, decode_epochs,
    encode_blob_list, decode_blob_list, seal_response, open_response};

#[test]
fn write_message_flags() {
    let echo = Write::new_echo(b"m".to_vec(), 7, 4);
    assert!(echo.is_echo());
    assert!(!echo.is_ready());
    assert_eq!(7, echo.client_id);
    assert_eq!(4, echo.epoch);
    let ready = Write::new_ready(b"m".to_vec(), 7, 4);
    assert!(ready.is_ready());
    assert!(!ready.is_echo());
}

#[test]
fn write_codec_round_trip() {
    let w = Write::new_ready(b"payload".to_vec(), 7, 4);
    let bytes = loctrack::double_echo::encode_write(&w);
    assert_eq!(Some(w), loctrack::double_echo::decode_write(&bytes));
}

#[test]
fn echo_envelope_round_trip() {
    loctrack::crypto::crypto_init();
    let keys = generate_keys(1, 2);
    let w = Write::new_echo(b"report bytes".to_vec(), 7, 4);

    // replica one sends a WRITE to replica zero
    let sender = &keys.server_keys[1];
    let receiver = &keys.server_keys[0];
    let sender_sign = sodiumoxide::crypto::sign::gen_keypair();
    let (cap, payload, key, _pow) = encode_echo_request(
        &sender_sign.1 .0.to_vec(),
        &receiver.public_key,
        &w,
        1,
    )
    .unwrap();

    let info = decode_echo_info(&receiver.private_key, &receiver.public_key, &cap).unwrap();
    assert_eq!(1, info.server_id);
    assert_eq!(key, info.key);

    let (back, _signed) = decode_echo_request(
        &sender_sign.0 .0.to_vec(),
        &info.key,
        &payload,
        &info.nonce,
    )
    .unwrap();
    assert_eq!(w, back);

    // the acknowledgement opens under the session key
    let empty: Vec<u8> = Vec::new();
    let (cipher, nonce) = seal_response(&key, &empty);
    assert!(success_echo(&key, &nonce, &cipher));
    assert!(!success_echo(&key, &cipher, &nonce));
}

#[test]
fn loc_request_codec() {
    let q = LocationReportRequest::new(5, 9);
    assert_eq!(5, q.idx());
    assert_eq!(9, q.epoch());
    let bytes = encode_loc_request(&q);
    assert_eq!(Some(q), decode_loc_request(&bytes));
}

#[test]
fn users_request_codec() {
    let q = UsersAtLocationRequest::new((2, 1), 9);
    assert_eq!((2, 1), q.pos());
    assert_eq!(9, q.epoch());
    let bytes = encode_users_request(&q);
    assert_eq!(Some(q), decode_users_request(&bytes));
}

#[test]
fn epochs_codec() {
    let xs: Vec<usize> = vec![1, 5, 9];
    let bytes = encode_epochs(&xs);
    assert_eq!(Some(xs), decode_epochs(&bytes));
}

#[test]
fn blob_list_codec() {
    let bs: Vec<Vec<u8>> = vec![b"one".to_vec(), Vec::new(), b"three".to_vec()];
    let bytes = encode_blob_list(&bs);
    assert_eq!(Some(bs), decode_blob_list(&bytes));
}

#[test]
fn response_types_carry_their_payloads() {
    let r = LocationReportResponse::new(2, 1);
    assert_eq!((2, 1), r.pos);
    let u = UsersAtLocationResponse::new(vec![3, 7]);
    assert_eq!(vec![3, 7], u.idxs);
    let pq = MyProofsRequest::new(vec![4, 5]);
    assert_eq!(vec![4, 5], pq.epochs);
    let pr = MyProofsResponse::new(vec![b"p".to_vec()]);
    assert_eq!(vec![b"p".to_vec()], pr.proofs);
}

#[test]
fn sealed_response_opens_only_with_the_key() {
    loctrack::crypto::crypto_init();
    let key: Vec<u8> = vec![1u8; 32];
    let other: Vec<u8> = vec![2u8; 32];
    let plain = b"answer".to_vec();
    let (cipher, nonce) = seal_response(&key, &plain);
    assert_eq!(Some(plain), open_response(&key, &nonce, &cipher));
    assert_eq!(None, open_response(&other, &nonce, &cipher));
}
