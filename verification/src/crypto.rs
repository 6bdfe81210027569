//! Trusted boundary around the `sodiumoxide` primitives and `rand`.
//!
//! Every cryptographic result is named by an uninterpreted spec function of
//! the call's arguments, so that verified code can reason about round trips
//! (seal then open, sign then verify) without restating any algorithm.

use vstd::prelude::*;

verus! {

/// Holds of every Ed25519 pair that `sign::gen_keypair` returns.
pub uninterp spec fn sign_keypair(pk: Seq<u8>, sk: Seq<u8>) -> bool;

/// What `sign::sign` returns: the signed message under the given secret key.
pub uninterp spec fn signed_of(sk: Seq<u8>, m: Seq<u8>) -> Seq<u8>;

/// What `sign::verify` returns: the embedded message, when the signature
/// checks out under the given public key.
pub uninterp spec fn open_signed(pk: Seq<u8>, sm: Seq<u8>) -> Option<Seq<u8>>;

/// Holds of every Curve25519 pair that `box_::gen_keypair` returns.
pub uninterp spec fn box_keypair(pk: Seq<u8>, sk: Seq<u8>) -> bool;

/// What `sealedbox::open` returns for a ciphertext under a key pair.
pub uninterp spec fn open_sealed(pk: Seq<u8>, sk: Seq<u8>, c: Seq<u8>) -> Option<Seq<u8>>;

/// What `secretbox::seal` returns: the ciphertext of a message under a
/// symmetric key and nonce.
pub uninterp spec fn sym_sealed(k: Seq<u8>, n: Seq<u8>, m: Seq<u8>) -> Seq<u8>;

/// What `secretbox::open` returns for a ciphertext, key and nonce.
pub uninterp spec fn sym_opened(k: Seq<u8>, n: Seq<u8>, c: Seq<u8>) -> Option<Seq<u8>>;

/// What `hash::hash` returns: the SHA-512 digest of the message.
pub uninterp spec fn digest_of(m: Seq<u8>) -> Seq<u8>;

/// Byte length of an Ed25519 public (verification) key.
pub const SIGN_PK_LEN: usize = 32;
/// Byte length of an Ed25519 secret (signing) key.
pub const SIGN_SK_LEN: usize = 64;
/// Byte length of a Curve25519 public (encryption) key.
pub const BOX_PK_LEN: usize = 32;
/// Byte length of a Curve25519 secret (decryption) key.
pub const BOX_SK_LEN: usize = 32;
/// Byte length of a secretbox key.
pub const SYM_KEY_LEN: usize = 32;
/// Byte length of a secretbox nonce.
pub const SYM_NONCE_LEN: usize = 24;

/// Relies on `sodiumoxide::init`: prepares the library for use; callers that
/// skip it only lose thread safety of the random generator.
#[verifier::external_body]
pub fn crypto_init() -> bool {
    sodiumoxide::init().is_ok()
}

/// Relies on `sodiumoxide::crypto::sign::gen_keypair`: a fresh Ed25519 pair,
/// 32-byte public part and 64-byte secret part, related as a signing pair.
#[verifier::external_body]
pub(crate) fn gen_sign_keypair() -> (r: (Vec<u8>, Vec<u8>))
    ensures
        r.0@.len() == SIGN_PK_LEN as int,
        r.1@.len() == SIGN_SK_LEN as int,
        sign_keypair(r.0@, r.1@),
{
    let (pk, sk) = sodiumoxide::crypto::sign::gen_keypair();
    (pk.0.to_vec(), sk.0.to_vec())
}

/// Relies on `sodiumoxide::crypto::sign::sign` (Ed25519, deterministic): the
/// result depends on the key and message alone, and verifies back to the
/// message under the matching public key.
#[verifier::external_body]
pub(crate) fn sign_bytes(sk: &Vec<u8>, m: &Vec<u8>) -> (r: Vec<u8>)
    requires
        sk@.len() == SIGN_SK_LEN as int,
    ensures
        r@ == signed_of(sk@, m@),
        forall|pk: Seq<u8>| #[trigger] sign_keypair(pk, sk@) ==> open_signed(pk, r@) == Some(m@),
{
    let key = sodiumoxide::crypto::sign::SecretKey::from_slice(sk.as_slice()).unwrap();
    sodiumoxide::crypto::sign::sign(m.as_slice(), &key)
}

/// Relies on `sodiumoxide::crypto::sign::verify`: returns the embedded
/// message exactly when the signature is valid under the given public key.
#[verifier::external_body]
pub(crate) fn open_signed_bytes(pk: &Vec<u8>, sm: &Vec<u8>) -> (r: Option<Vec<u8>>)
    requires
        pk@.len() == SIGN_PK_LEN as int,
    ensures
        match r {
            Some(m) => open_signed(pk@, sm@) == Some(m@),
            None => open_signed(pk@, sm@) is None,
        },
{
    let key = sodiumoxide::crypto::sign::PublicKey::from_slice(pk.as_slice()).unwrap();
    match sodiumoxide::crypto::sign::verify(sm.as_slice(), &key) {
        Ok(m) => Some(m),
        Err(()) => None,
    }
}

/// Relies on `sodiumoxide::crypto::box_::gen_keypair`: a fresh Curve25519
/// pair, 32 bytes each, related as an encryption pair.
#[verifier::external_body]
pub(crate) fn gen_box_keypair() -> (r: (Vec<u8>, Vec<u8>))
    ensures
        r.0@.len() == BOX_PK_LEN as int,
        r.1@.len() == BOX_SK_LEN as int,
        box_keypair(r.0@, r.1@),
{
    let (pk, sk) = sodiumoxide::crypto::box_::gen_keypair();
    (pk.0.to_vec(), sk.0.to_vec())
}

/// Relies on `sodiumoxide::crypto::sealedbox::seal`: the ciphertext opens to
/// the message under the matching secret key.
#[verifier::external_body]
pub(crate) fn seal_box_bytes(m: &Vec<u8>, pk: &Vec<u8>) -> (r: Vec<u8>)
    requires
        pk@.len() == BOX_PK_LEN as int,
    ensures
        forall|sk: Seq<u8>| #[trigger] box_keypair(pk@, sk) ==> open_sealed(pk@, sk, r@)
            == Some(m@),
{
    let key = sodiumoxide::crypto::box_::PublicKey::from_slice(pk.as_slice()).unwrap();
    sodiumoxide::crypto::sealedbox::seal(m.as_slice(), &key)
}

/// Relies on `sodiumoxide::crypto::sealedbox::open`: a function of the key
/// pair and ciphertext.
#[verifier::external_body]
pub(crate) fn open_box_bytes(c: &Vec<u8>, pk: &Vec<u8>, sk: &Vec<u8>) -> (r: Option<Vec<u8>>)
    requires
        pk@.len() == BOX_PK_LEN as int,
        sk@.len() == BOX_SK_LEN as int,
    ensures
        match r {
            Some(m) => open_sealed(pk@, sk@, c@) == Some(m@),
            None => open_sealed(pk@, sk@, c@) is None,
        },
{
    let public = sodiumoxide::crypto::box_::PublicKey::from_slice(pk.as_slice()).unwrap();
    let secret = sodiumoxide::crypto::box_::SecretKey::from_slice(sk.as_slice()).unwrap();
    match sodiumoxide::crypto::sealedbox::open(c.as_slice(), &public, &secret) {
        Ok(m) => Some(m),
        Err(()) => None,
    }
}

/// Relies on `sodiumoxide::crypto::secretbox::gen_key`: a fresh 32-byte key.
#[verifier::external_body]
pub(crate) fn gen_sym_key() -> (r: Vec<u8>)
    ensures
        r@.len() == SYM_KEY_LEN as int,
{
    sodiumoxide::crypto::secretbox::gen_key().0.to_vec()
}

/// Relies on `sodiumoxide::crypto::secretbox::gen_nonce`: a fresh 24-byte nonce.
#[verifier::external_body]
pub(crate) fn gen_sym_nonce() -> (r: Vec<u8>)
    ensures
        r@.len() == SYM_NONCE_LEN as int,
{
    sodiumoxide::crypto::secretbox::gen_nonce().0.to_vec()
}

/// Relies on `sodiumoxide::crypto::secretbox::seal` (XSalsa20-Poly1305,
/// deterministic in key, nonce and message): the ciphertext opens back to the
/// message under the same key and nonce.
#[verifier::external_body]
pub(crate) fn seal_sym_bytes(m: &Vec<u8>, n: &Vec<u8>, k: &Vec<u8>) -> (r: Vec<u8>)
    requires
        n@.len() == SYM_NONCE_LEN as int,
        k@.len() == SYM_KEY_LEN as int,
    ensures
        r@ == sym_sealed(k@, n@, m@),
        sym_opened(k@, n@, r@) == Some(m@),
{
    let nonce = sodiumoxide::crypto::secretbox::Nonce::from_slice(n.as_slice()).unwrap();
    let key = sodiumoxide::crypto::secretbox::Key::from_slice(k.as_slice()).unwrap();
    sodiumoxide::crypto::secretbox::seal(m.as_slice(), &nonce, &key)
}

/// Relies on `sodiumoxide::crypto::secretbox::open`: a function of the key,
/// nonce and ciphertext; a nonce of the wrong length opens nothing.
#[verifier::external_body]
pub(crate) fn open_sym_bytes(c: &Vec<u8>, n: &Vec<u8>, k: &Vec<u8>) -> (r: Option<Vec<u8>>)
    requires
        k@.len() == SYM_KEY_LEN as int,
    ensures
        match r {
            Some(m) => sym_opened(k@, n@, c@) == Some(m@),
            None => sym_opened(k@, n@, c@) is None,
        },
{
    let nonce = match sodiumoxide::crypto::secretbox::Nonce::from_slice(n.as_slice()) {
        Some(nonce) => nonce,
        None => return None,
    };
    let key = sodiumoxide::crypto::secretbox::Key::from_slice(k.as_slice()).unwrap();
    match sodiumoxide::crypto::secretbox::open(c.as_slice(), &nonce, &key) {
        Ok(m) => Some(m),
        Err(()) => None,
    }
}

/// Relies on `sodiumoxide::crypto::hash::hash` (SHA-512): a 64-byte digest,
/// a function of the message alone.
#[verifier::external_body]
pub(crate) fn hash_bytes(m: &Vec<u8>) -> (r: Vec<u8>)
    ensures
        r@ == digest_of(m@),
        r@.len() == 64,
{
    sodiumoxide::crypto::hash::hash(m.as_slice()).0.to_vec()
}

/// Relies on `rand::random_range`: a value drawn from the given range.
#[verifier::external_body]
pub(crate) fn random_below(n: usize) -> (r: usize)
    requires
        n > 0,
    ensures
        r < n,
{
    rand::random_range(0..n)
}

} // verus!
