//! The scheme adapter: trusted bindings to an outside ciphertext-policy
//! attribute-based-encryption implementation (the BSW scheme), to the byte
//! encoder whose output length the size benchmark records, and to the source
//! of random benchmark payloads.
//!
//! Every value of the scheme (keys, ciphertexts, errors) is opaque here: the
//! driver only carries them between calls.  Key generation and encryption
//! draw randomness, so no contract pins their results; what the driver
//! decides from them is verified separately over every possible outcome.

use vstd::prelude::*;
use rand::Rng;

verus! {

#[verifier::external_type_specification]
#[verifier::external_body]
pub struct ExCpAbePublicKey(rabe::schemes::bsw::CpAbePublicKey);

#[verifier::external_type_specification]
#[verifier::external_body]
pub struct ExCpAbeMasterKey(rabe::schemes::bsw::CpAbeMasterKey);

#[verifier::external_type_specification]
#[verifier::external_body]
pub struct ExCpAbeSecretKey(rabe::schemes::bsw::CpAbeSecretKey);

#[verifier::external_type_specification]
#[verifier::external_body]
pub struct ExCpAbeCiphertext(rabe::schemes::bsw::CpAbeCiphertext);

#[verifier::external_type_specification]
#[verifier::external_body]
pub struct ExRabeError(rabe::error::RabeError);

#[verifier::external_type_specification]
#[verifier::external_body]
pub struct ExBincodeErrorKind(bincode::ErrorKind);

/// The policy grammar a policy string is written in: the human-readable
/// grammar alone.  The scheme library also parses a JSON grammar, but that
/// grammar admits connectives with fewer than two children, and decrypting a
/// ciphertext that carries such a policy aborts inside the scheme library —
/// so that grammar is not offered, and every ciphertext made here embeds a
/// human-grammar policy.
#[derive(Clone, Copy, PartialEq, Eq, Structural, Debug)]
pub enum PolicyLang {
    Human,
}

/// Relies on rabe's BSW setup: draws a fresh public/master key pair from the
/// process-wide randomness, so nothing is promised of the result.
#[verifier::external_body]
pub fn bsw_setup() -> (rabe::schemes::bsw::CpAbePublicKey, rabe::schemes::bsw::CpAbeMasterKey) {
    rabe::schemes::bsw::setup()
}

/// Relies on rabe's BSW keygen, whose only absent-result exit is an empty
/// attribute set: a key comes back exactly when the set is non-empty.  The
/// key itself is drawn from randomness and nothing more is promised of it.
#[verifier::external_body]
pub fn bsw_keygen(
    pk: &rabe::schemes::bsw::CpAbePublicKey,
    msk: &rabe::schemes::bsw::CpAbeMasterKey,
    attributes: &Vec<String>,
) -> (r: Option<rabe::schemes::bsw::CpAbeSecretKey>)
    ensures
        r is Some <==> attributes@.len() > 0,
{
    let attrs: Vec<&str> = attributes.iter().map(|s| s.as_str()).collect();
    rabe::schemes::bsw::keygen(pk, msk, &attrs)
}

/// Relies on rabe's BSW encrypt: the explicit-error style operation; the
/// ciphertext is randomized, so nothing is promised of a success.  The body
/// converts the grammar tag (one arm per variant) and calls.
#[verifier::external_body]
pub fn bsw_encrypt(
    pk: &rabe::schemes::bsw::CpAbePublicKey,
    policy: &String,
    lang: PolicyLang,
    plaintext: &Vec<u8>,
) -> (r: Result<rabe::schemes::bsw::CpAbeCiphertext, rabe::error::RabeError>) {
    let language = match lang {
        PolicyLang::Human => rabe::utils::policy::pest::PolicyLanguage::HumanPolicy,
    };
    rabe::schemes::bsw::encrypt(pk, policy.as_str(), language, plaintext.as_slice())
}

/// Relies on rabe's BSW decrypt: the explicit-error style operation, erring
/// when the key's attributes do not satisfy the ciphertext's policy; which of
/// the two outcomes holds is not modeled here.  On a ciphertext made by the
/// encryption binding above it returns rather than aborts: such a ciphertext
/// embeds a human-grammar policy, whose connectives always have two children.
#[verifier::external_body]
pub fn bsw_decrypt(
    sk: &rabe::schemes::bsw::CpAbeSecretKey,
    ct: &rabe::schemes::bsw::CpAbeCiphertext,
) -> (r: Result<Vec<u8>, rabe::error::RabeError>) {
    rabe::schemes::bsw::decrypt(sk, ct)
}

/// Relies on rabe's BSW delegate: its absent-result exits are an empty subset
/// and a subset that is not contained in the key's own attribute names; the
/// delegated key is drawn from randomness, so nothing more is promised.
#[verifier::external_body]
pub fn bsw_delegate(
    pk: &rabe::schemes::bsw::CpAbePublicKey,
    sk: &rabe::schemes::bsw::CpAbeSecretKey,
    subset: &Vec<String>,
) -> (r: Option<rabe::schemes::bsw::CpAbeSecretKey>)
    ensures
        subset@.len() == 0 ==> r is None,
{
    let attrs: Vec<&str> = subset.iter().map(|s| s.as_str()).collect();
    rabe::schemes::bsw::delegate(pk, sk, &attrs)
}

/// Relies on bincode::serialize: the byte encoding of a ciphertext, whose
/// length the size benchmark records.
#[verifier::external_body]
pub fn ciphertext_bytes(ct: &rabe::schemes::bsw::CpAbeCiphertext) -> (r: Result<
    Vec<u8>,
    Box<bincode::ErrorKind>,
>) {
    bincode::serialize(ct)
}

/// Relies on rand::thread_rng and Rng::fill: a payload of random bytes; only
/// the length is determined.
#[verifier::external_body]
pub fn random_bytes(len: usize) -> (r: Vec<u8>)
    ensures
        r@.len() == len,
{
    let mut buf = vec![0u8; len];
    rand::thread_rng().fill(&mut buf[..]);
    buf
}

} // verus!
