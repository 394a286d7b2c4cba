//! The benchmark scenario driver: the deterministic construction of attribute
//! labels and policies for a scale point, the connective-dependent choice of
//! key attributes, the classification of scheme outcomes around the one
//! sanity check that precedes a timed loop, and the labels under which a
//! measurement is recorded.

use vstd::prelude::*;
use vstd::string::StringExecFns;
use crate::policy::Connective;
use crate::policy::dec_str;
use crate::policy::decimal;
use crate::policy::generate;
use crate::scheme::PolicyLang;
use crate::scheme::bsw_decrypt;
use crate::scheme::bsw_delegate;
use crate::scheme::bsw_encrypt;
use crate::scheme::bsw_keygen;
use crate::scheme::ciphertext_bytes;

verus! {

/// The name of the i-th attribute: the naming prefix and the decimal position.
pub open spec fn label_of(prefix: Seq<char>, i: nat) -> Seq<char> {
    prefix + dec_str(i)
}

/// Builds the attribute labels prefix0 .. prefix(count-1), the sequence a
/// scale point of `count` attributes is run over.
pub fn attribute_labels(count: u64, prefix: &str) -> (r: Vec<String>)
    ensures
        r.deep_view() == Seq::new(count as nat, |i: int| label_of(prefix@, i as nat)),
        r@.len() == count,
{
    let mut out: Vec<String> = Vec::new();
    let mut i: u64 = 0;
    while i < count
        invariant
            i <= count,
            out.deep_view() == Seq::new(i as nat, |t: int| label_of(prefix@, t as nat)),
            out@.len() == i,
        decreases count - i,
    {
        let mut s = prefix.to_owned();
        let num = decimal(i);
        s.append(num.as_str());
        let ghost before = out.deep_view();
        out.push(s);
        proof {
            assert(out.deep_view() =~= before.push(label_of(prefix@, i as nat)));
            assert(out.deep_view() =~= Seq::new((i + 1) as nat, |t: int| label_of(prefix@, t as nat)));
        }
        i += 1;
    }
    out
}

/// Which attributes the sanity key is generated for: an AND scenario needs
/// every attribute of the policy; an OR scenario deliberately takes only the
/// last, to probe the minimal satisfying set.
pub open spec fn keygen_labels(c: Connective, labels: Seq<Seq<char>>) -> Seq<Seq<char>> {
    match c {
        Connective::And => labels,
        Connective::Or => seq![labels.last()],
    }
}

/// The attribute set handed to key generation for a sanity check under the
/// connective `c`.
pub fn keygen_attribute_set(c: Connective, labels: &Vec<String>) -> (r: Vec<String>)
    requires
        labels@.len() > 0,
    ensures
        r.deep_view() == keygen_labels(c, labels.deep_view()),
        r@.len() > 0,
{
    match c {
        Connective::And => {
            let mut out: Vec<String> = Vec::new();
            let mut i: usize = 0;
            while i < labels.len()
                invariant
                    i <= labels@.len(),
                    out.deep_view() == labels.deep_view().take(i as int),
                    out@.len() == i,
                decreases labels@.len() - i,
            {
                let ghost before = out.deep_view();
                out.push(labels[i].clone());
                proof {
                    assert(out.deep_view() =~= before.push(labels.deep_view()[i as int]));
                    assert(out.deep_view() =~= labels.deep_view().take(i + 1));
                }
                i += 1;
            }
            proof {
                assert(labels.deep_view().take(labels@.len() as int) =~= labels.deep_view());
            }
            out
        },
        Connective::Or => {
            let mut out: Vec<String> = Vec::new();
            out.push(labels[labels.len() - 1].clone());
            proof {
                assert(out.deep_view() =~= seq![labels.deep_view().last()]);
            }
            out
        },
    }
}

/// Why a sanity check declared a scale point unfit to measure; each variant
/// names the stage that failed.
#[derive(Debug)]
pub enum SanityError {
    /// The scheme declined to issue a key: the soft, absent-result failure.
    KeyAbsent,
    /// Encryption failed: an explicit scheme error.
    EncryptFailed(rabe::error::RabeError),
    /// Decryption failed: an explicit scheme error.
    DecryptFailed(rabe::error::RabeError),
    /// Decryption succeeded but returned the wrong plaintext.
    WrongPlaintext,
}

/// Compares two byte strings.
pub fn bytes_equal(a: &Vec<u8>, b: &Vec<u8>) -> (r: bool)
    ensures
        r == (a@ == b@),
{
    if a.len() != b.len() {
        return false;
    }
    let mut i: usize = 0;
    while i < a.len()
        invariant
            a@.len() == b@.len(),
            i <= a@.len(),
            forall|t: int| 0 <= t < i ==> a@[t] == b@[t],
        decreases a@.len() - i,
    {
        if a[i] != b[i] {
            return false;
        }
        i += 1;
    }
    proof {
        assert(a@ =~= b@);
    }
    true
}

/// Classifies a decryption outcome against the expected plaintext: the check
/// passes exactly when decryption succeeded and returned the expected bytes.
pub fn classify_decryption(
    result: Result<Vec<u8>, rabe::error::RabeError>,
    expected: &Vec<u8>,
) -> (r: Result<(), SanityError>)
    ensures
        (result matches Ok(pt) && pt@ == expected@ ==> r is Ok),
        (result matches Ok(pt) && pt@ != expected@ ==> r == Err::<(), SanityError>(SanityError::WrongPlaintext)),
        (result matches Err(e) ==> r == Err::<(), SanityError>(SanityError::DecryptFailed(e))),
{
    match result {
        Ok(pt) => {
            if bytes_equal(&pt, expected) {
                Ok(())
            } else {
                Err(SanityError::WrongPlaintext)
            }
        },
        Err(e) => Err(SanityError::DecryptFailed(e)),
    }
}

/// One pre-measurement sanity check of the BSW scheme at a scale point of
/// `count` attributes: builds the labels and the policy, generates a key —
/// for every attribute under AND, for only the last under OR — encrypts the
/// payload under the policy, and checks that decryption returns it.  `Ok`
/// says the full pipeline works and the point is fit to measure; each error
/// names the stage that failed.  A key always comes back here, since the
/// attribute set handed to key generation is never empty.
pub fn bsw_sanity_check(
    pk: &rabe::schemes::bsw::CpAbePublicKey,
    msk: &rabe::schemes::bsw::CpAbeMasterKey,
    count: u64,
    c: Connective,
    prefix: &str,
    payload: &Vec<u8>,
) -> (r: Result<(), SanityError>)
    requires
        1 <= count,
    ensures
        r != Err::<(), SanityError>(SanityError::KeyAbsent),
{
    let labels = attribute_labels(count, prefix);
    let keyset = keygen_attribute_set(c, &labels);
    let policy = generate(count, c, prefix);
    let sk = match bsw_keygen(pk, msk, &keyset) {
        Some(sk) => sk,
        None => {
            proof {
                assert(false);
            }
            return Err(SanityError::KeyAbsent);
        },
    };
    let ct = match bsw_encrypt(pk, &policy, PolicyLang::Human, payload) {
        Ok(ct) => ct,
        Err(e) => {
            return Err(SanityError::EncryptFailed(e));
        },
    };
    classify_decryption(bsw_decrypt(&sk, &ct), payload)
}

/// One pre-measurement sanity check of delegation at a scale point of `count`
/// attributes: generates a key for the labels and delegates it to the first
/// `subset_count` of them — a non-empty subset of the key's own attributes by
/// construction.  Delegation's only failure style is the soft absent result,
/// so the check either passes or reports the key as absent.
pub fn bsw_delegation_check(
    pk: &rabe::schemes::bsw::CpAbePublicKey,
    msk: &rabe::schemes::bsw::CpAbeMasterKey,
    count: u64,
    subset_count: u64,
    prefix: &str,
) -> (r: Result<(), SanityError>)
    requires
        1 <= subset_count <= count,
    ensures
        r is Ok || r == Err::<(), SanityError>(SanityError::KeyAbsent),
{
    let labels = attribute_labels(count, prefix);
    let sk = match bsw_keygen(pk, msk, &labels) {
        Some(sk) => sk,
        None => {
            proof {
                assert(false);
            }
            return Err(SanityError::KeyAbsent);
        },
    };
    let subset = attribute_labels(subset_count, prefix);
    match bsw_delegate(pk, &sk, &subset) {
        Some(_) => Ok(()),
        None => Err(SanityError::KeyAbsent),
    }
}

/// Why a ciphertext-size measurement produced no number.
#[derive(Debug)]
pub enum MeasureError {
    /// Encryption failed: an explicit scheme error.
    EncryptFailed(rabe::error::RabeError),
    /// The ciphertext could not be byte-encoded.
    EncodeFailed(Box<bincode::ErrorKind>),
}

/// One ciphertext-size measurement: encrypts the payload under the policy and
/// returns the byte length of the ciphertext's serialized form.
pub fn bsw_ciphertext_size(
    pk: &rabe::schemes::bsw::CpAbePublicKey,
    policy: &String,
    payload: &Vec<u8>,
) -> (r: Result<usize, MeasureError>) {
    let ct = match bsw_encrypt(pk, policy, PolicyLang::Human, payload) {
        Ok(ct) => ct,
        Err(e) => {
            return Err(MeasureError::EncryptFailed(e));
        },
    };
    match ciphertext_bytes(&ct) {
        Ok(bytes) => Ok(bytes.len()),
        Err(e) => Err(MeasureError::EncodeFailed(e)),
    }
}

/// The row key and column label under which one size measurement is recorded:
/// the attribute count in decimal, and "single " followed by the payload
/// length in decimal.
pub fn measurement_labels(attr_count: u64, payload_len: u64) -> (r: (String, String))
    ensures
        r.0@ == dec_str(attr_count as nat),
        r.1@ == "single "@ + dec_str(payload_len as nat),
{
    let row = decimal(attr_count);
    let mut col = String::from_str("single ");
    let num = decimal(payload_len);
    col.append(num.as_str());
    (row, col)
}

/// The attribute-set sizes that every scenario sweeps, smallest first.
pub fn scale_points() -> (r: Vec<u64>)
    ensures
        r@ == seq![1u64, 5u64, 10u64, 15u64, 20u64, 25u64, 30u64, 35u64, 40u64, 45u64, 50u64],
{
    let mut v: Vec<u64> = Vec::new();
    v.push(1);
    v.push(5);
    v.push(10);
    v.push(15);
    v.push(20);
    v.push(25);
    v.push(30);
    v.push(35);
    v.push(40);
    v.push(45);
    v.push(50);
    proof {
        assert(v@ =~= seq![1u64, 5u64, 10u64, 15u64, 20u64, 25u64, 30u64, 35u64, 40u64, 45u64, 50u64]);
    }
    v
}

} // verus!
