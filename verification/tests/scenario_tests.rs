use abe_bench::policy::Connective;
use abe_bench::policy::generate;
use abe_bench::scenario::attribute_labels;
use abe_bench::scenario::bsw_ciphertext_size;
use abe_bench::scenario::bsw_delegation_check;
use abe_bench::scenario::bsw_sanity_check;
use abe_bench::scenario::classify_decryption;
use abe_bench::scenario::keygen_attribute_set;
use abe_bench::scenario::measurement_labels;
use abe_bench::scenario::scale_points;
use abe_bench::scenario::SanityError;
use abe_bench::scheme::bsw_decrypt;
use abe_bench::scheme::bsw_delegate;
use abe_bench::scheme::bsw_encrypt;
use abe_bench::scheme::bsw_keygen;
use abe_bench::scheme::bsw_setup;
use abe_bench::scheme::random_bytes;
use abe_bench::scheme::PolicyLang;
use abe_bench::store::apply_update;
use abe_bench::store::load_table;

#[test]
fn attribute_labels_are_positional() {
    let labels = attribute_labels(3, "attribute");
    assert_eq!(labels, vec!["attribute0", "attribute1", "attribute2"]);
}

#[test]
fn keygen_set_follows_connective() {
    let labels = attribute_labels(3, "a");
    assert_eq!(keygen_attribute_set(Connective::And, &labels), vec!["a0", "a1", "a2"]);
    assert_eq!(keygen_attribute_set(Connective::Or, &labels), vec!["a2"]);
}

#[test]
fn measurement_labels_name_the_cell() {
    let (row, col) = measurement_labels(25, 1024);
    assert_eq!(row, "25");
    assert_eq!(col, "single 1024");
}

#[test]
fn scale_points_are_the_sweep() {
    assert_eq!(scale_points(), vec![1, 5, 10, 15, 20, 25, 30, 35, 40, 45, 50]);
}

#[test]
fn random_payload_has_requested_length() {
    assert_eq!(random_bytes(0).len(), 0);
    assert_eq!(random_bytes(1024).len(), 1024);
}

#[test]
fn keygen_empty_set_is_absent() {
    let (pk, msk) = bsw_setup();
    assert!(bsw_keygen(&pk, &msk, &Vec::new()).is_none());
    assert!(bsw_keygen(&pk, &msk, &vec!["attribute0".to_string()]).is_some());
}

#[test]
fn delegation_check_passes_on_own_attributes() {
    let (pk, msk) = bsw_setup();
    assert!(bsw_delegation_check(&pk, &msk, 3, 3, "attribute").is_ok());
    assert!(bsw_delegation_check(&pk, &msk, 3, 2, "attribute").is_ok());
}

#[test]
fn delegate_declines_outside_subsets() {
    let (pk, msk) = bsw_setup();
    let sk = bsw_keygen(&pk, &msk, &vec!["attribute0".to_string()]).unwrap();
    assert!(bsw_delegate(&pk, &sk, &Vec::new()).is_none());
    assert!(bsw_delegate(&pk, &sk, &vec!["unrelated0".to_string()]).is_none());
}

#[test]
fn and_sanity_check_passes_with_full_key() {
    let (pk, msk) = bsw_setup();
    let payload = b"our plaintext!".to_vec();
    let r = bsw_sanity_check(&pk, &msk, 3, Connective::And, "attribute", &payload);
    assert!(r.is_ok());
}

#[test]
fn or_sanity_check_passes_with_last_attribute_only() {
    let (pk, msk) = bsw_setup();
    let payload = b"our plaintext!".to_vec();
    let r = bsw_sanity_check(&pk, &msk, 3, Connective::Or, "attribute", &payload);
    assert!(r.is_ok());
}

#[test]
fn unrelated_key_fails_decryption() {
    let (pk, msk) = bsw_setup();
    let payload = b"our plaintext!".to_vec();
    let policy = generate(2, Connective::And, "attribute");
    let sk = bsw_keygen(&pk, &msk, &vec!["unrelated0".to_string()]).unwrap();
    let ct = bsw_encrypt(&pk, &policy, PolicyLang::Human, &payload).unwrap();
    let r = classify_decryption(bsw_decrypt(&sk, &ct), &payload);
    assert!(matches!(r, Err(SanityError::DecryptFailed(_))));
}

#[test]
fn wrong_plaintext_is_reported() {
    let expected = b"expected".to_vec();
    let r = classify_decryption(Ok(b"something else".to_vec()), &expected);
    assert!(matches!(r, Err(SanityError::WrongPlaintext)));
    let r2 = classify_decryption(Ok(expected.clone()), &expected);
    assert!(r2.is_ok());
}

#[test]
fn decrypt_error_is_reported() {
    let expected = b"expected".to_vec();
    let r = classify_decryption(Err(rabe::error::RabeError::new("no match")), &expected);
    assert!(matches!(r, Err(SanityError::DecryptFailed(_))));
}

#[test]
fn malformed_policy_fails_encryption() {
    let (pk, _msk) = bsw_setup();
    let payload = b"x".to_vec();
    let r = bsw_encrypt(&pk, &"not a policy".to_string(), PolicyLang::Human, &payload);
    assert!(r.is_err());
}

#[test]
fn ciphertext_size_sweep_records_cells() {
    // one tiny pass of the size benchmark: two payload sizes, two widths
    let (pk, _msk) = bsw_setup();
    let mut image: Option<Vec<u8>> = None;
    for n in [0u32, 4u32] {
        let payload = random_bytes(1usize << n);
        for a in [1u64, 2u64] {
            let policy = generate(a, Connective::Or, "attribute");
            let size = bsw_ciphertext_size(&pk, &policy, &payload).unwrap();
            assert!(size > 0);
            let (row, col) = measurement_labels(a, payload.len() as u64);
            image = Some(apply_update(&image, &row, &col, &size.to_string()).unwrap());
        }
    }
    let table = load_table(&image.unwrap()).unwrap();
    assert_eq!(table.row_count(), 3);
    assert_eq!(table.header_count(), 3);
    assert!(table.get("1", "single 1").unwrap().parse::<usize>().unwrap() > 0);
    assert!(table.get("2", "single 16").unwrap().parse::<usize>().unwrap() > 0);
}
