use cft_bench::babyjub::{verify_poseidon, Scalar, SecretKey};
use cft_bench::zk_friendly::credential::{
    claim_name, days_ms, eighteen_years_ms, flat_commitment, BASE_NOW_MS, NUM_ATTRS,
};
use cft_bench::zk_friendly::issuance::{issue, show_input, with_revocation_index, Credential};

fn scalar(n: u64) -> Scalar {
    let mut bytes = [0u8; 32];
    bytes[..8].copy_from_slice(&n.to_le_bytes());
    Scalar::from_le_bytes(bytes).expect("below the order")
}

fn credential() -> Credential {
    issue(
        &SecretKey::from_scalar(scalar(1_000_001)),
        &SecretKey::from_scalar(scalar(1_000_002)),
        &scalar(1_000_003),
        &scalar(1_000_004),
    )
}

#[test]
fn issued_signature_verifies_under_the_issuer_key() {
    let cred = credential();
    let commitment = flat_commitment(&cred.claim_names, &cred.claim_values);
    assert!(verify_poseidon(&cred.issuer_pub, commitment, &cred.signature));
    assert_eq!(cred.dates.max_birth_date_ms, BASE_NOW_MS - eighteen_years_ms());
    assert_eq!(cred.dates.birth_date_ms, cred.dates.max_birth_date_ms - days_ms(365));
    assert_eq!(cred.dates.valid_from_ms, BASE_NOW_MS - days_ms(1));
    assert_eq!(cred.dates.valid_until_ms, BASE_NOW_MS + days_ms(365));
    assert!(cred.claim_values[0].same_value(&cred.id.x));
    assert!(cred.claim_values[1].same_value(&cred.id.y));
}

#[test]
fn revocation_index_is_signed_afresh() {
    let cred = with_revocation_index(&credential(), 14, 4242, &scalar(77));
    assert_eq!(cred.claim_values[14].to_decimal(), "4242");
    assert!(cred.claim_names[14].same_value(&claim_name("revocationIndex")));
    let commitment = flat_commitment(&cred.claim_names, &cred.claim_values);
    assert!(verify_poseidon(&cred.issuer_pub, commitment, &cred.signature));
}

#[test]
fn show_input_carries_the_presentation() {
    let cred = credential();
    let input = show_input(&cred, 5, &scalar(21), &scalar(22), &scalar(23), &scalar(24));
    assert_eq!(input.now, (BASE_NOW_MS + 5).to_string());
    assert_eq!(input.t, "21");
    assert_eq!(input.random_val1, "22");
    assert_eq!(input.random_val2, "23");
    assert_eq!(input.claim_names.len(), NUM_ATTRS);
    assert_eq!(input.idx_claim_name, cred.claim_names[0].to_decimal());
    assert_eq!(input.id_x, cred.id.x.to_decimal());
    assert_eq!(input.max_birth_date, cred.dates.max_birth_date_ms.to_string());
}
