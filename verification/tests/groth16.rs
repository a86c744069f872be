use cft_bench::zk_friendly::groth16::{
    check_header, parse_public_signals, verify, Groth16Error, Proof, RawG1, RawG2, RawProof,
    RawVerifyingKey, VerifyingKey, G1, G2,
};

const X0: &str = "10857046999023057135944570762232829481370756359578518086990519993285655852781";
const X1: &str = "11559732032986387107991004021392285783925812861821192530917403151452391805634";
const Y0: &str = "8495653923123431417604973247489272438418190587263600148770280649306958101930";
const Y1: &str = "4082367875863433681332203403145435568316851327593401208105741076214120093531";
const NEG_Y0: &str = "13392588948715843804641432497768002650278120570034223513918757245338268106653";
const NEG_Y1: &str = "17805874995975841540914202342111839520379459829704422454583296818431106115052";

fn g1(x: &str, y: &str) -> RawG1 {
    RawG1 { x: x.to_string(), y: y.to_string() }
}

fn g2(x0: &str, x1: &str, y0: &str, y1: &str) -> RawG2 {
    RawG2 { x0: x0.to_string(), x1: x1.to_string(), y0: y0.to_string(), y1: y1.to_string() }
}

/// A key whose check reduces to `e(−A, B)·e(vk_x, H)·e(C, H)·e(G, −H)`:
/// with `A = C = G` and `B = H` it holds exactly when `vk_x = G`.
fn key(ic: Vec<RawG1>) -> RawVerifyingKey {
    RawVerifyingKey {
        protocol: "groth16".to_string(),
        curve: "bn128".to_string(),
        alpha: g1("1", "2"),
        beta: g2(X0, X1, NEG_Y0, NEG_Y1),
        gamma: g2(X0, X1, Y0, Y1),
        delta: g2(X0, X1, Y0, Y1),
        ic,
    }
}

fn raw_proof() -> RawProof {
    RawProof {
        protocol: "groth16".to_string(),
        curve: "bn128".to_string(),
        a: g1("1", "2"),
        b: g2(X0, X1, Y0, Y1),
        c: g1("1", "2"),
    }
}

#[test]
fn headers_are_checked() {
    assert!(check_header("groth16", "bn128").is_ok());
    assert_eq!(
        check_header("plonk", "bn128"),
        Err(Groth16Error::WrongProtocol { protocol: "plonk".to_string() })
    );
    assert_eq!(
        check_header("groth16", "bls12381"),
        Err(Groth16Error::WrongCurve { curve: "bls12381".to_string() })
    );
}

#[test]
fn points_are_parsed_and_checked_on_the_curve() {
    assert!(G1::parse(&g1("1", "2")).is_ok());
    assert_eq!(G1::parse(&g1("1", "3")).err(), Some(Groth16Error::G1NotOnCurve));
    assert_eq!(
        G1::parse(&g1("1", "two")).err(),
        Some(Groth16Error::NotBaseField { raw: "two".to_string() })
    );
    assert!(G2::parse(&g2(X0, X1, Y0, Y1)).is_ok());
    assert_eq!(G2::parse(&g2(X0, X1, Y0, X1)).err(), Some(Groth16Error::G2NotOnCurve));
}

#[test]
fn keys_need_an_ic() {
    assert_eq!(VerifyingKey::from_raw(&key(vec![])).err(), Some(Groth16Error::EmptyIc));
    let vk = VerifyingKey::from_raw(&key(vec![g1("1", "2"), g1("1", "2")])).expect("a key");
    assert_eq!(vk.public_input_count(), 1);
    let mut bad = key(vec![g1("1", "2")]);
    bad.protocol = "plonk".to_string();
    assert!(matches!(
        VerifyingKey::from_raw(&bad),
        Err(Groth16Error::WrongProtocol { .. })
    ));
}

#[test]
fn public_signals_are_decimal_scalars() {
    let items = vec!["0".to_string(), "42".to_string()];
    let s = parse_public_signals(&items).expect("scalars");
    assert_eq!(s.len(), 2);
    assert_eq!(s[1].to_decimal(), "42");
    let bad = vec!["5".to_string(), "abc".to_string()];
    assert_eq!(
        parse_public_signals(&bad).err(),
        Some(Groth16Error::NotScalar { raw: "abc".to_string() })
    );
}

#[test]
fn the_pairing_check_accepts_exactly_the_matching_signal() {
    let vk = VerifyingKey::from_raw(&key(vec![g1("1", "2"), g1("1", "2")])).expect("a key");
    let p = Proof::from_raw(&raw_proof()).expect("a proof");
    let zero = parse_public_signals(&["0".to_string()]).unwrap();
    let one = parse_public_signals(&["1".to_string()]).unwrap();
    assert_eq!(verify(&vk, &zero, &p), Ok(true));
    assert_eq!(verify(&vk, &one, &p), Ok(false));
    assert_eq!(verify(&vk, &[], &p), Err(Groth16Error::SignalCount { expected: 1, got: 0 }));
}
