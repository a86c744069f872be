use cft_bench::babyjub::{verify_poseidon, Point, Scalar, SecretKey, Signature};
use cft_bench::revocation::c4::{sign, tag_message, verify};
use cft_bench::revocation::link::{
    decrypt_recurring, keep_recurring, link_step, AuthorityScalars, LinkEntry, LinkError,
};
use cft_bench::revocation::pet::{
    binding, blinded_differences, check_integrity, combine, encrypt_bound, partial_decrypt, pet_inputs,
    revealed_ids, PetEntry,
};
use cft_bench::revocation::direct::{encrypt, open_direct, partial_shares, Cft, DirectError};
use cft_bench::revocation::mpc::Triangle;
use cft_bench::zk_friendly::field::{poseidon, Fe};

/// Little-endian bytes of a decimal numeral below 2^256.
fn decimal_le(text: &str) -> [u8; 32] {
    let mut out = [0u8; 32];
    for ch in text.chars() {
        let mut carry = ch.to_digit(10).expect("a digit");
        for byte in out.iter_mut() {
            let v = (*byte as u32) * 10 + carry;
            *byte = (v & 0xff) as u8;
            carry = v >> 8;
        }
        assert_eq!(carry, 0);
    }
    out
}

fn scalar(text: &str) -> Scalar {
    Scalar::from_le_bytes(decimal_le(text)).expect("below the order")
}

fn decimals(p: &Point) -> (String, String) {
    (p.x.to_decimal(), p.y.to_decimal())
}

fn public_key(sk: &Scalar) -> Point {
    SecretKey::from_scalar(*sk).public_key()
}

fn is_identity(p: &Point) -> bool {
    decimals(p) == ("0".to_string(), "1".to_string())
}

#[test]
fn babyjub_matches_circomlibjs() {
    let b8 = Point::base8();
    assert_eq!(
        decimals(&b8),
        (
            "5299619240641551281634865583518297030282874472190772894086521144482721001553".to_string(),
            "16950150798460657717958625567821834550301663161624707787222815936182638968203".to_string(),
        )
    );

    let k = scalar("1234567890123456789012345");
    let p = b8.mul(&k);
    assert_eq!(
        p.x.to_decimal(),
        "17084027705438691128279942923620192926581163627696297627213547159003096776489"
    );
    assert_eq!(
        p.y.to_decimal(),
        "3881444331700756826987030561315501339194664380148174259731173098087401857389"
    );

    let q = p.add(&b8);
    assert_eq!(
        q.x.to_decimal(),
        "4868890965890115361309652783356137926156731801348380780080109599608448123000"
    );
    assert_eq!(
        q.y.to_decimal(),
        "16387240194725096775186700164606574080407756875987493055581646965383765218740"
    );
}

#[test]
fn subgroup_order_matches_babyjub_order_constant() {
    let order = "2736030358979909402780800718157159386076813972158567259200215660948447373041";
    assert!(Scalar::from_le_bytes(decimal_le(order)).is_none());
    let below = "2736030358979909402780800718157159386076813972158567259200215660948447373040";
    assert!(Scalar::from_le_bytes(decimal_le(below)).is_some());
}

#[test]
fn identity_and_negation() {
    let b8 = Point::base8();
    let zero = Point { x: Fe::from_u64(0), y: Fe::from_u64(1) };
    assert!(b8.add(&zero).same(&b8));
    assert!(is_identity(&b8.sub(&b8)));
    assert!(is_identity(&b8.add(&b8.neg())));
    assert!(!b8.same(&b8.neg()));

    // Coordinates off the curve are accepted too.
    let odd = Point { x: Fe::from_u64(1), y: Fe::from_u64(1) };
    let _ = odd.add(&Point { x: Fe::from_u64(2), y: Fe::from_u64(5) });
    let _ = odd.mul(&scalar("3"));
}

#[test]
fn scalar_arithmetic() {
    let k = scalar("1234567890123456789012345");
    let inv = k.inverse().expect("non-zero");
    assert_eq!(inv.mul(&k).to_le_bytes(), decimal_le("1"));
    assert!(scalar("0").inverse().is_none());
    assert_eq!(Scalar::eight().to_le_bytes(), decimal_le("8"));
    assert_eq!(scalar("5").add(&scalar("7")).to_le_bytes(), decimal_le("12"));
    let top = scalar("2736030358979909402780800718157159386076813972158567259200215660948447373040");
    assert_eq!(top.add(&scalar("2")).to_le_bytes(), decimal_le("1"));
    // (k · 8) · k⁻¹ = 8
    assert_eq!(k.mul(&Scalar::eight()).mul(&inv).to_le_bytes(), decimal_le("8"));
    assert_eq!(Scalar::from_field(Fe::from_u64(99)).to_field().to_decimal(), "99");
}

#[test]
fn sign_verify_roundtrip() {
    let sk = scalar("987654321987654321");
    let nonce = scalar("123123123123123123123");
    let pk = public_key(&sk);
    let msg = Fe::from_u64(1234567890);

    let sig = SecretKey::from_scalar(sk).sign_poseidon(msg, &nonce);
    assert!(verify_poseidon(&pk, msg, &sig));
    assert!(!verify_poseidon(&pk, Fe::from_u64(1234567891), &sig));

    let other = public_key(&scalar("55555555555555555"));
    assert!(!verify_poseidon(&other, msg, &sig));
}

#[test]
fn public_key_is_the_base_times_the_key() {
    let sk = scalar("1234567890123456789012345");
    assert_eq!(SecretKey::from_scalar(sk).scalar(), sk);
    assert!(public_key(&sk).same(&Point::base8().mul(&sk)));
    assert!(!public_key(&sk).same(&Point::base8()));
}

/// Three authorities, their aggregate key, and `C1`, `C2`, `C3`, `D2` of
/// an encryption of `id` with randomness `r1`, `r2`.
struct World {
    keys: AuthorityScalars,
    pk_ag: Point,
}

fn world() -> World {
    let keys = AuthorityScalars {
        police: scalar("1111111111111111111"),
        judge: scalar("2222222222222222222"),
        ngo: scalar("3333333333333333333"),
    };
    let pk_ag = public_key(&keys.police).add(&public_key(&keys.judge)).add(&public_key(&keys.ngo));
    World { keys, pk_ag }
}

fn link_entry(w: &World, user: &Scalar, r1: &str, r2: &str, t: &str) -> LinkEntry {
    let (r1, r2, t) = (scalar(r1), scalar(r2), scalar(t));
    let id = public_key(user);
    let d2 = w.pk_ag.mul(&r2);
    LinkEntry {
        c2: Point::base8().mul(&r2),
        c4: sign(&SecretKey::from_scalar(*user), &t, &d2, &scalar("4242")),
        t,
        d1: Point::base8().mul(&r1),
        d3: id.add(&w.pk_ag.mul(&r1)),
    }
}

#[test]
fn c4_binding_checks_the_tag() {
    let w = world();
    let user = scalar("777");
    let e = link_entry(&w, &user, "11", "12", "13");
    let d2 = w.pk_ag.mul(&scalar("12"));
    assert!(verify(&public_key(&user), &scalar("13"), &d2, &e.c4));
    assert!(!verify(&public_key(&user), &scalar("14"), &d2, &e.c4));
    let tag = tag_message(&scalar("13"), &d2);
    assert!(verify_poseidon(&public_key(&user), tag, &e.c4));
    assert_ne!(tag.to_decimal(), tag_message(&scalar("14"), &d2).to_decimal());
    let forged = Signature { r8: e.c4.r8, s: e.c4.s.add(&scalar("1")) };
    assert!(!verify(&public_key(&user), &scalar("13"), &d2, &forged));
}

#[test]
fn link_decrypt_recovers_the_recurring_identity() {
    let w = world();
    let alice = scalar("1001");
    let bob = scalar("2002");
    let entries = vec![
        link_entry(&w, &alice, "21", "31", "41"),
        link_entry(&w, &bob, "22", "32", "42"),
        link_entry(&w, &alice, "23", "33", "43"),
        link_entry(&w, &alice, "24", "34", "44"),
    ];
    let blinds = [scalar("91"), scalar("92"), scalar("93")];
    let linked = link_step(&entries, &w.keys.police, &blinds[0]);
    let linked = link_step(&linked, &w.keys.judge, &blinds[1]);
    let linked = link_step(&linked, &w.keys.ngo, &blinds[2]);
    assert_eq!(linked.len(), 4);
    // Alice's three pseudonyms coincide once every authority has linked.
    assert!(linked[0].d3.same(&linked[2].d3));
    assert!(linked[0].d3.same(&linked[3].d3));
    assert!(!linked[0].d3.same(&linked[1].d3));

    let (kept, _) = keep_recurring(&linked, 2);
    assert_eq!(kept, vec![0, 2, 3]);
    let (kept, _) = keep_recurring(&linked, 1);
    assert_eq!(kept, vec![0, 1, 2, 3]);
    let (kept, _) = keep_recurring(&linked, 4);
    assert!(kept.is_empty());

    let opened = decrypt_recurring(&linked, &w.keys, &blinds, 2).expect("C4 holds");
    assert_eq!(opened.len(), 3);
    for (id, d2) in &opened {
        assert!(id.same(&public_key(&alice)));
        assert!(!d2.same(&Point::base8()));
    }
    assert!(opened[0].1.same(&w.pk_ag.mul(&scalar("31"))));
}

#[test]
fn link_decrypt_reports_the_first_broken_binding() {
    let w = world();
    let alice = scalar("1001");
    let mut entries = vec![
        link_entry(&w, &alice, "21", "31", "41"),
        link_entry(&w, &alice, "23", "33", "43"),
        link_entry(&w, &alice, "24", "34", "44"),
    ];
    entries[1].t = scalar("99");
    let blinds = [scalar("91"), scalar("92"), scalar("93")];
    let linked = link_step(&entries, &w.keys.police, &blinds[0]);
    let linked = link_step(&linked, &w.keys.judge, &blinds[1]);
    let linked = link_step(&linked, &w.keys.ngo, &blinds[2]);
    assert_eq!(
        decrypt_recurring(&linked, &w.keys, &blinds, 2),
        Err(LinkError::C4Failed { index: 1 })
    );
}

fn pet_entry(w: &World, user: &Scalar, r1: &str, r2: &str, t: &str) -> PetEntry {
    let (r1, r2, t) = (scalar(r1), scalar(r2), scalar(t));
    let id = public_key(user);
    let d2 = w.pk_ag.mul(&r2);
    let e = PetEntry {
        c1: Point::base8().mul(&r1),
        c2: Point::base8().mul(&r2),
        c3: id.add(&w.pk_ag.mul(&r1)),
        c4: poseidon(&[id.x, id.y, t.to_field(), d2.x, d2.y]),
        t,
    };
    let bound = encrypt_bound(&id, &w.pk_ag, &r1, &r2, &t);
    assert!(bound.c1.same(&e.c1) && bound.c2.same(&e.c2) && bound.c3.same(&e.c3));
    assert!(bound.c4.same_value(&e.c4));
    e
}

#[test]
fn pet_inputs_vanish_exactly_on_equal_identities() {
    let w = world();
    let alice = scalar("1001");
    let bob = scalar("2002");
    let entries = vec![
        pet_entry(&w, &alice, "21", "31", "41"),
        pet_entry(&w, &bob, "22", "32", "42"),
        pet_entry(&w, &alice, "23", "33", "43"),
    ];
    let blinds: Vec<Scalar> = (0..Triangle::<Point>::len(3))
        .map(|i| scalar(&(500 + i).to_string()))
        .collect();
    let (c1b, c3b) = blinded_differences(&entries, &blinds);
    assert_eq!(c1b.len(), 6);
    assert_eq!(c3b.len(), 6);
    // Slot 1 is the pair (0, 1).
    assert!(c1b[1].same(&entries[0].c1.sub(&entries[1].c1).mul(&blinds[1])));

    let police = partial_decrypt(&c1b, &w.keys.police);
    assert!(police[2].same(&c1b[2].mul(&w.keys.police)));
    let judge = partial_decrypt(&c1b, &w.keys.judge);
    let ngo = partial_decrypt(&c1b, &w.keys.ngo);
    let combined = combine(&c3b, &police, &judge, &ngo);
    assert!(combined[4].same(&c3b[4].sub(&police[4].add(&judge[4]).add(&ngo[4]))));

    let m = Triangle { n: 3, values: pet_inputs(&entries, &w.keys, &blinds) };
    assert!(m.values[5].same(&combined[5]));
    assert_eq!(m.values.len(), 6);
    for i in 0..3 {
        for j in i..3 {
            let same = i == j || (i == 0 && j == 2);
            assert_eq!(is_identity(&m.values[m.index(i, j)]), same, "pair ({i}, {j})");
        }
    }
}

#[test]
fn integrity_phase_counts_and_reveals() {
    let w = world();
    let alice = scalar("1001");
    let bob = scalar("2002");
    let mut entries = vec![
        pet_entry(&w, &alice, "21", "31", "41"),
        pet_entry(&w, &bob, "22", "32", "42"),
        pet_entry(&w, &alice, "23", "33", "43"),
        pet_entry(&w, &bob, "24", "34", "44"),
    ];
    let d2 = w.pk_ag.mul(&scalar("31"));
    let expected = binding(&public_key(&alice), &scalar("41"), &d2);
    assert!(expected.same_value(&entries[0].c4));
    let (ok, id) = check_integrity(&entries[0], &w.keys);
    assert!(ok);
    assert!(id.same(&public_key(&alice)));

    entries[3].c4 = Fe::from_u64(5);
    let (checked, failed, ids) = revealed_ids(&entries, &[true, false, true, true], &w.keys);
    assert_eq!((checked, failed), (3, 1));
    assert_eq!(ids.len(), 1);
    assert!(ids[0].same(&public_key(&alice)));

    let (checked, failed, ids) = revealed_ids(&entries, &[true, true, true], &w.keys);
    assert_eq!((checked, failed, ids.len()), (3, 0, 2));

    let (checked, failed, ids) = revealed_ids(&entries, &[], &w.keys);
    assert_eq!((checked, failed, ids.len()), (0, 0, 0));
}

fn cft(w: &World, user: &Scalar, r1: &str, r2: &str, t: &str) -> Cft {
    let user = SecretKey::from_scalar(*user);
    let c = encrypt(&user, &w.pk_ag, &scalar(r1), &scalar(r2), &scalar(t), &scalar("4242"));
    let e = link_entry(w, &user.scalar(), r1, r2, t);
    assert!(c.c1.same(&e.d1) && c.c2.same(&e.c2) && c.c3.same(&e.d3));
    assert_eq!(c.c4, e.c4);
    c
}

#[test]
fn direct_decrypt_opens_every_cft() {
    let w = world();
    let alice = scalar("1001");
    let bob = scalar("2002");
    let mut cfts = vec![
        cft(&w, &alice, "21", "31", "41"),
        cft(&w, &bob, "22", "32", "42"),
    ];
    let ngo = partial_shares(&cfts, &w.keys.ngo);
    assert!(ngo[1].0.same(&cfts[1].c1.mul(&w.keys.ngo)));
    assert!(ngo[1].1.same(&cfts[1].c2.mul(&w.keys.ngo)));
    let judge = partial_shares(&cfts, &w.keys.judge);
    let opened = open_direct(&cfts, &ngo, &judge, &w.keys.police).expect("C4 holds");
    assert!(opened[0].0.same(&public_key(&alice)));
    assert!(opened[1].0.same(&public_key(&bob)));
    assert!(opened[1].1.same(&w.pk_ag.mul(&scalar("32"))));

    cfts[1].t = scalar("7");
    assert_eq!(
        open_direct(&cfts, &ngo, &judge, &w.keys.police),
        Err(DirectError::C4Failed { index: 1 })
    );
}
