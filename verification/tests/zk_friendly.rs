use cft_bench::zk_friendly::circom_codegen::{plan_circuit, source};
use cft_bench::zk_friendly::credential::{
    attr_claim_names, claim_name, credential_dates, days_ms, eighteen_years_ms, field_strings,
    flat_commitment, labels, no_cft_labels, point_strings, sample_claim_values, BASE_NOW_MS,
    NUM_ATTRS,
};
use cft_bench::zk_friendly::field::{poseidon, sha256_utf8_to_field, Fe};
use cft_bench::zk_friendly::merkle_vs_flat::{flat_circuit, merkle_circuit, Mode, Point};
use cft_bench::zk_friendly::paths::{bench_dir, powers_of_tau};
use cft_bench::zk_friendly::poseidon_merkle::{build_leaf, MerkleError, MerkleTree};
use cft_bench::zk_friendly::revocation_tree::{packed_leaf_count, packed_merkle_depth, PackedTree};
use cft_bench::zk_friendly::zk_common::{
    keeps_summary, keys_plan, make_command, source_file_name, up_to_date, Artifacts, Groth16Spec,
    IterArgs, KeysPlan, Output, Toolchain,
};

fn fe(v: u64) -> Fe {
    Fe::from_u64(v)
}

fn toolchain() -> Toolchain {
    Toolchain::new(
        "/bench".to_string(),
        "/stack",
        None,
        None,
        Some("/opt/rapidsnark/prover".to_string()),
        Some("  ".to_string()),
        None,
        false,
    )
}

#[test]
fn eighteen_years_matches_the_js_constant() {
    assert_eq!(eighteen_years_ms(), 568_036_800_000);
    assert_eq!(BASE_NOW_MS - eighteen_years_ms(), 1_141_963_200_000);
}

#[test]
fn credential_dates_are_relative_to_now() {
    let d = credential_dates();
    assert_eq!(d.max_birth_date_ms, 1_141_963_200_000);
    assert_eq!(d.birth_date_ms, 1_141_963_200_000 - 365 * 86_400_000);
    assert_eq!(d.valid_from_ms, BASE_NOW_MS - 86_400_000);
    assert_eq!(d.valid_until_ms, BASE_NOW_MS + days_ms(365));
    assert_eq!(labels().len(), NUM_ATTRS);
    assert_eq!(labels()[4], "birthDate");
}

#[test]
fn output_prefers_stderr_for_diagnostics() {
    let out = Output {
        ok: false,
        stdout: "some stdout".into(),
        stderr: "  ".into(),
    };
    assert_eq!(out.message(), "some stdout");

    let err = Output {
        ok: false,
        stdout: "some stdout".into(),
        stderr: "the real error".into(),
    };
    assert_eq!(err.message(), "the real error");
}

#[test]
fn spec_derives_sym_and_circuit_name() {
    let spec = Groth16Spec {
        circom_file: "./prove_verify.circom".into(),
        r1cs_file: "./generated/prove_verify.r1cs".into(),
        ptau_file: "../powersOfTau/pot19.ptau".into(),
        zkey_file: "./generated/circuit.zkey".into(),
        vkey_file: "./generated/vkey.json".into(),
        out_dir: "./generated".into(),
    };
    assert_eq!(spec.circuit_name(), "prove_verify");
    assert_eq!(spec.sym_file(), "./generated/prove_verify.sym");

    let zk = toolchain();
    let paths = zk.witness_paths(&spec);
    assert_eq!(paths.cpp_dir, "./generated/prove_verify_cpp");
    assert_eq!(paths.bin, "./generated/prove_verify_cpp/prove_verify");
    assert_eq!(paths.dat, "/bench/./generated/prove_verify_cpp/prove_verify.dat");

    let artifacts = Artifacts::of(&spec, paths.bin.clone());
    assert_eq!(artifacts.zkey, "./generated/circuit.zkey");
    assert_eq!(artifacts.vkey, "./generated/vkey.json");
    assert_eq!(artifacts.r1cs, "./generated/prove_verify.r1cs");

    let setup = zk.setup_command(&spec);
    assert_eq!(setup.program, "snarkjs");
    assert_eq!(
        setup.args,
        [
            "groth16",
            "setup",
            "./generated/prove_verify.r1cs",
            "../powersOfTau/pot19.ptau",
            "./generated/circuit.zkey"
        ]
    );
    let export = zk.export_vkey_command(&spec);
    assert_eq!(
        export.args,
        ["zkey", "export", "verificationkey", "./generated/circuit.zkey", "./generated/vkey.json"]
    );
}

#[test]
fn toolchain_settings_fall_back_to_path_names() {
    let zk = toolchain();
    assert_eq!(zk.circom, "circom");
    assert_eq!(zk.rapidsnark, "/opt/rapidsnark/prover");
    assert_eq!(zk.snarkjs, "snarkjs");
    assert_eq!(zk.circom_lib, "/stack/circom-libs");
    assert_eq!(zk.resolve("input.json"), "/bench/input.json");
    assert_eq!(zk.resolve("/abs/input.json"), "/abs/input.json");
    assert_eq!(zk.rapidsnark_file(), Some("/opt/rapidsnark/prover".to_string()));
    assert!(zk.ensure_rapidsnark(true).is_ok());
    assert!(zk.ensure_rapidsnark(false).is_err());

    let named = Toolchain::new(
        "/bench".to_string(),
        "/stack",
        Some("/bin/circom2".to_string()),
        Some("circom1".to_string()),
        None,
        None,
        Some("/libs".to_string()),
        true,
    );
    assert_eq!(named.circom, "/bin/circom2");
    assert_eq!(named.rapidsnark, "prover");
    assert_eq!(named.rapidsnark_file(), None);
    assert_eq!(named.circom_lib, "/libs");
}

#[test]
fn commands_carry_their_arguments() {
    let zk = toolchain();
    let compile = zk.circom_command("c.circom", "generated", false);
    assert_eq!(compile.program, "circom");
    assert_eq!(
        compile.args,
        ["c.circom", "--r1cs", "--sym", "-o", "generated", "-l", "/stack/circom-libs"]
    );
    let cpp = zk.circom_command("c.circom", "generated", true);
    assert_eq!(cpp.args[1..3], ["--c", "--no_asm"]);
    let witness = zk.witness_command("generated/c_cpp/c", "in.json", "w.wtns");
    assert_eq!(witness.program, "/bench/generated/c_cpp/c");
    assert_eq!(witness.args, ["in.json", "w.wtns"]);
    let prover = zk.prover_command("c.zkey", "w.wtns", "proof.json", "public.json");
    assert_eq!(prover.program, "/opt/rapidsnark/prover");
    assert_eq!(prover.args, ["c.zkey", "w.wtns", "proof.json", "public.json"]);
    let make = make_command("generated/c_cpp");
    assert_eq!(make.program, "make");
    assert_eq!(make.args, ["-C", "generated/c_cpp"]);
    assert_eq!(source_file_name("./dir/c.circom").unwrap(), "c.circom");
    assert!(source_file_name("/").is_err());
}

#[test]
fn iterations_are_described_with_their_warmup() {
    let with = IterArgs { n: 10, warmup: 2, verify_warmup: 0 };
    assert_eq!(with.describe(), "10 (+2 warmup discarded)");
    let without = IterArgs { n: 5, warmup: 0, verify_warmup: 3 };
    assert_eq!(without.describe(), "5");
}

#[test]
fn cached_artifacts_must_be_at_least_as_new() {
    assert!(up_to_date(Some(10), &[Some(10), Some(12)]));
    assert!(!up_to_date(Some(10), &[Some(9)]));
    assert!(!up_to_date(Some(10), &[None]));
    assert!(!up_to_date(None, &[Some(12)]));
    assert_eq!(keys_plan(true, true), KeysPlan::Cached);
    assert_eq!(keys_plan(true, false), KeysPlan::ExportVkey);
    assert_eq!(keys_plan(false, true), KeysPlan::Setup);
    assert!(keeps_summary("summary_latest.json"));
    assert!(!keeps_summary("summary_latest.txt"));
    assert!(!keeps_summary("proof.json"));
}

#[test]
fn source_carries_the_scale_constants() {
    let text = source(12, 253, 14);
    assert!(text.contains("var DEPTH = 12;"));
    assert!(text.contains("var BITS = 253;"));
    assert!(text.contains("var REVOC_SLOT = 14;"));
    assert!(text.contains("component main {public ["));
}

#[test]
fn planned_circuit_is_named_by_its_suffix() {
    let (generated, content) = plan_circuit(1 << 12, 253, 14, "_l12");
    assert_eq!(generated.merkle_depth, 5);
    assert_eq!(generated.file_name, "prove_verify_revocation_l12.circom");
    assert_eq!(content, source(5, 253, 14));
    assert!(content.starts_with("pragma circom 2.0.0;\n"));
    assert!(content.ends_with("]} = ProveVerifyRevocation();\n"));
}

#[test]
fn revocation_tree_depth_matches_the_recorded_scales() {
    assert_eq!(packed_merkle_depth(1 << 12, 253), 5);
    assert_eq!(packed_merkle_depth(1 << 16, 253), 9);
    assert_eq!(packed_merkle_depth(1 << 20, 253), 13);
    assert_eq!(packed_merkle_depth(1 << 24, 253), 17);
}

#[test]
fn leaf_count_is_the_next_power_of_two() {
    assert_eq!(packed_leaf_count(1 << 12, 253), 32);
    assert_eq!(packed_leaf_count(0, 253), 1);
    assert_eq!(packed_leaf_count(253, 253), 1);
    assert_eq!(packed_leaf_count(254, 253), 2);
    assert_eq!(packed_leaf_count(3 * 253 + 1, 253), 4);
}

#[test]
fn every_level_of_a_zero_tree_is_one_hash() {
    let tree = PackedTree::build(1 << 12, 253);
    assert_eq!(tree.depth, 5);

    let mut node = fe(0);
    for _ in 0..tree.depth {
        node = poseidon(&[node, node]);
    }
    assert_eq!(node, tree.root());
}

#[test]
fn packed_position_splits_index_into_leaf_and_bit() {
    let tree = PackedTree::build(1 << 12, 253);
    let proof = tree.proof_for(600);
    assert_eq!(proof.leaf_index, "2");
    assert_eq!(proof.bit_index, "94");
    assert_eq!(proof.leaf_value, "0");
    assert_eq!(proof.path_elements.len(), 5);
    assert_eq!(proof.path_indices, ["0", "1", "0", "0", "0"]);
    assert_eq!(proof.path_elements[0], "0");
    assert_eq!(proof.revocation_root, tree.root().to_decimal());
}

fn leaves(n: u64) -> Vec<Fe> {
    (0..n).map(|i| build_leaf(fe(i), fe(i * 7 + 1))).collect()
}

#[test]
fn rejects_non_power_of_two() {
    assert_eq!(
        MerkleTree::build(&leaves(6)).err(),
        Some(MerkleError::NotPowerOfTwo { count: 6 })
    );
    assert_eq!(MerkleTree::build(&[]).err(), Some(MerkleError::EmptyLeaves));
}

#[test]
fn proof_recomputes_the_root() {
    let leaves = leaves(8);
    let tree = MerkleTree::build(&leaves).unwrap();
    assert_eq!(tree.depth(), 3);

    for (index, leaf) in leaves.iter().enumerate() {
        let proof = tree.inclusion_proof(index, 3).unwrap();
        let mut node = *leaf;
        for (sibling, side) in proof.path_elements.iter().zip(&proof.path_indices) {
            node = if *side == 1 {
                poseidon(&[*sibling, node])
            } else {
                poseidon(&[node, *sibling])
            };
        }
        assert_eq!(node, tree.root());
    }
}

#[test]
fn proofs_check_index_and_depth() {
    let tree = MerkleTree::build(&leaves(4)).unwrap();
    assert_eq!(
        tree.inclusion_proof(4, 1).err(),
        Some(MerkleError::IndexOutOfRange { index: 4 })
    );
    assert_eq!(
        tree.inclusion_proof(0, 3).err(),
        Some(MerkleError::DepthOutOfRange { depth: 3, max: 2 })
    );
    assert_eq!(
        tree.inclusion_proof(0, 0).err(),
        Some(MerkleError::DepthOutOfRange { depth: 0, max: 2 })
    );
    let short = tree.inclusion_proof(3, 1).unwrap();
    assert_eq!(short.path_indices, [1]);
    assert_eq!(short.path_elements.len(), 1);
}

#[test]
fn leaves_hash_the_hashed_name_with_the_value() {
    let leaf = build_leaf(fe(3), fe(4));
    assert_eq!(leaf, poseidon(&[poseidon(&[fe(3)]), fe(4)]));
}

#[test]
fn matches_the_js_helper() {
    assert_eq!(
        sha256_utf8_to_field("birthDate").to_decimal(),
        "9983360410105296554386776852684647305244910782762386124785209477480273135523"
    );
    assert_eq!(
        sha256_utf8_to_field("IDx").to_decimal(),
        "12732709020872652360069269925832650377223872363138398435307608778311378246123"
    );
    assert_eq!(
        sha256_utf8_to_field("revocationIndex").to_decimal(),
        "556636330850170629258383134745417724444263682277322717598551509432075897268"
    );
}

#[test]
fn poseidon_matches_circomlibjs() {
    assert_eq!(
        poseidon(&[fe(1)]).to_decimal(),
        "18586133768512220936620570745912940619677854269274689475585506675881198879027"
    );
    assert_eq!(
        poseidon(&[fe(1), fe(2)]).to_decimal(),
        "7853200120776062878684798364095072458815029376092732009249414926327459813530"
    );
    assert_eq!(
        poseidon(&[fe(1), fe(2), fe(3)]).to_decimal(),
        "6542985608222806190361240322586112750744169038454362455181422643027100751666"
    );
    assert_eq!(
        poseidon(&[fe(1), fe(2), fe(3), fe(4), fe(5)]).to_decimal(),
        "6183221330272524995739186171720101788151706631170188140075976616310159254464"
    );
}

#[test]
fn small_elements_print_in_decimal() {
    assert_eq!(fe(0).to_decimal(), "0");
    assert_eq!(fe(1234567890123).to_decimal(), "1234567890123");
}

#[test]
fn claim_names_hash_the_label_digest() {
    assert_eq!(claim_name("IDx"), poseidon(&[sha256_utf8_to_field("IDx")]));
    let names = attr_claim_names(3);
    assert_eq!(names.len(), 3);
    assert_eq!(names[2], claim_name("attr_2"));
}

#[test]
fn flat_commitment_chains_every_claim() {
    let names = [fe(1), fe(2)];
    let values = [fe(3), fe(4)];
    let first = poseidon(&[fe(0), fe(1), fe(3)]);
    let second = poseidon(&[first, fe(2), fe(4)]);
    assert_eq!(flat_commitment(&names, &values), second);
    assert_eq!(flat_commitment(&[], &[]), fe(0));
}

#[test]
fn points_are_labelled_by_mode_and_counts() {
    let p = Point { mode: Mode::Merkle, total_attrs: 32, used_attrs: 4 };
    assert_eq!(p.label(), "merkle_t32_u4");
    let f = Point { mode: Mode::Flat, total_attrs: 8, used_attrs: 1 };
    assert_eq!(f.label(), "flat_t8_u1");
}

#[test]
fn merkle_circuit_checks_each_disclosed_claim() {
    let text = merkle_circuit(8, 2);
    assert!(text.starts_with("pragma circom 2.0.0;\n\ninclude \"circomlib/circuits/poseidon.circom\";\n"));
    assert!(text.contains("    signal input pathElements_1[3];\n"));
    assert!(text.contains("    component proofs[2];\n"));
    assert!(text.contains("    proofs[1] = MerkleClaimProof(3);\n"));
    assert!(text.contains("    for (var d = 0; d < 3; d++) {\n"));
    assert!(text.ends_with(
        "component main {public [root, claimName_0, claimName_1]} = CredentialMerkleBench();\n"
    ));
}

#[test]
fn flat_circuit_reveals_each_disclosed_claim() {
    let text = flat_circuit(16, 2);
    assert!(text.contains("    signal input claimNames[16];\n"));
    assert!(text.contains("    revealValue_1 === claimValues[1];\n"));
    assert!(text.contains("    signal acc[16 + 1];\n"));
    assert!(text.contains("    flatHash === acc[16];\n"));
    assert!(text.ends_with(
        "component main {public [flatHash, revealName_0, revealValue_0, revealName_1, revealValue_1]} = CredentialFlatBench();\n"
    ));
}

#[test]
fn benchmark_directories_sit_under_the_root() {
    assert_eq!(bench_dir("/zk", "merkle-vs-flat"), "/zk/merkle-vs-flat");
    assert_eq!(powers_of_tau("/zk"), "/zk/powersOfTau");
}

#[test]
fn field_elements_roundtrip_through_little_endian_bytes() {
    let x = Fe::from_u64(0x0102_0304_0506_0708);
    let bytes = x.to_le_bytes();
    assert_eq!(bytes[0], 0x08);
    assert_eq!(bytes[7], 0x01);
    assert!(bytes[8..].iter().all(|b| *b == 0));
    assert_eq!(Fe::from_le_bytes(bytes), Some(x));
    // 2^256 - 1 is not below the BN254 scalar modulus.
    assert_eq!(Fe::from_le_bytes([0xff; 32]), None);
}

#[test]
fn no_cft_labels_carry_the_hardware_key() {
    let with_cft = labels();
    let without = no_cft_labels();
    assert_eq!(without.len(), NUM_ATTRS);
    assert_eq!(without[14], "hwPkX");
    assert_eq!(without[15], "hwPkY");
    for i in (0..NUM_ATTRS).filter(|i| *i != 14 && *i != 15) {
        assert_eq!(without[i], with_cft[i]);
    }
}

#[test]
fn fields_print_as_decimal_strings() {
    assert_eq!(field_strings(&[Fe::from_u64(0), Fe::from_u64(42)]), vec!["0", "42"]);
    assert_eq!(point_strings(Fe::from_u64(7), Fe::from_u64(8)), ["7".to_string(), "8".to_string()]);
}

#[test]
fn sample_claims_fill_the_fixed_slots() {
    let dates = credential_dates();
    let v = sample_claim_values(&dates);
    assert_eq!(v.len(), NUM_ATTRS);
    assert_eq!(v[2], sha256_utf8_to_field("Alice"));
    assert_eq!(v[3], sha256_utf8_to_field("Doe"));
    assert_eq!(v[4], fe(dates.birth_date_ms));
    assert_eq!(v[5], fe(dates.valid_from_ms));
    assert_eq!(v[6], fe(dates.valid_until_ms));
    assert_eq!(v[7], sha256_utf8_to_field("Main Street"));
    assert_eq!((v[8], v[9]), (fe(12), fe(1000)));
    assert_eq!(v[10], sha256_utf8_to_field("Lausanne"));
    assert_eq!(v[11], sha256_utf8_to_field("VD"));
    assert_eq!(v[12], sha256_utf8_to_field("CH"));
    assert_eq!(v[13], v[11]);
    for slot in [0, 1, 14, 15, 16, 31] {
        assert_eq!(v[slot], fe(0));
    }
}

#[test]
fn named_specs_follow_the_usual_layout() {
    let spec = Groth16Spec::named("./pv.circom", "./generated", "pv", "../ptau/final.ptau");
    assert_eq!(spec.circom_file, "./pv.circom");
    assert_eq!(spec.r1cs_file, "./generated/pv.r1cs");
    assert_eq!(spec.zkey_file, "./generated/circuit-pv.zkey");
    assert_eq!(spec.vkey_file, "./generated/vkey-pv.json");
    assert_eq!(spec.ptau_file, "../ptau/final.ptau");
    assert_eq!(spec.out_dir, "./generated");
}

/// A decimal numeral below the modulus as a field element.
fn fe_dec(numeral: &str) -> Fe {
    let mut le = [0u8; 32];
    for d in numeral.bytes() {
        let mut carry = u32::from(d - b'0');
        for byte in le.iter_mut() {
            let v = u32::from(*byte) * 10 + carry;
            *byte = (v & 0xff) as u8;
            carry = v >> 8;
        }
        assert_eq!(carry, 0);
    }
    Fe::from_le_bytes(le).expect("below the modulus")
}

#[test]
fn matches_circomlibjs_on_wide_field_elements() {
    let inputs = [
        fe_dec("21888242871839275222246405745257275088548364400416034343698204186575808495616"),
        fe_dec("12345678901234567890"),
        fe(1),
        fe(0),
        fe_dec("99999999999999999999999999"),
    ];
    assert_eq!(
        poseidon(&inputs).to_decimal(),
        "8092119150866166796428442625361806364008550899680488400265480027463804218068"
    );
}

#[test]
fn resolving_twice_under_an_absolute_base_changes_nothing() {
    let zk = toolchain();
    for p in ["input.json", "generated/w.wtns", "/abs/input.json"] {
        let once = zk.resolve(p);
        assert!(once.starts_with('/'));
        assert_eq!(zk.resolve(&once), once);
    }
}

#[test]
fn same_value_compares_every_byte() {
    assert!(fe(7).same_value(&fe(7)));
    assert!(!fe(7).same_value(&fe(7 + (1 << 40))));
    assert_eq!(fe(7).digest(), fe(7 + (1 << 40)).digest());
    assert_eq!(fe(0x0102).digest(), 0x0201);
}
