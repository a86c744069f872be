use cft_bench::standard::cli::{Iterations, Metric};
use cft_bench::standard::driver::Bench;
use cft_bench::standard::gbench::{base_name, report_span, ReportSpan};
use cft_bench::standard::merkle_vs_flat::{
    bench_name_from_captures, combined_key, default_filter, grid_points, metric_column, parse_bench_name, regex_alternation,
    split_key, BenchName, Kind, Mode,
};
use cft_bench::standard::paths::{default_bin_path, longfellow_root, repo_root};
use cft_bench::standard::revocation::{packed_merkle_depth, revocation_filter, scale_from_bench_name};
use cft_bench::standard::runner::{resolve_artifacts_dir, resolve_bin, Gbench};

#[test]
fn alternation_puts_longer_literals_first() {
    assert_eq!(regex_alternation(&[1, 2, 4, 8, 16]), "16|8|4|2|1");
    assert_eq!(regex_alternation(&[8, 16, 32, 64]), "64|32|16|8");
}

#[test]
fn parses_combined_and_split_names() {
    let combined = parse_bench_name("BM_AttrSigCombined_Merkle/32/8").unwrap();
    assert_eq!(combined.kind, Kind::Combined);
    assert_eq!(combined.mode, Mode::Merkle);
    assert_eq!((combined.n, combined.k), (32, 8));

    let prover = parse_bench_name("BM_AttrSigProver_Flat/16/4").unwrap();
    assert_eq!(prover.kind, Kind::Prover);
    assert_eq!(prover.mode, Mode::Flat);

    let verifier = parse_bench_name("BM_AttrSigVerifier_Merkle/8/1").unwrap();
    assert_eq!(verifier.kind, Kind::Verifier);

    assert!(parse_bench_name("BM_Something_Else/1/2").is_none());
}

#[test]
fn bench_names_need_two_counts_and_a_known_mode() {
    assert!(parse_bench_name("BM_AttrSigCombined_Merkle/32").is_none());
    assert!(parse_bench_name("BM_AttrSigCombined_Merkle/32/8/1").is_none());
    assert!(parse_bench_name("BM_AttrSigCombined_Tree/32/8").is_none());
    assert!(parse_bench_name("BM_AttrSigCombined_Flat/+3/8").is_none());
    assert!(parse_bench_name("BM_AttrSigCombined_Flat//8").is_none());
    assert!(parse_bench_name("BM_AttrSigCombined_Flat/99999999999999999999/8").is_none());
    let leading_zero = parse_bench_name("BM_AttrSigCombined_Flat/008/01").unwrap();
    assert_eq!((leading_zero.n, leading_zero.k), (8, 1));
}

#[test]
fn grids_skip_points_where_k_exceeds_n() {
    let points = grid_points(&[8], &[1, 16]);
    assert_eq!(points, vec![(8, 1)]);
    let points = grid_points(&[8, 16], &[1, 16]);
    assert_eq!(points, vec![(8, 1), (16, 1), (16, 16)]);
}

#[test]
fn rows_are_matched_to_requested_points() {
    let totals = [8, 16];
    let used = [1, 4];
    assert_eq!(
        combined_key("BM_AttrSigCombined_Flat/16/4/repetition:2", &totals, &used),
        Some((Mode::Flat, 16, 4))
    );
    assert_eq!(combined_key("BM_AttrSigCombined_Flat/32/4", &totals, &used), None);
    assert_eq!(combined_key("BM_AttrSigProver_Flat/16/4", &totals, &used), None);
    assert_eq!(
        split_key("BM_AttrSigVerifier_Merkle/8/1", &totals, &used),
        Some((Kind::Verifier, Mode::Merkle, 8, 1))
    );
    assert_eq!(split_key("BM_AttrSigCombined_Merkle/8/1", &totals, &used), None);
}

#[test]
fn default_filter_lists_every_requested_count() {
    assert_eq!(
        default_filter(&[8, 16, 32, 64], &[1, 2, 4, 8, 16]),
        "BM_AttrSigCombined_(Flat|Merkle)/(64|32|16|8)/(16|8|4|2|1)$"
    );
}

#[test]
fn metric_column_reads_cpu_only_for_cpu_time() {
    assert_eq!(metric_column(Metric::CpuTime), "cpu_time");
    assert_eq!(metric_column(Metric::RealTime), "real_time");
    assert_eq!(metric_column(Metric::Both), "real_time");
}

#[test]
fn bench_prove_verify_revocation_depth_matches_the_recorded_scales() {
    assert_eq!(packed_merkle_depth(12), 5);
    assert_eq!(packed_merkle_depth(16), 9);
    assert_eq!(packed_merkle_depth(20), 13);
    assert_eq!(packed_merkle_depth(24), 17);
}

#[test]
fn scale_is_read_from_the_benchmark_name() {
    assert_eq!(
        scale_from_bench_name("BM_ProveVerifyRevocationCombined_Packed_P256/16"),
        Some(16)
    );
    assert_eq!(scale_from_bench_name("BM_NoScale"), None);
}

#[test]
fn revocation_filter_keeps_the_given_order() {
    assert_eq!(
        revocation_filter(&[12, 16, 20, 24]),
        "BM_ProveVerifyRevocationCombined_Packed_P256/(12|16|20|24)"
    );
}

#[test]
fn iterations_accept_auto_and_zero() {
    assert_eq!("auto".parse::<Iterations>(), Ok(Iterations(None)));
    assert_eq!("AUTO".parse::<Iterations>(), Ok(Iterations(None)));
    assert_eq!("0".parse::<Iterations>(), Ok(Iterations(None)));
    assert_eq!("4".parse::<Iterations>(), Ok(Iterations(Some(4))));
    assert!("-1".parse::<Iterations>().is_err());
    assert!("many".parse::<Iterations>().is_err());
}

#[test]
fn metric_selects_columns() {
    assert!(Metric::Both.wants_cpu() && Metric::Both.wants_real());
    assert!(Metric::CpuTime.wants_cpu() && !Metric::CpuTime.wants_real());
    assert!(!Metric::RealTime.wants_cpu() && Metric::RealTime.wants_real());
}

#[test]
fn base_name_strips_only_a_repetition_suffix() {
    assert_eq!(base_name("BM_X/repetition:3"), "BM_X");
    assert_eq!(base_name("BM_X_repetition_12"), "BM_X");
    assert_eq!(base_name("BM_X/12"), "BM_X/12");
    assert_eq!(base_name("BM_X"), "BM_X");
}

#[test]
fn warmup_forces_a_single_repetition() {
    let bench = Gbench {
        bin: "/bin/true".to_string(),
        base_args: vec![
            "--benchmark_filter=BM_X".into(),
            "--benchmark_repetitions=10".into(),
        ],
    };
    let args = bench.args_with("/tmp/out.json", Some(1));
    assert!(args.contains(&"--benchmark_repetitions=1".to_string()));
    assert!(args.contains(&"--benchmark_filter=BM_X".to_string()));
    assert!(args.contains(&"--benchmark_out=/tmp/out.json".to_string()));
}

#[test]
fn measured_keeps_the_configured_repetitions() {
    let bench = Gbench {
        bin: "/bin/true".to_string(),
        base_args: vec!["--benchmark_repetitions=10".into()],
    };
    let args = bench.args_with("/tmp/out.json", None);
    assert!(args.contains(&"--benchmark_repetitions=10".to_string()));
}

#[test]
fn base_args_carry_every_shared_flag() {
    let bench = Gbench::new("/bin/true".to_string(), "BM_X", 7, "0.05s", Some(3));
    assert_eq!(
        bench.base_args,
        vec![
            "--benchmark_filter=BM_X",
            "--benchmark_repetitions=7",
            "--benchmark_report_aggregates_only=false",
            "--benchmark_display_aggregates_only=false",
            "--benchmark_min_time=0.05s",
            "--benchmark_iterations=3",
        ]
    );
    let adaptive = Gbench::new("/bin/true".to_string(), "BM_X", 7, "0.05", None);
    assert_eq!(adaptive.base_args.len(), 5);
    let args = adaptive.args_with("/tmp/o.json", None);
    assert_eq!(
        &args[5..],
        [
            "--benchmark_format=console",
            "--benchmark_out=/tmp/o.json",
            "--benchmark_out_format=json"
        ]
    );
}

#[test]
fn binary_resolution_prefers_flag_then_environment_then_default() {
    let flag = resolve_bin(
        Some("/opt/flag".into()),
        vec![Some("/opt/env".into())],
        "/opt/default".into(),
        true,
    );
    assert_eq!(flag.ok(), Some("/opt/flag".to_string()));
    let env = resolve_bin(
        None,
        vec![Some(String::new()), Some("/opt/env".into())],
        "/opt/default".into(),
        true,
    );
    assert_eq!(env.ok(), Some("/opt/env".to_string()));
    let default = resolve_bin(None, vec![None], "/opt/default".into(), true);
    assert_eq!(default.ok(), Some("/opt/default".to_string()));
    let missing = resolve_bin(None, vec![None], "/opt/default".into(), false);
    assert_eq!(missing.err().unwrap().default_path, "/opt/default");
}

#[test]
fn artifacts_dir_follows_flag_environment_and_default() {
    assert_eq!(
        resolve_artifacts_dir(Some("/abs".into()), Some("/cwd".into()), None, "/root", "b", "sub"),
        "/abs"
    );
    assert_eq!(
        resolve_artifacts_dir(Some("rel".into()), Some("/cwd".into()), None, "/root", "b", "sub"),
        "/cwd/rel"
    );
    assert_eq!(
        resolve_artifacts_dir(None, None, Some("out".into()), "/root", "b", "sub"),
        "/root/out"
    );
    assert_eq!(
        resolve_artifacts_dir(None, None, Some(String::new()), "/root", "b", "sub"),
        "/root/b/sub"
    );
}

#[test]
fn longfellow_tree_is_searched_in_order() {
    assert_eq!(repo_root("/a/b/c/d/e"), "/a/b");
    assert_eq!(repo_root("x"), "x");
    assert_eq!(longfellow_root(Some("/lf".into()), "/a/b/c/d", &[true, true, true]), "/lf");
    assert_eq!(
        longfellow_root(None, "/a/b/c/d", &[false, false, true]),
        "/a/prove-verify/standard/longfellow-zk"
    );
    assert_eq!(longfellow_root(None, "/a/b/c/d", &[false, true, true]), "/a/b/c/d");
    assert_eq!(longfellow_root(None, "/a/b/c/d", &[false, false, false]), "/a/b/c/d");
    assert_eq!(
        default_bin_path("/lf", "t"),
        "/lf/clang-build-release/circuits/tests/ec/t"
    );
}

#[test]
fn filter_comes_from_flag_environment_or_default() {
    let bench = Bench {
        backend: "b",
        variant: "v",
        default_filter: "BM_Default",
        test_name: "t",
        bin_env: &["X"],
        bench_dir: "d",
        artifacts_subdir: "a",
    };
    assert_eq!(bench.filter(Some("F".into()), Some("E".into())), "F");
    assert_eq!(bench.filter(None, Some("E".into())), "E");
    assert_eq!(bench.filter(None, Some(String::new())), "BM_Default");
    assert_eq!(bench.filter(None, None), "BM_Default");
}

#[test]
fn report_span_runs_from_first_brace_to_last() {
    let text: Vec<char> = "log {\"a\": {}} tail".chars().collect();
    assert_eq!(report_span(&text), ReportSpan::Object { start: 4, end: 12 });
    let none: Vec<char> = "no json here".chars().collect();
    assert_eq!(report_span(&none), ReportSpan::NoObject);
    let open_only: Vec<char> = "{ unterminated".chars().collect();
    assert_eq!(report_span(&open_only), ReportSpan::NoObject);
    let reversed: Vec<char> = "} then {".chars().collect();
    assert_eq!(report_span(&reversed), ReportSpan::Malformed);
}

fn groups(v: &[&str]) -> Option<Vec<String>> {
    Some(v.iter().map(|s| s.to_string()).collect())
}

#[test]
fn captured_names_read_as_points() {
    assert_eq!(
        bench_name_from_captures(groups(&["Merkle", "16", "4"]), None),
        Some(BenchName { kind: Kind::Combined, mode: Mode::Merkle, n: 16, k: 4 })
    );
    assert_eq!(
        bench_name_from_captures(None, groups(&["Verifier", "Flat", "8", "2"])),
        Some(BenchName { kind: Kind::Verifier, mode: Mode::Flat, n: 8, k: 2 })
    );
    // A combined match decides, even when its count does not fit.
    assert_eq!(
        bench_name_from_captures(
            groups(&["Flat", "99999999999999999999999", "1"]),
            groups(&["Prover", "Flat", "1", "1"])
        ),
        None
    );
    assert_eq!(bench_name_from_captures(None, None), None);
}
