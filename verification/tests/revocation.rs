use cft_bench::revocation::cft::{retain_recurring, Timing};
use cft_bench::zk_friendly::field::Fe;
use cft_bench::revocation::csv::{escape, table_text, CsvError, Table};
use cft_bench::revocation::env::{usize_or, EnvError};
use cft_bench::revocation::experiment::{parse_usize_list, sizes_or_default, Benchmark, DEFAULT_RUNS};
use cft_bench::revocation::mpc::{
    any_failed, compiled_name, parse_predicates, parse_size_list, party_args, row_of_captures,
    PredicateError, Triangle,
};
use cft_bench::revocation::regenerate::{grid_groups, mpc_order, size_groups};
use cft_bench::revocation::paths::{mpc_dir, results_dir, with_suffix};
use cft_bench::revocation::stats::n_pairs;
use cft_bench::revocation::time::{iso8601_from_unix_millis, iso8601_now_for_filename};

#[test]
fn quotes_only_when_needed() {
    assert_eq!(escape("plain"), "plain");
    assert_eq!(escape("a,b"), "\"a,b\"");
    assert_eq!(escape("say \"hi\""), "\"say \"\"hi\"\"\"");
}

#[test]
fn quotes_line_breaks_too() {
    assert_eq!(escape("a\nb"), "\"a\nb\"");
    assert_eq!(escape(""), "");
}

#[test]
fn rendered_tables_parse_back() {
    let headers = vec![
        "benchmark".to_string(),
        "set_size".to_string(),
        "recurring_pct".to_string(),
    ];
    let rows = vec![vec!["direct-decrypt".to_string(), "10".to_string(), "50".to_string()]];
    let text = table_text(&headers, &rows);
    assert_eq!(text, "benchmark,set_size,recurring_pct\ndirect-decrypt,10,50\n");

    let table = Table::from_text(&text);
    assert_eq!(table.headers(), ["benchmark", "set_size", "recurring_pct"]);
    let records = table.rows();
    assert_eq!(records.len(), 1);
    let row = &records[0];
    assert_eq!(row.text(table.column("benchmark").unwrap()), "direct-decrypt");
    assert_eq!(row.parse::<u64>(1, "set_size").unwrap(), 10);
    assert_eq!(row.parse_opt::<usize>(2, "recurring_pct").unwrap(), Some(50));
    assert!(row.parse::<u64>(0, "benchmark").is_err());
    assert_eq!(
        table.column("nope"),
        Err(CsvError::MissingColumn("nope".to_string()))
    );
}

#[test]
fn blank_cells_read_as_absent() {
    let table = Table::from_text("a,b\n1,\n");
    let records = table.rows();
    assert_eq!(records[0].parse_opt::<u64>(1, "b").unwrap(), None);
    assert_eq!(records[0].parse_opt::<u64>(0, "a").unwrap(), Some(1));
}

#[test]
fn benchmark_names_roundtrip() {
    for b in Benchmark::ALL {
        assert_eq!(b.as_str().parse::<Benchmark>().unwrap(), b);
    }
    assert!("mpc-decrypt".parse::<Benchmark>().is_err());
}

#[test]
fn usize_lists_are_comma_separated() {
    assert_eq!(
        parse_usize_list(Some("10, 20,30".to_string()), "SIZES").unwrap(),
        Some(vec![10, 20, 30])
    );
    assert_eq!(parse_usize_list(None, "SIZES").unwrap(), None);
    assert!(parse_usize_list(Some("10,x".to_string()), "SIZES").is_err());
}

#[test]
fn environment_integers_fall_back_when_blank() {
    assert_eq!(usize_or(None, "N", 7), Ok(7));
    assert_eq!(usize_or(Some("  ".to_string()), "N", 7), Ok(7));
    assert_eq!(usize_or(Some(" 12 ".to_string()), "N", 7), Ok(12));
    assert_eq!(
        usize_or(Some(" 0 ".to_string()), "N", 7),
        Err(EnvError::NotAnInteger {
            name: "N".to_string(),
            raw: " 0 ".to_string()
        })
    );
    assert_eq!(
        usize_or(Some("-3".to_string()), "N", 7),
        Err(EnvError::NotAnInteger {
            name: "N".to_string(),
            raw: "-3".to_string()
        })
    );
}

#[test]
fn suffix_extends_the_file_name() {
    let p = with_suffix("/tmp/results/link-decrypt", "_runs.csv");
    assert_eq!(p, "/tmp/results/link-decrypt_runs.csv");
}

#[test]
fn results_and_mpc_sit_under_the_root() {
    assert_eq!(results_dir("/srv/revocation"), "/srv/revocation/results");
    assert_eq!(mpc_dir("/srv/revocation"), "/srv/revocation/mpc");
}

#[test]
fn formats_known_instants() {
    assert_eq!(iso8601_from_unix_millis(0), "1970-01-01T00:00:00.000Z");
    assert_eq!(
        iso8601_from_unix_millis(1_710_000_000_000),
        "2024-03-09T16:00:00.000Z"
    );
    assert_eq!(
        iso8601_from_unix_millis(1_709_164_800_123),
        "2024-02-29T00:00:00.123Z"
    );
}

#[test]
fn formats_instants_before_the_epoch() {
    assert_eq!(iso8601_from_unix_millis(-1), "1969-12-31T23:59:59.999Z");
}

#[test]
fn filename_form_has_no_colons() {
    assert!(!iso8601_now_for_filename().contains(':'));
}

#[test]
fn reads_predicate_rows() {
    let stdout = "noise\nrow_0=1\nrow_2=0\nrow_1=1\nmore noise\n";
    assert_eq!(parse_predicates(stdout, 3).unwrap(), [true, true, false]);
    assert!(parse_predicates(stdout, 4).is_err());
}

#[test]
fn missing_predicate_rows_are_counted() {
    assert_eq!(
        parse_predicates("row_0=1\n", 2),
        Err(PredicateError::MissingRows(2))
    );
}

#[test]
fn triangle_offsets_follow_the_rows() {
    assert_eq!(Triangle::<u8>::len(4), 10);
    let t: Triangle<u8> = Triangle::with_capacity(4);
    assert_eq!(t.index(0, 0), 0);
    assert_eq!(t.index(0, 3), 3);
    assert_eq!(t.index(1, 1), 4);
    assert_eq!(t.index(3, 3), 9);
}

#[test]
fn pairs_of_a_set() {
    assert_eq!(n_pairs(4), 6);
    assert_eq!(n_pairs(0), 0);
}

#[test]
fn programs_are_named_by_their_arguments() {
    assert_eq!(
        compiled_name("pet", &["10".to_string(), "3".to_string()]),
        "pet-10-3"
    );
    assert_eq!(compiled_name("pet", &[]), "pet");
    assert_eq!(
        party_args(3, 1, "pet-10-3"),
        vec!["-v", "-N", "3", "-p", "1", "pet-10-3"]
    );
    assert!(any_failed(&[0, 1, 0]));
    assert!(!any_failed(&[0, 0]));
}

#[test]
fn size_lists_split_on_commas_and_whitespace() {
    assert_eq!(parse_size_list("10,20 50\t100\n8000"), vec![10, 20, 50, 100, 8000]);
    assert_eq!(parse_size_list(" 10,, x, 0, -3, 7 "), vec![10, 7]);
    assert_eq!(parse_size_list(""), Vec::<usize>::new());
    assert_eq!(parse_size_list("+5 99999999999999999999999"), vec![5]);
}

#[test]
fn grid_rows_group_by_size_then_percentage() {
    let sizes = [20u64, 10, 20, 10, 10];
    let pcts = [Some(10i64), Some(50), Some(10), None, Some(50)];
    let groups = grid_groups(&sizes, &pcts);
    let keys: Vec<(u64, i64)> = groups.iter().map(|g| (g.set_size, g.pct)).collect();
    assert_eq!(keys, vec![(10, 50), (20, 10)]);
    assert_eq!(groups[0].rows, vec![1, 4]);
    assert_eq!(groups[1].rows, vec![0, 2]);
}

#[test]
fn mpc_rows_group_by_size_alone() {
    let groups = size_groups(&[100, 10, 100, 50]);
    let keys: Vec<(u64, i64)> = groups.iter().map(|g| (g.set_size, g.pct)).collect();
    assert_eq!(keys, vec![(10, 0), (50, 0), (100, 0)]);
    assert_eq!(groups[2].rows, vec![0, 2]);
}

#[test]
fn mpc_rows_sort_by_size_then_run_stably() {
    let sizes = [100u64, 10, 100, 10, 10];
    let runs = [1u64, 2, 0, 1, 1];
    assert_eq!(mpc_order(&sizes, &runs), vec![3, 4, 1, 2, 0]);
    assert_eq!(mpc_order(&[], &[]), Vec::<usize>::new());
}

#[test]
fn total_is_link_plus_decrypt() {
    let t = Timing {
        n: 10,
        n_after_filter: 4,
        pid_threshold: Some(2),
        ngo: 5,
        judge: 6,
        police: 7,
        link: 1_000,
        decrypt: 2_500,
    };
    assert_eq!(t.total(), 3_500);
}

#[test]
fn captured_rows_give_index_and_value() {
    let groups = |v: &[&str]| Some(v.iter().map(|s| s.to_string()).collect::<Vec<_>>());
    assert_eq!(row_of_captures(groups(&["12", "1"])), Ok(Some((12, true))));
    assert_eq!(row_of_captures(groups(&["3", "0"])), Ok(Some((3, false))));
    assert_eq!(row_of_captures(None), Ok(None));
    assert_eq!(
        row_of_captures(groups(&["99999999999999999999999", "1"])),
        Err(PredicateError::RowIndex("99999999999999999999999".to_string()))
    );
}

#[test]
fn recurring_pseudonyms_are_kept_in_order() {
    let p = |x: u64, y: u64| (Fe::from_u64(x), Fe::from_u64(y));
    let pids = [p(1, 2), p(3, 4), p(1, 2), p(5, 6), p(1, 2), p(3, 4), p(1, 3)];
    assert_eq!(retain_recurring(&pids, 2), vec![0, 1, 2, 4, 5]);
    assert_eq!(retain_recurring(&pids, 3), vec![0, 2, 4]);
    assert_eq!(retain_recurring(&pids, 1), vec![0, 1, 2, 3, 4, 5, 6]);
    assert_eq!(retain_recurring(&pids, 0), vec![0, 1, 2, 3, 4, 5, 6]);
    assert_eq!(retain_recurring(&pids, 4), Vec::<usize>::new());
    assert_eq!(retain_recurring(&[], 2), Vec::<usize>::new());
    // Elements sharing their low bytes still count apart.
    let far = [p(1, 2), p(1 + (1 << 16), 2), p(1, 2)];
    assert_eq!(retain_recurring(&far, 2), vec![0, 2]);
}

#[test]
fn experiment_defaults_match_the_documented_sweep() {
    assert_eq!(
        sizes_or_default(None),
        vec![10, 20, 50, 100, 500, 1000, 2000, 4000, 8000]
    );
    assert_eq!(sizes_or_default(Some(vec![100, 500])), vec![100, 500]);
    assert_eq!(DEFAULT_RUNS, 10);
}
