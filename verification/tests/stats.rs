use lead_build::path::VirtPath;
use lead_build::stats::NinjaFileStats;

#[test]
fn stats_summary_of_nothing_says_none() {
    let stats = NinjaFileStats::default();
    assert_eq!(
        stats.log_summary(),
        vec!["stats rules added:", "  <none>", "stats outputs added:", "  <none>"]
    );
}

#[test]
fn stats_rules_are_listed_by_count_then_name() {
    let mut stats = NinjaFileStats::default();
    stats.record_rule_addition("cc");
    stats.record_rule_addition("link");
    stats.record_rule_addition("ar");
    stats.record_rule_addition("link");
    stats.record_rule_addition("cc");
    stats.record_rule_addition("cc");
    let lines = stats.log_summary();
    assert_eq!(
        lines,
        vec![
            "stats rules added:",
            "     count | rule",
            "  ---------------",
            "         3 | cc",
            "         2 | link",
            "         1 | ar",
            "stats outputs added:",
            "  <none>",
        ]
    );
}

#[test]
fn stats_equal_counts_are_listed_by_name() {
    let mut stats = NinjaFileStats::default();
    stats.record_rule_addition("b");
    stats.record_rule_addition("c");
    stats.record_rule_addition("a");
    let lines = stats.log_summary();
    assert_eq!(&lines[3..6], &["         1 | a", "         1 | b", "         1 | c"]);
}

#[test]
fn stats_outputs_are_counted_per_path() {
    let mut stats = NinjaFileStats::default();
    let a = VirtPath::new("root").step("a.o").unwrap();
    let b = VirtPath::new("root").step("b.o").unwrap();
    stats.record_output_addition(&b);
    stats.record_output_addition(&a);
    stats.record_output_addition(&b);
    let lines = stats.log_summary();
    assert_eq!(lines[0], "stats rules added:");
    assert_eq!(lines[1], "  <none>");
    assert_eq!(lines[2], "stats outputs added:");
    assert_eq!(lines[3], "     count | output");
    assert_eq!(lines[4], "  -----------------");
    assert_eq!(lines[5], format!("         2 | {}", b.to_path_buf()));
    assert_eq!(lines[6], format!("         1 | {}", a.to_path_buf()));
    assert_eq!(lines.len(), 7);
}

#[test]
fn stats_counts_are_right_aligned() {
    let mut stats = NinjaFileStats::default();
    for _ in 0..789 {
        stats.record_rule_addition("x");
    }
    let lines = stats.log_summary();
    assert_eq!(lines[3], "       789 | x");
}
