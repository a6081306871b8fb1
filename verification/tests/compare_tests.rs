use joulex::compare::{change_arrow, compare, listing_row, markdown_table, terminal_table, verdict};

fn names(v: &[&str]) -> Vec<String> {
    v.iter().map(|s| s.to_string()).collect()
}

fn row(cells: [&str; 6]) -> [String; 6] {
    cells.map(|c| c.to_string())
}

#[test]
fn compare_matches_by_command_and_lists_new_and_removed() {
    let baseline = names(&["a", "gone"]);
    let current = names(&["a", "added"]);
    let c = compare(&baseline, &current);
    assert_eq!(c.pairs, vec![(0, 0)]);
    assert_eq!(c.new, vec![1]);
    assert_eq!(c.removed, vec![1]);
}

#[test]
fn compare_uses_the_last_baseline_result_of_a_name() {
    let baseline = names(&["x", "y", "x"]);
    let current = names(&["y", "x", "z", "x"]);
    let c = compare(&baseline, &current);
    assert_eq!(c.pairs, vec![(0, 1), (1, 2), (3, 2)]);
    assert_eq!(c.new, vec![2]);
    assert!(c.removed.is_empty());
}

#[test]
fn verdicts_and_arrows() {
    assert_eq!(verdict(true, true, true), "REGRESSION");
    assert_eq!(verdict(false, false, true), "~");
    assert_eq!(verdict(false, true, true), "slower");
    assert_eq!(verdict(false, true, false), "faster");
    assert_eq!(change_arrow(false, true), "");
    assert_eq!(change_arrow(true, true), " ▲");
    assert_eq!(change_arrow(true, false), " ▼");
}

#[test]
fn comparison_tables_escape_and_align() {
    let rows = vec![
        row(["a|b", "1.000 s ± 0.000", "1.500 s ± 0.000", "+50.0% ▲", "p < 0.001", "REGRESSION"]),
        listing_row("gone", "removed"),
    ];
    assert_eq!(
        markdown_table(&rows),
        "| Command | Baseline | Current | Change | Significance | |\n\
         |:---|---:|---:|---:|:---|:---|\n\
         | `a\\|b` | 1.000 s ± 0.000 | 1.500 s ± 0.000 | +50.0% ▲ | p < 0.001 | **REGRESSION** |\n\
         | `gone` |  |  |  |  | removed |\n"
    );

    let rows = vec![
        row(["a|b", "1.000 s ± 0.000", "1.500 s ± 0.000", "+50.0% ▲", "p < 0.001", "slower"]),
        listing_row("gone", "removed"),
    ];
    let terminal = terminal_table(&rows, "base.json");
    assert!(terminal.starts_with("Comparison with base.json\n"));
    let line = terminal.lines().find(|l| l.contains("a|b")).unwrap();
    assert!(line.contains("+50.0% ▲  p < 0.001"), "{terminal}");
    assert!(line.ends_with("slower"), "{terminal}");
    assert!(terminal.contains("gone"));
    assert_eq!(
        terminal,
        "Comparison with base.json\n  Command         Baseline          Current    Change  Significance\n  a|b      1.000 s ± 0.000  1.500 s ± 0.000  +50.0% ▲  p < 0.001     slower\n  gone                                                               removed\n"
    );
}

#[test]
fn listed_names_are_escaped() {
    let r = listing_row("a\x1bb", "new");
    assert_eq!(r[0], "a\\u{1b}b");
    assert_eq!(r[5], "new");
    assert!(r[1].is_empty() && r[4].is_empty());
}
