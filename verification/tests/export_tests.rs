use joulex::export::asciidoc::AsciidocExporter;
use joulex::export::csv::{csv_document, parameter_columns, sanitize_csv_value, CsvExporter};
use joulex::export::html::escape_html;
use joulex::export::markdown::MarkdownExporter;
use joulex::export::markup::Alignment;
use joulex::export::metadata::{format_rfc3339_utc, linux_cpu_model, parse_labels};
use joulex::export::orgmode::OrgmodeExporter;
use joulex::util::units::Unit;
use joulex::export::markup::ResultRow;
use joulex::export::runs::{iteration_numbers, runs_table, RunColumns};
use joulex::export::target::{export_target, export_type_from_extension, writes_now, ExportTarget, ExportType};
use joulex::benchmark::benchmark_result::OmittedRun;

/// Check Asciidoc-based data row formatting
#[test]
fn test_asciidoc_exporter_table_data() {
    let exporter = AsciidocExporter::default();
    let data = vec!["a", "b", "c"];

    let actual = exporter.table_row(&data);
    let expect = "\n| a \n| b \n| c \n";

    assert_eq!(expect, actual);
}

/// Check Asciidoc-based table header formatting
#[test]
fn test_asciidoc_exporter_table_header() {
    let exporter = AsciidocExporter::default();
    let cells_alignment = [Alignment::Left, Alignment::Right, Alignment::Right, Alignment::Right, Alignment::Right];

    let actual = exporter.table_header(&cells_alignment);
    let expect = "[cols=\"<,>,>,>,>\"]\n|===";

    assert_eq!(expect, actual);
}

/// Commands must not be able to close the monospace span or the table cell
#[test]
fn test_asciidoc_command_escaping() {
    let exporter = AsciidocExporter::default();

    assert_eq!(exporter.command("sleep 1"), "`sleep 1`");
    assert_eq!(exporter.command("x`y|z"), "`x{backtick}y{vbar}z`");
}

#[test]
fn test_sanitize_csv_value() {
    // Values that begin with formula characters should be prefixed with a single quote
    assert_eq!(sanitize_csv_value("=cmd|' /C calc'!A0").as_bytes(), b"'=cmd|' /C calc'!A0".as_slice());
    assert_eq!(sanitize_csv_value("+1+1").as_bytes(), b"'+1+1".as_slice());
    assert_eq!(sanitize_csv_value("-1+1").as_bytes(), b"'-1+1".as_slice());
    assert_eq!(sanitize_csv_value("@SUM(A1:A5)").as_bytes(), b"'@SUM(A1:A5)".as_slice());
    assert_eq!(sanitize_csv_value("\tformula").as_bytes(), b"'\tformula".as_slice());
    assert_eq!(sanitize_csv_value("\rformula").as_bytes(), b"'\rformula".as_slice());

    // Safe values should pass through unchanged
    assert_eq!(sanitize_csv_value("echo hello").as_bytes(), "echo hello".as_bytes());
    assert_eq!(sanitize_csv_value("value").as_bytes(), b"value".as_slice());
    assert_eq!(sanitize_csv_value("").as_bytes(), b"".as_slice());
    assert_eq!(sanitize_csv_value("normal-param").as_bytes(), b"normal-param".as_slice());
}

#[test]
fn escapes_all_html_special_characters() {
    assert_eq!(escape_html(r#"<a href="x">'&'</a>"#), "&lt;a href=&quot;x&quot;&gt;&#39;&amp;&#39;&lt;/a&gt;");
}

#[test]
fn command_names_cannot_inject_markup() {
    let escaped = escape_html("<script>alert('x')</script>");
    assert!(!escaped.contains('<') && !escaped.contains('>') && !escaped.contains('\''));
}

/// Check Markdown-based data row formatting
#[test]
fn test_markdown_formatter_table_data() {
    let formatter = MarkdownExporter::default();

    assert_eq!(formatter.table_row(&["a", "b", "c"]), "| a | b | c |\n");
}

/// Check Markdown-based horizontal line formatting
#[test]
fn test_markdown_formatter_table_divider() {
    let formatter = MarkdownExporter::default();

    let divider = formatter.table_divider(&[Alignment::Left, Alignment::Right, Alignment::Left]);
    assert_eq!(divider, "|:---|---:|:---|\n");
}

/// Commands must not be able to close the code span or the table cell
#[test]
fn test_markdown_command_escaping() {
    let formatter = MarkdownExporter::default();

    assert_eq!(formatter.command("sleep 1"), "`sleep 1`");
    assert_eq!(formatter.command("a | b"), "`a \\| b`");
    assert_eq!(formatter.command("x`<img src=x onerror=alert(1)>`y"), "``x`<img src=x onerror=alert(1)>`y``");
    assert_eq!(formatter.command("a ``` b"), "````a ``` b````");
    assert_eq!(formatter.command("`start"), "`` `start ``");
}

/// Check Emacs org-mode data row formatting
#[test]
fn test_orgmode_formatter_table_data() {
    let exporter = OrgmodeExporter::default();

    let actual = exporter.table_row(&["a", "b", "c"]);
    let expect = "| a  |  b |  c |\n";

    assert_eq!(expect, actual);
}

/// Check Emacs org-mode horizontal line formatting
#[test]
fn test_orgmode_formatter_table_line() {
    let exporter = OrgmodeExporter::default();

    let actual = exporter.table_divider(&[
        Alignment::Left,
        Alignment::Left,
        Alignment::Left,
        Alignment::Left,
        Alignment::Left,
    ]);
    let expect = "|--+--+--+--+--|\n";

    assert_eq!(expect, actual);
}

/// Commands must not be able to close the verbatim markup or the table cell
#[test]
fn test_orgmode_command_escaping() {
    let exporter = OrgmodeExporter::default();

    assert_eq!(exporter.command("sleep 1"), "=sleep 1=");
    assert_eq!(exporter.command("a | b"), "a \\vert{} b");
    assert_eq!(exporter.command("x=1 y"), "x=1 y");
    assert_eq!(exporter.command(" padded"), " padded");
}

#[test]
fn formats_rfc3339() {
    assert_eq!(format_rfc3339_utc(0), "1970-01-01T00:00:00Z");
    assert_eq!(format_rfc3339_utc(951_782_400), "2000-02-29T00:00:00Z");
    assert_eq!(format_rfc3339_utc(1_790_000_000), "2026-09-21T14:13:20Z");
    assert_eq!(format_rfc3339_utc(4_102_444_799), "2099-12-31T23:59:59Z");
}

fn label<'a>(labels: &'a [(String, String)], key: &str) -> &'a str {
    labels.iter().find(|(k, _)| k == key).map(|(_, v)| v.as_str()).unwrap()
}

#[test]
fn parses_labels() {
    let labels = parse_labels(&["commit=abc123", "runner=graviton-3", "empty="]).unwrap();
    assert_eq!(label(&labels, "commit"), "abc123");
    assert_eq!(label(&labels, "runner"), "graviton-3");
    assert_eq!(label(&labels, "empty"), "");

    let labels = parse_labels(&["url=https://x.y/?a=b"]).unwrap();
    assert_eq!(label(&labels, "url"), "https://x.y/?a=b");
}

#[test]
fn rejects_invalid_labels() {
    assert!(parse_labels(&["novalue"]).is_err());
    assert!(parse_labels(&["=value"]).is_err());
    assert!(parse_labels(&["bad key=1"]).is_err());
    assert!(parse_labels(&["a=1", "a=2"]).is_err());
}

#[test]
fn labels_come_sorted_by_key() {
    let labels = parse_labels(&["zeta=1", "alpha=2", "mid=3"]).unwrap();
    let keys: Vec<&str> = labels.iter().map(|(k, _)| k.as_str()).collect();
    assert_eq!(keys, ["alpha", "mid", "zeta"]);
}

#[test]
fn test_linux_cpu_model() {
    let x86 = "processor\t: 0\nvendor_id\t: GenuineIntel\nmodel name\t: Intel(R) Core(TM) i7-8550U CPU @ 1.80GHz\n";
    assert_eq!(linux_cpu_model(x86, None).as_deref(), Some("Intel(R) Core(TM) i7-8550U CPU @ 1.80GHz"));

    // aarch64 (e.g. an AWS Graviton2): no model name
    let arm = "processor\t: 0\nBogoMIPS\t: 243.75\nCPU implementer\t: 0x41\nCPU architecture: 8\nCPU part\t: 0xd0c\n";
    assert_eq!(linux_cpu_model(arm, None).as_deref(), Some("ARM Neoverse-N1"));
    // A device-tree board model wins over the core name
    assert_eq!(
        linux_cpu_model(arm, Some("Raspberry Pi 4 Model B Rev 1.4\0")).as_deref(),
        Some("Raspberry Pi 4 Model B Rev 1.4")
    );
    // Apple Silicon under virtualization reports part 0x000
    let apple = "CPU implementer\t: 0x61\nCPU part\t: 0x000\n";
    assert_eq!(linux_cpu_model(apple, None).as_deref(), Some("Apple CPU (part 0x000)"));
    assert_eq!(linux_cpu_model("CPU implementer\t: 0x99\n", None).as_deref(), Some("ARM CPU (implementer 0x99)"));
    assert_eq!(linux_cpu_model("", None), None);
    assert_eq!(linux_cpu_model("", Some("\0")), None);
}

fn sample_rows() -> Vec<ResultRow> {
    vec![
        ResultRow {
            command: "sleep 1".to_string(),
            mean: "1.002 ± 0.001".to_string(),
            min: "1.000".to_string(),
            max: "1.004".to_string(),
            relative: "1.00".to_string(),
        },
        ResultRow {
            command: "a|b".to_string(),
            mean: "2.000".to_string(),
            min: "2.000".to_string(),
            max: "2.000".to_string(),
            relative: "2.00 ± 0.01".to_string(),
        },
    ]
}

#[test]
fn markdown_results_table() {
    let table = MarkdownExporter::default().table_results(&sample_rows(), Unit::Second);
    let expected = [
        "| Command | Mean [s] | Min [s] | Max [s] | Relative |\n",
        "|:---|---:|---:|---:|---:|\n",
        "| `sleep 1` | 1.002 ± 0.001 | 1.000 | 1.004 | 1.00 |\n",
        "| `a\\|b` | 2.000 | 2.000 | 2.000 | 2.00 ± 0.01 |\n",
    ]
    .concat();
    assert_eq!(table, expected);
}

#[test]
fn asciidoc_results_table() {
    let table = AsciidocExporter::default().table_results(&sample_rows()[..1], Unit::MilliSecond);
    assert_eq!(
        table,
        "[cols=\"<,>,>,>,>\"]\n|===\n| Command \n| Mean [ms] \n| Min [ms] \n| Max [ms] \n| Relative \n\n| `sleep 1` \n| 1.002 ± 0.001 \n| 1.000 \n| 1.004 \n| 1.00 \n|===\n"
    );
}

#[test]
fn orgmode_results_table() {
    let table = OrgmodeExporter::default().table_results(&sample_rows()[1..], Unit::MicroSecond);
    assert_eq!(
        table,
        "| Command  |  Mean [µs] |  Min [µs] |  Max [µs] |  Relative |\n|--+--+--+--+--|\n| a\\vert{}b  |  2.000 |  2.000 |  2.000 |  2.00 ± 0.01 |\n"
    );
}

#[test]
fn iteration_numbers_skip_removed_runs() {
    let omitted = vec![OmittedRun { index: 1, exit_code: Some(1) }];
    let discarded = vec![3];
    // 3 kept runs + 2 removed = 5 iterations: 0, 2, 4 were kept
    assert_eq!(iteration_numbers(&omitted, &discarded, 3), vec![0, 2, 4]);
    assert_eq!(iteration_numbers(&[], &[], 2), vec![0, 1]);
}

fn strs(values: &[&str]) -> Vec<String> {
    values.iter().map(|s| s.to_string()).collect()
}

#[test]
fn csv_columns_for_heterogeneous_parameters() {
    let exporter = CsvExporter::default();
    let params_a = vec![("alpha".to_string(), "val1".to_string())];
    let params_b = vec![("beta".to_string(), "val2".to_string())];
    let names = parameter_columns(&[params_a.clone(), params_b.clone()]);
    assert_eq!(names, strs(&["alpha", "beta"]));
    assert_eq!(
        exporter.header(&names).join(","),
        "command,mean,stddev,median,user,system,min,max,parameter_alpha,parameter_beta,relative_speed,relative_speed_stddev"
    );
    let numbers_a = strs(&["1", "0", "1", "0.5", "0.5", "1", "1"]);
    assert_eq!(exporter.row("cmd_a", &numbers_a, &params_a, &names, "1", "").join(","), "cmd_a,1,0,1,0.5,0.5,1,1,val1,,1,");
    let numbers_b = strs(&["2", "0", "2", "1", "1", "2", "2"]);
    assert_eq!(exporter.row("cmd_b", &numbers_b, &params_b, &names, "2", "").join(","), "cmd_b,2,0,2,1,1,2,2,,val2,2,");
}

#[test]
fn csv_cells_are_sanitized_and_labels_come_last() {
    let exporter = CsvExporter { labels: vec![("commit".to_string(), "=HYPERLINK()".to_string())] };
    let params = vec![("x".to_string(), "-1".to_string()), ("x".to_string(), "2".to_string())];
    let names = parameter_columns(&[params.clone(), vec![("x".to_string(), "3".to_string())]]);
    assert_eq!(names, strs(&["x"]));
    assert_eq!(exporter.header(&names).last().unwrap(), "label_commit");
    let row = exporter.row("@cmd", &strs(&["1", "0", "1", "1", "1", "1", "1"]), &params, &names, "1", "");
    assert_eq!(row[0], "'@cmd");
    assert_eq!(row[8], "'-1");
    assert_eq!(row.last().unwrap(), "'=HYPERLINK()");
}

#[test]
fn exports_to_stdout_and_special_files_wait_for_the_final_call() {
    let file = export_target("results.json");
    assert_eq!(file, ExportTarget::File("results.json".to_string()));
    assert_eq!(export_target("-"), ExportTarget::Stdout);
    assert!(writes_now(&file, true, false));
    assert!(!writes_now(&file, true, true));
    assert!(writes_now(&file, false, true));
    assert!(!writes_now(&ExportTarget::Stdout, true, false));
    assert!(writes_now(&ExportTarget::Stdout, false, false));
    assert_eq!(export_type_from_extension(Some("MD")), ExportType::Markdown);
    assert_eq!(export_type_from_extension(Some("adoc")), ExportType::Asciidoc);
    assert_eq!(export_type_from_extension(None), ExportType::Json);
}

fn strings(v: &[&str]) -> Vec<String> {
    v.iter().map(|s| s.to_string()).collect()
}

fn sleep_runs() -> RunColumns {
    RunColumns {
        wall: strings(&["100.0", "102.0", "98.0"]),
        user: Some(strings(&["1.0", "2.0", "1.0"])),
        system: Some(strings(&["2.0", "1.0", "2.0"])),
        memory: Some(vec![1_048_576, 1_048_576, 2_097_152]),
        energy: None,
        exit_codes: vec![Some(0), Some(0), Some(0)],
    }
}

fn markdown_runs(cmd: &str, header: &[String], rows: &[Vec<String>]) -> String {
    let md = MarkdownExporter::default();
    let align: Vec<Alignment> = header.iter().map(|_| Alignment::Right).collect();
    let mut t = md.heading(cmd);
    t.push_str(&md.table_header(&align));
    let h: Vec<&str> = header.iter().map(String::as_str).collect();
    t.push_str(&md.table_row(&h));
    t.push_str(&md.table_divider(&align));
    for row in rows {
        let r: Vec<&str> = row.iter().map(String::as_str).collect();
        t.push_str(&md.table_row(&r));
    }
    t.push_str(&md.table_footer(&align));
    t
}

#[test]
fn runs_table_has_a_row_per_run() {
    let (header, rows) = runs_table(&sleep_runs(), &[], &[], Unit::MilliSecond);
    assert_eq!(
        markdown_runs("sleep 0.1", &header, &rows),
        "### `sleep 0.1`\n\n\
         | Iteration | Wall [ms] | User [ms] | System [ms] | Peak memory | Exit code |\n\
         |---:|---:|---:|---:|---:|---:|\n\
         | 0 | 100.0 | 1.0 | 2.0 | 1.0 MB | 0 |\n\
         | 1 | 102.0 | 2.0 | 1.0 | 1.0 MB | 0 |\n\
         | 2 | 98.0 | 1.0 | 2.0 | 2.0 MB | 0 |\n"
    );
}

#[test]
fn runs_table_numbers_the_kept_runs_and_shows_complete_columns_only() {
    let mut c = sleep_runs();
    c.energy = Some(strings(&["0.5000", "0.6000", "0.7000"]));
    c.exit_codes = vec![Some(0), None, Some(-2)];
    let omitted = [OmittedRun { index: 1, exit_code: Some(1) }];
    let (header, rows) = runs_table(&c, &omitted, &[3], Unit::Second);
    assert_eq!(header, strings(&["Iteration", "Wall [s]", "User [s]", "System [s]", "Peak memory", "Energy [J]", "Exit code"]));
    assert_eq!(rows[1], strings(&["2", "102.0", "2.0", "1.0", "1.0 MB", "0.6000", "signal"]));
    assert_eq!(rows[2][0], "4");
    assert_eq!(rows[2][6], "-2");

    c.energy = Some(strings(&["0.5"]));
    c.user = None;
    let (header, rows) = runs_table(&c, &[], &[], Unit::Second);
    assert_eq!(header, strings(&["Iteration", "Wall [s]", "Peak memory", "Exit code"]));
    assert_eq!(rows[0], strings(&["0", "100.0", "1.0 MB", "0"]));
}

#[test]
fn csv_records_are_quoted_where_needed() {
    let records = vec![strings(&["command", "mean"]), strings(&["echo \"a,b\"", "1.5"]), strings(&["x\ny", ""])];
    let bytes = csv_document(&records);
    assert_eq!(String::from_utf8(bytes).unwrap(), "command,mean\n\"echo \"\"a,b\"\"\",1.5\n\"x\ny\",\n");
    assert!(csv_document(&Vec::new()).is_empty());
}
