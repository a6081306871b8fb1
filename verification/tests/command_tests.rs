use joulex::benchmark::executor::BenchmarkIteration;
use joulex::command::{run_seed, Command, PerRunMode, PerRunParameters, RUN_SEED_MULTIPLIER};
use joulex::commands::{CommandArgs, Commands, CommandsError};
use joulex::parameter::{parse_parameter_scan, Number, ParameterScanError, ParameterValue};
use joulex::winsplit::split_windows_command_line;

fn args(commands: &[&str]) -> CommandArgs {
    CommandArgs {
        commands: commands.iter().map(|s| s.to_string()).collect(),
        ..Default::default()
    }
}

fn scan(name: &str, min: &str, max: &str) -> (String, String, String) {
    (name.to_string(), min.to_string(), max.to_string())
}

fn list(name: &str, values: &str) -> (String, String) {
    (name.to_string(), values.to_string())
}

fn lines_of(commands: &Commands) -> Vec<String> {
    commands.iter().map(|c| c.get_command_line()).collect()
}

fn error_text(r: Result<Commands, CommandsError>) -> String {
    match r {
        Ok(_) => panic!("expected an error"),
        Err(e) => e.message(),
    }
}

#[test]
fn test_get_command_line_nonoverlapping() {
    let cmd = Command::new_parametrized(
        None,
        "echo {foo} {bar}",
        vec![
            ("foo", ParameterValue::Text("{bar} baz".into())),
            ("bar", ParameterValue::Text("quux".into())),
        ],
    );
    assert_eq!(cmd.get_command_line(), "echo {bar} baz quux");
}

#[test]
fn test_get_parameterized_command_name() {
    let cmd = Command::new_parametrized(
        Some("name-{bar}-{foo}"),
        "echo {foo} {bar}",
        vec![
            ("foo", ParameterValue::Text("baz".into())),
            ("bar", ParameterValue::Text("quux".into())),
        ],
    );
    assert_eq!(cmd.get_name(), "name-quux-baz");
}

#[test]
fn test_build_commands_cross_product() {
    let mut a = args(&["echo {par1} {par2}", "printf '%s\n' {par1} {par2}"]);
    a.parameter_lists = vec![list("par1", "a,b"), list("par2", "z,y")];
    let result = Commands::from_args(&a).unwrap();

    // Iteration order: command list first, then parameters in listed order (here, "par1" before
    // "par2", which is distinct from their sorted order), with parameter values in listed order.
    let pv = |s: &str| ParameterValue::Text(s.to_string());
    let cmd = |cmd: usize, par1: &str, par2: &str| {
        let expression = ["echo {par1} {par2}", "printf '%s\n' {par1} {par2}"][cmd];
        let params = vec![("par1", pv(par1)), ("par2", pv(par2))];
        Command::new_parametrized(None, expression, params)
    };
    let expected = vec![
        cmd(0, "a", "z"),
        cmd(1, "a", "z"),
        cmd(0, "b", "z"),
        cmd(1, "b", "z"),
        cmd(0, "a", "y"),
        cmd(1, "a", "y"),
        cmd(0, "b", "y"),
        cmd(1, "b", "y"),
    ];
    assert_eq!(result.commands(), &expected);
}

#[test]
fn test_build_parameter_list_commands() {
    let mut a = args(&["echo {foo}"]);
    a.parameter_lists = vec![list("foo", "1,2")];
    a.command_names = vec!["name-{foo}".to_string()];
    let commands = Commands::from_args(&a).unwrap();
    let commands = commands.commands();
    assert_eq!(commands.len(), 2);
    assert_eq!(commands[0].get_name(), "name-1");
    assert_eq!(commands[1].get_name(), "name-2");
    assert_eq!(commands[0].get_command_line(), "echo 1");
    assert_eq!(commands[1].get_command_line(), "echo 2");
}

#[test]
fn test_build_parameter_scan_commands() {
    let mut a = args(&["echo {val}"]);
    a.parameter_scans = vec![scan("val", "1", "2")];
    a.parameter_step_size = Some("1".to_string());
    a.command_names = vec!["name-{val}".to_string()];
    let commands = Commands::from_args(&a).unwrap();
    let commands = commands.commands();
    assert_eq!(commands.len(), 2);
    assert_eq!(commands[0].get_name(), "name-1");
    assert_eq!(commands[1].get_name(), "name-2");
    assert_eq!(commands[0].get_command_line(), "echo 1");
    assert_eq!(commands[1].get_command_line(), "echo 2");
}

#[test]
fn test_build_parameter_scan_commands_named() {
    let mut a = args(&["echo {val}", "sleep {val}"]);
    a.parameter_scans = vec![scan("val", "1", "2")];
    a.parameter_step_size = Some("1".to_string());
    a.command_names = ["echo-1", "sleep-1", "echo-2", "sleep-2"].iter().map(|s| s.to_string()).collect();
    let commands = Commands::from_args(&a).unwrap();
    let commands = commands.commands();
    assert_eq!(commands.len(), 4);
    assert_eq!(commands[0].get_name(), "echo-1");
    assert_eq!(commands[0].get_command_line(), "echo 1");
    assert_eq!(commands[1].get_name(), "sleep-1");
    assert_eq!(commands[1].get_command_line(), "sleep 1");
    assert_eq!(commands[2].get_name(), "echo-2");
    assert_eq!(commands[2].get_command_line(), "echo 2");
    assert_eq!(commands[3].get_name(), "sleep-2");
    assert_eq!(commands[3].get_command_line(), "sleep 2");
}

#[test]
fn test_parameter_scan_commands_int() {
    let commands =
        Commands::build_parameter_scan_commands("val", 1i32, 7i32, 3i32, vec![], vec!["echo {val}"]).unwrap();
    assert_eq!(commands.len(), 3);
    assert_eq!(commands[2].get_name(), "echo 7");
    assert_eq!(commands[2].get_command_line(), "echo 7");
}

#[test]
fn test_parameter_scan_commands_decimal() {
    let mut a = args(&["echo {val}"]);
    a.parameter_scans = vec![scan("val", "0", "1")];
    a.parameter_step_size = Some("0.33".to_string());
    let commands = Commands::from_args(&a).unwrap();
    let commands = commands.commands();
    assert_eq!(commands.len(), 4);
    assert_eq!(commands[3].get_name(), "echo 0.99");
    assert_eq!(commands[3].get_command_line(), "echo 0.99");
}

#[test]
fn test_parameter_scan_commands_names() {
    let commands =
        Commands::build_parameter_scan_commands("val", 1i32, 3i32, 1i32, vec!["name-{val}"], vec!["echo {val}"])
            .unwrap();
    assert_eq!(commands.len(), 3);
    let command_names = commands.iter().map(|c| c.get_name()).collect::<Vec<String>>();
    assert_eq!(command_names, vec!["name-1", "name-2", "name-3"]);
}

#[test]
fn test_get_specified_command_names() {
    let commands = Commands::build_parameter_scan_commands(
        "val",
        1i32,
        3i32,
        1i32,
        vec!["name-a", "name-b", "name-c"],
        vec!["echo {val}"],
    )
    .unwrap();
    assert_eq!(commands.len(), 3);
    let command_names = commands.iter().map(|c| c.get_name()).collect::<Vec<String>>();
    assert_eq!(command_names, vec!["name-a", "name-b", "name-c"]);
}

#[test]
fn test_different_command_name_count_with_parameters() {
    let result = Commands::build_parameter_scan_commands(
        "val",
        1i32,
        3i32,
        1i32,
        vec!["name-1", "name-2"],
        vec!["echo {val}"],
    );
    assert!(matches!(result.unwrap_err(), ParameterScanError::UnexpectedCommandNameCount(2, 3)));
}

#[test]
fn test_parameter_file_support() {
    let mut a = args(&["echo {item}"]);
    a.parameter_files = vec![("item".to_string(), "items.txt".to_string(), Some("foo\r\nbar\n\nbaz\n\n".to_string()))];
    let commands = Commands::from_args(&a).unwrap();
    assert_eq!(commands.iter().count(), 3);
    assert_eq!(lines_of(&commands), vec!["echo foo", "echo bar", "echo baz"]);
}

#[test]
fn test_parameter_file_and_list_combined() {
    let mut a = args(&["echo {num}-{letter}"]);
    a.parameter_files = vec![("num".to_string(), "nums.txt".to_string(), Some("1\n2\n".to_string()))];
    a.parameter_lists = vec![list("letter", "a,b")];
    let commands = Commands::from_args(&a).unwrap();
    assert_eq!(commands.iter().count(), 4);
}

#[test]
fn test_multiple_parameter_scans() {
    let mut a = args(&["echo {a} {b}"]);
    a.parameter_scans = vec![scan("a", "1", "2"), scan("b", "10", "11")];
    let commands = Commands::from_args(&a).unwrap();
    assert_eq!(commands.commands().len(), 4);
    assert_eq!(lines_of(&commands), vec!["echo 1 10", "echo 2 10", "echo 1 11", "echo 2 11"]);
}

#[test]
fn test_parameter_scan_and_list_combined() {
    let mut a = args(&["make -j {threads} {opt}"]);
    a.parameter_scans = vec![scan("threads", "1", "2")];
    a.parameter_lists = vec![list("opt", "O1,O2")];
    let commands = Commands::from_args(&a).unwrap();
    assert_eq!(commands.commands().len(), 4);
    assert_eq!(lines_of(&commands), vec!["make -j 1 O1", "make -j 2 O1", "make -j 1 O2", "make -j 2 O2"]);
}

#[test]
fn test_parameter_scan_and_file_combined() {
    let mut a = args(&["run {iter} {target}"]);
    a.parameter_scans = vec![scan("iter", "1", "2")];
    a.parameter_files = vec![("target".to_string(), "targets.txt".to_string(), Some("alpha\nbeta\n".to_string()))];
    let commands = Commands::from_args(&a).unwrap();
    assert_eq!(commands.commands().len(), 4);
    assert_eq!(lines_of(&commands), vec!["run 1 alpha", "run 2 alpha", "run 1 beta", "run 2 beta"]);
}

#[test]
fn test_multiple_parameter_scans_with_step_size_fails() {
    let mut a = args(&["echo {a} {b}"]);
    a.parameter_scans = vec![scan("a", "1", "5"), scan("b", "1", "5")];
    a.parameter_step_size = Some("2".to_string());
    let err = error_text(Commands::from_args(&a));
    assert!(err.contains(
        "The '--parameter-step-size' ('-D') option cannot be used when multiple '--parameter-scan' ('-P') options are specified"
    ));
}

#[test]
fn test_single_parameter_scan_with_step_size_succeeds() {
    let mut a = args(&["echo {a}"]);
    a.parameter_scans = vec![scan("a", "1", "5")];
    a.parameter_step_size = Some("2".to_string());
    let commands = Commands::from_args(&a).unwrap();
    assert_eq!(commands.commands().len(), 3);
    assert_eq!(lines_of(&commands), vec!["echo 1", "echo 3", "echo 5"]);
}

#[test]
fn test_parameter_combinations_exceeding_default_limit_fails() {
    let mut a = args(&["echo {a} {b}"]);
    a.parameter_scans = vec![scan("a", "1", "20000"), scan("b", "1", "20000")];
    let msg = error_text(Commands::from_args(&a));
    assert!(msg.contains("The parameter combinations would create more than 100000 benchmarks"));
    assert!(msg.contains("commands: 1 × a: 20000 × b: 20000"));
}

#[test]
fn test_parameter_combinations_max_benchmarks_override() {
    // 10 x 10 = 100 combinations. With --max-benchmarks 50 it should fail:
    let mut a = args(&["echo {a} {b}"]);
    a.parameter_scans = vec![scan("a", "1", "10"), scan("b", "1", "10")];
    a.max_benchmarks = Some(50);
    let err = error_text(Commands::from_args(&a));
    assert!(err.contains("The parameter combinations would create more than 50 benchmarks"));

    // With --max-benchmarks 200 it should succeed:
    a.max_benchmarks = Some(200);
    let commands = Commands::from_args(&a).unwrap();
    assert_eq!(commands.commands().len(), 100);
}

#[test]
fn test_with_iteration_substitutes_placeholder() {
    let command = Command::new(None, "echo run-{iteration} {iteration}");
    assert_eq!(command.with_iteration(Some("3".into())).get_command_line(), "echo run-3 3");
    // Without an iteration value (setup/cleanup), the command is unchanged
    assert_eq!(command.with_iteration(None).get_command_line(), "echo run-{iteration} {iteration}");
    // Commands without the placeholder are borrowed, not cloned
    let plain = Command::new(None, "echo hi");
    assert!(matches!(plain.with_iteration(Some("0".into())), std::borrow::Cow::Borrowed(_)));
    // The display name keeps the template
    assert_eq!(command.get_name(), "echo run-{iteration} {iteration}");
}

#[test]
fn test_iteration_is_a_reserved_parameter_name() {
    let mut a = args(&["echo {iteration}"]);
    a.parameter_lists = vec![list("iteration", "1,2")];
    let err = error_text(Commands::from_args(&a));
    assert!(err.contains("is reserved"));
}

#[test]
fn test_argv_command_is_executed_exactly() {
    let cmd = Command::from_argv(None, vec!["printf", "%s\n", "a b", "it's", "$HOME", "\\x"], Vec::new());
    let words = cmd.get_command_args().unwrap();
    assert_eq!(words[0], "printf");
    assert_eq!(words[1..], ["%s\n", "a b", "it's", "$HOME", "\\x"]);
    assert_eq!(cmd.get_command_line(), "printf '%s\n' 'a b' 'it'\\''s' '$HOME' '\\x'");
    assert_eq!(cmd.get_name(), cmd.get_command_line());
}

#[test]
fn test_argv_command_substitutes_parameters_per_argument() {
    let cmd = Command::from_argv(
        None,
        vec!["make", "-j{n}", "{target}"],
        vec![
            ("n", ParameterValue::Text("4".into())),
            ("target", ParameterValue::Text("a b; echo injected".into())),
            ("unused", ParameterValue::Text("x".into())),
        ],
    );
    let words = cmd.get_command_args().unwrap();
    assert_eq!(words[1..], ["-j4", "a b; echo injected"]);
    assert_eq!(cmd.get_command_line(), "make -j4 'a b; echo injected'");
    assert_eq!(
        cmd.get_unused_parameters().iter().map(|(p, _)| p.as_str()).collect::<Vec<_>>(),
        ["unused"]
    );
}

#[test]
fn test_argv_from_cli_arguments() {
    let mut a = args(&[]);
    a.argv = Some(vec!["echo".to_string(), "x {n}".to_string(), "--flag".to_string()]);
    a.parameter_lists = vec![list("n", "1,2")];
    let commands = Commands::from_args(&a).unwrap();
    assert_eq!(lines_of(&commands), ["echo 'x 1' --flag", "echo 'x 2' --flag"]);

    let mut a = args(&[]);
    a.argv = Some(vec!["true".to_string()]);
    a.command_names = vec!["name".to_string()];
    let commands = Commands::from_args(&a).unwrap();
    let names: Vec<_> = commands.iter().map(|c| c.get_name()).collect();
    assert_eq!(names, ["name"]);
}

#[test]
fn test_split_windows_command_line() {
    let split = |s: &str| split_windows_command_line(s);
    assert_eq!(split(r"C:\tools\app.exe --flag"), [r"C:\tools\app.exe", "--flag"]);
    assert_eq!(split(r#""C:\Program Files\app.exe" "a b"  c"#), [r"C:\Program Files\app.exe", "a b", "c"]);
    // Examples from the Microsoft documentation of the C runtime
    assert_eq!(split(r#"app "a b c" d e"#), ["app", "a b c", "d", "e"]);
    assert_eq!(split(r#"app "ab\"c" "\\" d"#), ["app", r#"ab"c"#, r"\", "d"]);
    assert_eq!(split(r#"app a\\\b d"e f"g h"#), ["app", r"a\\\b", "de fg", "h"]);
    assert_eq!(split(r#"app a\\\"b c d"#), ["app", r#"a\"b"#, "c", "d"]);
    assert_eq!(split(r#"app a\\\\"b c" d e"#), ["app", r"a\\b c", "d", "e"]);
    assert_eq!(split(r#"app a"b"" c d"#), ["app", r#"ab" c d"#]);
    // Empty quoted arguments are kept; surrounding whitespace is not
    assert_eq!(split("\t app \"\"  x "), ["app", "", "x"]);
    assert_eq!(split(""), Vec::<String>::new());
    assert_eq!(split("   "), Vec::<String>::new());
}

fn texts(values: &[&str]) -> Vec<ParameterValue> {
    values.iter().map(|v| ParameterValue::Text(v.to_string())).collect()
}

fn line(command: &Command, iteration: BenchmarkIteration) -> String {
    command.for_iteration(&iteration).get_command_line()
}

#[test]
fn cycle_goes_through_all_combinations_in_order() {
    let per_run = PerRunParameters::new(
        vec![("a".to_string(), texts(&["1", "2"])), ("b".to_string(), texts(&["x", "y", "z"]))],
        PerRunMode::Cycle,
    );
    assert_eq!(per_run.combinations(), 6);
    let mut command = Command::new(None, "run {a}{b}");
    command.add_per_run(per_run);
    let lines: Vec<String> = (0..7).map(|i| line(&command, BenchmarkIteration::Benchmark(i))).collect();
    assert_eq!(lines, ["run 1x", "run 1y", "run 1z", "run 2x", "run 2y", "run 2z", "run 1x"]);
    assert_eq!(command.runs_multiple(), 6);
    // Setup/cleanup runs get no per-run values
    assert_eq!(line(&command, BenchmarkIteration::NonBenchmarkRun), "run {a}{b}");
    assert_eq!(
        command.get_name_with_unused_parameters(),
        "run {a}{b} (aggregated over 6 parameter values)"
    );
}

#[test]
fn random_draws_are_reproducible_and_paired() {
    let sample = |seed| {
        let mut command = Command::new(None, "cmd {f}");
        command.add_per_run(PerRunParameters::new(
            vec![("f".to_string(), texts(&["a", "b", "c", "d"]))],
            PerRunMode::Random { seed },
        ));
        command
    };
    let sequence = |command: &Command, warmup: bool| -> Vec<String> {
        (0..40)
            .map(|i| {
                let iteration =
                    if warmup { BenchmarkIteration::Warmup(i) } else { BenchmarkIteration::Benchmark(i) };
                line(command, iteration)
            })
            .collect()
    };
    let (first, second) = (sample(0), sample(0));
    // Same seed: same sequence, for any command (paired comparison)
    assert_eq!(sequence(&first, false), sequence(&second, false));
    // Another seed or the warmup stream: a different sequence
    assert_ne!(sequence(&first, false), sequence(&sample(1), false));
    assert_ne!(sequence(&first, false), sequence(&first, true));
    // All values occur
    for value in ["a", "b", "c", "d"] {
        let wanted = format!("cmd {value}");
        assert!(sequence(&first, false).contains(&wanted), "{value}");
    }
    // Sampling doesn't force whole cycles
    assert_eq!(first.runs_multiple(), 1);
    assert_eq!(first.get_name_with_unused_parameters(), "cmd {f} (sampled from 4 values)");
}

#[test]
fn intermediate_commands_share_the_per_run_values() {
    let mut command = Command::new(None, "run {f}");
    command.add_per_run(PerRunParameters::new(
        vec![("f".to_string(), texts(&["x", "y", "z"]))],
        PerRunMode::Random { seed: 3 },
    ));
    let prepare = Command::new(None, "prepare {f}").with_per_run_parameters_of(&command);
    for i in 0..20 {
        let run = line(&command, BenchmarkIteration::Benchmark(i));
        let prep = line(&prepare, BenchmarkIteration::Benchmark(i));
        assert_eq!(run.trim_start_matches("run "), prep.trim_start_matches("prepare "));
    }
}

#[test]
fn scan_commands_reject_bad_ranges() {
    assert!(matches!(
        Commands::build_parameter_scan_commands("v", 3, 1, 1, vec![], vec!["echo {v}"]).unwrap_err(),
        ParameterScanError::EmptyRange
    ));
    assert!(matches!(
        Commands::build_parameter_scan_commands("v", 1, 3, 0, vec![], vec!["echo {v}"]).unwrap_err(),
        ParameterScanError::ZeroStep
    ));
    assert!(matches!(
        Commands::build_parameter_scan_commands("v", 0, 1_000_000, 1, vec![], vec!["echo {v}"]).unwrap_err(),
        ParameterScanError::TooLarge
    ));
}

#[test]
fn every_combination_appears_once_in_the_cross_product() {
    let mut a = args(&["c {x}{y}{z}"]);
    a.parameter_lists = vec![list("x", "a,b"), list("y", "1,2,3"), list("z", "p,q")];
    let commands = Commands::from_args(&a).unwrap();
    let mut lines = lines_of(&commands);
    assert_eq!(lines.len(), 12);
    lines.sort();
    lines.dedup();
    assert_eq!(lines.len(), 12);
}

#[test]
fn decimal_scans_need_numbers_and_a_step() {
    let mut a = args(&["echo {v}"]);
    a.parameter_scans = vec![scan("v", "a", "1")];
    a.parameter_step_size = Some("0.5".to_string());
    assert!(matches!(Commands::from_args(&a), Err(CommandsError::Scan(ParameterScanError::InvalidNumber(_)))));
    let mut a = args(&["echo {v}"]);
    a.parameter_scans = vec![scan("v", "0.5", "1.5")];
    assert!(matches!(Commands::from_args(&a), Err(CommandsError::Scan(ParameterScanError::StepRequired))));
    a.parameter_step_size = Some("0.5".to_string());
    let commands = Commands::from_args(&a).unwrap();
    assert_eq!(lines_of(&commands), vec!["echo 0.5", "echo 1.0", "echo 1.5"]);
}

#[test]
fn decimal_scans_step_from_the_start_and_check_their_bounds() {
    let texts = |v: Vec<ParameterValue>| -> Vec<String> {
        v.into_iter()
            .map(|p| match p {
                ParameterValue::Numeric(Number::Decimal(t)) => t,
                other => panic!("not a decimal: {other:?}"),
            })
            .collect()
    };
    assert_eq!(texts(parse_parameter_scan("0.1", "0.5", Some("0.2")).unwrap()), vec!["0.1", "0.3", "0.5"]);
    assert_eq!(texts(parse_parameter_scan("-1", "-0.25", Some("0.25")).unwrap()), vec!["-1", "-0.75", "-0.50", "-0.25"]);
    assert_eq!(parse_parameter_scan("1.5", "0.5", Some("0.5")), Err(ParameterScanError::EmptyRange));
    assert_eq!(parse_parameter_scan("0.5", "1.5", Some("0.0")), Err(ParameterScanError::ZeroStep));
    assert_eq!(parse_parameter_scan("0.5", "1.5", Some("-0.5")), Err(ParameterScanError::TooLarge));
    assert_eq!(parse_parameter_scan("0", "100000.5", Some("0.5")), Err(ParameterScanError::TooLarge));
}

#[test]
fn a_scan_without_templates_gives_no_benchmarks() {
    let r = Commands::build_parameter_scan_commands("x", 1, 3, 1, vec![], vec![]).unwrap();
    assert!(r.is_empty());
    assert_eq!(
        Commands::build_parameter_scan_commands("x", 1, 3, 1, vec!["a", "b"], vec![]),
        Err(ParameterScanError::UnexpectedCommandNameCount(2, 0))
    );
}

#[test]
fn random_values_are_those_at_the_drawn_picks() {
    let per_run = PerRunParameters::new(
        vec![("a".to_string(), texts(&["1", "2"])), ("b".to_string(), texts(&["x", "y", "z"]))],
        PerRunMode::Random { seed: 7 },
    );
    let v = per_run.values_at_picks(&vec![1, 2]);
    assert_eq!(v.len(), 2);
    assert_eq!(v[0].0, "a");
    assert_eq!(v[0].1, ParameterValue::Text("2".to_string()));
    assert_eq!(v[1].0, "b");
    assert_eq!(v[1].1, ParameterValue::Text("z".to_string()));
}

#[test]
fn run_seeds_mix_the_run_index_and_the_warmup_bit() {
    // The first timed run draws with the session's seed itself
    assert_eq!(run_seed(42, 0, false), 42);
    // A warmup run flips the top bit
    assert_eq!(run_seed(42, 0, true), 42 ^ (1u64 << 63));
    // The run index is spread by the multiplier (wrapping)
    assert_eq!(run_seed(0, 1, false), RUN_SEED_MULTIPLIER);
    assert_eq!(run_seed(5, 1, false), 5 ^ 0x9E37_79B9_7F4A_7C15);
    assert_eq!(run_seed(0, 2, false), 0x9E37_79B9_7F4A_7C15u64.wrapping_mul(2));
    assert_eq!(run_seed(7, 3, true), 7 ^ 0x9E37_79B9_7F4A_7C15u64.wrapping_mul(3) ^ (1u64 << 63));
    // Same inputs, same seed
    assert_eq!(run_seed(9, 11, false), run_seed(9, 11, false));
    assert_ne!(run_seed(9, 11, false), run_seed(9, 11, true));
}
