use joulex::benchmark::benchmark_result::{has_failure, OmittedRun};
use joulex::benchmark::executor::{
    format_captured_output, normalize_relative_command_path_for_cmd, tail_lines, CAPTURED_LINES,
};
use joulex::benchmark::runner::{
    common_run_count, keep_runs, peak_memory, run_count, runs_summary, split_failed_runs, RunnerError,
};
use joulex::benchmark::scheduler::{compared_results, interruption_note, next_round_robin_run, remaining_runs, summary_title, unbenchmarked_count};
use joulex::benchmark::timing_result::{ResourceCounters, ResourceSeries};
use joulex::energy::rapl::{counter_delta_exec, LinuxRaplSampler};
use joulex::energy::{DummySampler, MockEnergySampler};
use joulex::options::RunBounds;
use joulex::timer::{CPUTimer, CPUTimes, CapturedOutput};
use joulex::benchmark::runner::intermediate_template;
use joulex::benchmark::executor::{failed_run_warning, BenchmarkIteration, MAX_FAILED_RUN_OUTPUTS};
use joulex::benchmark::executor::{failure_is_fatal, failure_message, metric_failure, MockExecutor};
use joulex::options::CmdFailureAction;

#[test]
fn test_normalize_relative_command_path_for_cmd() {
    for (input, expected) in [
        ("./app.exe", ".\\app.exe"),
        ("./target/release/app.exe --x a/b", ".\\target\\release\\app.exe --x a/b"),
        ("../bin/app.exe\t./x", "..\\bin\\app.exe\t./x"),
        ("app.exe ./x", "app.exe ./x"),
        ("C:/tools/app.exe", "C:/tools/app.exe"),
        (".hidden/app", ".hidden/app"),
        ("", ""),
    ] {
        assert_eq!(normalize_relative_command_path_for_cmd(input), expected);
    }
}

#[test]
fn captured_output_is_tailed_escaped_and_cut() {
    let many_lines: String = (1..=30).map(|i| format!("line {i}\n")).collect();
    let (count, text) = tail_lines(many_lines.as_bytes()).unwrap();
    assert_eq!(count, CAPTURED_LINES);
    assert!(text.starts_with("line 11\n") && text.ends_with("line 30"));

    let (_, text) = tail_lines(b"\x1b[31mred\x07").unwrap();
    assert_eq!(text, "\\u{1b}[31mred\\u{7}");

    let (_, text) = tail_lines(&[b'x'; 1000]).unwrap();
    assert!(text.starts_with("(700 earlier characters) … x"), "{text}");
    let mut long_line = vec![0u8; 1000];
    long_line.extend_from_slice(b"the error");
    let (_, text) = tail_lines(&long_line).unwrap();
    assert!(text.ends_with("the error"), "{text}");

    assert!(tail_lines(b"").is_none());
    assert!(tail_lines(b"\n  \n").is_none());
    assert_eq!(format_captured_output(&CapturedOutput::default()), "(the command produced no output)\n");
}

#[test]
fn test_resource_series_from_counters() {
    let counters = [
        ResourceCounters { voluntary_ctx_switches: 1, minor_faults: 10, ..Default::default() },
        ResourceCounters { voluntary_ctx_switches: 2, block_output_ops: 7, ..Default::default() },
    ];
    let series = ResourceSeries::from_counters(&counters);
    assert_eq!(series.voluntary_ctx_switches, vec![1, 2]);
    assert_eq!(series.minor_faults, vec![10, 0]);
    assert_eq!(series.block_output_ops, vec![0, 7]);
    assert_eq!(series.major_faults, vec![0, 0]);
}

#[test]
fn test_has_failure_all_success() {
    assert!(!has_failure(&[Some(0), Some(0), Some(0)]));
}

#[test]
fn test_has_failure_with_nonzero() {
    assert!(has_failure(&[Some(0), Some(1), Some(0)]));
}

#[test]
fn test_has_failure_with_signal_kill() {
    assert!(has_failure(&[Some(0), None]));
}

#[test]
fn test_has_failure_empty() {
    assert!(!has_failure(&[]));
}

#[test]
fn failed_runs_are_split_from_the_successful_ones() {
    let codes = [Some(0), Some(42), Some(0), None];
    let (keep, omitted) = split_failed_runs(&codes).unwrap();
    assert_eq!(keep, vec![0, 2]);
    assert_eq!(
        omitted,
        vec![OmittedRun { index: 1, exit_code: Some(42) }, OmittedRun { index: 3, exit_code: None }]
    );
    assert_eq!(keep.len() + omitted.len(), codes.len());
    assert_eq!(keep_runs(&[1.5f64, 2.5, 3.5, 4.5], &keep), vec![1.5, 3.5]);
    assert_eq!(split_failed_runs(&[Some(1), None]), Err(RunnerError::AllRunsFailed));
    assert_eq!(split_failed_runs(&[]), Err(RunnerError::AllRunsFailed));
    assert_eq!(
        RunnerError::AllRunsFailed.message(),
        "All benchmark runs failed. No successful runs to compute statistics from."
    );
}

#[test]
fn run_counts_respect_the_bounds() {
    let default = RunBounds { min: 10, max: None };
    assert_eq!(run_count(3, &default), 10);
    assert_eq!(run_count(250, &default), 250);
    assert_eq!(run_count(250, &RunBounds { min: 10, max: Some(100) }), 100);
    assert_eq!(run_count(0, &RunBounds { min: 0, max: Some(5) }), 1);
    assert_eq!(common_run_count(999, &RunBounds { min: 7, max: Some(7) }), 7);
    assert_eq!(common_run_count(999, &RunBounds { min: 2, max: Some(7) }), 7);
}

#[test]
fn summary_counts_and_peak_memory() {
    assert_eq!(runs_summary(10, 0), "10 runs");
    assert_eq!(runs_summary(8, 2), "8 runs (2 failed runs omitted)");
    assert_eq!(peak_memory(&[]), 0);
    assert_eq!(peak_memory(&[3, 9, 4]), 9);
}

#[test]
fn round_robin_turns_go_iteration_by_iteration() {
    let counts = [3u64, 1, 2];
    let mut order = Vec::new();
    let mut pos = next_round_robin_run(&counts, 1, 0);
    while let Some((i, r)) = pos {
        order.push((i, r));
        pos = next_round_robin_run(&counts, i, r + 1);
    }
    assert_eq!(order, vec![(1, 0), (1, 2), (2, 0)]);
    assert_eq!(remaining_runs(&counts), order.len() as u64);
    assert_eq!(next_round_robin_run(&[], 1, 0), None);
    assert_eq!(next_round_robin_run(&[1, 1], 1, 0), None);
}

#[test]
fn energy_samplers() {
    let mut mock = MockEnergySampler::new();
    assert!(mock.is_available());
    assert_eq!(mock.stop(), None);
    mock.start();
    assert_eq!(mock.stop(), Some(1_250_000));
    assert_eq!(mock.stop(), None);

    let mut dummy = DummySampler::new();
    dummy.start();
    assert_eq!(dummy.stop(), None);
    assert!(!dummy.is_available());

    assert!(LinuxRaplSampler::from_counters(vec![], vec![]).is_none());
    let mut rapl = LinuxRaplSampler::from_counters(
        vec!["/a/energy_uj".to_string(), "/b/energy_uj".to_string()],
        vec![1000, u64::MAX],
    )
    .unwrap();
    assert!(rapl.is_available());
    assert_eq!(rapl.energy_files().len(), 2);
    assert_eq!(rapl.stop(&[1, 2]), None);
    rapl.start(vec![900, 5]);
    // the first counter wrapped at 1000: 100 + 50; the second moved by 20
    assert_eq!(rapl.stop(&[50, 25]), Some(170));
    assert_eq!(counter_delta_exec(10, 5, 4), 5);
    assert_eq!(counter_delta_exec(u64::MAX - 1, 5, u64::MAX), 6);
}

#[test]
fn cpu_timer_differences() {
    let t_a = CPUTimes { user_usec: 12345, system_usec: 54321, memory_usage_byte: 0 };
    let t_b = CPUTimes { user_usec: 20000, system_usec: 70000, memory_usage_byte: 4096 };
    let timer = CPUTimer::start(t_a);
    assert_eq!(timer.stop(&t_a), (0, 0, 0));
    assert_eq!(timer.stop(&t_b), (7655, 15679, 4096));
    assert_eq!(CPUTimer::start(t_b).stop(&t_a), (-7655, -15679, 0));
}

#[test]
fn each_benchmark_gets_its_own_or_the_only_prepare_command() {
    let one = vec!["make clean".to_string()];
    assert_eq!(intermediate_template(&one, 3), "make clean");
    let many = vec!["a".to_string(), "b".to_string()];
    assert_eq!(intermediate_template(&many, 1), "b");
}

#[test]
fn failed_runs_show_their_output_a_few_times() {
    let captured = CapturedOutput { stdout: b"partial\n".to_vec(), stderr: b"boom\n".to_vec() };
    let first = failed_run_warning(0, "make \u{1b}[2J", BenchmarkIteration::Benchmark(4), &captured).unwrap();
    assert!(first.starts_with("'make \\u{1b}[2J' failed in benchmark iteration 4 (ignored):\n"), "{first}");
    assert!(first.ends_with(&format_captured_output(&captured)));
    let warmup = failed_run_warning(1, "x", BenchmarkIteration::Warmup(0), &captured).unwrap();
    assert!(warmup.starts_with("'x' failed in warmup iteration 0 (ignored):\n"));
    assert_eq!(
        failed_run_warning(MAX_FAILED_RUN_OUTPUTS, "x", BenchmarkIteration::NonBenchmarkRun, &captured).unwrap(),
        "the output of further failed runs is not shown."
    );
    assert_eq!(failed_run_warning(MAX_FAILED_RUN_OUTPUTS + 1, "x", BenchmarkIteration::NonBenchmarkRun, &captured), None);
}

#[test]
fn captured_bytes_that_are_not_utf8_are_replaced() {
    let (count, text) = tail_lines(b"ok\n\xffbad\n").unwrap();
    assert_eq!(count, 2);
    assert_eq!(text, "ok\n\u{fffd}bad");
}

#[test]
fn failure_actions_decide_which_failures_stop_the_benchmark() {
    assert!(failure_is_fatal(&CmdFailureAction::RaiseError, Some(1)));
    assert!(failure_is_fatal(&CmdFailureAction::RaiseError, None));
    assert!(!failure_is_fatal(&CmdFailureAction::IgnoreAllFailures, Some(1)));
    assert!(!failure_is_fatal(&CmdFailureAction::IgnoreAllFailures, None));
    let some = CmdFailureAction::IgnoreSpecificFailures(vec![1, 42]);
    assert!(!failure_is_fatal(&some, Some(42)));
    assert!(failure_is_fatal(&some, Some(2)));
    assert!(failure_is_fatal(&some, None));
}

#[test]
fn failure_messages_name_the_cause_and_the_run() {
    assert_eq!(
        failure_message(None, Some(2), BenchmarkIteration::Benchmark(0), None),
        "Command terminated with non-zero exit code 2 in the first benchmark run. Use the '-i'/'--ignore-exit-code' option if you want to ignore this. Alternatively, use the '--show-output-on-failure' (or '--show-output') option to debug what went wrong."
    );
    let captured = CapturedOutput { stdout: b"out\n".to_vec(), stderr: Vec::new() };
    let m = failure_message(None, None, BenchmarkIteration::Warmup(3), Some(&captured));
    assert!(m.starts_with("The process has been terminated by a signal in warmup iteration 3. Use the '-i'/'--ignore-exit-code' option if you want to ignore this.\n"));
    let m = failure_message(Some(false), Some(0), BenchmarkIteration::NonBenchmarkRun, None);
    assert!(m.starts_with("Command exited without matching '--until' pattern in a non-benchmark run."));
    let m = failure_message(None, Some(-1), BenchmarkIteration::Benchmark(7), None);
    assert!(m.starts_with("Command terminated with non-zero exit code -1 in benchmark iteration 7."));
}

#[test]
fn missing_metrics_stop_the_benchmark_unless_all_failures_are_ignored() {
    let (fatal, text) = metric_failure(&CmdFailureAction::RaiseError, "rss", BenchmarkIteration::Warmup(0));
    assert!(fatal);
    assert_eq!(text, "Metric 'rss' could not be extracted from output in the first warmup run. Use the '-i'/'--ignore-failure' option if you want to ignore this.");
    let (fatal, text) = metric_failure(&CmdFailureAction::IgnoreSpecificFailures(vec![3]), "rss", BenchmarkIteration::Benchmark(2));
    assert!(fatal);
    assert!(text.ends_with("in benchmark iteration 2. Use the '-i'/'--ignore-failure' option if you want to ignore this."));
    let (fatal, text) = metric_failure(&CmdFailureAction::IgnoreAllFailures, "rss", BenchmarkIteration::Benchmark(2));
    assert!(!fatal);
    assert_eq!(text, "metric 'rss' could not be extracted from output in benchmark iteration 2 (ignored).");
}

#[test]
fn the_summary_title_tells_of_an_interruption() {
    assert_eq!(summary_title(false, 3), "Summary");
    assert_eq!(summary_title(true, 0), "Summary (interrupted)");
    assert_eq!(summary_title(true, 1), "Summary (interrupted — 1 command not benchmarked)");
    assert_eq!(interruption_note(true, 2), " (interrupted — 2 commands not benchmarked)");
    assert_eq!(interruption_note(false, 2), "");
}

#[test]
fn unbenchmarked_commands_are_counted_without_imported_results() {
    assert_eq!(unbenchmarked_count(true, 3, 2, 0), 2);
    assert_eq!(unbenchmarked_count(false, 3, 5, 2), 0);
    assert_eq!(unbenchmarked_count(false, 3, 1, 4), 3);
}

#[test]
fn failed_results_are_left_out_of_the_summary_on_request() {
    let codes = vec![vec![Some(0), Some(0)], vec![Some(0), Some(1)], vec![None], vec![]];
    assert_eq!(compared_results(false, &codes), vec![0, 1, 2, 3]);
    assert_eq!(compared_results(true, &codes), vec![0, 3]);
}

fn extract_time(line: &str) -> Result<f64, String> {
    MockExecutor::sleep_seconds_text(line)
        .and_then(|t| t.parse::<f64>().ok())
        .filter(|s| s.is_finite() && *s >= 0.0)
        .ok_or_else(|| MockExecutor::unsupported_command_message(line))
}

#[test]
fn test_mock_executor_extract_time() {
    assert_eq!(extract_time("sleep 0.1").unwrap(), 0.1);
    for invalid in ["echo hi", "sleep", "sleep abc", "sleep -1", "sleep inf"] {
        assert!(extract_time(invalid).is_err(), "{invalid}");
    }
    assert_eq!(
        extract_time("echo hi").unwrap_err(),
        "'--debug-mode' only simulates commands of the form 'sleep <seconds>', got 'echo hi'"
    );
}
