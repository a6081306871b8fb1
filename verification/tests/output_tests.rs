use joulex::output::colors::{
    ColorName, SemanticColor, Theme, BLUE_BACKGROUND, POWERSHELL_SLOT5_BACKGROUND,
};
use joulex::output::progress_bar::{create_progress_template, eta, format_eta, DEFAULT_MESSAGE_TEMPLATE};
use joulex::output::warnings::{baseline_larger_message, failed_runs_omitted_message, OutlierWarningOptions, fast_execution_time_message, non_zero_exit_code_message, noisy_baseline_message};
use joulex::output_metric::{check_capture_groups, OutputMetric};
use std::str::FromStr;

const NANOS: u64 = 1_000_000_000;

fn secs(s: u64) -> u64 {
    s * NANOS
}

fn secs_wide(s: u64) -> u128 {
    (s as u128) * (NANOS as u128)
}

#[test]
fn eta_is_unknown_before_the_first_step() {
    assert_eq!(eta(secs(5), 0, 0, 10), None);
    assert_eq!(format_eta(None), "--:--:--");
}

#[test]
fn eta_uses_the_average_step_duration() {
    // 2 of 10 steps done after 10 s: 5 s per step, 8 steps left
    assert_eq!(eta(secs(10), 2, secs(10), 10), Some(secs_wide(40)));
    assert_eq!(format_eta(Some(secs_wide(40))), "00:00:40");
    assert_eq!(format_eta(Some(secs_wide(3725))), "01:02:05");
}

#[test]
fn eta_decreases_while_a_step_is_running() {
    // 1 of 4 steps done after 5 s; then time passes without progress.
    let estimates: Vec<u128> = (5..=9).map(|now| eta(secs(now), 1, secs(5), 4).unwrap()).collect();
    assert_eq!(estimates.first(), Some(&secs_wide(15)));
    assert!(estimates.windows(2).all(|w| w[1] < w[0]), "{estimates:?}");
}

#[test]
fn eta_never_goes_negative_or_underflows() {
    // current step takes longer than the average
    assert_eq!(eta(secs(100), 1, secs(5), 2), Some(0));
    // done exceeds total
    assert_eq!(eta(secs(3), 5, secs(3), 3), Some(0));
}

#[test]
fn test_create_progress_template() {
    let t = create_progress_template("{msg:<32}");
    assert_eq!(t, " {spinner} {msg:<32} {wide_bar} {pos}/{len} ETA {joulex_eta} ");
    assert_eq!(
        create_progress_template(DEFAULT_MESSAGE_TEMPLATE),
        " {spinner} {msg:<32} {wide_bar} {pos}/{len} ETA {joulex_eta} "
    );
}

#[test]
fn eta_rounds_down_to_the_nanosecond_and_formats_long_estimates() {
    // 3 steps done after 10 ns: 7 steps left take 70/3 = 23 ns (rounded down)
    assert_eq!(eta(10, 3, 10, 10), Some(23));
    // hours keep all their digits
    assert_eq!(format_eta(Some(secs_wide(100 * 3600 + 61))), "100:01:01");
    assert_eq!(format_eta(Some(999_999_999)), "00:00:00");
}

#[test]
fn legacy_windows_console_uses_readable_colors() {
    for bg in [BLUE_BACKGROUND, POWERSHELL_SLOT5_BACKGROUND] {
        let theme = Theme::from_console_attributes(bg);

        assert_eq!(theme, Theme::LegacyWindowsConsole);
        assert_eq!(theme.color(SemanticColor::Green), ColorName::Green);
        assert_eq!(theme.color(SemanticColor::Blue), ColorName::Cyan);
        assert_eq!(theme.color(SemanticColor::Cyan), ColorName::Cyan);
        assert_eq!(theme.color(SemanticColor::Purple), ColorName::BrightRed);
        assert_eq!(theme.color(SemanticColor::Magenta), ColorName::BrightRed);
        assert_eq!(theme.color(SemanticColor::Yellow), ColorName::Yellow);
        assert_eq!(theme.color(SemanticColor::Red), ColorName::Red);
    }
}

#[test]
fn non_blue_background_selects_default_theme() {
    assert_eq!(Theme::from_console_attributes(0), Theme::Default);
    assert_eq!(Theme::from_console_attributes(BLUE_BACKGROUND | 0x0080), Theme::Default);
    assert_eq!(Theme::from_console_attributes(POWERSHELL_SLOT5_BACKGROUND | 0x0080), Theme::Default);
    assert_eq!(Theme::from_console_attributes(0x0020), Theme::Default);
}

#[test]
fn default_theme_colors() {
    let theme = Theme::from_console_attributes(0x0007);
    assert_eq!(theme.color(SemanticColor::Blue), ColorName::Blue);
    assert_eq!(theme.color(SemanticColor::Purple), ColorName::Magenta);
    // foreground bits do not matter
    assert_eq!(Theme::from_console_attributes(BLUE_BACKGROUND | 0x000f), Theme::LegacyWindowsConsole);
}

#[test]
fn test_failed_runs_omitted_warning_format() {
    assert_eq!(
        failed_runs_omitted_message(3, 10),
        "Omitted 3 of 10 benchmark runs with non-zero exit codes from the summary statistics."
    );
}

#[test]
fn outlier_hints_depend_on_the_options_in_use() {
    let both = OutlierWarningOptions { warmup_in_use: true, prepare_in_use: true };
    let none = OutlierWarningOptions { warmup_in_use: false, prepare_in_use: false };
    let warmup = OutlierWarningOptions { warmup_in_use: true, prepare_in_use: false };
    let prepare = OutlierWarningOptions { warmup_in_use: false, prepare_in_use: true };
    assert_eq!(both.outliers_hint(), "");
    assert_eq!(none.outliers_hint(), " It might help to use the '--warmup' or '--prepare' options.");
    assert!(both.slow_first_run_hint().starts_with("You are already using both"));
    assert!(warmup.slow_first_run_hint().starts_with("You are already using the '--warmup' option"));
    assert!(prepare.slow_first_run_hint().starts_with("You are already using the '--prepare' option"));
    assert!(none.slow_first_run_hint().starts_with("You should consider using the '--warmup' option"));
    assert_eq!(
        baseline_larger_message(2, 5),
        "The '--subtract' baseline was slower than the benchmarked command in 2 of 5 runs; those were counted as 0. The net time is too small to be measured this way."
    );
}

#[test]
fn test_output_metric_from_str_valid() {
    let m = OutputMetric::from_str("latency=([0-9.]+)ms").unwrap();
    assert_eq!(m.name, "latency");

    let m2 = OutputMetric::from_str("qps_total=Total QPS: ([0-9]+)").unwrap();
    assert_eq!(m2.name, "qps_total");
    assert_eq!(m2.pattern, "Total QPS: ([0-9]+)");
}

#[test]
fn test_output_metric_from_str_invalid() {
    // No '='
    assert!(OutputMetric::from_str("latency([0-9]+)").is_err());

    // Empty name
    assert!(OutputMetric::from_str("=([0-9]+)").is_err());

    // Invalid name with hyphen
    assert!(OutputMetric::from_str("my-metric=([0-9]+)").is_err());

    // Invalid name with space
    assert!(OutputMetric::from_str("my metric=([0-9]+)").is_err());

    // No capture group
    assert!(OutputMetric::from_str("latency=[0-9]+").is_err());

    // Invalid regex syntax
    assert!(OutputMetric::from_str("latency=([0-9+").is_err());
}

#[test]
fn output_metric_error_messages() {
    let err = |s: &str| match OutputMetric::parse(s) {
        Ok(_) => panic!("expected an error for {s}"),
        Err(e) => e,
    };
    assert_eq!(err("latency"), "expected 'NAME=REGEX', got 'latency'");
    assert_eq!(
        err("my-metric=(x)"),
        "invalid metric name 'my-metric': names must contain only ASCII alphanumeric characters and underscores"
    );
    assert_eq!(err("latency=[0-9]+"), "regex for metric 'latency' must contain at least one capture group '(...)'");
    assert!(err("latency=([0-9+").starts_with("invalid regex '([0-9+': "));
    // the pattern may itself contain '='
    let m = OutputMetric::parse("kv=a=(b)").unwrap();
    assert_eq!((m.name.as_str(), m.pattern.as_str()), ("kv", "a=(b)"));
    assert!(check_capture_groups("x", 2).is_ok());
    assert!(check_capture_groups("x", 1).is_err());
}

#[test]
fn fixed_warning_texts() {
    assert_eq!(
        fast_execution_time_message(),
        "Command took less than 5 ms to complete. Note that the results might be inaccurate because joulex can not calibrate the shell startup time much more precise than this limit. You can try to use the `-N`/`--shell=none` option to disable the shell completely."
    );
    assert_eq!(non_zero_exit_code_message(), "Ignoring non-zero exit code.");
    assert!(noisy_baseline_message().starts_with("The noise (σ) of the '--subtract' baseline is more than 10% of the net time"));
}

fn extract(m: &OutputMetric, out: &[u8]) -> Option<f64> {
    m.extract_text(out)?.parse::<f64>().ok()
}

#[test]
fn test_output_metric_extract() {
    let m: OutputMetric = "latency=time=([0-9.]+)s".parse().unwrap();

    // Single match
    let out = b"setup... time=2.5s done";
    assert_eq!(extract(&m, out), Some(2.5));

    // Multiple matches -> takes last match
    let out_multi = b"pass 1: time=1.0s\npass 2: time=4.75s\nall done";
    assert_eq!(extract(&m, out_multi), Some(4.75));

    // Scientific notation
    let m_sci: OutputMetric = "err=error: ([0-9.eE+-]+)".parse().unwrap();
    assert_eq!(extract(&m_sci, b"error: 1.5e-3"), Some(0.0015));

    // Non-numeric capture
    assert_eq!(extract(&m, b"time=unknowns"), None);

    // No match
    assert_eq!(extract(&m, b"no timings here"), None);
}

#[test]
fn extracted_text_is_trimmed_and_needs_utf8() {
    let m: OutputMetric = "x=v:(.*);".parse().unwrap();
    assert_eq!(m.extract_text(b"v: 12 ;"), Some("12".to_string()));
    assert_eq!(m.extract_text(b"v:\xff;"), None);
    assert!(OutputMetric::parse("x=no group").is_err());
}
