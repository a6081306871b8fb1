use joulex::metric::Metric;
use joulex::options::{
    check_omit_failed_runs, input_policy, resolve_run_bounds, schedule_mode, time_unit_option, CmdFailureAction,
    CommandInputPolicy, OptionsError, RunBounds, ScheduleMode, Shell,
};
use joulex::util::units::Unit;
use joulex::util::platform::Os;

#[test]
fn test_metric_defaults_and_names() {
    assert_eq!(Metric::default(), Metric::Wall);
    assert_eq!(Metric::Wall.name(), "wall");
    assert_eq!(Metric::Cpu.name(), "cpu");
    assert_eq!(Metric::User.name(), "user");
    assert_eq!(Metric::System.name(), "system");
    assert_eq!(Metric::Energy.name(), "energy");
    assert_eq!(Metric::Memory.name(), "memory");
}

#[test]
fn test_metric_verbs_and_comparisons() {
    assert_eq!(Metric::Wall.verb(), "ran");
    assert_eq!(Metric::Energy.verb(), "used");
    assert_eq!(Metric::Memory.verb(), "used");

    assert_eq!(Metric::Wall.comparison_words(), ("faster", "slower"));
    assert_eq!(Metric::Energy.comparison_words(), ("less energy", "more energy"));
    assert_eq!(Metric::Memory.comparison_words(), ("less memory", "more memory"));
}

#[test]
fn test_metric_is_time() {
    assert!(Metric::Wall.is_time());
    assert!(Metric::Cpu.is_time());
    assert!(Metric::User.is_time());
    assert!(Metric::System.is_time());
    assert!(!Metric::Energy.is_time());
    assert!(!Metric::Memory.is_time());
}

#[test]
fn test_metric_from_str() {
    assert_eq!("wall".parse::<Metric>().unwrap(), Metric::Wall);
    assert_eq!("wall-clock".parse::<Metric>().unwrap(), Metric::Wall);
    assert_eq!("time".parse::<Metric>().unwrap(), Metric::Wall);
    assert_eq!("cpu".parse::<Metric>().unwrap(), Metric::Cpu);
    assert_eq!("total-cpu".parse::<Metric>().unwrap(), Metric::Cpu);
    assert_eq!("user".parse::<Metric>().unwrap(), Metric::User);
    assert_eq!("system".parse::<Metric>().unwrap(), Metric::System);
    assert_eq!("energy".parse::<Metric>().unwrap(), Metric::Energy);
    assert_eq!("memory".parse::<Metric>().unwrap(), Metric::Memory);
    assert_eq!("rss".parse::<Metric>().unwrap(), Metric::Memory);
    assert_eq!("peak-memory".parse::<Metric>().unwrap(), Metric::Memory);
    assert!("invalid".parse::<Metric>().is_err());
}

#[test]
fn metric_names_parse_back_in_any_case() {
    for m in [Metric::Wall, Metric::Cpu, Metric::User, Metric::System, Metric::Energy, Metric::Memory] {
        assert_eq!(Metric::parse(&m.to_string()).unwrap(), m);
        assert_eq!(Metric::parse(&m.to_string().to_uppercase()).unwrap(), m);
    }
    assert_eq!(
        Metric::parse("Bogus").unwrap_err(),
        "invalid metric 'bogus': possible values are wall, cpu, user, system, energy, memory"
    );
}

#[test]
fn test_default_shell() {
    let shell = Shell::default_for(Os::Linux);
    assert_eq!(shell.to_text(), "sh");
    assert_eq!(Shell::default_for(Os::Windows).to_text(), "cmd.exe");
}

#[test]
fn test_can_parse_shell_command_line_from_str() {
    let shell = Shell::parse_from_str("shell -x 'aaa bbb'").unwrap();
    assert_eq!(shell.to_text(), "shell -x 'aaa bbb'");
    match &shell {
        Shell::Custom(words) => assert_eq!(words, &vec!["shell".to_string(), "-x".to_string(), "aaa bbb".to_string()]),
        _ => panic!("expected a custom shell"),
    }

    // Error cases
    assert!(matches!(Shell::parse_from_str("shell 'foo").unwrap_err(), OptionsError::ShellParseError));
    assert!(matches!(Shell::parse_from_str("").unwrap_err(), OptionsError::EmptyShell));
    assert!(matches!(Shell::parse_from_str("''").unwrap_err(), OptionsError::EmptyShell));
}

#[test]
fn test_schedule_options() {
    assert_eq!(schedule_mode(false, &Some("round-robin".to_string())), ScheduleMode::RoundRobin);
    assert_eq!(schedule_mode(false, &Some("interleaved".to_string())), ScheduleMode::RoundRobin);
    assert_eq!(schedule_mode(true, &None), ScheduleMode::RoundRobin);
    assert_eq!(schedule_mode(false, &None), ScheduleMode::Grouped);
}

#[test]
fn run_bounds_from_the_options() {
    assert_eq!(resolve_run_bounds(None, None, None), Ok(RunBounds { min: 10, max: None }));
    assert_eq!(resolve_run_bounds(None, None, Some(5)), Ok(RunBounds { min: 5, max: Some(5) }));
    assert_eq!(resolve_run_bounds(None, Some(3), None), Ok(RunBounds { min: 3, max: Some(3) }));
    assert_eq!(resolve_run_bounds(Some(8), Some(3), None), Err(OptionsError::EmptyRunsRange));
    assert!(matches!(resolve_run_bounds(None, None, Some(0)), Err(OptionsError::ZeroRuns(_))));
    assert_eq!(RunBounds::default(), RunBounds { min: 10, max: None });
}

#[test]
fn custom_shell_text_parses_back() {
    let shell = Shell::parse_from_str("shell -x 'aaa bbb'").unwrap();
    assert_eq!(Shell::parse_from_str(&shell.to_text()).unwrap(), shell);
    let odd = Shell::Custom(vec!["my shell".to_string(), "it's".to_string(), "".to_string()]);
    assert_eq!(Shell::parse_from_str(&odd.to_text()).unwrap(), odd);
}

#[test]
fn input_files_must_exist() {
    assert_eq!(input_policy(&None, false), Ok(CommandInputPolicy::Null));
    assert_eq!(input_policy(&Some("null".to_string()), false), Ok(CommandInputPolicy::Null));
    assert_eq!(input_policy(&Some("in.txt".to_string()), true), Ok(CommandInputPolicy::File("in.txt".to_string())));
    let e = input_policy(&Some("gone.txt".to_string()), false).unwrap_err();
    assert_eq!(e, OptionsError::StdinDataFileDoesNotExist("gone.txt".to_string()));
    assert_eq!(e.message(), "The file 'gone.txt' specified as '--input' does not exist");
}

#[test]
fn omitting_failed_runs_needs_ignored_failures() {
    assert_eq!(check_omit_failed_runs(true, &CmdFailureAction::RaiseError), Err(OptionsError::OmitFailedRunsRequiresIgnoreFailure));
    assert_eq!(check_omit_failed_runs(false, &CmdFailureAction::RaiseError), Ok(()));
    assert_eq!(check_omit_failed_runs(true, &CmdFailureAction::IgnoreAllFailures), Ok(()));
    assert_eq!(check_omit_failed_runs(true, &CmdFailureAction::IgnoreSpecificFailures(vec![2])), Ok(()));
}

#[test]
fn time_units_by_name() {
    assert_eq!(time_unit_option(&Some("microsecond".to_string())), Some(Unit::MicroSecond));
    assert_eq!(time_unit_option(&Some("millisecond".to_string())), Some(Unit::MilliSecond));
    assert_eq!(time_unit_option(&Some("second".to_string())), Some(Unit::Second));
    assert_eq!(time_unit_option(&Some("hour".to_string())), None);
    assert_eq!(time_unit_option(&None), None);
}
