use joulex::util::affinity::{parse_cpu_list, validate, windows_mask};
use joulex::util::interrupt::{interrupted, on_interrupt, reset, INTERRUPT_EXIT_CODE};
use joulex::util::platform::Os;
use joulex::util::priority::{permission_hint, Priority};
use joulex::util::sanitize::escape_control_chars;
use joulex::util::units::{duration_parts, format_bytes, precision, set_precision, DurationUnit, Precision, Unit};
use std::borrow::Cow;

#[test]
fn parses_cpu_lists() {
    assert_eq!(parse_cpu_list("0").unwrap(), vec![0]);
    assert_eq!(parse_cpu_list("0-3").unwrap(), vec![0, 1, 2, 3]);
    assert_eq!(parse_cpu_list("5, 1,3-4").unwrap(), vec![1, 3, 4, 5]);
    assert_eq!(parse_cpu_list("2,2,1-2").unwrap(), vec![1, 2]);
}

#[test]
fn rejects_invalid_cpu_lists() {
    for list in ["", "a", "3-1", "1,", "-2", "1-x"] {
        assert!(parse_cpu_list(list).is_err(), "{list}");
    }
}

#[test]
fn rejects_cpus_that_do_not_exist() {
    let err = validate(&[100_000], Os::Linux, 8).unwrap_err();
    assert!(err.to_string().contains("does not exist"));
    assert!(validate(&[0], Os::Linux, 8).is_ok());
    assert_eq!(err, "CPU 100000 does not exist: this system has CPUs 0-7");
}

#[test]
fn is_unsupported_on_this_platform() {
    assert!(validate(&[0], Os::MacOs, 8).unwrap_err().to_string().contains("only supported"));
}

#[test]
fn windows_cpu_masks() {
    assert_eq!(windows_mask(&[0, 2, 3]), 0b1101);
    assert_eq!(windows_mask(&[]), 0);
}

#[test]
fn test_interrupt_flag() {
    let mut presses: u8 = 7;
    reset(&mut presses);
    assert!(!interrupted(presses));
    joulex::util::interrupt::trigger(&mut presses);
    assert!(interrupted(presses));
    reset(&mut presses);
    assert!(!interrupted(presses));
}

#[test]
fn a_second_interrupt_ends_the_program() {
    assert_eq!(on_interrupt(0), None);
    assert_eq!(on_interrupt(1), Some(INTERRUPT_EXIT_CODE));
    assert_eq!(INTERRUPT_EXIT_CODE, 130);
}

#[test]
fn parse_priorities() {
    let os = Os::Linux;
    assert_eq!(Priority::parse("normal", os).unwrap(), Priority::Normal);
    assert_eq!(Priority::parse("high", os).unwrap(), Priority::High);
    assert_eq!(Priority::parse("idle", os).unwrap(), Priority::Idle);
    assert!(Priority::parse("fast", os).is_err());
    assert!(Priority::parse("realtime", Os::Linux).is_ok());
    assert!(Priority::parse("realtime", Os::Windows).is_ok());
    assert!(Priority::parse("realtime", Os::MacOs).is_err());
    for p in [Priority::Normal, Priority::High, Priority::Idle] {
        assert_eq!(Priority::parse(p.as_str(), os).unwrap(), p);
    }
}

#[test]
fn only_raising_the_priority_needs_a_hint() {
    for os in [Os::Linux, Os::MacOs, Os::Windows] {
        assert!(permission_hint(Priority::Normal, os).is_none());
        assert!(permission_hint(Priority::Idle, os).is_none());
        assert!(permission_hint(Priority::High, os).is_some());
        assert!(permission_hint(Priority::Realtime, os).is_some());
    }
}

#[test]
fn leaves_plain_text_untouched() {
    assert!(matches!(escape_control_chars("sleep 0.1 | wc -l"), Cow::Borrowed("sleep 0.1 | wc -l")));
    assert_eq!(escape_control_chars("naïve ✓ 日本"), "naïve ✓ 日本");
}

#[test]
fn escapes_ansi_and_osc_sequences() {
    assert_eq!(escape_control_chars("\u{1b}]0;PWNED\u{7}\u{1b}[2Jx"), "\\u{1b}]0;PWNED\\u{7}\\u{1b}[2Jx");
}

#[test]
fn escapes_c1_and_del() {
    assert_eq!(escape_control_chars("a\u{9b}b\u{7f}"), "a\\u{9b}b\\u{7f}");
}

#[test]
fn escapes_newlines_and_tabs() {
    assert_eq!(escape_control_chars("a\nb\tc"), "a\\u{a}b\\u{9}c");
}

#[test]
fn test_unit_short_name() {
    assert_eq!("s", Unit::Second.short_name());
    assert_eq!("ms", Unit::MilliSecond.short_name());
    assert_eq!("µs", Unit::MicroSecond.short_name());
}

#[test]
fn test_format_bytes() {
    assert_eq!("512 B", format_bytes(512));
    assert_eq!("1.5 KB", format_bytes(1536));
    assert_eq!("20.0 MB", format_bytes(20 * 1024 * 1024));
    assert_eq!("1.50 GB", format_bytes((1.5 * 1024.0 * 1024.0 * 1024.0) as u64));
}

#[test]
fn durations_split_into_number_and_unit() {
    assert_eq!(duration_parts(" 1.5s ").unwrap(), ("1.5".to_string(), Ok(DurationUnit::Seconds)));
    assert_eq!(duration_parts("500 ms").unwrap(), ("500".to_string(), Ok(DurationUnit::Milliseconds)));
    assert_eq!(duration_parts("200µs").unwrap(), ("200".to_string(), Ok(DurationUnit::Microseconds)));
    assert_eq!(duration_parts("2").unwrap(), ("2".to_string(), Ok(DurationUnit::Seconds)));
    assert_eq!(duration_parts("1h").unwrap(), ("1".to_string(), Ok(DurationUnit::Hours)));
    assert_eq!(duration_parts("3 fortnights").unwrap(), ("3".to_string(), Err("fortnights".to_string())));
    assert_eq!(duration_parts("   ").unwrap_err(), "duration cannot be empty");
}

#[test]
fn the_counter_of_interrupts_wraps_around() {
    let mut presses: u8 = 254;
    joulex::util::interrupt::trigger(&mut presses);
    assert_eq!(presses, 255);
    joulex::util::interrupt::trigger(&mut presses);
    assert_eq!(presses, 0);
}

#[test]
fn the_precision_is_set_once() {
    let mut slot: Option<Precision> = None;
    assert_eq!(precision(&slot), Precision::Default);
    set_precision(&mut slot, Precision::Fixed(2));
    assert_eq!(precision(&slot), Precision::Fixed(2));
    set_precision(&mut slot, Precision::Auto);
    assert_eq!(precision(&slot), Precision::Fixed(2));
}
