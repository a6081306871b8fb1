use joulex::system_check::{
    all_passed, governor_check, parse_pmset_batt, parse_pmset_low_power, parse_pmset_speed_limit, power_check,
    power_check_linux, report, turbo_check, Check, Status,
};

fn strings(values: &[&str]) -> Vec<String> {
    values.iter().map(|s| s.to_string()).collect()
}

#[test]
fn governor() {
    assert!(governor_check(&[]).is_none());
    let ok = governor_check(&strings(&["performance", "performance"])).unwrap();
    assert_eq!(ok.status, Status::Pass);
    assert_eq!(ok.detail, "performance on 2 CPUs");
    assert!(ok.hint.is_none());

    let mixed = governor_check(&strings(&["powersave", "performance", "powersave"])).unwrap();
    assert_eq!(mixed.status, Status::Fail);
    assert_eq!(mixed.detail, "powersave on 2 CPUs, performance on 1 CPU");
    assert!(mixed.hint.unwrap().contains("cpupower"));
}

#[test]
fn turbo() {
    assert!(turbo_check(None, None).is_none());
    assert_eq!(turbo_check(Some("0"), None).unwrap().status, Status::Fail);
    assert_eq!(turbo_check(Some("1"), None).unwrap().status, Status::Pass);
    let amd = turbo_check(None, Some("1")).unwrap();
    assert_eq!(amd.status, Status::Fail);
    assert!(amd.hint.unwrap().contains("cpufreq/boost"));
    assert_eq!(turbo_check(None, Some("0")).unwrap().status, Status::Pass);
}

#[test]
fn power() {
    let supply = |kind: &str, online: &str| (kind.to_string(), online.to_string());
    assert!(power_check_linux(&[]).is_none());
    assert!(power_check_linux(&[supply("Battery", "")]).is_none());
    let ac = power_check_linux(&[supply("Mains", "1"), supply("Battery", "")]).unwrap();
    assert_eq!((ac.status, ac.detail.as_str()), (Status::Pass, "AC"));
    let battery = power_check_linux(&[supply("Mains", "0")]).unwrap();
    assert_eq!(battery.status, Status::Warn);
    assert_eq!(power_check(true).status, Status::Warn);
    assert_eq!(power_check(false).status, Status::Pass);
}

#[test]
fn pmset_parsing() {
    let batt = "Now drawing from 'Battery Power'\n -InternalBattery-0 (id=1)\t80%; discharging";
    assert_eq!(parse_pmset_batt(batt), Some(true));
    assert_eq!(parse_pmset_batt("Now drawing from 'AC Power'\n"), Some(false));
    assert_eq!(parse_pmset_batt(""), None);

    let settings = "System-wide power settings:\n lowpowermode         1\n sleep 1\n";
    assert_eq!(parse_pmset_low_power(settings), Some(true));
    assert_eq!(parse_pmset_low_power(" lowpowermode 0\n"), Some(false));
    assert_eq!(parse_pmset_low_power(" sleep 1\n"), None);

    let therm = "CPU_Scheduler_Limit \t= 100\nCPU_Available_CPUs \t= 8\nCPU_Speed_Limit \t= 80\n";
    assert_eq!(parse_pmset_speed_limit(therm), Some(80));
    assert_eq!(parse_pmset_speed_limit("Note: No thermal warning level has been recorded\n"), None);
}

#[test]
fn report_passes_only_when_every_check_passes() {
    let pass = Check::new("governor", Status::Pass, "performance on 2 CPUs".to_string());
    let warn = Check::new("power", Status::Warn, "battery".to_string()).with_hint("plug in".to_string());
    assert!(all_passed(&[pass.clone()]));
    assert!(!all_passed(&[pass.clone(), warn.clone()]));
    let text = report(&[pass, warn], &["ok", "!", "x"]);
    assert!(text.contains("performance on 2 CPUs"));
    assert!(text.contains("plug in"));
}
