use sysctrl::cpu::{
    aggregate_cpu_counters, choose_cpu_temp, choose_cpu_temp_hwmon, choose_cpu_temp_lowered, cpu_stat_total_fits,
    cpu_temp_priority, cpufreq_mhz, cpuinfo_mhz_fields, parse_cpu_stat, temp_input_number,
    temp_label_file_name, CpuStatError, CpuStatSample, HwmonCandidate, LinuxCpuSensor,
    TempReading,
};

#[test]
fn cpu_sensor_caches_first_lookup() {
    let mut s = LinuxCpuSensor::new();
    assert!(s.hwmon_path().is_none());
    s.remember_hwmon_path(Some("/sys/class/hwmon/hwmon2".to_string()));
    assert_eq!(s.hwmon_path(), Some(Some("/sys/class/hwmon/hwmon2".to_string())));
    s.remember_hwmon_path(None);
    assert_eq!(s.hwmon_path(), Some(Some("/sys/class/hwmon/hwmon2".to_string())));
    let mut t = LinuxCpuSensor::default();
    t.remember_hwmon_path(None);
    assert_eq!(t.hwmon_path(), Some(None));
    t.remember_hwmon_path(Some("x".to_string()));
    assert_eq!(t.hwmon_path(), Some(None));
}

#[test]
fn priorities() {
    assert_eq!(cpu_temp_priority("k10temp"), Some(0));
    assert_eq!(cpu_temp_priority("coretemp"), Some(1));
    assert_eq!(cpu_temp_priority("zenpower"), Some(2));
    assert_eq!(cpu_temp_priority("macsmc"), Some(3));
    assert_eq!(cpu_temp_priority("apple_soc_temp"), Some(3));
    assert_eq!(cpu_temp_priority("nvme"), None);
    assert_eq!(cpu_temp_priority("K10TEMP"), None);
}

fn cand(path: &str, name: Option<&str>) -> HwmonCandidate {
    HwmonCandidate { path: path.to_string(), name: name.map(|s| s.to_string()) }
}

#[test]
fn hwmon_choice_by_priority_then_order() {
    let cands = vec![
        cand("/h0", Some("acpitz\n")),
        cand("/h1", Some("coretemp\n")),
        cand("/h2", None),
        cand("/h3", Some("K10TEMP\n")),
        cand("/h4", Some("k10temp\n")),
    ];
    assert_eq!(choose_cpu_temp_hwmon(&cands).as_deref(), Some("/h3"));
    let cands = vec![cand("/a", Some("zenpower")), cand("/b", Some("coretemp")), cand("/c", Some("coretemp"))];
    assert_eq!(choose_cpu_temp_hwmon(&cands).as_deref(), Some("/b"));
    let cands = vec![cand("/a", Some("nvme")), cand("/b", None)];
    assert_eq!(choose_cpu_temp_hwmon(&cands), None);
    assert_eq!(choose_cpu_temp_hwmon(&vec![]), None);
}

#[test]
fn temp_input_names() {
    assert_eq!(temp_input_number("temp1_input").as_deref(), Some("1"));
    assert_eq!(temp_input_number("temp12_input").as_deref(), Some("12"));
    assert_eq!(temp_input_number("temp_input").as_deref(), Some(""));
    assert_eq!(temp_input_number("temp1_label"), None);
    assert_eq!(temp_input_number("fan1_input"), None);
    assert_eq!(temp_label_file_name("3"), "temp3_label");
}

fn reading(label: Option<&str>, input: Option<&str>) -> TempReading {
    TempReading { label: label.map(|s| s.to_string()), input: input.map(|s| s.to_string()) }
}

#[test]
fn coretemp_prefers_package() {
    let rs = vec![
        reading(Some("Core 0\n"), Some("41000\n")),
        reading(Some("Package id 0\n"), Some("45000\n")),
    ];
    assert_eq!(choose_cpu_temp(Some("coretemp\n"), &rs), Some(45000));
    assert_eq!(choose_cpu_temp(Some("k10temp\n"), &rs), Some(41000));
    assert_eq!(choose_cpu_temp(None, &rs), Some(41000));
    assert_eq!(choose_cpu_temp(Some("  CoreTemp "), &rs), Some(45000));
    // the decision on an already lower-cased name
    assert_eq!(choose_cpu_temp_lowered(Some("coretemp"), &rs), Some(45000));
    assert_eq!(choose_cpu_temp_lowered(Some("CoreTemp"), &rs), Some(41000));
    assert_eq!(choose_cpu_temp_lowered(None, &rs), Some(41000));
}

#[test]
fn unusable_readings_skipped() {
    let rs = vec![
        reading(Some("Package id 0"), Some("garbage")),
        reading(None, None),
        reading(Some("Tctl"), Some("-5000")),
    ];
    assert_eq!(choose_cpu_temp(Some("coretemp"), &rs), Some(-5000));
    assert_eq!(choose_cpu_temp(Some("coretemp"), &vec![reading(None, Some("x"))]), None);
    assert_eq!(choose_cpu_temp(None, &vec![]), None);
}

#[test]
fn cpufreq_khz_to_mhz() {
    assert_eq!(cpufreq_mhz(Some("3600000\n")), Some(3600));
    assert_eq!(cpufreq_mhz(Some("999")), Some(0));
    assert_eq!(cpufreq_mhz(Some("n/a")), None);
    assert_eq!(cpufreq_mhz(None), None);
}

#[test]
fn cpuinfo_fields_in_order() {
    let text = "processor\t: 0\ncpu MHz\t\t: 2800.000\nprocessor\t: 1\ncpu MHz\t\t: 3400.125\ncpu MHz no colon\n";
    assert_eq!(cpuinfo_mhz_fields(text), vec!["2800.000".to_string(), "3400.125".to_string()]);
    assert_eq!(cpuinfo_mhz_fields("cpu MHz : 1 : 2\n"), vec!["1".to_string()]);
    assert!(cpuinfo_mhz_fields("").is_empty());
}

const STAT: &str = "cpu  4705 356 584 3699 23 0 18 7 0 0\ncpu0 1393 10 140 900 5 0 9 2 0 0\nintr 1\n";

#[test]
fn stat_aggregate_line() {
    let s = parse_cpu_stat(STAT).unwrap();
    assert_eq!(s.total, 4705 + 356 + 584 + 3699 + 23 + 0 + 18 + 7);
    assert_eq!(s.idle, 3699);
    assert_eq!(aggregate_cpu_counters(STAT).unwrap().len(), 10);
}

#[test]
fn stat_short_lines_and_missing() {
    // a line with fewer than four counters is skipped
    let s = parse_cpu_stat("cpu  1 2 3\ncpu  1 2 3 4 x 5\n").unwrap();
    assert_eq!(s.total, 1 + 2 + 3 + 4 + 5);
    assert_eq!(s.idle, 4);
    assert!(matches!(parse_cpu_stat("cpu0 1 2 3 4\n"), Err(CpuStatError::NoAggregateLine)));
    assert!(matches!(parse_cpu_stat(""), Err(CpuStatError::NoAggregateLine)));
}

#[test]
fn stat_overflow_detected() {
    let big = format!("cpu  {} 1 0 0\n", u64::MAX);
    assert!(!cpu_stat_total_fits(&big));
    assert!(cpu_stat_total_fits(STAT));
    assert!(cpu_stat_total_fits("nothing\n"));
}

#[test]
fn stat_deltas() {
    let a = CpuStatSample { total: 100, idle: 60 };
    let b = CpuStatSample { total: 150, idle: 70 };
    assert_eq!(b.deltas_since(&a), (50, 10));
    let c = CpuStatSample::from_counters(&vec![1, 2, 3, 4]);
    assert_eq!((c.total, c.idle), (10, 4));
}
