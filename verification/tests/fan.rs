use sysctrl::fan::{
    build_label, fan_input_file_name, fan_label_file_name, hwmon_name, is_cpu_chip, is_gpu_hwmon,
    parse_fan_index, parse_sysfs_u32, percent_to_pwm, pwm_file_name, pwm_to_percent, sysfs_join, FanError,
    FanRaw, FanScan,
};
use sysctrl::sensors::{FanController, NoopFanController};

#[test]
fn pwm_percent_conversions() {
    assert_eq!(pwm_to_percent(0), 0);
    assert_eq!(pwm_to_percent(255), 100);
    assert_eq!(pwm_to_percent(128), 50);
    assert_eq!(pwm_to_percent(127), 50);
    assert_eq!(pwm_to_percent(1), 0);
    assert_eq!(pwm_to_percent(2), 1);
    assert_eq!(pwm_to_percent(651), 255);
    assert_eq!(pwm_to_percent(u32::MAX), 255);
    assert_eq!(percent_to_pwm(0), 0);
    assert_eq!(percent_to_pwm(100), 255);
    assert_eq!(percent_to_pwm(10), 26);
    assert_eq!(percent_to_pwm(30), 77);
    assert_eq!(percent_to_pwm(50), 128);
    assert_eq!(percent_to_pwm(70), 179);
    assert_eq!(percent_to_pwm(90), 230);
    assert_eq!(percent_to_pwm(1), 3);
}

/// The integer conversions agree with the floating-point formulas of the
/// GUI on every value they can be given.
#[test]
fn conversions_match_float_formulas() {
    for raw in 0u32..5000 {
        let f = ((raw as f32 / 255.0) * 100.0).round() as u8;
        assert_eq!(pwm_to_percent(raw), f, "raw {}", raw);
    }
    for p in 0u8..=100 {
        let f = ((p as f32 / 100.0) * 255.0).round() as u32;
        assert_eq!(percent_to_pwm(p), f, "percent {}", p);
    }
}

#[test]
fn round_trip_every_percent() {
    for p in 0u8..=100 {
        assert_eq!(pwm_to_percent(percent_to_pwm(p)), p);
    }
}

#[test]
fn cpu_chips() {
    assert!(is_cpu_chip("nct6775"));
    assert!(is_cpu_chip("NCT6798"));
    assert!(is_cpu_chip("it8688"));
    assert!(is_cpu_chip("coretemp"));
    assert!(!is_cpu_chip("amdgpu"));
    assert!(!is_cpu_chip("nct6775 "));
}

#[test]
fn gpu_hwmon_dirs() {
    assert!(is_gpu_hwmon(Some("/sys/class/drm/card0/device/hwmon/hwmon3")));
    assert!(!is_gpu_hwmon(Some("/sys/class/hwmon/hwmon3")));
    assert!(!is_gpu_hwmon(None));
}

#[test]
fn fan_indices() {
    assert_eq!(parse_fan_index("fan1_input"), Some(1));
    assert_eq!(parse_fan_index("fan12_input"), Some(12));
    assert_eq!(parse_fan_index("fan_input"), None);
    assert_eq!(parse_fan_index("fan1_label"), None);
    assert_eq!(parse_fan_index("pwm1"), None);
    assert_eq!(parse_fan_index("fan+3_input"), Some(3));
    assert_eq!(parse_fan_index("fan99999999999_input"), None);
}

#[test]
fn names_and_files() {
    assert_eq!(hwmon_name(Some("nct6775\n")), "nct6775");
    assert_eq!(hwmon_name(None), "unknown");
    assert_eq!(fan_input_file_name(2), "fan2_input");
    assert_eq!(fan_label_file_name(2), "fan2_label");
    assert_eq!(pwm_file_name(10), "pwm10");
    assert_eq!(parse_sysfs_u32(Some("1200\n")), Some(1200));
    assert_eq!(parse_sysfs_u32(Some("-1")), None);
    assert_eq!(parse_sysfs_u32(None), None);
}

#[test]
fn labels() {
    let mut c = 0u32;
    assert_eq!(build_label(Some("/sys/class/hwmon/hwmon2"), "nct6775", 2, Some(" Chassis \n"), &mut c), "Chassis");
    assert_eq!(build_label(Some("/sys/class/hwmon/hwmon2"), "nct6775", 1, Some("  "), &mut c), "CPU fan");
    assert_eq!(build_label(Some("/sys/class/hwmon/hwmon2"), "NCT6775", 3, None, &mut c), "CPU fan 3");
    assert_eq!(build_label(Some("/sys/class/hwmon/hwmon5"), "thinkpad", 1, None, &mut c), "Fan 1 (thinkpad)");
    assert_eq!(c, 0);
    assert_eq!(build_label(Some("/sys/class/drm/card1/device/hwmon/hwmon4"), "amdgpu", 1, None, &mut c), "GPU fan 1");
    assert_eq!(build_label(Some("/sys/class/drm/card2/device/hwmon/hwmon6"), "amdgpu", 1, None, &mut c), "GPU fan 2");
    assert_eq!(c, 2);
}

fn sample_controller() -> sysctrl::fan::SysfsFanController {
    let mut scan = FanScan::new();
    scan.add_fan(
        Some("/sys/class/hwmon/hwmon2"),
        "nct6775",
        1,
        "/sys/class/hwmon/hwmon2/fan1_input".to_string(),
        Some("/sys/class/hwmon/hwmon2/pwm1".to_string()),
        None,
    );
    scan.add_fan(
        Some("/sys/class/drm/card0/device/hwmon/hwmon3"),
        "amdgpu",
        1,
        "/sys/class/drm/card0/device/hwmon/hwmon3/fan1_input".to_string(),
        None,
        None,
    );
    assert_eq!(scan.gpu_fan_count(), 1);
    scan.finish()
}

#[test]
fn scan_and_read() {
    let ctl = sample_controller();
    assert_eq!(ctl.fans().len(), 2);
    assert_eq!(ctl.fans()[0].label, "CPU fan");
    assert_eq!(ctl.fans()[1].label, "GPU fan 1");
    let raw = vec![
        FanRaw { rpm: Some("1200\n".to_string()), pwm: Some("128\n".to_string()) },
        FanRaw { rpm: None, pwm: Some("255".to_string()) },
    ];
    let r = ctl.readings(&raw);
    assert_eq!(r.len(), 2);
    assert_eq!(r[0].label, "CPU fan");
    assert_eq!(r[0].rpm, Some(1200));
    assert_eq!(r[0].percent, Some(50));
    assert!(r[0].writable);
    assert_eq!(r[1].rpm, None);
    assert_eq!(r[1].percent, None);
    assert!(!r[1].writable);
}

#[test]
fn pwm_targets() {
    let ctl = sample_controller();
    let (path, value) = ctl.pwm_target("CPU fan", 50).unwrap();
    assert_eq!(path, "/sys/class/hwmon/hwmon2/pwm1");
    assert_eq!(value, 128);
    assert_eq!(ctl.pwm_target("CPU fan", 250).unwrap().1, 255);
    match ctl.pwm_target("GPU fan 1", 10) {
        Err(FanError::NotWritable(l)) => assert_eq!(l, "GPU fan 1"),
        other => panic!("unexpected {:?}", other),
    }
    match ctl.pwm_target("nope", 10) {
        Err(FanError::NotFound(l)) => assert_eq!(l, "nope"),
        other => panic!("unexpected {:?}", other),
    }
}

#[test]
fn set_then_read_back() {
    let ctl = sample_controller();
    for p in 0u8..=255 {
        let (_, v) = ctl.pwm_target("CPU fan", p).unwrap();
        let raw = vec![
            FanRaw { rpm: None, pwm: Some(v.to_string()) },
            FanRaw { rpm: None, pwm: None },
        ];
        assert_eq!(ctl.readings(&raw)[0].percent, Some(p.min(100)));
    }
}

#[test]
fn noop_fans() {
    let n = NoopFanController;
    assert!(n.read_all().unwrap().is_empty());
    assert!(n.set_percent("cpu_fan", 40).is_ok());
}

#[test]
fn joined_paths() {
    assert_eq!(sysfs_join("/sys/class/hwmon/hwmon3", "pwm1"), "/sys/class/hwmon/hwmon3/pwm1");
    assert_eq!(sysfs_join("/sys/class/hwmon/hwmon3/", "pwm1"), "/sys/class/hwmon/hwmon3/pwm1");
    assert_eq!(sysfs_join("", "pwm1"), "pwm1");
    let p = sysfs_join("/sys/class/drm/card0/device/hwmon/hwmon2", &pwm_file_name(7));
    assert!(sysctrl::helper::validate_pwm_path(&p).is_ok());
}
