use sysctrl::helper::{
    is_valid_pwm_filename, parse_helper_args, parse_pwm_value, validate_pwm_path, HelperError,
    PathError, ValueError,
};

#[test]
fn pwm_filenames() {
    assert!(is_valid_pwm_filename("pwm1"));
    assert!(is_valid_pwm_filename("pwm12"));
    assert!(!is_valid_pwm_filename("pwm"));
    assert!(!is_valid_pwm_filename("pwm1_enable"));
    assert!(!is_valid_pwm_filename("fan1"));
    assert!(!is_valid_pwm_filename("pwm+1"));
}

#[test]
fn paths() {
    assert!(validate_pwm_path("/sys/class/hwmon/hwmon3/pwm1").is_ok());
    assert!(validate_pwm_path("/sys/class/drm/card0/device/hwmon/hwmon2/pwm1").is_ok());
    assert!(matches!(validate_pwm_path("/sys/class/hwmon/../../etc/pwm1"), Err(PathError::ParentTraversal)));
    match validate_pwm_path("/etc/passwd") {
        Err(PathError::OutsideSysfs(p)) => assert_eq!(p, "/etc/passwd"),
        other => panic!("unexpected {:?}", other),
    }
    assert!(matches!(validate_pwm_path("/sys/class/hwmon/hwmon3/"), Err(PathError::NoFilename)));
    match validate_pwm_path("/sys/class/hwmon/hwmon3/pwm1_enable") {
        Err(PathError::BadFilename(f)) => assert_eq!(f, "pwm1_enable"),
        other => panic!("unexpected {:?}", other),
    }
    assert!(matches!(validate_pwm_path("/sys/class/hwmon"), Err(PathError::OutsideSysfs(_))));
}

#[test]
fn values() {
    assert_eq!(parse_pwm_value("0"), Ok(0));
    assert_eq!(parse_pwm_value("255"), Ok(255));
    assert_eq!(parse_pwm_value("+12"), Ok(12));
    assert_eq!(parse_pwm_value("256"), Err(ValueError::OutOfRange(256)));
    assert_eq!(parse_pwm_value("abc"), Err(ValueError::NotInteger));
    assert_eq!(parse_pwm_value(" 5"), Err(ValueError::NotInteger));
    assert_eq!(parse_pwm_value("-1"), Err(ValueError::NotInteger));
    assert_eq!(parse_pwm_value("4294967296"), Err(ValueError::NotInteger));
}

fn args(v: &[&str]) -> Vec<String> {
    v.iter().map(|s| s.to_string()).collect()
}

#[test]
fn command_lines() {
    let r = parse_helper_args(&args(&["sysctl-helper", "set-fan", "/sys/class/hwmon/hwmon3/pwm1", "128"])).unwrap();
    assert_eq!(r.path, "/sys/class/hwmon/hwmon3/pwm1");
    assert_eq!(r.value, 128);
    assert!(matches!(parse_helper_args(&args(&["sysctl-helper"])), Err(HelperError::NoCommand)));
    match parse_helper_args(&args(&["sysctl-helper", "reboot"])) {
        Err(HelperError::UnknownCommand(c)) => assert_eq!(c, "reboot"),
        other => panic!("unexpected {:?}", other),
    }
    assert!(matches!(parse_helper_args(&args(&["h", "set-fan", "/sys/class/hwmon/hwmon3/pwm1"])), Err(HelperError::WrongArgCount)));
    assert!(matches!(
        parse_helper_args(&args(&["h", "set-fan", "/tmp/pwm1", "999"])),
        Err(HelperError::Path(PathError::OutsideSysfs(_)))
    ));
    match parse_helper_args(&args(&["h", "set-fan", "/sys/class/hwmon/hwmon3/pwm1", "999"])) {
        Err(HelperError::Value(ValueError::OutOfRange(999), t)) => assert_eq!(t, "999"),
        other => panic!("unexpected {:?}", other),
    }
}

#[test]
fn helper_accepts_every_gui_value() {
    for p in 0u8..=100 {
        let v = sysctrl::fan::percent_to_pwm(p);
        assert_eq!(parse_pwm_value(&v.to_string()), Ok(v));
    }
}
