use sysctrl::gpu::{
    apple_gpu_name, bytes_to_mib, first_hwmon_entry, get_device_name, is_amd_device,
    is_apple_vendor, is_asahi_driver, is_drm_card_name, is_intel_device, is_macsmc_name,
    label_mentions_gpu, lowered_label_mentions_gpu, lowered_names_macsmc, nvidia_fallback_name, radeontop_gpu_field, read_sysfs_string,
    temp_input_name_for_label, vram_mib, AmdGpuSensor, AppleGpuSensor, AppleTempFile, GpuVendor,
    IntelEngine, IntelGpuSensor, is_render_engine_lowered,
};

#[test]
fn drm_cards() {
    assert!(is_drm_card_name("card0"));
    assert!(is_drm_card_name("card12"));
    assert!(!is_drm_card_name("card0-DP-1"));
    assert!(!is_drm_card_name("renderD128"));
}

#[test]
fn vendors() {
    assert!(is_amd_device(Some("0x1002\n")));
    assert!(!is_amd_device(Some("0x10de\n")));
    assert!(!is_amd_device(None));
    assert!(is_intel_device(Some("0x8086")));
    assert!(is_apple_vendor(Some(" 0x106b ")));
    assert!(is_asahi_driver(Some("asahi")));
    assert!(!is_asahi_driver(Some("amdgpu")));
    assert!(!is_asahi_driver(None));
    assert!(is_macsmc_name("macsmc_hwmon\n"));
    assert!(is_macsmc_name("MacSMC"));
    assert!(!is_macsmc_name("k10temp"));
    assert!(lowered_names_macsmc("apple_macsmc"));
    assert!(!lowered_names_macsmc("MacSMC"));
}

#[test]
fn hwmon_entries() {
    let names = vec!["power".to_string(), "hwmon4".to_string(), "hwmon5".to_string()];
    assert_eq!(first_hwmon_entry(&names), Some(1));
    assert_eq!(first_hwmon_entry(&vec!["x".to_string()]), None);
}

#[test]
fn gpu_device_names() {
    assert_eq!(get_device_name(GpuVendor::Amd, Some(" Radeon RX 7900 XTX \n"), None, "card0"), "Radeon RX 7900 XTX");
    let uevent = "DRIVER=amdgpu\nPCI_CLASS=30000\nPCI_ID=1002:744C\nPCI_SUBSYS_ID=1DA2:E471\n";
    assert_eq!(get_device_name(GpuVendor::Amd, Some("  "), Some(uevent), "card0"), "AMD GPU (1002:744C)");
    assert_eq!(get_device_name(GpuVendor::Intel, None, Some("PCI_ID=8086:46A6\n"), "card1"), "Intel GPU (8086:46A6)");
    assert_eq!(get_device_name(GpuVendor::Intel, None, None, "card1"), "Intel Graphics (card1)");
    assert_eq!(get_device_name(GpuVendor::Amd, None, Some("DRIVER=amdgpu\n"), "card2"), "AMD GPU (card2)");
    assert_eq!(nvidia_fallback_name(3), "NVIDIA GPU 3");
    assert_eq!(apple_gpu_name("card0"), "Apple GPU (card0)");
}

#[test]
fn memory_values() {
    assert_eq!(bytes_to_mib(25_753_026_560), 24560);
    assert_eq!(bytes_to_mib(1048575), 0);
    assert_eq!(vram_mib(Some("536870912\n")), Some(512));
    assert_eq!(vram_mib(Some("nope")), None);
    assert_eq!(vram_mib(None), None);
    assert_eq!(read_sysfs_string(Some(" a b \n")).as_deref(), Some("a b"));
    assert_eq!(AppleGpuSensor::read_sysfs_u64(Some("42\n")), Some(42));
    assert_eq!(AppleGpuSensor::read_sysfs_u64(Some("4.2")), None);
}

#[test]
fn amd_clock() {
    let with_hwmon = AmdGpuSensor::new("/c".into(), "/c/device".into(), Some("/c/device/hwmon/hwmon1".into()), "AMD".into());
    let without = AmdGpuSensor::new("/c".into(), "/c/device".into(), None, "AMD".into());
    assert_eq!(with_hwmon.name(), "AMD");
    assert_eq!(with_hwmon.hwmon_path(), Some("/c/device/hwmon/hwmon1"));
    // the usual format: the clock of the line marked `*`
    assert_eq!(without.read_clock_mhz(Some("0: 200Mhz\n1: 1200Mhz *\n2: 1800Mhz\n"), None), Some(1200));
    assert_eq!(with_hwmon.read_clock_mhz(Some("0: 500Mhz\n1: 2100Mhz *\n"), Some("2100000000")), Some(2100));
    // a marked line without a number falls back to freq1_input (kHz)
    assert_eq!(with_hwmon.read_clock_mhz(Some("0: 500Mhz\n1: fast *\n"), Some("2100000000")), Some(2100000));
    assert_eq!(without.read_clock_mhz(Some("0: 500Mhz\n1: fast *\n"), Some("2100000000")), None);
    assert_eq!(without.read_clock_mhz(Some("0:500Mhz\n1:2100Mhz *\n2:3000Mhz *\n"), None), Some(2100));
    assert_eq!(with_hwmon.read_clock_mhz(None, Some("bad")), None);
}

#[test]
fn amd_apus() {
    assert!(AmdGpuSensor::is_apu(Some("0x15BF\n")));
    assert!(AmdGpuSensor::is_apu(Some("0x163f")));
    assert!(!AmdGpuSensor::is_apu(Some("0x744c")));
    assert!(!AmdGpuSensor::is_apu(None));
}

#[test]
fn radeontop_usage() {
    let out = "Dumping to -, line limit 1.\n1700000000.000: bus 03, gpu 12.50%, ee 0.00%, vgt 5.00%";
    assert_eq!(radeontop_gpu_field(out).as_deref(), Some("12.50"));
    assert_eq!(radeontop_gpu_field("bus 03, gpu 7"), None);
    assert_eq!(radeontop_gpu_field("nothing here"), None);
}

#[test]
fn apple_temperature() {
    let s = AppleGpuSensor::new("/c".into(), "/c/device".into(), Some("/sys/class/hwmon/hwmon0".into()), "card0");
    assert_eq!(s.name(), "Apple GPU (card0)");
    let files = vec![
        AppleTempFile { name: "temp1_label".into(), label: Some("CPU Die\n".into()), input: Some("50000".into()) },
        AppleTempFile { name: "temp2_input".into(), label: None, input: None },
        AppleTempFile { name: "temp3_label".into(), label: Some("GPU cluster\n".into()), input: Some("bad".into()) },
        AppleTempFile { name: "temp4_label".into(), label: Some(" gpu 2 ".into()), input: Some("47250\n".into()) },
    ];
    assert_eq!(s.read_temp_milli(&files), Some(47250));
    let none = AppleGpuSensor::new("/c".into(), "/c/device".into(), None, "card0");
    assert_eq!(none.read_temp_milli(&files), None);
    assert_eq!(temp_input_name_for_label("temp4_label").as_deref(), Some("temp4_input"));
    assert_eq!(temp_input_name_for_label("temp4_input"), None);
    assert!(label_mentions_gpu(" GPU Die "));
    assert!(!label_mentions_gpu("SoC"));
    assert!(lowered_label_mentions_gpu("gpu die"));
    assert!(!lowered_label_mentions_gpu("GPU Die"));
}

fn engine(name: &str, class: &str) -> IntelEngine {
    IntelEngine { name: name.into(), class: class.into() }
}

#[test]
fn intel_engines() {
    let e = vec![engine("Blitter/0", "copy"), engine("Render/3D/0", "render"), engine("Video/0", "video")];
    assert_eq!(IntelGpuSensor::usage_engine(&e), Some(1));
    let e = vec![engine("Blitter/0", "copy"), engine("RENDER", "x")];
    assert_eq!(IntelGpuSensor::usage_engine(&e), Some(1));
    let e = vec![engine("Blitter/0", "copy"), engine("Video/0", "video")];
    assert_eq!(IntelGpuSensor::usage_engine(&e), Some(0));
    assert!(is_render_engine_lowered("video", "render/3d/0"));
    assert!(is_render_engine_lowered("3d", "x"));
    assert!(!is_render_engine_lowered("video", "Render/3D/0"));
    assert_eq!(IntelGpuSensor::usage_engine(&vec![]), None);
    let s = IntelGpuSensor::new("/c".into(), "/c/device".into(), None, "Intel".into());
    assert_eq!(s.hwmon_path(), None);
    assert_eq!(s.device_path(), "/c/device");
}
