use sysctrl::disk::{
    device_name, disk_model, disk_model_path, disk_reading, strip_partition_suffix,
    SysinfoDiskSensor,
};
use sysctrl::sensors::{DiskSensor, NoopDiskSensor};

#[test]
fn partition_suffixes() {
    assert_eq!(strip_partition_suffix("nvme0n1p2"), "nvme0n1");
    assert_eq!(strip_partition_suffix("sda1"), "sda");
    assert_eq!(strip_partition_suffix("sda"), "sda");
    assert_eq!(strip_partition_suffix("mmcblk0p1"), "mmcblk0");
    // whole disks keep their names
    assert_eq!(strip_partition_suffix("nvme0n1"), "nvme0n1");
    assert_eq!(strip_partition_suffix("nvme1n12"), "nvme1n12");
    assert_eq!(strip_partition_suffix("mmcblk0"), "mmcblk0");
    assert_eq!(strip_partition_suffix("loop0"), "loop0");
    assert_eq!(strip_partition_suffix("loop1"), "loop1");
    assert_eq!(strip_partition_suffix("loop10"), "loop10");
    assert_eq!(strip_partition_suffix("md127"), "md127");
    assert_eq!(strip_partition_suffix("nbd1"), "nbd1");
    assert_eq!(strip_partition_suffix("sr0"), "sr0");
    assert_eq!(strip_partition_suffix("loop"), "loop");
    assert_eq!(strip_partition_suffix(""), "");
    // partitions
    assert_eq!(strip_partition_suffix("nvme0n1p12"), "nvme0n1");
    assert_eq!(strip_partition_suffix("sda10"), "sda");
    assert_eq!(strip_partition_suffix("sdp1"), "sdp");
    assert_eq!(strip_partition_suffix("loop0p1"), "loop0");
    assert_eq!(strip_partition_suffix("vda1"), "vda");
    assert_eq!(strip_partition_suffix("xvda2"), "xvda");
    assert_eq!(strip_partition_suffix("hdb3"), "hdb");
}

#[test]
fn disk_device_names() {
    assert_eq!(device_name("/dev/sda1"), "sda1");
    assert_eq!(device_name("/dev//dev/x"), "x");
    assert_eq!(device_name("/dev/dev/x"), "dev/x");
    assert_eq!(device_name("tmpfs"), "tmpfs");
}

#[test]
fn models() {
    assert_eq!(disk_model_path("nvme0n1p2"), "/sys/block/nvme0n1/device/model");
    assert_eq!(disk_model_path("nvme0n1"), "/sys/block/nvme0n1/device/model");
    assert_eq!(disk_model_path("sdb2"), "/sys/block/sdb/device/model");
    assert_eq!(disk_model(Some("Samsung SSD 980 1TB      \n")).as_deref(), Some("Samsung SSD 980 1TB"));
    assert_eq!(disk_model(Some("   ")), None);
    assert_eq!(disk_model(None), None);
}

#[test]
fn disk_readings() {
    let r = disk_reading("sda1".into(), "/".into(), 1000, 400, Some("WDC\n"));
    assert_eq!(r.device, "sda1");
    assert_eq!(r.mount.as_deref(), Some("/"));
    assert_eq!(r.total_bytes, 1000);
    assert_eq!(r.used_bytes, 600);
    assert_eq!(r.model.as_deref(), Some("WDC"));
    let r = disk_reading("sdb".into(), "/mnt".into(), 10, 20, None);
    assert_eq!(r.used_bytes, 0);
    assert_eq!(r.model, None);
}

#[test]
fn disk_sensors() {
    let _ = SysinfoDiskSensor::new();
    let _ = SysinfoDiskSensor::default();
    assert!(NoopDiskSensor.read_all().unwrap().is_empty());
}
