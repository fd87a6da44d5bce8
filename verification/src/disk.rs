//! Disks: which block device a mounted filesystem lives on, its model from
//! sysfs, and its usage.
use vstd::prelude::*;
use crate::text::{
    chars_of, is_ascii_digit, is_digit, starts_with, starts_with_at, opt_string_view, opt_view, owned, string_of, trim,
    trim_digits_end, trim_digits_end_to, trim_range, trim_str_start, trim_str_start_from,
};

verus! {

broadcast use vstd::string::group_string_axioms;

/// Disk sensor: the mounted filesystems backed by block devices, as listed
/// by the operating system.
#[derive(Debug, Clone, Copy)]
pub struct SysinfoDiskSensor;

impl SysinfoDiskSensor {
    pub fn new() -> (s: Self) {
        SysinfoDiskSensor
    }
}

impl Default for SysinfoDiskSensor {
    fn default() -> (s: Self) {
        SysinfoDiskSensor
    }
}

/// One mounted disk.
#[derive(Debug, Clone)]
pub struct DiskReading {
    /// Block device name, e.g. "nvme0n1p2" or "sda1".
    pub device: String,
    /// Model string from the kernel (e.g. "Samsung SSD 980").
    pub model: Option<String>,
    /// Mount point this usage figure corresponds to (e.g. "/").
    pub mount: Option<String>,
    /// Total capacity in bytes.
    pub total_bytes: u64,
    /// Used bytes.
    pub used_bytes: u64,
}

/// A device path without every leading `/dev/`.
pub open spec fn device_name_spec(dev_path: Seq<char>) -> Seq<char> {
    trim_str_start(dev_path, "/dev/"@)
}

/// The device name of a device path (`/dev/sda1` -> `sda1`).
pub fn device_name(dev_path: &str) -> (r: String)
    ensures
        r@ == device_name_spec(dev_path@),
{
    let v = chars_of(dev_path);
    let dev = chars_of("/dev/");
    assert(v@.subrange(0, v@.len() as int) =~= v@);
    let a = trim_str_start_from(&v, 0, v.len(), &dev);
    string_of(&v, a, v.len())
}

/// `s` holds an ASCII digit.
pub open spec fn has_digit(s: Seq<char>) -> bool {
    exists|i: int| 0 <= i < s.len() && is_digit(#[trigger] s[i])
}

/// A disk named by letters after its family: SCSI / SATA (`sda`), IDE
/// (`hda`), virtio (`vda`) or Xen (`xvda`).
pub open spec fn is_lettered_disk(d: Seq<char>) -> bool {
    !has_digit(d) && (starts_with(d, "sd"@) || starts_with(d, "hd"@) || starts_with(d, "vd"@)
        || starts_with(d, "xvd"@))
}

/// The parent block device of a device name.  Linux names partition `N`
/// (numbered from 1) of a lettered disk `<disk>N` (`sda` -> `sda1`, also
/// `hda`, `vda`, `xvda`) and of a disk whose name ends in a digit
/// `<disk>pN` (`nvme0n1` -> `nvme0n1p2`, `mmcblk0` -> `mmcblk0p1`).  So a
/// trailing `p` plus digits after a digit is removed, trailing digits not
/// starting with `0` after a lettered disk name are removed, and any other
/// name is a whole device and is kept: numbered devices such as `nvme0n1`,
/// `mmcblk0`, `loop0`, `loop10`, `md127`, `nbd1`, `zram0`, `sr0`, and
/// `sda` itself.
pub open spec fn partition_base(s: Seq<char>) -> Seq<char> {
    let d = trim_digits_end(s);
    if d.len() < s.len() && d.len() >= 2 && d.last() == 'p' && is_digit(d[d.len() - 2]) {
        d.drop_last()
    } else if d.len() < s.len() && is_lettered_disk(d) && s[d.len() as int] != '0' {
        d
    } else {
        s
    }
}

/// Whether `v[0..e]` holds an ASCII digit.
fn has_digit_before(v: &Vec<char>, e: usize) -> (b: bool)
    requires
        e <= v@.len(),
    ensures
        b == has_digit(v@.subrange(0, e as int)),
{
    let ghost d = v@.subrange(0, e as int);
    let mut k: usize = 0;
    while k < e
        invariant
            k <= e <= v@.len(),
            d == v@.subrange(0, e as int),
            forall|i: int| 0 <= i < k ==> !is_digit(#[trigger] d[i]),
        decreases e - k,
    {
        if is_ascii_digit(v[k]) {
            assert(is_digit(d[k as int]));
            return true;
        }
        k = k + 1;
    }
    false
}

/// Whether `v[0..e]` is a lettered disk name.
fn lettered_disk_before(v: &Vec<char>, e: usize) -> (b: bool)
    requires
        e <= v@.len(),
    ensures
        b == is_lettered_disk(v@.subrange(0, e as int)),
{
    let sd = chars_of("sd");
    let hd = chars_of("hd");
    let vd = chars_of("vd");
    let xvd = chars_of("xvd");
    !has_digit_before(v, e) && (starts_with_at(v, 0, e, &sd) || starts_with_at(v, 0, e, &hd)
        || starts_with_at(v, 0, e, &vd) || starts_with_at(v, 0, e, &xvd))
}

fn partition_base_end(v: &Vec<char>) -> (e: usize)
    ensures
        e <= v@.len(),
        v@.subrange(0, e as int) == partition_base(v@),
{
    assert(v@.subrange(0, v@.len() as int) =~= v@);
    let d = trim_digits_end_to(v, 0, v.len());
    let ghost dd = v@.subrange(0, d as int);
    assert(dd == trim_digits_end(v@));
    if d < v.len() && d >= 2 && v[d - 1] == 'p' && is_ascii_digit(v[d - 2]) {
        assert(dd.last() == v@[d - 1]);
        assert(dd[dd.len() - 2] == v@[d - 2]);
        assert(dd.drop_last() =~= v@.subrange(0, d - 1));
        d - 1
    } else if d < v.len() && lettered_disk_before(v, d) && v[d] != '0' {
        proof {
            if d >= 2 {
                assert(dd.last() == v@[d - 1]);
                assert(dd[dd.len() - 2] == v@[d - 2]);
            }
        }
        d
    } else {
        proof {
            if d < v.len() && d >= 2 {
                assert(dd.last() == v@[d - 1]);
                assert(dd[dd.len() - 2] == v@[d - 2]);
            }
        }
        v.len()
    }
}

/// The parent block device of a device name (partition suffix removed).
pub fn strip_partition_suffix(device: &str) -> (r: String)
    ensures
        r@ == partition_base(device@),
{
    let v = chars_of(device);
    let e = partition_base_end(&v);
    string_of(&v, 0, e)
}

pub proof fn lemma_trim_digits_end_prefix(s: Seq<char>)
    ensures
        trim_digits_end(s).len() <= s.len(),
        trim_digits_end(s) == s.subrange(0, trim_digits_end(s).len() as int),
    decreases s.len(),
{
    if s.len() > 0 && is_digit(s.last()) {
        lemma_trim_digits_end_prefix(s.drop_last());
        assert(s.drop_last().subrange(0, trim_digits_end(s).len() as int) =~= s.subrange(
            0,
            trim_digits_end(s).len() as int,
        ));
    } else {
        assert(s.subrange(0, s.len() as int) =~= s);
    }
}

/// The parent device is always a prefix of the device name.
pub proof fn law_partition_base_is_prefix(s: Seq<char>)
    ensures
        partition_base(s).len() <= s.len(),
        partition_base(s) == s.subrange(0, partition_base(s).len() as int),
{
    lemma_trim_digits_end_prefix(s);
    let d = trim_digits_end(s);
    if d.len() > 0 {
        assert(d.drop_last() =~= s.subrange(0, d.len() - 1));
    }
}

/// `/sys/block/<parent>/device/model`, where the model of a device is read.
pub fn disk_model_path(device: &str) -> (r: String)
    ensures
        r@ == "/sys/block/"@ + partition_base(device@) + "/device/model"@,
{
    let base = strip_partition_suffix(device);
    let mut s = owned("/sys/block/");
    s.append(base.as_str());
    s.append("/device/model");
    s
}

/// The model of a disk: the trimmed contents of its `model` file, unless
/// unreadable or blank.
pub open spec fn disk_model_spec(contents: Option<Seq<char>>) -> Option<Seq<char>> {
    match contents {
        Some(c) => if trim(c).len() > 0 {
            Some(trim(c))
        } else {
            None
        },
        None => None,
    }
}

/// The model of a disk from the contents of its `model` file.
pub fn disk_model(contents: Option<&str>) -> (r: Option<String>)
    ensures
        opt_string_view(r) == disk_model_spec(opt_view(contents)),
{
    match contents {
        None => None,
        Some(c) => {
            let v = chars_of(c);
            let (a, b) = trim_range(&v, 0, v.len());
            assert(v@.subrange(0, v@.len() as int) =~= v@);
            if a < b {
                Some(string_of(&v, a, b))
            } else {
                None
            }
        },
    }
}

/// The reading of one mounted disk: used bytes are the total minus the
/// available bytes (0 when more is available than the total).
pub fn disk_reading(
    device: String,
    mount: String,
    total_bytes: u64,
    available_bytes: u64,
    model_contents: Option<&str>,
) -> (r: DiskReading)
    ensures
        r.device == device,
        r.mount == Some(mount),
        r.total_bytes == total_bytes,
        r.used_bytes == (if total_bytes >= available_bytes {
            (total_bytes - available_bytes) as u64
        } else {
            0u64
        }),
        opt_string_view(r.model) == disk_model_spec(opt_view(model_contents)),
        r.used_bytes <= r.total_bytes,
{
    DiskReading {
        device,
        model: disk_model(model_contents),
        mount: Some(mount),
        total_bytes,
        used_bytes: total_bytes.saturating_sub(available_bytes),
    }
}

} // verus!
