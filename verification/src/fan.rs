//! Fan control through the Linux hwmon sysfs interface.
//!
//! Reading: `fanN_input` holds the speed in RPM and `pwmN` the duty cycle
//! (0-255), shown as a percentage.  Writing: the duty cycle is handed to the
//! privileged helper (see [`crate::helper`]) as a raw 0-255 value, so the
//! GUI itself never needs root.
use vstd::prelude::*;
use crate::text::{
    ascii_lowercase, ascii_lowercased, chars_of, contains_at, contains_str, decimal, ends_with_at,
    opt_as_str, opt_string_view, opt_view, owned, parse_u32, parse_u32_at, push_decimal,
    starts_with_at, str_eq, strip_prefix, strip_suffix, trim, trim_range, trimmed,
};

verus! {

broadcast use vstd::string::group_string_axioms;

/// One fan as shown to the user.
#[derive(Debug, Clone)]
pub struct FanReading {
    pub label: String,
    pub rpm: Option<u32>,
    pub percent: Option<u8>,
    pub writable: bool,
}

/// A fan header found on the system.
#[derive(Debug, Clone)]
pub struct FanEntry {
    /// Human-readable label (e.g. "CPU fan", "GPU fan 1", "Fan 2 (nct6775)").
    pub label: String,
    /// Path of `fanN_input` (speed in RPM).
    pub input_path: String,
    /// Path of `pwmN` (duty cycle control), when the fan has one.
    pub pwm_path: Option<String>,
}

/// Fan controller backed by the hwmon sysfs interface: the fans found on
/// motherboard hwmon devices and on discrete GPU hwmon devices.
pub struct SysfsFanController {
    fans: Vec<FanEntry>,
}

/// The fan is missing or cannot be controlled.
#[derive(Debug, Clone)]
pub enum FanError {
    /// No fan carries this label.
    NotFound(String),
    /// The fan carries this label but has no PWM control.
    NotWritable(String),
}

// ---------------------------------------------------------------------------
// Duty cycle conversions
// ---------------------------------------------------------------------------

/// A raw `pwmN` value (0-255) as a percentage: the nearest integer to
/// `raw * 100 / 255` (there are no ties), at most 255.
pub open spec fn pwm_percent_spec(raw: u32) -> u8 {
    let nearest = (200 * (raw as int) + 255) / 510;
    if nearest > 255 {
        255
    } else {
        nearest as u8
    }
}

/// A percentage (at most 100) as a raw 0-255 duty cycle: the nearest
/// integer to `percent * 255 / 100`, halves rounded up.
pub open spec fn percent_pwm_spec(percent: u8) -> u32 {
    ((51 * (percent as int) + 10) / 20) as u32
}

/// Converts a raw `pwmN` value to a percentage.
pub fn pwm_to_percent(raw: u32) -> (r: u8)
    ensures
        r == pwm_percent_spec(raw),
{
    let nearest: u64 = (200 * (raw as u64) + 255) / 510;
    if nearest > 255 {
        255
    } else {
        nearest as u8
    }
}

/// Converts a percentage (0-100) to a raw 0-255 duty cycle.
pub fn percent_to_pwm(percent: u8) -> (r: u32)
    requires
        percent <= 100,
    ensures
        r == percent_pwm_spec(percent),
        r <= 255,
{
    ((51 * (percent as u32) + 10) / 20)
}

/// Setting a duty cycle and reading it back gives the same percentage.
pub proof fn law_pwm_round_trip(percent: u8)
    requires
        percent <= 100,
    ensures
        percent_pwm_spec(percent) <= 255,
        pwm_percent_spec(percent_pwm_spec(percent)) == percent,
{
    let p = percent as u32;
    assert(((51 * p + 10) / 20) <= 255 && (200 * ((51 * p + 10) / 20) + 255) / 510 == p)
        by (bit_vector)
        requires
            p <= 100,
    ;
}

// ---------------------------------------------------------------------------
// Labels
// ---------------------------------------------------------------------------

/// Known CPU / motherboard super-I/O hwmon driver names (lower case).
pub open spec fn is_cpu_chip_name(n: Seq<char>) -> bool {
    n == "nct6775"@ || n == "nct6776"@ || n == "nct6779"@ || n == "nct6791"@ || n ==
        "nct6792"@ || n == "nct6793"@ || n == "nct6795"@ || n == "nct6796"@ || n == "nct6797"@ ||
        n == "nct6798"@ || n == "it87"@ || n == "it8603"@ || n == "it8613"@ || n == "it8620"@ || n
        == "it8622"@ || n == "it8625"@ || n == "it8628"@ || n == "it8655"@ || n == "it8665"@ || n
        == "it8686"@ || n == "it8688"@ || n == "it8689"@ || n == "it8695"@ || n == "it8705"@ || n
        == "it8712"@ || n == "it8716"@ || n == "it8718"@ || n == "it8720"@ || n == "it8721"@ || n
        == "it8726"@ || n == "it8728"@ || n == "it8732"@ || n == "it8771"@ || n == "it8772"@ || n
        == "it8781"@ || n == "it8782"@ || n == "it8783"@ || n == "it8786"@ || n == "it8790"@ || n
        == "k10temp"@ || n == "coretemp"@ || n == "w83627ehf"@ || n == "w83627dhg"@ || n ==
        "w83667hg"@ || n == "w83795g"@ || n == "f71882fg"@ || n == "f71889fg"@
}

/// The hwmon `name` is a known CPU / motherboard super-I/O chip (compared
/// in ASCII lower case).
pub open spec fn is_cpu_chip_spec(name: Seq<char>) -> bool {
    is_cpu_chip_name(ascii_lowercase(name))
}

/// The CPU / motherboard chips are exactly the hwmon drivers nct6775,
/// nct6776, nct6779, nct6791-nct6793, nct6795-nct6798 (Nuvoton), it87 and
/// the it86xx / it87xx chips listed (ITE), k10temp (AMD), coretemp
/// (Intel), w83627ehf, w83627dhg, w83667hg, w83795g (Winbond) and f71882fg,
/// f71889fg (Fintek), with the name compared in ASCII lower case.
pub proof fn law_cpu_chip_names(name: Seq<char>)
    ensures
        is_cpu_chip_spec(name) <==> {
            let l = ascii_lowercase(name);
            ||| l == "nct6775"@
            ||| l == "nct6776"@
            ||| l == "nct6779"@
            ||| l == "nct6791"@
            ||| l == "nct6792"@
            ||| l == "nct6793"@
            ||| l == "nct6795"@
            ||| l == "nct6796"@
            ||| l == "nct6797"@
            ||| l == "nct6798"@
            ||| l == "it87"@
            ||| l == "it8603"@
            ||| l == "it8613"@
            ||| l == "it8620"@
            ||| l == "it8622"@
            ||| l == "it8625"@
            ||| l == "it8628"@
            ||| l == "it8655"@
            ||| l == "it8665"@
            ||| l == "it8686"@
            ||| l == "it8688"@
            ||| l == "it8689"@
            ||| l == "it8695"@
            ||| l == "it8705"@
            ||| l == "it8712"@
            ||| l == "it8716"@
            ||| l == "it8718"@
            ||| l == "it8720"@
            ||| l == "it8721"@
            ||| l == "it8726"@
            ||| l == "it8728"@
            ||| l == "it8732"@
            ||| l == "it8771"@
            ||| l == "it8772"@
            ||| l == "it8781"@
            ||| l == "it8782"@
            ||| l == "it8783"@
            ||| l == "it8786"@
            ||| l == "it8790"@
            ||| l == "k10temp"@
            ||| l == "coretemp"@
            ||| l == "w83627ehf"@
            ||| l == "w83627dhg"@
            ||| l == "w83667hg"@
            ||| l == "w83795g"@
            ||| l == "f71882fg"@
            ||| l == "f71889fg"@
        },
{
}

/// Whether the hwmon `name` is a known CPU / motherboard super-I/O chip.
pub fn is_cpu_chip(name: &str) -> (b: bool)
    ensures
        b == is_cpu_chip_spec(name@),
{
    let lower = ascii_lowercased(name);
    let l = lower.as_str();
    str_eq(l, "nct6775") || str_eq(l, "nct6776") || str_eq(l, "nct6779") || str_eq(l,
        "nct6791") || str_eq(l, "nct6792") || str_eq(l, "nct6793") || str_eq(l, "nct6795") ||
        str_eq(l, "nct6796") || str_eq(l, "nct6797") || str_eq(l, "nct6798") || str_eq(l, "it87")
        || str_eq(l, "it8603") || str_eq(l, "it8613") || str_eq(l, "it8620") || str_eq(l,
        "it8622") || str_eq(l, "it8625") || str_eq(l, "it8628") || str_eq(l, "it8655") ||
        str_eq(l, "it8665") || str_eq(l, "it8686") || str_eq(l, "it8688") || str_eq(l, "it8689")
        || str_eq(l, "it8695") || str_eq(l, "it8705") || str_eq(l, "it8712") || str_eq(l,
        "it8716") || str_eq(l, "it8718") || str_eq(l, "it8720") || str_eq(l, "it8721") ||
        str_eq(l, "it8726") || str_eq(l, "it8728") || str_eq(l, "it8732") || str_eq(l, "it8771")
        || str_eq(l, "it8772") || str_eq(l, "it8781") || str_eq(l, "it8782") || str_eq(l,
        "it8783") || str_eq(l, "it8786") || str_eq(l, "it8790") || str_eq(l, "k10temp") ||
        str_eq(l, "coretemp") || str_eq(l, "w83627ehf") || str_eq(l, "w83627dhg") || str_eq(l,
        "w83667hg") || str_eq(l, "w83795g") || str_eq(l, "f71882fg") || str_eq(l, "f71889fg")
}

/// The hwmon directory lives under `/sys/class/drm/card*`, i.e. belongs
/// to a discrete GPU (`false` for a path that is not UTF-8).
pub open spec fn is_gpu_hwmon_spec(dir: Option<Seq<char>>) -> bool {
    match dir {
        Some(d) => contains_str(d, "/drm/card"@),
        None => false,
    }
}

/// Whether the hwmon directory (`None` when its path is not UTF-8) belongs
/// to a discrete GPU.
pub fn is_gpu_hwmon(hwmon_dir: Option<&str>) -> (b: bool)
    ensures
        b == is_gpu_hwmon_spec(opt_view(hwmon_dir)),
{
    match hwmon_dir {
        None => false,
        Some(d) => {
            let v = chars_of(d);
            let pat = chars_of("/drm/card");
            assert(v@.subrange(0, v@.len() as int) =~= v@);
            contains_at(&v, 0, v.len(), &pat)
        },
    }
}

/// The index `N` of a file named `fanN_input`.
pub open spec fn fan_index_spec(name: Seq<char>) -> Option<u32> {
    match strip_prefix(name, "fan"@) {
        Some(rest) => match strip_suffix(rest, "_input"@) {
            Some(num) => parse_u32(num),
            None => None,
        },
        None => None,
    }
}

/// The index `N` of a file named `fanN_input`.
pub fn parse_fan_index(name: &str) -> (r: Option<u32>)
    ensures
        r == fan_index_spec(name@),
{
    let v = chars_of(name);
    let fan = chars_of("fan");
    let input = chars_of("_input");
    assert(v@.subrange(0, v@.len() as int) =~= v@);
    if !starts_with_at(&v, 0, v.len(), &fan) {
        return None;
    }
    let n = fan.len();
    let ghost rest = v@.subrange(n as int, v@.len() as int);
    if !ends_with_at(&v, n, v.len(), &input) {
        return None;
    }
    assert(rest.subrange(0, rest.len() - input@.len()) =~= v@.subrange(
        n as int,
        v@.len() - input@.len(),
    ));
    parse_u32_at(&v, n, v.len() - input.len())
}

/// The name of a hwmon device: the trimmed contents of its `name` file, or
/// `unknown`.
pub open spec fn hwmon_name_spec(contents: Option<Seq<char>>) -> Seq<char> {
    match contents {
        Some(c) => trim(c),
        None => "unknown"@,
    }
}

/// The name of a hwmon device from the contents of its `name` file.
pub fn hwmon_name(contents: Option<&str>) -> (r: String)
    ensures
        r@ == hwmon_name_spec(opt_view(contents)),
{
    match contents {
        Some(c) => trimmed(c),
        None => owned("unknown"),
    }
}

/// The label of fan `N` and the new GPU fan count:
///  * the kernel label (`fanN_label`, trimmed) when there is a non-empty one;
///  * on a GPU hwmon device, `GPU fan K` where `K` counts the GPU fans
///    labelled so far, this one included;
///  * on a known CPU chip, `CPU fan` for fan 1 and `CPU fan N` otherwise;
///  * else `Fan N (name)`.
pub open spec fn fan_label_spec(
    hwmon_dir: Option<Seq<char>>,
    hwmon_name: Seq<char>,
    fan_index: u32,
    kernel_label: Option<Seq<char>>,
    gpu_counter: u32,
) -> (Seq<char>, u32) {
    if kernel_label matches Some(l) && trim(l).len() > 0 {
        (trim(kernel_label->0), gpu_counter)
    } else if is_gpu_hwmon_spec(hwmon_dir) {
        ("GPU fan "@ + decimal((gpu_counter + 1) as nat), (gpu_counter + 1) as u32)
    } else if is_cpu_chip_spec(hwmon_name) {
        if fan_index == 1 {
            ("CPU fan"@, gpu_counter)
        } else {
            ("CPU fan "@ + decimal(fan_index as nat), gpu_counter)
        }
    } else {
        ("Fan "@ + decimal(fan_index as nat) + " ("@ + hwmon_name + ")"@, gpu_counter)
    }
}

/// Builds the label of fan `fan_index` of a hwmon device, counting GPU fans
/// in `gpu_counter`.
pub fn build_label(
    hwmon_dir: Option<&str>,
    hwmon_name: &str,
    fan_index: u32,
    kernel_label: Option<&str>,
    gpu_counter: &mut u32,
) -> (r: String)
    requires
        *old(gpu_counter) < u32::MAX,
    ensures
        (r@, *final(gpu_counter)) == fan_label_spec(
            opt_view(hwmon_dir),
            hwmon_name@,
            fan_index,
            opt_view(kernel_label),
            *old(gpu_counter),
        ),
{
    if let Some(raw) = kernel_label {
        let t = trimmed(raw);
        if !t.as_str().is_empty() {
            return t;
        }
    }
    if is_gpu_hwmon(hwmon_dir) {
        *gpu_counter = *gpu_counter + 1;
        let mut s = owned("GPU fan ");
        push_decimal(&mut s, *gpu_counter as u64);
        return s;
    }
    if is_cpu_chip(hwmon_name) {
        if fan_index == 1 {
            return owned("CPU fan");
        } else {
            let mut s = owned("CPU fan ");
            push_decimal(&mut s, fan_index as u64);
            return s;
        }
    }
    let mut s = owned("Fan ");
    push_decimal(&mut s, fan_index as u64);
    s.append(" (");
    s.append(hwmon_name);
    s.append(")");
    s
}

/// Every label is non-empty.
pub proof fn law_labels_not_empty(
    hwmon_dir: Option<Seq<char>>,
    hwmon_name: Seq<char>,
    fan_index: u32,
    kernel_label: Option<Seq<char>>,
    gpu_counter: u32,
)
    requires
        gpu_counter < u32::MAX,
    ensures
        fan_label_spec(hwmon_dir, hwmon_name, fan_index, kernel_label, gpu_counter).0.len() > 0,
{
    reveal_strlit("CPU fan");
    reveal_strlit("GPU fan ");
    reveal_strlit("Fan ");
}

/// `fanN_input`.
pub fn fan_input_file_name(n: u32) -> (r: String)
    ensures
        r@ == "fan"@ + decimal(n as nat) + "_input"@,
{
    let mut s = owned("fan");
    push_decimal(&mut s, n as u64);
    s.append("_input");
    s
}

/// `fanN_label`.
pub fn fan_label_file_name(n: u32) -> (r: String)
    ensures
        r@ == "fan"@ + decimal(n as nat) + "_label"@,
{
    let mut s = owned("fan");
    push_decimal(&mut s, n as u64);
    s.append("_label");
    s
}

/// `pwmN`.
pub fn pwm_file_name(n: u32) -> (r: String)
    ensures
        r@ == "pwm"@ + decimal(n as nat),
{
    let mut s = owned("pwm");
    push_decimal(&mut s, n as u64);
    s
}

/// `Path::join` of a directory and a relative file name: the name after
/// the directory, with a `/` between them when the directory is not empty
/// and does not end with one.
pub open spec fn join_spec(dir: Seq<char>, name: Seq<char>) -> Seq<char> {
    if dir.len() == 0 || dir.last() == '/' {
        dir + name
    } else {
        dir + seq!['/'] + name
    }
}

/// The path of file `name` inside directory `dir`.
pub fn sysfs_join(dir: &str, name: &str) -> (r: String)
    ensures
        r@ == join_spec(dir@, name@),
{
    let v = chars_of(dir);
    let mut s = owned(dir);
    if v.len() > 0 && v[v.len() - 1] != '/' {
        crate::text::push_char(&mut s, '/');
    }
    s.append(name);
    s
}

// ---------------------------------------------------------------------------
// Discovering fans
// ---------------------------------------------------------------------------

/// Collects the fans found while scanning hwmon directories, numbering the
/// GPU fans that have no kernel label.
pub struct FanScan {
    fans: Vec<FanEntry>,
    gpu_counter: u32,
}

impl FanScan {
    /// The fans found so far, in order.
    pub closed spec fn entries(&self) -> Seq<FanEntry> {
        self.fans@
    }

    /// How many GPU fans have been numbered so far.
    pub closed spec fn gpu_fans(&self) -> u32 {
        self.gpu_counter
    }

    /// A scan that has found nothing yet.
    pub fn new() -> (s: Self)
        ensures
            s.entries().len() == 0,
            s.gpu_fans() == 0,
    {
        FanScan { fans: Vec::new(), gpu_counter: 0 }
    }

    /// The number of GPU fans numbered so far.
    pub fn gpu_fan_count(&self) -> (r: u32)
        ensures
            r == self.gpu_fans(),
    {
        self.gpu_counter
    }

    /// Records fan `fan_index` of a hwmon device: its `fanN_input` path,
    /// its `pwmN` path when that file exists, and the contents of its
    /// `fanN_label` file when readable.
    pub fn add_fan(
        &mut self,
        hwmon_dir: Option<&str>,
        hwmon_name: &str,
        fan_index: u32,
        input_path: String,
        pwm_path: Option<String>,
        kernel_label: Option<&str>,
    )
        requires
            old(self).gpu_fans() < u32::MAX,
        ensures
            ({
                let (label, counter) = fan_label_spec(
                    opt_view(hwmon_dir),
                    hwmon_name@,
                    fan_index,
                    opt_view(kernel_label),
                    old(self).gpu_fans(),
                );
                &&& final(self).gpu_fans() == counter
                &&& final(self).entries().len() == old(self).entries().len() + 1
                &&& final(self).entries().drop_last() == old(self).entries()
                &&& final(self).entries().last().label@ == label
                &&& final(self).entries().last().input_path == input_path
                &&& final(self).entries().last().pwm_path == pwm_path
            }),
    {
        let mut counter = self.gpu_counter;
        let label = build_label(hwmon_dir, hwmon_name, fan_index, kernel_label, &mut counter);
        self.gpu_counter = counter;
        self.fans.push(FanEntry { label, input_path, pwm_path });
        assert(self.fans@.drop_last() =~= old(self).fans@);
    }

    /// The controller for the fans found.
    pub fn finish(self) -> (c: SysfsFanController)
        ensures
            c.entries() == self.entries(),
    {
        SysfsFanController { fans: self.fans }
    }
}

// ---------------------------------------------------------------------------
// Reading and writing
// ---------------------------------------------------------------------------

/// A sysfs file holding one unsigned integer: its trimmed contents read as
/// a `u32`; `None` when unreadable or not a number.
pub open spec fn sysfs_u32_spec(contents: Option<Seq<char>>) -> Option<u32> {
    match contents {
        Some(c) => parse_u32(trim(c)),
        None => None,
    }
}

/// Reads the unsigned integer of a sysfs file from its contents.
pub fn parse_sysfs_u32(contents: Option<&str>) -> (r: Option<u32>)
    ensures
        r == sysfs_u32_spec(opt_view(contents)),
{
    match contents {
        None => None,
        Some(c) => {
            let v = chars_of(c);
            let (a, b) = trim_range(&v, 0, v.len());
            assert(v@.subrange(0, v@.len() as int) =~= v@);
            parse_u32_at(&v, a, b)
        },
    }
}

/// The contents of a fan's `fanN_input` and `pwmN` files (`None` when
/// unreadable; the `pwmN` contents are ignored for a fan without one).
#[derive(Debug, Clone)]
pub struct FanRaw {
    pub rpm: Option<String>,
    pub pwm: Option<String>,
}

/// The percentage shown for a fan: its `pwmN` value converted, for a fan
/// that has PWM control.
pub open spec fn fan_percent_spec(e: FanEntry, raw: FanRaw) -> Option<u8> {
    if e.pwm_path is Some {
        match sysfs_u32_spec(opt_string_view(raw.pwm)) {
            Some(v) => Some(pwm_percent_spec(v)),
            None => None,
        }
    } else {
        None
    }
}

/// `i` is the first fan carrying `label`.
pub open spec fn is_first_with_label(fans: Seq<FanEntry>, label: Seq<char>, i: int) -> bool {
    &&& 0 <= i < fans.len()
    &&& fans[i].label@ == label
    &&& forall|j: int| 0 <= j < i ==> (#[trigger] fans[j]).label@ != label
}

/// The first fan carrying `label`.
pub open spec fn first_with_label(fans: Seq<FanEntry>, label: Seq<char>) -> Option<int> {
    if exists|i: int| is_first_with_label(fans, label, i) {
        Some(choose|i: int| is_first_with_label(fans, label, i))
    } else {
        None
    }
}

impl SysfsFanController {
    /// The fans, in discovery order.
    pub closed spec fn entries(&self) -> Seq<FanEntry> {
        self.fans@
    }

    /// The fans, in discovery order.
    pub fn fans(&self) -> (r: &Vec<FanEntry>)
        ensures
            r@ == self.entries(),
    {
        &self.fans
    }

    /// The reading of every fan, from the contents of its files (one
    /// `FanRaw` per fan, in order): speed in RPM, duty cycle as a percentage
    /// (for fans with PWM control), and whether the fan can be controlled.
    pub fn readings(&self, raw: &Vec<FanRaw>) -> (r: Vec<FanReading>)
        requires
            raw@.len() == self.entries().len(),
        ensures
            r@.len() == self.entries().len(),
            forall|i: int|
                0 <= i < r@.len() ==> {
                    &&& (#[trigger] r@[i]).label == self.entries()[i].label
                    &&& r@[i].rpm == sysfs_u32_spec(opt_string_view(raw@[i].rpm))
                    &&& r@[i].percent == fan_percent_spec(self.entries()[i], raw@[i])
                    &&& r@[i].writable == self.entries()[i].pwm_path is Some
                },
    {
        let mut out: Vec<FanReading> = Vec::new();
        let mut i: usize = 0;
        while i < self.fans.len()
            invariant
                i <= self.fans@.len(),
                raw@.len() == self.fans@.len(),
                out@.len() == i,
                forall|k: int|
                    0 <= k < i ==> {
                        &&& (#[trigger] out@[k]).label == self.fans@[k].label
                        &&& out@[k].rpm == sysfs_u32_spec(opt_string_view(raw@[k].rpm))
                        &&& out@[k].percent == fan_percent_spec(self.fans@[k], raw@[k])
                        &&& out@[k].writable == self.fans@[k].pwm_path is Some
                    },
            decreases self.fans@.len() - i,
        {
            let fan = &self.fans[i];
            let rpm = parse_sysfs_u32(opt_as_str(&raw[i].rpm));
            let (percent, writable) = match &fan.pwm_path {
                Some(_) => {
                    let pct = match parse_sysfs_u32(opt_as_str(&raw[i].pwm)) {
                        Some(v) => Some(pwm_to_percent(v)),
                        None => None,
                    };
                    (pct, true)
                },
                None => (None, false),
            };
            out.push(FanReading { label: fan.label.clone(), rpm, percent, writable });
            i = i + 1;
        }
        out
    }

    /// What setting `fan_label` to `percent` writes: the `pwmN` path of the
    /// first fan carrying that label and the raw duty cycle for the
    /// percentage (clamped to 100).  Fails when no fan carries the label, or
    /// when that fan has no PWM control.
    pub fn pwm_target(&self, fan_label: &str, percent: u8) -> (r: Result<(String, u32), FanError>)
        ensures
            ({
                let p = if percent > 100 {
                    100u8
                } else {
                    percent
                };
                match first_with_label(self.entries(), fan_label@) {
                    None => r matches Err(FanError::NotFound(l)) && l@ == fan_label@,
                    Some(i) => match self.entries()[i].pwm_path {
                        None => r matches Err(FanError::NotWritable(l)) && l@ == fan_label@,
                        Some(path) => r matches Ok(t) && t.0 == path && t.1 == percent_pwm_spec(
                            p,
                        ),
                    },
                }
            }),
    {
        let p = if percent > 100 {
            100u8
        } else {
            percent
        };
        let mut i: usize = 0;
        while i < self.fans.len()
            invariant
                i <= self.fans@.len(),
                p == (if percent > 100 {
                    100u8
                } else {
                    percent
                }),
                forall|j: int| 0 <= j < i ==> (#[trigger] self.fans@[j]).label@ != fan_label@,
            decreases self.fans@.len() - i,
        {
            if str_eq(self.fans[i].label.as_str(), fan_label) {
                proof {
                    assert(is_first_with_label(self.fans@, fan_label@, i as int));
                    let k = choose|k: int| is_first_with_label(self.fans@, fan_label@, k);
                    if k < i {
                        assert(self.fans@[k].label@ != fan_label@);
                    } else if k > i {
                        assert(self.fans@[i as int].label@ != fan_label@);
                    }
                    assert(k == i);
                }
                return match &self.fans[i].pwm_path {
                    None => Err(FanError::NotWritable(owned(fan_label))),
                    Some(path) => Ok((path.clone(), percent_to_pwm(p))),
                };
            }
            i = i + 1;
        }
        proof {
            if exists|k: int| is_first_with_label(self.fans@, fan_label@, k) {
                let k = choose|k: int| is_first_with_label(self.fans@, fan_label@, k);
                assert(self.fans@[k].label@ != fan_label@);
            }
        }
        Err(FanError::NotFound(owned(fan_label)))
    }
}

} // verus!
