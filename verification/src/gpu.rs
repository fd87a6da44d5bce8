//! GPU sensing: recognising DRM cards and their vendors, naming them, and
//! reading clocks, VRAM, temperatures and usage from the contents of sysfs
//! files and of tool output (`radeontop`, `intel_gpu_top`).
//!
//! AMD (amdgpu), Intel (i915 / Xe) and Apple Silicon (Asahi) GPUs are found
//! under `/sys/class/drm/card*`; NVIDIA GPUs through NVML.
use vstd::prelude::*;
use crate::text::{
    ascii_lower, ascii_lowercase, chars_of, contains_at, contains_str, decimal, digit_run, digit_run_end, ends_with,
    ends_with_at, eq_ignore_ascii_case, eq_ignore_case_at, find_char, has_char, line_ranges,
    lines, char_pos, lemma_char_pos, opt_string_view, opt_view, owned, parse_i64, parse_i64_at,
    parse_u32, parse_u32_at, parse_u64, parse_u64_at, pieces, push_decimal, ranges_within,
    replace_all, replace_str, split_char, split_ranges, starts_with, starts_with_at, str_eq,
    string_of, strip_prefix, strip_suffix, to_lowercase, trim, trim_end, trim_range, trim_start,
    trim_start_from, trimmed, is_whitespace,
    unicode_lowercase,
};

verus! {

broadcast use vstd::string::group_string_axioms;

// ---------------------------------------------------------------------------
// DRM cards and vendors
// ---------------------------------------------------------------------------

/// A bare `cardN` entry of `/sys/class/drm` (not a `cardN-*` connector).
pub open spec fn is_drm_card_name_spec(name: Seq<char>) -> bool {
    starts_with(name, "card"@) && !name.contains('-')
}

/// Whether an entry of `/sys/class/drm` is a bare `cardN` directory.
pub fn is_drm_card_name(name: &str) -> (b: bool)
    ensures
        b == is_drm_card_name_spec(name@),
{
    let v = chars_of(name);
    let card = chars_of("card");
    assert(v@.subrange(0, v@.len() as int) =~= v@);
    starts_with_at(&v, 0, v.len(), &card) && !has_char(&v, 0, v.len(), '-')
}

/// A sysfs file read as text: its trimmed contents.
pub open spec fn sysfs_string_spec(contents: Option<Seq<char>>) -> Option<Seq<char>> {
    match contents {
        Some(c) => Some(trim(c)),
        None => None,
    }
}

/// The trimmed contents of a sysfs file (`None` when unreadable).
pub fn read_sysfs_string(contents: Option<&str>) -> (r: Option<String>)
    ensures
        opt_string_view(r) == sysfs_string_spec(opt_view(contents)),
{
    match contents {
        Some(c) => Some(trimmed(c)),
        None => None,
    }
}

/// A sysfs file holding an unsigned integer: its trimmed contents read as
/// a `u64`.
pub open spec fn sysfs_u64_spec(contents: Option<Seq<char>>) -> Option<u64> {
    match contents {
        Some(c) => parse_u64(trim(c)),
        None => None,
    }
}

fn sysfs_u64(contents: Option<&str>) -> (r: Option<u64>)
    ensures
        r == sysfs_u64_spec(opt_view(contents)),
{
    match contents {
        None => None,
        Some(c) => {
            let v = chars_of(c);
            let (a, b) = trim_range(&v, 0, v.len());
            assert(v@.subrange(0, v@.len() as int) =~= v@);
            parse_u64_at(&v, a, b)
        },
    }
}

/// The `vendor` file of a PCI device holds the given ID.
pub open spec fn vendor_is(contents: Option<Seq<char>>, id: Seq<char>) -> bool {
    match contents {
        Some(c) => trim(c) == id,
        None => false,
    }
}

/// Recognising a vendor ignores whitespace around the `vendor` file's
/// contents, whatever the ID: the file names the vendor exactly when its
/// trimmed contents are the ID, and an ID followed by a newline (as sysfs
/// writes it) names it.  An unreadable file names no vendor.
pub proof fn law_vendor_trimmed(c: Seq<char>, id: Seq<char>)
    ensures
        vendor_is(Some(c), id) <==> trim(c) == id,
        !vendor_is(None, id),
        id.len() > 0 && !is_whitespace(id[0]) && !is_whitespace(id.last()) ==> vendor_is(
            Some(id.push('\n')),
            id,
        ),
{
    if id.len() > 0 && !is_whitespace(id[0]) && !is_whitespace(id.last()) {
        let s = id.push('\n');
        assert(s[0] == id[0]);
        assert(trim_start(s) == s);
        assert(s.drop_last() =~= id);
        assert(is_whitespace('\n'));
        assert(trim_end(s) == trim_end(id));
        assert(trim_end(id) == id);
    }
}

fn vendor_matches(contents: Option<&str>, id: &str) -> (b: bool)
    ensures
        b == vendor_is(opt_view(contents), id@),
{
    match contents {
        None => false,
        Some(c) => {
            let t = trimmed(c);
            str_eq(t.as_str(), id)
        },
    }
}

/// Whether the device's `vendor` file (contents) names AMD (0x1002).
pub fn is_amd_device(vendor: Option<&str>) -> (b: bool)
    ensures
        b == vendor_is(opt_view(vendor), "0x1002"@),
{
    vendor_matches(vendor, "0x1002")
}

/// Whether the device's `vendor` file (contents) names Intel (0x8086).
pub fn is_intel_device(vendor: Option<&str>) -> (b: bool)
    ensures
        b == vendor_is(opt_view(vendor), "0x8086"@),
{
    vendor_matches(vendor, "0x8086")
}

/// Whether the device's `vendor` file (contents) names Apple (0x106b, in
/// the Asahi stack).
pub fn is_apple_vendor(vendor: Option<&str>) -> (b: bool)
    ensures
        b == vendor_is(opt_view(vendor), "0x106b"@),
{
    vendor_matches(vendor, "0x106b")
}

/// Whether the device's `driver` symlink points to a directory named
/// `asahi` (`driver_name` is that directory's name, `None` when the link
/// cannot be read or has no file name).
pub fn is_asahi_driver(driver_name: Option<&str>) -> (b: bool)
    ensures
        b == (opt_view(driver_name) == Some("asahi"@)),
{
    match driver_name {
        None => false,
        Some(n) => str_eq(n, "asahi"),
    }
}

/// The first entry of a device's `hwmon` directory named `hwmon*`.
pub fn first_hwmon_entry(names: &Vec<String>) -> (r: Option<usize>)
    ensures
        r matches Some(i) ==> i < names@.len() && starts_with(names@[i as int]@, "hwmon"@)
            && forall|j: int| 0 <= j < i ==> !starts_with(#[trigger] names@[j]@, "hwmon"@),
        r is None ==> forall|j: int|
            0 <= j < names@.len() ==> !starts_with(#[trigger] names@[j]@, "hwmon"@),
{
    let hwmon = chars_of("hwmon");
    let mut i: usize = 0;
    while i < names.len()
        invariant
            i <= names@.len(),
            hwmon@ == "hwmon"@,
            forall|j: int| 0 <= j < i ==> !starts_with(#[trigger] names@[j]@, "hwmon"@),
        decreases names@.len() - i,
    {
        let v = chars_of(names[i].as_str());
        assert(v@.subrange(0, v@.len() as int) =~= v@);
        if starts_with_at(&v, 0, v.len(), &hwmon) {
            return Some(i);
        }
        i = i + 1;
    }
    None
}

// ---------------------------------------------------------------------------
// Device names
// ---------------------------------------------------------------------------

/// GPU vendors named from sysfs.
#[derive(Debug, Clone, Copy, PartialEq, Eq)]
pub enum GpuVendor {
    Amd,
    Intel,
}

/// The `PCI_ID=` value of the first line that has one.
pub open spec fn first_pci_id(ls: Seq<Seq<char>>) -> Option<Seq<char>>
    decreases ls.len(),
{
    if ls.len() == 0 {
        None
    } else {
        match strip_prefix(ls[0], "PCI_ID="@) {
            Some(id) => Some(id),
            None => first_pci_id(ls.drop_first()),
        }
    }
}

/// The prefix of a name made from a PCI ID.
pub open spec fn pci_name_prefix(vendor: GpuVendor) -> Seq<char> {
    match vendor {
        GpuVendor::Amd => "AMD GPU ("@,
        GpuVendor::Intel => "Intel GPU ("@,
    }
}

/// The prefix of a name made from the card name.
pub open spec fn card_name_prefix(vendor: GpuVendor) -> Seq<char> {
    match vendor {
        GpuVendor::Amd => "AMD GPU ("@,
        GpuVendor::Intel => "Intel Graphics ("@,
    }
}

/// A human-readable GPU name: the device's `product_name` (trimmed) when
/// non-empty; else the `PCI_ID` of its `uevent` file (`AMD GPU (1002:731f)`,
/// `Intel GPU (8086:46a6)`); else the card (`AMD GPU (card0)`,
/// `Intel Graphics (card0)`).
pub open spec fn device_name_spec(
    vendor: GpuVendor,
    product_name: Option<Seq<char>>,
    uevent: Option<Seq<char>>,
    card_name: Seq<char>,
) -> Seq<char> {
    let fallback = card_name_prefix(vendor) + card_name + ")"@;
    if product_name matches Some(p) && trim(p).len() > 0 {
        trim(product_name->0)
    } else {
        match uevent {
            Some(u) => match first_pci_id(lines(trim(u))) {
                Some(id) => pci_name_prefix(vendor) + id + ")"@,
                None => fallback,
            },
            None => fallback,
        }
    }
}

fn uevent_pci_id(u: &str) -> (r: Option<String>)
    ensures
        opt_string_view(r) == first_pci_id(lines(trim(u@))),
{
    let v = chars_of(u);
    let (a, b) = trim_range(&v, 0, v.len());
    assert(v@.subrange(0, v@.len() as int) =~= v@);
    let ls = line_ranges(&v, a, b);
    let key = chars_of("PCI_ID=");
    let mut k: usize = 0;
    let mut found: Option<String> = None;
    assert(pieces(v@, ls@).skip(0) =~= pieces(v@, ls@));
    while k < ls.len() && found.is_none()
        invariant
            k <= ls@.len(),
            a <= b <= v@.len(),
            pieces(v@, ls@) == lines(v@.subrange(a as int, b as int)),
            ranges_within(ls@, a as int, b as int),
            key@ == "PCI_ID="@,
            first_pci_id(pieces(v@, ls@)) == (match found {
                Some(f) => Some(f@),
                None => first_pci_id(pieces(v@, ls@).skip(k as int)),
            }),
        decreases ls@.len() - k,
    {
        let (lo, hi) = ls[k];
        let ghost rest = pieces(v@, ls@).skip(k as int);
        let ghost line = v@.subrange(lo as int, hi as int);
        assert(rest[0] == line);
        assert(rest.drop_first() =~= pieces(v@, ls@).skip(k + 1));
        assert(a <= ls@[k as int].0 <= ls@[k as int].1 <= b);
        if starts_with_at(&v, lo, hi, &key) {
            assert(line.subrange(key@.len() as int, line.len() as int) =~= v@.subrange(
                lo + key@.len(),
                hi as int,
            ));
            found = Some(string_of(&v, lo + key.len(), hi));
        }
        k = k + 1;
    }
    proof {
        if found is None {
            assert(pieces(v@, ls@).skip(k as int).len() == 0);
        }
    }
    found
}

/// A human-readable name for an AMD or Intel GPU, from the contents of its
/// `product_name` and `uevent` files and its card name.
pub fn get_device_name(
    vendor: GpuVendor,
    product_name: Option<&str>,
    uevent: Option<&str>,
    card_name: &str,
) -> (r: String)
    ensures
        r@ == device_name_spec(vendor, opt_view(product_name), opt_view(uevent), card_name@),
{
    if let Some(p) = product_name {
        let t = trimmed(p);
        if !t.as_str().is_empty() {
            return t;
        }
    }
    let id = match uevent {
        Some(u) => uevent_pci_id(u),
        None => None,
    };
    match id {
        Some(id) => {
            let mut s = match vendor {
                GpuVendor::Amd => owned("AMD GPU ("),
                GpuVendor::Intel => owned("Intel GPU ("),
            };
            s.append(id.as_str());
            s.append(")");
            s
        },
        None => {
            let mut s = match vendor {
                GpuVendor::Amd => owned("AMD GPU ("),
                GpuVendor::Intel => owned("Intel Graphics ("),
            };
            s.append(card_name);
            s.append(")");
            s
        },
    }
}

/// `NVIDIA GPU N`, the name of NVIDIA GPU `N` when NVML gives none.
pub fn nvidia_fallback_name(index: u32) -> (r: String)
    ensures
        r@ == "NVIDIA GPU "@ + decimal(index as nat),
{
    let mut s = owned("NVIDIA GPU ");
    push_decimal(&mut s, index as u64);
    s
}

/// `Apple GPU (cardN)`.
pub fn apple_gpu_name(card_name: &str) -> (r: String)
    ensures
        r@ == "Apple GPU ("@ + card_name@ + ")"@,
{
    let mut s = owned("Apple GPU (");
    s.append(card_name);
    s.append(")");
    s
}

// ---------------------------------------------------------------------------
// Memory and temperature values
// ---------------------------------------------------------------------------

/// Bytes as MiB, truncated to `u32`.
pub open spec fn bytes_to_mib_spec(bytes: u64) -> u32 {
    (bytes / 1024 / 1024) as u32
}

/// Bytes as MiB (`bytes / 1024 / 1024`), truncated to `u32`.
pub fn bytes_to_mib(bytes: u64) -> (r: u32)
    ensures
        r == bytes_to_mib_spec(bytes),
{
    (bytes / 1024 / 1024) as u32
}

/// MiB from the contents of a `mem_info_vram_*` file (bytes).
pub open spec fn vram_mib_spec(contents: Option<Seq<char>>) -> Option<u32> {
    match sysfs_u64_spec(contents) {
        Some(b) => Some(bytes_to_mib_spec(b)),
        None => None,
    }
}

/// MiB from the contents of a `mem_info_vram_used` / `mem_info_vram_total`
/// file (bytes).
pub fn vram_mib(contents: Option<&str>) -> (r: Option<u32>)
    ensures
        r == vram_mib_spec(opt_view(contents)),
{
    match sysfs_u64(contents) {
        Some(b) => Some(bytes_to_mib(b)),
        None => None,
    }
}

// ---------------------------------------------------------------------------
// AMD
// ---------------------------------------------------------------------------

/// AMD GPU sensor (amdgpu driver): one DRM card, its PCI device directory
/// and its hwmon directory (for temperature and clock).
pub struct AmdGpuSensor {
    card_path: String,
    device_path: String,
    hwmon_path: Option<String>,
    cached_name: String,
}

/// The clock (MHz) of a `pp_dpm_sclk` line (`1: 1200Mhz *`): for a line
/// marked with `*`, the leading digits after its first `:` and the
/// whitespace that follows it.
pub open spec fn sclk_line_mhz(line: Seq<char>) -> Option<u32> {
    if line.contains('*') {
        let c = char_pos(line, ':');
        if c < line.len() {
            let rest = trim_start(line.subrange(c as int + 1, line.len() as int));
            parse_u32(rest.subrange(0, digit_run(rest) as int))
        } else {
            None
        }
    } else {
        None
    }
}

/// The clock of the first `*`-marked line that gives one.
pub open spec fn sclk_mhz(ls: Seq<Seq<char>>) -> Option<u32>
    decreases ls.len(),
{
    if ls.len() == 0 {
        None
    } else {
        match sclk_line_mhz(ls[0]) {
            Some(m) => Some(m),
            None => sclk_mhz(ls.drop_first()),
        }
    }
}

/// PCI device IDs of AMD APUs (graphics built into the CPU): Rembrandt,
/// Phoenix, Cezanne / Renoir / Lucienne, Van Gogh, Strix Point.
pub open spec fn is_apu_id(id: Seq<char>) -> bool {
    eq_ignore_ascii_case("0x1681"@, id) || eq_ignore_ascii_case("0x1682"@, id)
        || eq_ignore_ascii_case("0x15bf"@, id) || eq_ignore_ascii_case("0x15c8"@, id)
        || eq_ignore_ascii_case("0x15d8"@, id) || eq_ignore_ascii_case("0x1638"@, id)
        || eq_ignore_ascii_case("0x164c"@, id) || eq_ignore_ascii_case("0x164e"@, id)
        || eq_ignore_ascii_case("0x1636"@, id) || eq_ignore_ascii_case("0x163f"@, id)
        || eq_ignore_ascii_case("0x150e"@, id)
}

/// No ASCII upper-case letter in `s`.
pub open spec fn has_no_ascii_upper(s: Seq<char>) -> bool {
    forall|i: int| 0 <= i < s.len() ==> !('A' <= #[trigger] s[i] && s[i] <= 'Z')
}

/// Against a pattern without upper-case letters, an ASCII case-insensitive
/// match is a match of the lower-cased text.
pub proof fn lemma_eq_ignore_case_lower(a: Seq<char>, b: Seq<char>)
    requires
        has_no_ascii_upper(a),
    ensures
        eq_ignore_ascii_case(a, b) <==> ascii_lowercase(b) == a,
{
    if eq_ignore_ascii_case(a, b) {
        assert forall|i: int| 0 <= i < a.len() implies ascii_lowercase(b)[i] == a[i] by {
            assert(ascii_lower(a[i]) == ascii_lower(b[i]));
            assert(!('A' <= a[i] && a[i] <= 'Z'));
        }
        assert(ascii_lowercase(b) =~= a);
    }
    if ascii_lowercase(b) == a {
        assert forall|i: int| 0 <= i < a.len() implies ascii_lower(a[i]) == ascii_lower(b[i]) by {
            assert(ascii_lowercase(b)[i] == ascii_lower(b[i]));
            assert(!('A' <= a[i] && a[i] <= 'Z'));
        }
    }
}

/// The AMD APUs are exactly the PCI device IDs 0x1681, 0x1682 (Rembrandt),
/// 0x15bf, 0x15c8 (Phoenix), 0x15d8, 0x1638, 0x164c, 0x1636 (Cezanne,
/// Renoir, Lucienne), 0x164e (Raphael), 0x163f (Van Gogh) and 0x150e
/// (Strix Point), in any ASCII case.
pub proof fn law_apu_ids(id: Seq<char>)
    ensures
        is_apu_id(id) <==> {
            let l = ascii_lowercase(id);
            ||| l == "0x1681"@
            ||| l == "0x1682"@
            ||| l == "0x15bf"@
            ||| l == "0x15c8"@
            ||| l == "0x15d8"@
            ||| l == "0x1638"@
            ||| l == "0x164c"@
            ||| l == "0x164e"@
            ||| l == "0x1636"@
            ||| l == "0x163f"@
            ||| l == "0x150e"@
        },
{
    reveal_strlit("0x1681");
    reveal_strlit("0x1682");
    reveal_strlit("0x15bf");
    reveal_strlit("0x15c8");
    reveal_strlit("0x15d8");
    reveal_strlit("0x1638");
    reveal_strlit("0x164c");
    reveal_strlit("0x164e");
    reveal_strlit("0x1636");
    reveal_strlit("0x163f");
    reveal_strlit("0x150e");
    lemma_eq_ignore_case_lower("0x1681"@, id);
    lemma_eq_ignore_case_lower("0x1682"@, id);
    lemma_eq_ignore_case_lower("0x15bf"@, id);
    lemma_eq_ignore_case_lower("0x15c8"@, id);
    lemma_eq_ignore_case_lower("0x15d8"@, id);
    lemma_eq_ignore_case_lower("0x1638"@, id);
    lemma_eq_ignore_case_lower("0x164c"@, id);
    lemma_eq_ignore_case_lower("0x164e"@, id);
    lemma_eq_ignore_case_lower("0x1636"@, id);
    lemma_eq_ignore_case_lower("0x163f"@, id);
    lemma_eq_ignore_case_lower("0x150e"@, id);
}

fn id_is(v: &Vec<char>, a: usize, b: usize, known: &str) -> (r: bool)
    requires
        a <= b <= v@.len(),
    ensures
        r == eq_ignore_ascii_case(known@, v@.subrange(a as int, b as int)),
{
    let k = chars_of(known);
    let r = eq_ignore_case_at(v, a, b, &k);
    proof {
        let s = v@.subrange(a as int, b as int);
        if r {
            assert(eq_ignore_ascii_case(known@, s));
        }
        if eq_ignore_ascii_case(known@, s) {
            assert(eq_ignore_ascii_case(s, k@));
        }
    }
    r
}

impl AmdGpuSensor {
    pub closed spec fn spec_card_path(&self) -> Seq<char> {
        self.card_path@
    }

    pub closed spec fn spec_device_path(&self) -> Seq<char> {
        self.device_path@
    }

    pub closed spec fn spec_hwmon_path(&self) -> Option<Seq<char>> {
        opt_string_view(self.hwmon_path)
    }

    pub closed spec fn spec_name(&self) -> Seq<char> {
        self.cached_name@
    }

    /// A sensor for one card.
    pub fn new(card_path: String, device_path: String, hwmon_path: Option<String>, name: String) -> (s:
        Self)
        ensures
            s.spec_card_path() == card_path@,
            s.spec_device_path() == device_path@,
            s.spec_hwmon_path() == opt_string_view(hwmon_path),
            s.spec_name() == name@,
    {
        AmdGpuSensor { card_path, device_path, hwmon_path, cached_name: name }
    }

    /// The card directory (`/sys/class/drm/cardN`).
    pub fn card_path(&self) -> (r: &str)
        ensures
            r@ == self.spec_card_path(),
    {
        self.card_path.as_str()
    }

    /// The PCI device directory (`cardN/device`).
    pub fn device_path(&self) -> (r: &str)
        ensures
            r@ == self.spec_device_path(),
    {
        self.device_path.as_str()
    }

    /// The hwmon directory, when the device has one.
    pub fn hwmon_path(&self) -> (r: Option<&str>)
        ensures
            opt_view(r) == self.spec_hwmon_path(),
    {
        match &self.hwmon_path {
            Some(p) => Some(p.as_str()),
            None => None,
        }
    }

    /// The name given at probe time.
    pub fn name(&self) -> (r: &str)
        ensures
            r@ == self.spec_name(),
    {
        self.cached_name.as_str()
    }

    /// The graphics clock in MHz: from `pp_dpm_sclk` (the first line marked
    /// `*` that gives a number), else, when the device has a hwmon
    /// directory, from its `freq1_input` (kHz, truncated to `u32` MHz).
    pub fn read_clock_mhz(&self, pp_dpm_sclk: Option<&str>, freq1_input: Option<&str>) -> (r:
        Option<u32>)
        ensures
            r == (match (match opt_view(pp_dpm_sclk) {
                Some(s) => sclk_mhz(lines(trim(s))),
                None => None,
            }) {
                Some(m) => Some(m),
                None => if self.spec_hwmon_path() is Some {
                    match sysfs_u64_spec(opt_view(freq1_input)) {
                        Some(khz) => Some((khz / 1000) as u32),
                        None => None,
                    }
                } else {
                    None
                },
            }),
    {
        if let Some(s) = pp_dpm_sclk {
            if let Some(m) = sclk_from(s) {
                return Some(m);
            }
        }
        if self.hwmon_path.is_some() {
            match sysfs_u64(freq1_input) {
                Some(khz) => Some((khz / 1000) as u32),
                None => None,
            }
        } else {
            None
        }
    }

    /// Whether the PCI device ID (contents of the device's `device` file)
    /// is a known AMD APU, i.e. the GPU is integrated.
    pub fn is_apu(device_id: Option<&str>) -> (b: bool)
        ensures
            b == (match opt_view(device_id) {
                Some(id) => is_apu_id(trim(id)),
                None => false,
            }),
    {
        match device_id {
            None => false,
            Some(raw) => {
                let v = chars_of(raw);
                let (a, b) = trim_range(&v, 0, v.len());
                assert(v@.subrange(0, v@.len() as int) =~= v@);
                id_is(&v, a, b, "0x1681") || id_is(&v, a, b, "0x1682") || id_is(&v, a, b, "0x15bf")
                    || id_is(&v, a, b, "0x15c8") || id_is(&v, a, b, "0x15d8") || id_is(
                    &v,
                    a,
                    b,
                    "0x1638",
                ) || id_is(&v, a, b, "0x164c") || id_is(&v, a, b, "0x164e") || id_is(
                    &v,
                    a,
                    b,
                    "0x1636",
                ) || id_is(&v, a, b, "0x163f") || id_is(&v, a, b, "0x150e")
            },
        }
    }
}

fn sclk_from(s: &str) -> (r: Option<u32>)
    ensures
        r == sclk_mhz(lines(trim(s@))),
{
    let v = chars_of(s);
    let (a, b) = trim_range(&v, 0, v.len());
    assert(v@.subrange(0, v@.len() as int) =~= v@);
    let ls = line_ranges(&v, a, b);
    let mut k: usize = 0;
    let mut found: Option<u32> = None;
    assert(pieces(v@, ls@).skip(0) =~= pieces(v@, ls@));
    while k < ls.len() && found.is_none()
        invariant
            k <= ls@.len(),
            a <= b <= v@.len(),
            pieces(v@, ls@) == lines(v@.subrange(a as int, b as int)),
            ranges_within(ls@, a as int, b as int),
            sclk_mhz(pieces(v@, ls@)) == (match found {
                Some(m) => Some(m),
                None => sclk_mhz(pieces(v@, ls@).skip(k as int)),
            }),
        decreases ls@.len() - k,
    {
        let (lo, hi) = ls[k];
        let ghost rest = pieces(v@, ls@).skip(k as int);
        let ghost line = v@.subrange(lo as int, hi as int);
        assert(rest[0] == line);
        assert(rest.drop_first() =~= pieces(v@, ls@).skip(k + 1));
        assert(a <= ls@[k as int].0 <= ls@[k as int].1 <= b);
        if has_char(&v, lo, hi, '*') {
            let c = find_char(&v, lo, hi, ':');
            proof {
                lemma_char_pos(line, ':');
            }
            if c < hi {
                let d = trim_start_from(&v, c + 1, hi);
                let e = digit_run_end(&v, d, hi);
                let ghost r = line.subrange(c - lo + 1, line.len() as int);
                assert(r =~= v@.subrange(c + 1, hi as int));
                assert(trim_start(r) == v@.subrange(d as int, hi as int));
                assert(trim_start(r).subrange(0, digit_run(trim_start(r)) as int) =~= v@.subrange(
                    d as int,
                    e as int,
                ));
                found = parse_u32_at(&v, d, e);
            }
        }
        k = k + 1;
    }
    proof {
        if found is None {
            assert(pieces(v@, ls@).skip(k as int).len() == 0);
        }
    }
    found
}

/// The usage text of `radeontop -d - -l 1` output: in the first
/// `,`-separated field that (trimmed) starts with `gpu `, the rest without
/// its `%` suffix, trimmed; `None` when that field has no `%` suffix or no
/// field starts with `gpu `.
pub open spec fn radeontop_field_spec(parts: Seq<Seq<char>>) -> Option<Seq<char>>
    decreases parts.len(),
{
    if parts.len() == 0 {
        None
    } else {
        let t = trim(parts[0]);
        if starts_with(t, "gpu "@) {
            match strip_suffix(t.subrange(4, t.len() as int), "%"@) {
                Some(x) => Some(trim(x)),
                None => None,
            }
        } else {
            radeontop_field_spec(parts.drop_first())
        }
    }
}

/// The GPU usage text (e.g. `12.50`) of `radeontop` output.
pub fn radeontop_gpu_field(stdout: &str) -> (r: Option<String>)
    ensures
        opt_string_view(r) == radeontop_field_spec(split_char(stdout@, ',')),
{
    let v = chars_of(stdout);
    assert(v@.subrange(0, v@.len() as int) =~= v@);
    let parts = split_ranges(&v, 0, v.len(), ',');
    let gpu = chars_of("gpu ");
    let pct = chars_of("%");
    let mut k: usize = 0;
    assert(pieces(v@, parts@).skip(0) =~= pieces(v@, parts@));
    while k < parts.len()
        invariant
            k <= parts@.len(),
            pieces(v@, parts@) == split_char(v@, ','),
            ranges_within(parts@, 0, v@.len() as int),
            gpu@ == "gpu "@,
            pct@ == "%"@,
            radeontop_field_spec(split_char(v@, ',')) == radeontop_field_spec(
                pieces(v@, parts@).skip(k as int),
            ),
            v@ == stdout@,
        decreases parts@.len() - k,
    {
        let (lo, hi) = parts[k];
        let ghost rest = pieces(v@, parts@).skip(k as int);
        assert(rest[0] == v@.subrange(lo as int, hi as int));
        assert(rest.drop_first() =~= pieces(v@, parts@).skip(k + 1));
        assert(0 <= parts@[k as int].0 <= parts@[k as int].1 <= v@.len());
        let (a, b) = trim_range(&v, lo, hi);
        if starts_with_at(&v, a, b, &gpu) {
            let ghost t = v@.subrange(a as int, b as int);
            proof {
                reveal_strlit("gpu ");
            }
            assert(t.subrange(4, t.len() as int) =~= v@.subrange(a + 4, b as int));
            if ends_with_at(&v, a + 4, b, &pct) {
                let ghost u = v@.subrange(a + 4, b as int);
                assert(u.subrange(0, u.len() - pct@.len()) =~= v@.subrange(
                    a + 4,
                    b - pct@.len(),
                ));
                let (c, d) = trim_range(&v, a + 4, b - pct.len());
                return Some(string_of(&v, c, d));
            } else {
                return None;
            }
        }
        k = k + 1;
    }
    None
}

// ---------------------------------------------------------------------------
// Apple (Asahi)
// ---------------------------------------------------------------------------

/// Apple Silicon GPU sensor (Asahi DRM driver): one DRM card and the
/// `macsmc` hwmon directory that reports its temperature.
pub struct AppleGpuSensor {
    card_path: String,
    device_path: String,
    hwmon_macsmc_path: Option<String>,
    cached_name: String,
}

/// A file of the `macsmc` hwmon directory, in directory order: its name,
/// and (when read) its contents as a label and the contents of the
/// matching `tempN_input` file.
#[derive(Debug, Clone)]
pub struct AppleTempFile {
    pub name: String,
    pub label: Option<String>,
    pub input: Option<String>,
}

/// A `tempN_label` file name.
pub open spec fn is_temp_label_name(name: Seq<char>) -> bool {
    starts_with(name, "temp"@) && ends_with(name, "_label"@)
}

/// A label that (trimmed, lower-cased) mentions `gpu`.
pub open spec fn label_mentions_gpu_spec(label: Seq<char>) -> bool {
    contains_str(unicode_lowercase(trim(label)), "gpu"@)
}

/// The millidegrees that a `macsmc` file gives for the GPU: a `tempN_label`
/// file whose label mentions the GPU, whose `tempN_input` reads as an
/// integer.
pub open spec fn apple_temp_of(f: AppleTempFile) -> Option<i64> {
    if is_temp_label_name(f.name@) && (f.label matches Some(l) && label_mentions_gpu_spec(l@)) {
        match opt_string_view(f.input) {
            Some(i) => parse_i64(trim(i)),
            None => None,
        }
    } else {
        None
    }
}

/// The first GPU temperature among the files.
pub open spec fn apple_temp_spec(files: Seq<AppleTempFile>) -> Option<i64>
    decreases files.len(),
{
    if files.len() == 0 {
        None
    } else {
        match apple_temp_of(files[0]) {
            Some(t) => Some(t),
            None => apple_temp_spec(files.drop_first()),
        }
    }
}

/// Whether a `name` file (contents) of `/sys/class/hwmon/hwmon*` is the
/// Apple SMC hwmon device: its lower-cased contents contain `macsmc`.
pub fn is_macsmc_name(contents: &str) -> (b: bool)
    ensures
        b == contains_str(unicode_lowercase(contents@), "macsmc"@),
{
    let lower = to_lowercase(contents);
    lowered_names_macsmc(lower.as_str())
}

/// Whether lower-cased `name` file contents contain `macsmc`.
pub fn lowered_names_macsmc(lowered: &str) -> (b: bool)
    ensures
        b == contains_str(lowered@, "macsmc"@),
{
    let v = chars_of(lowered);
    let pat = chars_of("macsmc");
    assert(v@.subrange(0, v@.len() as int) =~= v@);
    contains_at(&v, 0, v.len(), &pat)
}

/// For a `tempN_label` file, the name of its `tempN_input` sibling (every
/// `_label` replaced by `_input`).
pub fn temp_input_name_for_label(name: &str) -> (r: Option<String>)
    ensures
        opt_string_view(r) == (if is_temp_label_name(name@) {
            Some(replace_all(name@, "_label"@, "_input"@))
        } else {
            None
        }),
{
    let v = chars_of(name);
    let temp = chars_of("temp");
    let label = chars_of("_label");
    assert(v@.subrange(0, v@.len() as int) =~= v@);
    if starts_with_at(&v, 0, v.len(), &temp) && ends_with_at(&v, 0, v.len(), &label) {
        Some(replace_str(name, "_label", "_input"))
    } else {
        None
    }
}

/// Whether a temperature label (contents) mentions the GPU.
pub fn label_mentions_gpu(label: &str) -> (b: bool)
    ensures
        b == label_mentions_gpu_spec(label@),
{
    let t = trimmed(label);
    let lower = to_lowercase(t.as_str());
    lowered_label_mentions_gpu(lower.as_str())
}

/// Whether a trimmed, lower-cased temperature label contains `gpu`.
pub fn lowered_label_mentions_gpu(lowered: &str) -> (b: bool)
    ensures
        b == contains_str(lowered@, "gpu"@),
{
    let v = chars_of(lowered);
    let pat = chars_of("gpu");
    assert(v@.subrange(0, v@.len() as int) =~= v@);
    contains_at(&v, 0, v.len(), &pat)
}

fn apple_temp_one(f: &AppleTempFile) -> (r: Option<i64>)
    ensures
        r == apple_temp_of(*f),
{
    let v = chars_of(f.name.as_str());
    let temp = chars_of("temp");
    let label = chars_of("_label");
    assert(v@.subrange(0, v@.len() as int) =~= v@);
    if !(starts_with_at(&v, 0, v.len(), &temp) && ends_with_at(&v, 0, v.len(), &label)) {
        return None;
    }
    match &f.label {
        None => None,
        Some(l) => {
            if !label_mentions_gpu(l.as_str()) {
                return None;
            }
            match &f.input {
                None => None,
                Some(i) => {
                    let w = chars_of(i.as_str());
                    let (a, b) = trim_range(&w, 0, w.len());
                    assert(w@.subrange(0, w@.len() as int) =~= w@);
                    parse_i64_at(&w, a, b)
                },
            }
        },
    }
}

impl AppleGpuSensor {
    pub closed spec fn spec_card_path(&self) -> Seq<char> {
        self.card_path@
    }

    pub closed spec fn spec_device_path(&self) -> Seq<char> {
        self.device_path@
    }

    pub closed spec fn spec_macsmc_path(&self) -> Option<Seq<char>> {
        opt_string_view(self.hwmon_macsmc_path)
    }

    pub closed spec fn spec_name(&self) -> Seq<char> {
        self.cached_name@
    }

    /// A sensor for one card, named `Apple GPU (cardN)`.
    pub fn new(card_path: String, device_path: String, macsmc_path: Option<String>, card_name: &str) -> (s:
        Self)
        ensures
            s.spec_card_path() == card_path@,
            s.spec_device_path() == device_path@,
            s.spec_macsmc_path() == opt_string_view(macsmc_path),
            s.spec_name() == "Apple GPU ("@ + card_name@ + ")"@,
    {
        AppleGpuSensor {
            card_path,
            device_path,
            hwmon_macsmc_path: macsmc_path,
            cached_name: apple_gpu_name(card_name),
        }
    }

    /// The card directory.
    pub fn card_path(&self) -> (r: &str)
        ensures
            r@ == self.spec_card_path(),
    {
        self.card_path.as_str()
    }

    /// The PCI device directory.
    pub fn device_path(&self) -> (r: &str)
        ensures
            r@ == self.spec_device_path(),
    {
        self.device_path.as_str()
    }

    /// The `macsmc` hwmon directory, when one was found.
    pub fn macsmc_path(&self) -> (r: Option<&str>)
        ensures
            opt_view(r) == self.spec_macsmc_path(),
    {
        match &self.hwmon_macsmc_path {
            Some(p) => Some(p.as_str()),
            None => None,
        }
    }

    /// The name given at probe time.
    pub fn name(&self) -> (r: &str)
        ensures
            r@ == self.spec_name(),
    {
        self.cached_name.as_str()
    }

    /// A sysfs file read as an unsigned integer: its trimmed contents as a
    /// `u64` (`None` when unreadable or not a number).
    pub fn read_sysfs_u64(contents: Option<&str>) -> (r: Option<u64>)
        ensures
            r == sysfs_u64_spec(opt_view(contents)),
    {
        sysfs_u64(contents)
    }

    /// GPU temperature in millidegrees from the files of the `macsmc` hwmon
    /// directory (in directory order); `None` without such a directory.
    pub fn read_temp_milli(&self, files: &Vec<AppleTempFile>) -> (r: Option<i64>)
        ensures
            r == (if self.spec_macsmc_path() is Some {
                apple_temp_spec(files@)
            } else {
                None
            }),
    {
        if self.hwmon_macsmc_path.is_none() {
            return None;
        }
        let mut k: usize = 0;
        let mut found: Option<i64> = None;
        assert(files@.skip(0) =~= files@);
        while k < files.len() && found.is_none()
            invariant
                k <= files@.len(),
                apple_temp_spec(files@) == (match found {
                    Some(t) => Some(t),
                    None => apple_temp_spec(files@.skip(k as int)),
                }),
            decreases files@.len() - k,
        {
            let ghost rest = files@.skip(k as int);
            assert(rest[0] == files@[k as int]);
            assert(rest.drop_first() =~= files@.skip(k + 1));
            found = apple_temp_one(&files[k]);
            k = k + 1;
        }
        proof {
            if found is None {
                assert(files@.skip(k as int).len() == 0);
            }
        }
        found
    }
}

// ---------------------------------------------------------------------------
// Intel
// ---------------------------------------------------------------------------

/// Intel GPU sensor (i915 / Xe drivers): one DRM card and its hwmon
/// directory.
pub struct IntelGpuSensor {
    card_path: String,
    device_path: String,
    hwmon_path: Option<String>,
    cached_name: String,
}

/// One engine of `intel_gpu_top -J` output.
#[derive(Debug, Clone)]
pub struct IntelEngine {
    pub name: String,
    pub class: String,
}

/// The render / 3D engine: class `render` or `3d`, or a name that mentions
/// `render` (in lower case).
pub open spec fn is_render_engine(e: IntelEngine) -> bool {
    render_engine_spec(e.class@, unicode_lowercase(e.name@))
}

/// An engine of class `class` whose lower-cased name is `lowered` is the
/// render / 3D engine.
pub open spec fn render_engine_spec(class: Seq<char>, lowered: Seq<char>) -> bool {
    class == "render"@ || class == "3d"@ || contains_str(lowered, "render"@)
}

/// Whether an engine of class `class` whose lower-cased name is `lowered`
/// is the render / 3D engine.
pub fn is_render_engine_lowered(class: &str, lowered: &str) -> (b: bool)
    ensures
        b == render_engine_spec(class@, lowered@),
{
    let v = chars_of(lowered);
    let pat = chars_of("render");
    assert(v@.subrange(0, v@.len() as int) =~= v@);
    str_eq(class, "render") || str_eq(class, "3d") || contains_at(&v, 0, v.len(), &pat)
}

impl IntelGpuSensor {
    pub closed spec fn spec_card_path(&self) -> Seq<char> {
        self.card_path@
    }

    pub closed spec fn spec_device_path(&self) -> Seq<char> {
        self.device_path@
    }

    pub closed spec fn spec_hwmon_path(&self) -> Option<Seq<char>> {
        opt_string_view(self.hwmon_path)
    }

    pub closed spec fn spec_name(&self) -> Seq<char> {
        self.cached_name@
    }

    /// A sensor for one card.
    pub fn new(card_path: String, device_path: String, hwmon_path: Option<String>, name: String) -> (s:
        Self)
        ensures
            s.spec_card_path() == card_path@,
            s.spec_device_path() == device_path@,
            s.spec_hwmon_path() == opt_string_view(hwmon_path),
            s.spec_name() == name@,
    {
        IntelGpuSensor { card_path, device_path, hwmon_path, cached_name: name }
    }

    /// The card directory.
    pub fn card_path(&self) -> (r: &str)
        ensures
            r@ == self.spec_card_path(),
    {
        self.card_path.as_str()
    }

    /// The PCI device directory.
    pub fn device_path(&self) -> (r: &str)
        ensures
            r@ == self.spec_device_path(),
    {
        self.device_path.as_str()
    }

    /// The hwmon directory, when the device has one.
    pub fn hwmon_path(&self) -> (r: Option<&str>)
        ensures
            opt_view(r) == self.spec_hwmon_path(),
    {
        match &self.hwmon_path {
            Some(p) => Some(p.as_str()),
            None => None,
        }
    }

    /// The name given at probe time.
    pub fn name(&self) -> (r: &str)
        ensures
            r@ == self.spec_name(),
    {
        self.cached_name.as_str()
    }

    /// The engine whose busy percentage is the GPU usage: the first
    /// render / 3D engine, else the first engine; `None` without engines.
    pub fn usage_engine(engines: &Vec<IntelEngine>) -> (r: Option<usize>)
        ensures
            r matches Some(i) ==> i < engines@.len(),
            r is None <==> engines@.len() == 0,
            (exists|i: int| 0 <= i < engines@.len() && is_render_engine(#[trigger] engines@[i]))
                ==> (r matches Some(i) && is_render_engine(engines@[i as int]) && forall|j: int|
                0 <= j < i ==> !is_render_engine(#[trigger] engines@[j])),
            (forall|i: int| 0 <= i < engines@.len() ==> !is_render_engine(#[trigger] engines@[i]))
                && engines@.len() > 0 ==> r == Some(0usize),
    {
        let mut i: usize = 0;
        while i < engines.len()
            invariant
                i <= engines@.len(),
                forall|j: int| 0 <= j < i ==> !is_render_engine(#[trigger] engines@[j]),
            decreases engines@.len() - i,
        {
            let e = &engines[i];
            let lower = to_lowercase(e.name.as_str());
            if is_render_engine_lowered(e.class.as_str(), lower.as_str()) {
                assert(is_render_engine(engines@[i as int]));
                return Some(i);
            }
            i = i + 1;
        }
        if engines.len() > 0 {
            Some(0)
        } else {
            None
        }
    }
}

} // verus!
