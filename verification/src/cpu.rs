//! CPU sensing on Linux: choosing the hwmon device that reports the CPU
//! temperature, picking the temperature, frequency from cpufreq or
//! `/proc/cpuinfo`, and the aggregate jiffy counters of `/proc/stat`.
use vstd::prelude::*;
use crate::text::{
    chars_of, contains_at, opt_as_str, contains_str, ends_with, line_ranges, lines, opt_string_view, opt_view,
    owned, parse_i64, parse_i64_at, parse_u64, parse_u64_at, pieces, ranges_within, split_char,
    split_ranges, starts_with, starts_with_at, ends_with_at, string_of, strip_prefix, to_lowercase,
    trim, trim_range, trimmed, unicode_lowercase, word_ranges, words, str_eq,
};

verus! {

broadcast use vstd::string::group_string_axioms;

// ---------------------------------------------------------------------------
// The sensor and its cached hwmon directory
// ---------------------------------------------------------------------------

/// Linux CPU sensor (Intel, AMD Ryzen, Apple Silicon under Asahi Linux).
///
/// The hwmon directory that reports the CPU temperature is looked up on the
/// first read and remembered: the device path does not change at run time.
pub struct LinuxCpuSensor {
    hwmon_path: Option<Option<String>>,
}

impl LinuxCpuSensor {
    /// The result of the hwmon lookup, once one has been remembered.
    pub closed spec fn cached(&self) -> Option<Option<Seq<char>>> {
        match self.hwmon_path {
            None => None,
            Some(p) => Some(opt_string_view(p)),
        }
    }

    /// A sensor that has not looked for its hwmon directory yet.
    pub fn new() -> (s: Self)
        ensures
            s.cached() is None,
    {
        LinuxCpuSensor { hwmon_path: None }
    }

    /// The remembered lookup result, if the lookup has been done.
    pub fn hwmon_path(&self) -> (r: Option<Option<String>>)
        ensures
            (match r {
                None => None,
                Some(p) => Some(opt_string_view(p)),
            }) == self.cached(),
    {
        match &self.hwmon_path {
            None => None,
            Some(None) => Some(None),
            Some(Some(p)) => Some(Some(p.clone())),
        }
    }

    /// Remembers the result of a lookup.  Only the first result is kept:
    /// once a result is remembered, later ones are ignored.
    pub fn remember_hwmon_path(&mut self, found: Option<String>)
        ensures
            final(self).cached() == after_remember(old(self).cached(), opt_string_view(found)),
    {
        if self.hwmon_path.is_none() {
            self.hwmon_path = Some(found);
        }
    }
}

impl Default for LinuxCpuSensor {
    fn default() -> (s: Self)
        ensures
            s.cached() is None,
    {
        Self::new()
    }
}

/// The cache after remembering `found`: unchanged when a result is
/// already remembered, `found` otherwise.
pub open spec fn after_remember(
    cached: Option<Option<Seq<char>>>,
    found: Option<Seq<char>>,
) -> Option<Option<Seq<char>>> {
    match cached {
        Some(p) => Some(p),
        None => Some(found),
    }
}

/// The hwmon lookup is cached: the first result remembered is the one
/// kept, whatever is remembered after it.
pub proof fn law_first_lookup_is_kept(first: Option<Seq<char>>, later: Seq<Option<Seq<char>>>)
    ensures
        later.fold_left(after_remember(None, first), |c, f| after_remember(c, f)) == Some(first),
    decreases later.len(),
{
    if later.len() > 0 {
        law_first_lookup_is_kept(first, later.drop_last());
    }
}

// ---------------------------------------------------------------------------
// Choosing the hwmon device
// ---------------------------------------------------------------------------

/// Priority of a hwmon driver name (already trimmed and lower-cased) for
/// CPU temperature: `k10temp` (AMD Ryzen) 0, `coretemp` (Intel) 1,
/// `zenpower` 2, `macsmc` or any name containing `apple` 3; other drivers
/// are not CPU temperature sources.
pub open spec fn cpu_temp_priority_spec(n: Seq<char>) -> Option<u8> {
    if n == "k10temp"@ {
        Some(0)
    } else if n == "coretemp"@ {
        Some(1)
    } else if n == "zenpower"@ {
        Some(2)
    } else if n == "macsmc"@ || contains_str(n, "apple"@) {
        Some(3)
    } else {
        None
    }
}

/// Priority of a trimmed, lower-cased hwmon driver name.
pub fn cpu_temp_priority(name: &str) -> (r: Option<u8>)
    ensures
        r == cpu_temp_priority_spec(name@),
{
    if str_eq(name, "k10temp") {
        Some(0)
    } else if str_eq(name, "coretemp") {
        Some(1)
    } else if str_eq(name, "zenpower") {
        Some(2)
    } else {
        let v = chars_of(name);
        let apple = chars_of("apple");
        assert(v@.subrange(0, v@.len() as int) =~= v@);
        if str_eq(name, "macsmc") || contains_at(&v, 0, v.len(), &apple) {
            Some(3)
        } else {
            None
        }
    }
}

/// A directory under `/sys/class/hwmon` and the contents of its `name`
/// file (`None` when that file could not be read).
#[derive(Debug)]
pub struct HwmonCandidate {
    pub path: String,
    pub name: Option<String>,
}

/// Priority of a hwmon directory, from the raw contents of its `name` file.
pub open spec fn candidate_priority(name: Option<Seq<char>>) -> Option<u8> {
    match name {
        None => None,
        Some(raw) => cpu_temp_priority_spec(unicode_lowercase(trim(raw))),
    }
}

/// `i` is the first candidate of the highest priority (lowest number).
pub open spec fn is_first_best(cands: Seq<HwmonCandidate>, i: int) -> bool {
    &&& 0 <= i < cands.len()
    &&& candidate_priority(opt_string_view(cands[i].name)) is Some
    &&& forall|j: int|
        0 <= j < cands.len() && (#[trigger] candidate_priority(opt_string_view(cands[j].name)))
            is Some ==> candidate_priority(opt_string_view(cands[i].name))->0
            <= candidate_priority(opt_string_view(cands[j].name))->0
    &&& forall|j: int|
        0 <= j < i && (#[trigger] candidate_priority(opt_string_view(cands[j].name))) is Some
            ==> candidate_priority(opt_string_view(cands[i].name))->0 < candidate_priority(
            opt_string_view(cands[j].name),
        )->0
}

fn priority_of(name: &Option<String>) -> (r: Option<u8>)
    ensures
        r == candidate_priority(opt_string_view(*name)),
{
    match name {
        None => None,
        Some(raw) => {
            let t = trimmed(raw.as_str());
            let lower = to_lowercase(t.as_str());
            cpu_temp_priority(lower.as_str())
        },
    }
}

/// The hwmon directory for CPU temperature: among the directories whose
/// driver name is known, in directory order, the first one of the highest
/// priority (`k10temp` > `coretemp` > `zenpower` > Apple).
pub fn choose_cpu_temp_hwmon(cands: &Vec<HwmonCandidate>) -> (r: Option<String>)
    ensures
        r is None <==> forall|j: int|
            0 <= j < cands@.len() ==> (#[trigger] candidate_priority(
                opt_string_view(cands@[j].name),
            )) is None,
        r matches Some(p) ==> exists|i: int| is_first_best(cands@, i) && p@ == cands@[i].path@,
{
    let mut best: Option<(usize, u8)> = None;
    let mut k: usize = 0;
    while k < cands.len()
        invariant
            k <= cands@.len(),
            best is None ==> forall|j: int|
                0 <= j < k ==> (#[trigger] candidate_priority(opt_string_view(cands@[j].name)))
                    is None,
            best matches Some(b) ==> {
                &&& b.0 < k
                &&& candidate_priority(opt_string_view(cands@[b.0 as int].name)) == Some(b.1)
                &&& forall|j: int|
                    0 <= j < k && (#[trigger] candidate_priority(
                        opt_string_view(cands@[j].name),
                    )) is Some ==> b.1 <= candidate_priority(opt_string_view(cands@[j].name))->0
                &&& forall|j: int|
                    0 <= j < b.0 && (#[trigger] candidate_priority(
                        opt_string_view(cands@[j].name),
                    )) is Some ==> b.1 < candidate_priority(opt_string_view(cands@[j].name))->0
            },
        decreases cands@.len() - k,
    {
        let p = priority_of(&cands[k].name);
        match p {
            Some(pr) => {
                match best {
                    None => {
                        best = Some((k, pr));
                    },
                    Some((_, bp)) => {
                        if pr < bp {
                            best = Some((k, pr));
                        }
                    },
                }
            },
            None => {},
        }
        k = k + 1;
    }
    match best {
        None => None,
        Some((i, _)) => {
            assert(is_first_best(cands@, i as int));
            Some(cands[i].path.clone())
        },
    }
}

// ---------------------------------------------------------------------------
// Choosing the temperature
// ---------------------------------------------------------------------------

/// The sensor number `N` of a hwmon file named `tempN_input`.
pub open spec fn temp_input_number_spec(f: Seq<char>) -> Option<Seq<char>> {
    if starts_with(f, "temp"@) && ends_with(f, "_input"@) {
        Some(f.subrange(4, f.len() - 6))
    } else {
        None
    }
}

/// The sensor number `N` of a hwmon file named `tempN_input`.
pub fn temp_input_number(file_name: &str) -> (r: Option<String>)
    ensures
        opt_string_view(r) == temp_input_number_spec(file_name@),
{
    let v = chars_of(file_name);
    let temp = chars_of("temp");
    let input = chars_of("_input");
    assert(v@.subrange(0, v@.len() as int) =~= v@);
    if starts_with_at(&v, 0, v.len(), &temp) && ends_with_at(&v, 0, v.len(), &input) {
        proof {
            reveal_strlit("temp");
            reveal_strlit("_input");
            if v@.len() < 10 {
                let k = v@.len() - 6;
                assert(v@.subrange(0, 4)[k] == "temp"@[k]);
                assert(v@.subrange(v@.len() - 6, v@.len() as int)[0] == "_input"@[0]);
                assert(false);
            }
        }
        Some(string_of(&v, 4, v.len() - 6))
    } else {
        None
    }
}

/// The name of the label file of temperature sensor `N`: `tempN_label`.
pub fn temp_label_file_name(number: &str) -> (r: String)
    ensures
        r@ == "temp"@ + number@ + "_label"@,
{
    let mut s = owned("temp");
    s.append(number);
    s.append("_label");
    s
}

/// A `tempN_input` file of the hwmon directory: the contents of its
/// `tempN_label` sibling and its own contents (`None` when unreadable).
#[derive(Debug)]
pub struct TempReading {
    pub label: Option<String>,
    pub input: Option<String>,
}

/// The millidegrees of a reading: its trimmed input read as an `i64`.
pub open spec fn reading_milli(r: TempReading) -> Option<i64> {
    match opt_string_view(r.input) {
        Some(s) => parse_i64(trim(s)),
        None => None,
    }
}

/// The trimmed label is `Package id 0`.
pub open spec fn is_package_label(r: TempReading) -> bool {
    match opt_string_view(r.label) {
        Some(l) => trim(l) == "Package id 0"@,
        None => false,
    }
}

/// The first usable temperature.
pub open spec fn first_temp(rs: Seq<TempReading>) -> Option<i64>
    decreases rs.len(),
{
    if rs.len() == 0 {
        None
    } else {
        match reading_milli(rs[0]) {
            Some(t) => Some(t),
            None => first_temp(rs.drop_first()),
        }
    }
}

/// The first usable temperature labelled `Package id 0`.
pub open spec fn first_package_temp(rs: Seq<TempReading>) -> Option<i64>
    decreases rs.len(),
{
    if rs.len() == 0 {
        None
    } else if reading_milli(rs[0]) is Some && is_package_label(rs[0]) {
        reading_milli(rs[0])
    } else {
        first_package_temp(rs.drop_first())
    }
}

/// The hwmon driver name (trimmed, lower-cased) is `coretemp`.
pub open spec fn is_coretemp(name: Option<Seq<char>>) -> bool {
    match name {
        Some(n) => unicode_lowercase(trim(n)) == "coretemp"@,
        None => false,
    }
}

/// CPU temperature in millidegrees Celsius: on `coretemp` the first usable
/// `Package id 0` reading when there is one, otherwise the first usable
/// reading (typically `temp1_input`); `None` when no reading is usable.
pub open spec fn cpu_temp_spec(hwmon_name: Option<Seq<char>>, rs: Seq<TempReading>) -> Option<
    i64,
> {
    cpu_temp_on(is_coretemp(hwmon_name), rs)
}

/// CPU temperature in millidegrees Celsius, given whether the driver is
/// `coretemp`.
pub open spec fn cpu_temp_on(coretemp: bool, rs: Seq<TempReading>) -> Option<i64> {
    if coretemp && first_package_temp(rs) is Some {
        first_package_temp(rs)
    } else {
        first_temp(rs)
    }
}

fn reading_value(r: &TempReading) -> (t: Option<i64>)
    ensures
        t == reading_milli(*r),
{
    match &r.input {
        None => None,
        Some(s) => {
            let v = chars_of(s.as_str());
            let (a, b) = trim_range(&v, 0, v.len());
            assert(v@.subrange(0, v@.len() as int) =~= v@);
            parse_i64_at(&v, a, b)
        },
    }
}

fn package_label(r: &TempReading) -> (b: bool)
    ensures
        b == is_package_label(*r),
{
    match &r.label {
        None => false,
        Some(l) => {
            let t = trimmed(l.as_str());
            str_eq(t.as_str(), "Package id 0")
        },
    }
}

/// CPU temperature in millidegrees Celsius from the readings of the chosen
/// hwmon directory, in directory order, and the contents of its `name`
/// file.
pub fn choose_cpu_temp(hwmon_name: Option<&str>, readings: &Vec<TempReading>) -> (r: Option<i64>)
    ensures
        r == cpu_temp_spec(opt_view(hwmon_name), readings@),
{
    let lowered = match hwmon_name {
        None => None,
        Some(n) => {
            let t = trimmed(n);
            Some(to_lowercase(t.as_str()))
        },
    };
    choose_cpu_temp_lowered(opt_as_str(&lowered), readings)
}

/// CPU temperature in millidegrees Celsius from the readings of the chosen
/// hwmon directory, in directory order, and its driver name already
/// trimmed and lower-cased (`None` when the `name` file was unreadable).
pub fn choose_cpu_temp_lowered(lowered_name: Option<&str>, readings: &Vec<TempReading>) -> (r:
    Option<i64>)
    ensures
        r == cpu_temp_on(lowered_name matches Some(n) && n@ == "coretemp"@, readings@),
{
    let mut first: Option<i64> = None;
    let mut package: Option<i64> = None;
    let mut k: usize = 0;
    assert(readings@.skip(0) =~= readings@);
    while k < readings.len()
        invariant
            k <= readings@.len(),
            first_temp(readings@) == (match first {
                Some(t) => Some(t),
                None => first_temp(readings@.skip(k as int)),
            }),
            first_package_temp(readings@) == (match package {
                Some(t) => Some(t),
                None => first_package_temp(readings@.skip(k as int)),
            }),
        decreases readings@.len() - k,
    {
        let ghost rest = readings@.skip(k as int);
        assert(rest[0] == readings@[k as int]);
        assert(rest.drop_first() =~= readings@.skip(k + 1));
        let t = reading_value(&readings[k]);
        if let Some(t) = t {
            if first.is_none() {
                first = Some(t);
            }
            if package.is_none() && package_label(&readings[k]) {
                package = Some(t);
            }
        }
        k = k + 1;
    }
    assert(readings@.skip(k as int).len() == 0);
    let coretemp = match lowered_name {
        None => false,
        Some(n) => str_eq(n, "coretemp"),
    };
    if coretemp && package.is_some() {
        package
    } else {
        first
    }
}

// ---------------------------------------------------------------------------
// Frequency
// ---------------------------------------------------------------------------

/// MHz from the contents of `cpufreq/scaling_cur_freq` (kHz).
pub open spec fn cpufreq_mhz_spec(contents: Option<Seq<char>>) -> Option<u32> {
    match contents {
        Some(c) => match parse_u64(trim(c)) {
            Some(khz) => Some((khz / 1000) as u32),
            None => None,
        },
        None => None,
    }
}

/// MHz from the contents of `cpufreq/scaling_cur_freq` (kHz), truncated to
/// `u32`.
pub fn cpufreq_mhz(contents: Option<&str>) -> (r: Option<u32>)
    ensures
        r == cpufreq_mhz_spec(opt_view(contents)),
{
    match contents {
        None => None,
        Some(c) => {
            let v = chars_of(c);
            let (a, b) = trim_range(&v, 0, v.len());
            assert(v@.subrange(0, v@.len() as int) =~= v@);
            match parse_u64_at(&v, a, b) {
                Some(khz) => Some((khz / 1000) as u32),
                None => None,
            }
        },
    }
}

/// The MHz text of a `/proc/cpuinfo` line `cpu MHz<...>:<value>[:...]`:
/// the trimmed second `:`-separated piece after the `cpu MHz` prefix.
pub open spec fn cpuinfo_field(line: Seq<char>) -> Option<Seq<char>> {
    match strip_prefix(line, "cpu MHz"@) {
        Some(rest) => {
            let parts = split_char(rest, ':');
            if parts.len() > 1 {
                Some(trim(parts[1]))
            } else {
                None
            }
        },
        None => None,
    }
}

/// The MHz texts of the given lines, in order.
pub open spec fn cpuinfo_fields(ls: Seq<Seq<char>>) -> Seq<Seq<char>>
    decreases ls.len(),
{
    if ls.len() == 0 {
        seq![]
    } else {
        let pre = cpuinfo_fields(ls.drop_last());
        match cpuinfo_field(ls.last()) {
            Some(f) => pre.push(f),
            None => pre,
        }
    }
}

/// The MHz texts of the `cpu MHz` lines of `/proc/cpuinfo`, in order (one
/// per core on most systems), for averaging.
pub fn cpuinfo_mhz_fields(cpuinfo: &str) -> (r: Vec<String>)
    ensures
        r@.map_values(|s: String| s@) == cpuinfo_fields(lines(cpuinfo@)),
{
    let v = chars_of(cpuinfo);
    let ls = line_ranges(&v, 0, v.len());
    assert(v@.subrange(0, v@.len() as int) =~= v@);
    let key = chars_of("cpu MHz");
    let mut out: Vec<String> = Vec::new();
    let mut k: usize = 0;
    while k < ls.len()
        invariant
            k <= ls@.len(),
            pieces(v@, ls@) == lines(v@),
            ranges_within(ls@, 0, v@.len() as int),
            key@ == "cpu MHz"@,
            out@.map_values(|s: String| s@) == cpuinfo_fields(pieces(v@, ls@).take(k as int)),
        decreases ls@.len() - k,
    {
        let (lo, hi) = ls[k];
        let ghost line = v@.subrange(lo as int, hi as int);
        assert(pieces(v@, ls@).take(k + 1).drop_last() =~= pieces(v@, ls@).take(k as int));
        assert(pieces(v@, ls@).take(k + 1).last() == line);
        assert(0 <= ls@[k as int].0 <= ls@[k as int].1 <= v@.len());
        if starts_with_at(&v, lo, hi, &key) {
            assert(line.subrange(key@.len() as int, line.len() as int) =~= v@.subrange(
                lo + key@.len(),
                hi as int,
            ));
            let parts = split_ranges(&v, lo + key.len(), hi, ':');
            if parts.len() > 1 {
                let (a0, b0) = parts[1];
                assert(lo + key@.len() <= parts@[1].0 <= parts@[1].1 <= hi);
                assert(pieces(v@, parts@)[1] == v@.subrange(a0 as int, b0 as int));
                let (a, b) = trim_range(&v, a0, b0);
                let f = string_of(&v, a, b);
                let ghost before = out@;
                out.push(f);
                assert(out@.map_values(|s: String| s@) =~= before.map_values(|s: String| s@).push(
                    v@.subrange(a as int, b as int),
                ));
            }
        }
        k = k + 1;
    }
    assert(pieces(v@, ls@).take(ls@.len() as int) =~= pieces(v@, ls@));
    out
}

// ---------------------------------------------------------------------------
// /proc/stat
// ---------------------------------------------------------------------------

/// The words that read as `u64`, in order, their values.
pub open spec fn parsed_words(ws: Seq<Seq<char>>) -> Seq<u64>
    decreases ws.len(),
{
    if ws.len() == 0 {
        seq![]
    } else {
        let pre = parsed_words(ws.drop_last());
        match parse_u64(ws.last()) {
            Some(n) => pre.push(n),
            None => pre,
        }
    }
}

/// The counters of an aggregate `cpu ` line of `/proc/stat` when it has at
/// least four (user, nice, system, idle).
pub open spec fn stat_line_values(line: Seq<char>) -> Option<Seq<u64>> {
    match strip_prefix(line, "cpu "@) {
        Some(rest) => {
            let p = parsed_words(words(rest));
            if p.len() >= 4 {
                Some(p)
            } else {
                None
            }
        },
        None => None,
    }
}

/// The counters of the first usable aggregate line.
pub open spec fn first_stat_values(ls: Seq<Seq<char>>) -> Option<Seq<u64>>
    decreases ls.len(),
{
    if ls.len() == 0 {
        None
    } else {
        match stat_line_values(ls[0]) {
            Some(p) => Some(p),
            None => first_stat_values(ls.drop_first()),
        }
    }
}

pub proof fn lemma_first_stat_values_len(ls: Seq<Seq<char>>)
    ensures
        first_stat_values(ls) matches Some(p) ==> p.len() >= 4,
    decreases ls.len(),
{
    if ls.len() > 0 && stat_line_values(ls[0]) is None {
        lemma_first_stat_values_len(ls.drop_first());
    }
}

/// The `i`-th counter, 0 when the line has fewer.
pub open spec fn counter(p: Seq<u64>, i: int) -> int {
    if i < p.len() {
        p[i] as int
    } else {
        0
    }
}

/// user + nice + system + idle + iowait + irq + softirq + steal.
pub open spec fn stat_total(p: Seq<u64>) -> int {
    counter(p, 0) + counter(p, 1) + counter(p, 2) + counter(p, 3) + counter(p, 4) + counter(p, 5)
        + counter(p, 6) + counter(p, 7)
}

/// The total jiffies of an aggregate line is the sum of its first eight
/// counters (user, nice, system, idle, iowait, irq, softirq, steal), a
/// missing one counting 0.  The guest and guest_nice counters that follow
/// (already included in user and nice) and any later ones never change it.
pub proof fn law_stat_total_first_eight(p: Seq<u64>, extra: Seq<u64>)
    ensures
        stat_total(p) == (if p.len() > 0 { p[0] as int } else { 0 }) + (if p.len() > 1 { p[1] as int } else { 0 }) + (if p.len() > 2 { p[2] as int } else { 0 }) + (if p.len() > 3 { p[3] as int } else { 0 }) + (if p.len() > 4 { p[4] as int } else { 0 }) + (if p.len() > 5 { p[5] as int } else { 0 }) + (if p.len() > 6 { p[6] as int } else { 0 }) + (if p.len() > 7 { p[7] as int } else { 0 }),
        p.len() >= 8 ==> stat_total(p) == p[0] + p[1] + p[2] + p[3] + p[4] + p[5] + p[6] + p[7],
        p.len() >= 8 ==> stat_total(p + extra) == stat_total(p),
{
    if p.len() >= 8 {
        let q = p + extra;
        assert(q[0] == p[0] && q[1] == p[1] && q[2] == p[2] && q[3] == p[3]);
        assert(q[4] == p[4] && q[5] == p[5] && q[6] == p[6] && q[7] == p[7]);
    }
}

/// The sum of the counters of the aggregate line fits a `u64` (or there is
/// no such line).
pub open spec fn stat_total_fits(contents: Seq<char>) -> bool {
    match first_stat_values(lines(contents)) {
        Some(p) => stat_total(p) <= u64::MAX,
        None => true,
    }
}

/// Total and idle jiffies of the aggregate `cpu ` line of `/proc/stat`.
#[derive(Debug, Clone, Copy)]
pub struct CpuStatSample {
    pub total: u64,
    pub idle: u64,
}

/// `/proc/stat` has no usable aggregate `cpu ` line.
#[derive(Debug, Clone, Copy, PartialEq, Eq)]
pub enum CpuStatError {
    NoAggregateLine,
}

fn line_stat_values(v: &Vec<char>, lo: usize, hi: usize) -> (r: Option<Vec<u64>>)
    requires
        lo <= hi <= v@.len(),
    ensures
        (match r {
            Some(p) => Some(p@),
            None => None,
        }) == stat_line_values(v@.subrange(lo as int, hi as int)),
{
    let key = chars_of("cpu ");
    if !starts_with_at(v, lo, hi, &key) {
        return None;
    }
    let ghost line = v@.subrange(lo as int, hi as int);
    assert(line.subrange(key@.len() as int, line.len() as int) =~= v@.subrange(
        lo + key@.len(),
        hi as int,
    ));
    let ws = word_ranges(v, lo + key.len(), hi);
    let mut parts: Vec<u64> = Vec::new();
    let mut k: usize = 0;
    while k < ws.len()
        invariant
            k <= ws@.len(),
            lo + key@.len() <= hi <= v@.len(),
            ranges_within(ws@, lo + key@.len(), hi as int),
            parts@ == parsed_words(pieces(v@, ws@).take(k as int)),
        decreases ws@.len() - k,
    {
        let (a, b) = ws[k];
        assert(pieces(v@, ws@).take(k + 1).drop_last() =~= pieces(v@, ws@).take(k as int));
        assert(pieces(v@, ws@).take(k + 1).last() == v@.subrange(a as int, b as int));
        assert(lo + key@.len() <= ws@[k as int].0 <= ws@[k as int].1 <= hi);
        match parse_u64_at(v, a, b) {
            Some(n) => parts.push(n),
            None => {},
        }
        k = k + 1;
    }
    assert(pieces(v@, ws@).take(ws@.len() as int) =~= pieces(v@, ws@));
    if parts.len() >= 4 {
        Some(parts)
    } else {
        None
    }
}

/// The counters of the first aggregate `cpu ` line of `/proc/stat` with at
/// least four counters.
pub fn aggregate_cpu_counters(contents: &str) -> (r: Option<Vec<u64>>)
    ensures
        (match r {
            Some(p) => Some(p@),
            None => None,
        }) == first_stat_values(lines(contents@)),
{
    let v = chars_of(contents);
    let ls = line_ranges(&v, 0, v.len());
    assert(v@.subrange(0, v@.len() as int) =~= v@);
    let mut k: usize = 0;
    let mut found: Option<Vec<u64>> = None;
    assert(pieces(v@, ls@).skip(0) =~= pieces(v@, ls@));
    while k < ls.len() && found.is_none()
        invariant
            k <= ls@.len(),
            pieces(v@, ls@) == lines(v@),
            ranges_within(ls@, 0, v@.len() as int),
            first_stat_values(lines(v@)) == (match found {
                Some(p) => Some(p@),
                None => first_stat_values(pieces(v@, ls@).skip(k as int)),
            }),
        decreases ls@.len() - k,
    {
        let (lo, hi) = ls[k];
        let ghost rest = pieces(v@, ls@).skip(k as int);
        assert(rest[0] == v@.subrange(lo as int, hi as int));
        assert(rest.drop_first() =~= pieces(v@, ls@).skip(k + 1));
        assert(0 <= ls@[k as int].0 <= ls@[k as int].1 <= v@.len());
        found = line_stat_values(&v, lo, hi);
        k = k + 1;
    }
    proof {
        if found is None {
            assert(pieces(v@, ls@).skip(k as int).len() == 0);
        }
    }
    found
}

fn counter_at(p: &Vec<u64>, i: usize) -> (r: u64)
    ensures
        r as int == counter(p@, i as int),
{
    if i < p.len() {
        p[i]
    } else {
        0
    }
}

/// Whether the counters of the aggregate line add up within `u64`.
pub fn stat_counters_fit(p: &Vec<u64>) -> (b: bool)
    ensures
        b == (stat_total(p@) <= u64::MAX),
{
    let mut sum: u128 = 0;
    let mut i: usize = 0;
    while i < 8
        invariant
            i <= 8,
            sum as int == (if i > 0 { counter(p@, 0) } else { 0 }) + (if i > 1 { counter(p@, 1) } else { 0 }) + (if i > 2 { counter(p@, 2) } else { 0 }) + (if i > 3 { counter(p@, 3) } else { 0 }) + (if i > 4 { counter(p@, 4) } else { 0 }) + (if i > 5 { counter(p@, 5) } else { 0 }) + (if i > 6 { counter(p@, 6) } else { 0 }) + (if i > 7 { counter(p@, 7) } else { 0 }),
            sum <= 8 * 0xffff_ffff_ffff_ffffu128,
        decreases 8 - i,
    {
        sum = sum + counter_at(p, i) as u128;
        i = i + 1;
    }
    sum <= 0xffff_ffff_ffff_ffffu128
}

/// Whether the aggregate line of the given `/proc/stat` contents adds up
/// within `u64` (true when there is no such line).
pub fn cpu_stat_total_fits(contents: &str) -> (b: bool)
    ensures
        b == stat_total_fits(contents@),
{
    match aggregate_cpu_counters(contents) {
        None => true,
        Some(p) => stat_counters_fit(&p),
    }
}

impl CpuStatSample {
    /// Total jiffies (the sum of the first eight counters, missing ones
    /// counting 0) and idle jiffies (the fourth counter).
    pub fn from_counters(p: &Vec<u64>) -> (s: CpuStatSample)
        requires
            p@.len() >= 4,
            stat_total(p@) <= u64::MAX,
        ensures
            s.total as int == stat_total(p@),
            s.idle == p@[3],
            s.idle <= s.total,
    {
        let total = counter_at(p, 0) + counter_at(p, 1) + counter_at(p, 2) + counter_at(p, 3)
            + counter_at(p, 4) + counter_at(p, 5) + counter_at(p, 6) + counter_at(p, 7);
        CpuStatSample { total, idle: p[3] }
    }

    /// Jiffies elapsed since an earlier sample: (total, idle).
    pub fn deltas_since(&self, earlier: &CpuStatSample) -> (r: (u64, u64))
        requires
            earlier.total <= self.total,
            earlier.idle <= self.idle,
        ensures
            r.0 == self.total - earlier.total,
            r.1 == self.idle - earlier.idle,
    {
        (self.total - earlier.total, self.idle - earlier.idle)
    }
}

/// Total and idle jiffies from the first aggregate `cpu ` line of
/// `/proc/stat` that has at least four counters.
pub fn parse_cpu_stat(contents: &str) -> (r: Result<CpuStatSample, CpuStatError>)
    requires
        stat_total_fits(contents@),
    ensures
        match first_stat_values(lines(contents@)) {
            None => r == Err::<CpuStatSample, CpuStatError>(CpuStatError::NoAggregateLine),
            Some(p) => p.len() >= 4 && (r matches Ok(s) && s.total as int == stat_total(p) && s.idle
                == p[3]),
        },
        r matches Ok(s) ==> s.idle <= s.total,
{
    proof {
        lemma_first_stat_values_len(lines(contents@));
    }
    match aggregate_cpu_counters(contents) {
        None => Err(CpuStatError::NoAggregateLine),
        Some(p) => Ok(CpuStatSample::from_counters(&p)),
    }
}

} // verus!
