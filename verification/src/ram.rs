//! Memory usage from `/proc/meminfo` and DIMM metadata from the output of
//! `dmidecode -t memory`.
use vstd::prelude::*;
use crate::text::{
    chars_of, line_ranges, lines, opt_string_view, opt_view, parse_u32, parse_u32_at, parse_u64,
    parse_u64_at, pieces, ranges_within, starts_with, starts_with_at, string_of, strip_prefix,
    strip_suffix, ends_with_at, trim, trim_range, trim_str_end, trim_str_end_to,
};

verus! {

broadcast use vstd::string::group_string_axioms;

/// The number in a `/proc/meminfo` value such as `"  12345 kB"`: the
/// trimmed text without a `kB` (or `KB`) suffix, trimmed again and read as
/// an unsigned integer; 0 when it is not one.
pub open spec fn meminfo_value_spec(s: Seq<char>) -> u64 {
    let t = trim(s);
    let u = match strip_suffix(t, "kB"@) {
        Some(x) => x,
        None => match strip_suffix(t, "KB"@) {
            Some(x) => x,
            None => t,
        },
    };
    match parse_u64(trim(u)) {
        Some(n) => n,
        None => 0,
    }
}

/// Reading `/proc/meminfo`: (MemTotal, MemAvailable, done).  The scan stops
/// at the first line after which both values are non-zero.
pub open spec fn meminfo_scan(ls: Seq<Seq<char>>, st: (u64, u64, bool)) -> (u64, u64, bool)
    decreases ls.len(),
{
    if st.2 || ls.len() == 0 {
        st
    } else {
        let line = ls[0];
        let (t, a) = match strip_prefix(line, "MemTotal:"@) {
            Some(rest) => (meminfo_value_spec(rest), st.1),
            None => match strip_prefix(line, "MemAvailable:"@) {
                Some(rest) => (st.0, meminfo_value_spec(rest)),
                None => (st.0, st.1),
            },
        };
        meminfo_scan(ls.drop_first(), (t, a, t > 0 && a > 0))
    }
}

/// MemTotal and MemAvailable (kB) from the contents of `/proc/meminfo`.
pub open spec fn meminfo_totals_spec(contents: Seq<char>) -> (u64, u64) {
    let st = meminfo_scan(lines(contents), (0, 0, false));
    (st.0, st.1)
}

/// Memory usage computed from `/proc/meminfo`.
#[derive(Debug, Clone, Copy)]
pub struct RamUsage {
    /// MemTotal, in kB.
    pub total_kb: u64,
    /// MemTotal minus MemAvailable (0 when MemAvailable is larger), in kB.
    pub used_kb: u64,
    /// `total_kb / 1024`, as a `u32` (truncated).
    pub total_mb: u32,
    /// `used_kb / 1024`, as a `u32` (truncated).
    pub used_mb: u32,
}

/// Usage from `/proc/meminfo`; `None` when the file could not be read or
/// reports no MemTotal.
pub open spec fn ram_usage_spec(contents: Option<Seq<char>>) -> Option<RamUsage> {
    match contents {
        None => None,
        Some(c) => {
            let (t, a) = meminfo_totals_spec(c);
            if t == 0 {
                None
            } else {
                let used = if t >= a {
                    (t - a) as u64
                } else {
                    0u64
                };
                Some(
                    RamUsage {
                        total_kb: t,
                        used_kb: used,
                        total_mb: (t / 1024) as u32,
                        used_mb: (used / 1024) as u32,
                    },
                )
            }
        },
    }
}

/// Parse a `/proc/meminfo` value such as `"  12345 kB"` into kB.
pub fn parse_meminfo_value(s: &str) -> (r: u64)
    ensures
        r == meminfo_value_spec(s@),
{
    let v = chars_of(s);
    assert(v@.subrange(0, v@.len() as int) =~= v@);
    meminfo_value_at(&v, 0, v.len())
}

fn meminfo_value_at(v: &Vec<char>, lo: usize, hi: usize) -> (r: u64)
    requires
        lo <= hi <= v@.len(),
    ensures
        r == meminfo_value_spec(v@.subrange(lo as int, hi as int)),
{
    let kb = chars_of("kB");
    let kb_upper = chars_of("KB");
    let (a, b) = trim_range(v, lo, hi);
    let ghost t = v@.subrange(a as int, b as int);
    let e = if ends_with_at(v, a, b, &kb) {
        assert(t.subrange(0, t.len() - kb@.len()) =~= v@.subrange(a as int, b - kb@.len()));
        b - kb.len()
    } else if ends_with_at(v, a, b, &kb_upper) {
        assert(t.subrange(0, t.len() - kb_upper@.len()) =~= v@.subrange(
            a as int,
            b - kb_upper@.len(),
        ));
        b - kb_upper.len()
    } else {
        b
    };
    let (c, d) = trim_range(v, a, e);
    match parse_u64_at(v, c, d) {
        Some(n) => n,
        None => 0,
    }
}

/// MemTotal and MemAvailable (kB) from the contents of `/proc/meminfo`.
pub fn meminfo_totals(contents: &str) -> (r: (u64, u64))
    ensures
        r == meminfo_totals_spec(contents@),
{
    let v = chars_of(contents);
    let ls = line_ranges(&v, 0, v.len());
    assert(v@.subrange(0, v@.len() as int) =~= v@);
    let total_key = chars_of("MemTotal:");
    let avail_key = chars_of("MemAvailable:");
    let mut total: u64 = 0;
    let mut available: u64 = 0;
    let mut done = false;
    let mut k: usize = 0;
    assert(pieces(v@, ls@).skip(0) =~= pieces(v@, ls@));
    while k < ls.len() && !done
        invariant
            k <= ls@.len(),
            pieces(v@, ls@) == lines(v@),
            ranges_within(ls@, 0, v@.len() as int),
            total_key@ == "MemTotal:"@,
            avail_key@ == "MemAvailable:"@,
            meminfo_scan(lines(v@), (0, 0, false)) == meminfo_scan(
                pieces(v@, ls@).skip(k as int),
                (total, available, done),
            ),
        decreases ls@.len() - k,
    {
        let (lo, hi) = ls[k];
        let ghost rest = pieces(v@, ls@).skip(k as int);
        let ghost line = v@.subrange(lo as int, hi as int);
        assert(rest[0] == line);
        assert(rest.drop_first() =~= pieces(v@, ls@).skip(k + 1));
        assert(0 <= ls@[k as int].0 <= ls@[k as int].1 <= v@.len());
        if starts_with_at(&v, lo, hi, &total_key) {
            assert(line.subrange(total_key@.len() as int, line.len() as int) =~= v@.subrange(
                lo + total_key@.len(),
                hi as int,
            ));
            total = meminfo_value_at(&v, lo + total_key.len(), hi);
        } else if starts_with_at(&v, lo, hi, &avail_key) {
            assert(line.subrange(avail_key@.len() as int, line.len() as int) =~= v@.subrange(
                lo + avail_key@.len(),
                hi as int,
            ));
            available = meminfo_value_at(&v, lo + avail_key.len(), hi);
        }
        done = total > 0 && available > 0;
        k = k + 1;
    }
    proof {
        if !done {
            assert(pieces(v@, ls@).skip(k as int).len() == 0);
        }
    }
    (total, available)
}

/// Memory usage from the contents of `/proc/meminfo` (`None` when the file
/// could not be read or reports no MemTotal).
pub fn ram_usage(meminfo: Option<&str>) -> (r: Option<RamUsage>)
    ensures
        r == ram_usage_spec(opt_view(meminfo)),
{
    let contents = match meminfo {
        None => {
            return None;
        },
        Some(c) => c,
    };
    let (total_kb, available_kb) = meminfo_totals(contents);
    if total_kb == 0 {
        return None;
    }
    let used_kb = total_kb.saturating_sub(available_kb);
    let total_mb = (total_kb / 1024) as u32;
    let used_mb = (used_kb / 1024) as u32;
    Some(RamUsage { total_kb, used_kb, total_mb, used_mb })
}

/// Used memory never exceeds the total: in kB always, and in MB as long as
/// the total in MB fits a `u32` (below 4 PiB).
pub proof fn law_ram_used_within_total(contents: Option<Seq<char>>)
    requires
        ram_usage_spec(contents) matches Some(u) ==> u.total_kb / 1024 <= u32::MAX,
    ensures
        ram_usage_spec(contents) matches Some(u) ==> u.used_kb <= u.total_kb && u.used_mb
            <= u.total_mb && u.total_kb > 0,
{
    if let Some(u) = ram_usage_spec(contents) {
        assert(u.used_kb / 1024 <= u.total_kb / 1024) by (nonlinear_arith)
            requires
                u.used_kb <= u.total_kb,
        ;
    }
}

// ---------------------------------------------------------------------------
// DIMM metadata
// ---------------------------------------------------------------------------

/// The speed field of a `Speed:` line: trimmed, without trailing `MT/s`
/// (repeated), then without trailing `MHz` (repeated), trimmed again.
pub open spec fn dmi_speed_text(rest: Seq<char>) -> Seq<char> {
    trim(trim_str_end(trim_str_end(trim(rest), "MT/s"@), "MHz"@))
}

/// The DDR type of a (trimmed) `Type:` line: its trimmed value, when that
/// starts with `DDR`.
pub open spec fn dmi_type_model(line: Seq<char>) -> Option<Seq<char>> {
    match strip_prefix(line, "Type:"@) {
        Some(rest) => if starts_with(trim(rest), "DDR"@) {
            Some(trim(rest))
        } else {
            None
        },
        None => None,
    }
}

/// A value that stands for no part number.
pub open spec fn dmi_placeholder(v: Seq<char>) -> bool {
    v.len() == 0 || v == "Unknown"@ || v == "Not Specified"@
}

/// The part number of a (trimmed) `Part Number:` line: its trimmed value,
/// unless that is a placeholder.
pub open spec fn dmi_part_model(line: Seq<char>) -> Option<Seq<char>> {
    match strip_prefix(line, "Part Number:"@) {
        Some(rest) => if dmi_placeholder(trim(rest)) {
            None
        } else {
            Some(trim(rest))
        },
        None => None,
    }
}

/// The state of the `dmidecode` scan: the model so far, whether it is a
/// part number, the speed so far.
pub type DmiState = (Option<Seq<char>>, bool, Option<u32>);

/// What one line of `dmidecode` output does to the state.  A part number
/// is preferred: until one is known, a `Part Number:` value that is not a
/// placeholder becomes the model (replacing a DDR type), and while no model
/// is known a `Type:` value starting with `DDR` becomes the model.  While no
/// speed is known, a `Speed:` value that reads as an integer (once `MT/s` or
/// `MHz` is removed) becomes the speed.
pub open spec fn dmi_step(raw: Seq<char>, st: DmiState) -> DmiState {
    let line = trim(raw);
    let (model, part) = if st.1 {
        (st.0, true)
    } else if strip_prefix(line, "Type:"@) is Some {
        if st.0 is None {
            (dmi_type_model(line), false)
        } else {
            (st.0, false)
        }
    } else {
        match dmi_part_model(line) {
            Some(v) => (Some(v), true),
            None => (st.0, false),
        }
    };
    let speed = if st.2 is None {
        match strip_prefix(line, "Speed:"@) {
            Some(rest) => parse_u32(dmi_speed_text(rest)),
            None => None,
        }
    } else {
        st.2
    };
    (model, part, speed)
}

/// The scan is over once a part number and a speed are known.
pub open spec fn dmi_done(st: DmiState) -> bool {
    st.1 && st.2 is Some
}

/// Reading `dmidecode -t memory` output line by line until done.
pub open spec fn dmi_scan(ls: Seq<Seq<char>>, st: DmiState) -> DmiState
    decreases ls.len(),
{
    if dmi_done(st) || ls.len() == 0 {
        st
    } else {
        dmi_scan(ls.drop_first(), dmi_step(ls[0], st))
    }
}

/// DIMM model and speed (MT/s) from the output of `dmidecode -t memory`.
pub open spec fn dmi_memory_spec(text: Seq<char>) -> (Option<Seq<char>>, Option<u32>) {
    let st = dmi_scan(lines(text), (None, false, None));
    (st.0, st.2)
}

/// `m` is the model that line `line` gives: its DDR type or its part number.
pub open spec fn dmi_line_gives(line: Seq<char>, m: Seq<char>) -> bool {
    dmi_type_model(trim(line)) == Some(m) || dmi_part_model(trim(line)) == Some(m)
}

proof fn lemma_dmi_scan(ls: Seq<Seq<char>>, st: DmiState)
    requires
        dmi_done(st) ==> st.1,
    ensures
        ({
            let r = dmi_scan(ls, st);
            &&& r.0 == st.0 || (r.0 matches Some(m) && exists|i: int|
                0 <= i < ls.len() && dmi_line_gives(#[trigger] ls[i], m))
            &&& r.1 ==> (st.1 && r.0 == st.0) || (r.0 matches Some(m) && exists|i: int|
                0 <= i < ls.len() && dmi_part_model(trim(#[trigger] ls[i])) == Some(m))
            &&& st.1 ==> r.1
            &&& (exists|i: int| 0 <= i < ls.len() && dmi_part_model(trim(#[trigger] ls[i])) is Some)
                ==> r.1
        }),
    decreases ls.len(),
{
    if dmi_done(st) || ls.len() == 0 {
    } else {
        let line = trim(ls[0]);
        let next = dmi_step(ls[0], st);
        reveal_strlit("Type:");
        reveal_strlit("Part Number:");
        if starts_with(line, "Type:"@) {
            assert(line.subrange(0, 5)[0] == line[0]);
            if starts_with(line, "Part Number:"@) {
                assert(line.subrange(0, 12)[0] == line[0]);
            }
            assert(dmi_part_model(line) is None);
        }
        lemma_dmi_scan(ls.drop_first(), next);
        let r = dmi_scan(ls, st);
        assert(r == dmi_scan(ls.drop_first(), next));
        if r.0 != st.0 && r.0 != next.0 {
            let m = r.0->0;
            let i = choose|i: int| 0 <= i < ls.drop_first().len() && dmi_line_gives(
                #[trigger] ls.drop_first()[i], m);
            assert(ls[i + 1] == ls.drop_first()[i]);
        }
        if r.1 && !(st.1 && r.0 == st.0) && !(next.1 && r.0 == next.0) {
            let m = r.0->0;
            let i = choose|i: int| 0 <= i < ls.drop_first().len() && dmi_part_model(
                trim(#[trigger] ls.drop_first()[i])) == Some(m);
            assert(ls[i + 1] == ls.drop_first()[i]);
        }
        if exists|i: int| 0 <= i < ls.len() && dmi_part_model(trim(#[trigger] ls[i])) is Some {
            let i = choose|i: int| 0 <= i < ls.len() && dmi_part_model(trim(#[trigger] ls[i])) is Some;
            if i > 0 {
                assert(ls.drop_first()[i - 1] == ls[i]);
            }
        }
    }
}

/// The DIMM model is never a placeholder: it is a `Part Number:` value
/// other than empty, `Unknown` or `Not Specified`, or a `Type:` value
/// starting with `DDR`, each trimmed, of some line.  A part number is
/// preferred: when some line holds one, the model is a part number.
pub proof fn law_dmi_model_is_real(text: Seq<char>)
    ensures
        dmi_memory_spec(text).0 matches Some(m) ==> !dmi_placeholder(m) && exists|i: int|
            0 <= i < lines(text).len() && dmi_line_gives(#[trigger] lines(text)[i], m),
        (exists|i: int|
            0 <= i < lines(text).len() && dmi_part_model(trim(#[trigger] lines(text)[i])) is Some)
            ==> (dmi_memory_spec(text).0 matches Some(m) && exists|i: int|
            0 <= i < lines(text).len() && dmi_part_model(trim(#[trigger] lines(text)[i])) == Some(m)),
{
    let ls = lines(text);
    lemma_dmi_scan(ls, (None, false, None));
    if let Some(m) = dmi_memory_spec(text).0 {
        let i = choose|i: int| 0 <= i < ls.len() && dmi_line_gives(#[trigger] ls[i], m);
        reveal_strlit("DDR");
        reveal_strlit("Unknown");
        reveal_strlit("Not Specified");
        if dmi_type_model(trim(ls[i])) == Some(m) {
            assert(m.subrange(0, 3)[0] == m[0]);
            assert(m[0] == 'D');
            assert("Unknown"@[0] == 'U');
            assert("Not Specified"@[0] == 'N');
        }
    }
}

/// DIMM model and speed (MT/s) from the output of `dmidecode -t memory`.
pub fn parse_dmidecode_memory(text: &str) -> (r: (Option<String>, Option<u32>))
    ensures
        (opt_string_view(r.0), r.1) == dmi_memory_spec(text@),
{
    let v = chars_of(text);
    let ls = line_ranges(&v, 0, v.len());
    assert(v@.subrange(0, v@.len() as int) =~= v@);
    let mut model: Option<String> = None;
    let mut part = false;
    let mut speed: Option<u32> = None;
    let mut k: usize = 0;
    assert(pieces(v@, ls@).skip(0) =~= pieces(v@, ls@));
    while k < ls.len() && !(part && speed.is_some())
        invariant
            k <= ls@.len(),
            pieces(v@, ls@) == lines(v@),
            ranges_within(ls@, 0, v@.len() as int),
            dmi_scan(lines(v@), (None, false, None)) == dmi_scan(
                pieces(v@, ls@).skip(k as int),
                (opt_string_view(model), part, speed),
            ),
        decreases ls@.len() - k,
    {
        let (lo, hi) = ls[k];
        let ghost rest = pieces(v@, ls@).skip(k as int);
        assert(rest[0] == v@.subrange(lo as int, hi as int));
        assert(rest.drop_first() =~= pieces(v@, ls@).skip(k + 1));
        assert(0 <= ls@[k as int].0 <= ls@[k as int].1 <= v@.len());
        let (m, p, sp) = dmi_line(&v, lo, hi, model, part, speed);
        model = m;
        part = p;
        speed = sp;
        k = k + 1;
    }
    proof {
        if !(part && speed is Some) {
            assert(pieces(v@, ls@).skip(k as int).len() == 0);
        }
    }
    (model, speed)
}

fn dmi_line(
    v: &Vec<char>,
    lo0: usize,
    hi0: usize,
    model: Option<String>,
    part: bool,
    speed: Option<u32>,
) -> (r: (Option<String>, bool, Option<u32>))
    requires
        lo0 <= hi0 <= v@.len(),
    ensures
        (opt_string_view(r.0), r.1, r.2) == dmi_step(
            v@.subrange(lo0 as int, hi0 as int),
            (opt_string_view(model), part, speed),
        ),
{
    let (lo, hi) = trim_range(v, lo0, hi0);
    let ghost line = v@.subrange(lo as int, hi as int);
    let mut model = model;
    let mut part = part;
    let mut speed = speed;
    if !part {
        let type_key = chars_of("Type:");
        let part_key = chars_of("Part Number:");
        if starts_with_at(v, lo, hi, &type_key) {
            assert(line.subrange(type_key@.len() as int, line.len() as int) =~= v@.subrange(
                lo + type_key@.len(),
                hi as int,
            ));
            let (a, b) = trim_range(v, lo + type_key.len(), hi);
            let ddr = chars_of("DDR");
            if model.is_none() && starts_with_at(v, a, b, &ddr) {
                model = Some(string_of(v, a, b));
            }
        } else if starts_with_at(v, lo, hi, &part_key) {
            assert(line.subrange(part_key@.len() as int, line.len() as int) =~= v@.subrange(
                lo + part_key@.len(),
                hi as int,
            ));
            let (a, b) = trim_range(v, lo + part_key.len(), hi);
            let unknown = chars_of("Unknown");
            let not_specified = chars_of("Not Specified");
            let is_unknown = starts_with_at(v, a, b, &unknown) && b - a == unknown.len();
            let is_unspecified = starts_with_at(v, a, b, &not_specified) && b - a
                == not_specified.len();
            proof {
                let w = v@.subrange(a as int, b as int);
                assert(is_unknown == (w == unknown@)) by {
                    if w.len() == unknown@.len() {
                        assert(w.subrange(0, unknown@.len() as int) =~= w);
                    }
                }
                assert(is_unspecified == (w == not_specified@)) by {
                    if w.len() == not_specified@.len() {
                        assert(w.subrange(0, not_specified@.len() as int) =~= w);
                    }
                }
            }
            if a < b && !is_unknown && !is_unspecified {
                model = Some(string_of(v, a, b));
                part = true;
            }
        }
    }
    if speed.is_none() {
        let speed_key = chars_of("Speed:");
        if starts_with_at(v, lo, hi, &speed_key) {
            assert(line.subrange(speed_key@.len() as int, line.len() as int) =~= v@.subrange(
                lo + speed_key@.len(),
                hi as int,
            ));
            let mt = chars_of("MT/s");
            let mhz = chars_of("MHz");
            let (a, b) = trim_range(v, lo + speed_key.len(), hi);
            let b1 = trim_str_end_to(v, a, b, &mt);
            let b2 = trim_str_end_to(v, a, b1, &mhz);
            let (c, d) = trim_range(v, a, b2);
            speed = parse_u32_at(v, c, d);
        }
    }
    (model, part, speed)
}

} // verus!
