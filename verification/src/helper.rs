//! The privileged fan helper (`sysctl-helper set-fan <pwm_sysfs_path>
//! <value_0_to_255>`): which requests it accepts.
//!
//! The path argument is strictly validated so that the helper cannot be
//! used to write arbitrary files: only paths under `/sys/class/hwmon/` or
//! `/sys/class/drm/`, without `..`, whose file name is `pwm` followed by
//! digits are accepted.
use vstd::prelude::*;
use crate::text::{
    all_digits, chars_of, opt_string_view, contains_at, contains_str, decimal, is_ascii_digit, is_digit,
    is_whitespace, lemma_decimal_digits, lemma_parse_decimal, owned, parse_u32, parse_u32_at,
    pieces, split_char, split_ranges, starts_with, starts_with_at, str_eq, string_of, strip_prefix,
    trim, trim_end, trim_start,
};
use crate::fan::{
    fan_percent_spec, first_with_label, join_spec, law_pwm_round_trip, percent_pwm_spec,
    pwm_percent_spec, sysfs_u32_spec, FanRaw, SysfsFanController,
};

verus! {

broadcast use vstd::string::group_string_axioms;

/// `name` is `pwm` followed by at least one ASCII digit.
pub open spec fn is_valid_pwm_filename_spec(name: Seq<char>) -> bool {
    match strip_prefix(name, "pwm"@) {
        Some(rest) => rest.len() > 0 && all_digits(rest),
        None => false,
    }
}

/// Whether `name` matches `^pwm[0-9]+$`.
pub fn is_valid_pwm_filename(name: &str) -> (b: bool)
    ensures
        b == is_valid_pwm_filename_spec(name@),
{
    let v = chars_of(name);
    let pwm = chars_of("pwm");
    assert(v@.subrange(0, v@.len() as int) =~= v@);
    valid_pwm_filename_at(&v, 0, v.len(), &pwm)
}

fn valid_pwm_filename_at(v: &Vec<char>, lo: usize, hi: usize, pwm: &Vec<char>) -> (b: bool)
    requires
        lo <= hi <= v@.len(),
        pwm@ == "pwm"@,
    ensures
        b == is_valid_pwm_filename_spec(v@.subrange(lo as int, hi as int)),
{
    if !starts_with_at(v, lo, hi, pwm) {
        return false;
    }
    let start = lo + pwm.len();
    let ghost s = v@.subrange(lo as int, hi as int);
    assert(s.subrange(pwm@.len() as int, s.len() as int) =~= v@.subrange(start as int, hi as int));
    if start == hi {
        return false;
    }
    let mut i = start;
    while i < hi
        invariant
            lo <= start <= i <= hi <= v@.len(),
            start == lo + pwm@.len(),
            pwm@ == "pwm"@,
            starts_with(v@.subrange(lo as int, hi as int), pwm@),
            v@.subrange(lo as int, hi as int).subrange(pwm@.len() as int, hi - lo)
                == v@.subrange(start as int, hi as int),
            forall|k: int| start <= k < i ==> is_digit(#[trigger] v@[k]),
        decreases hi - i,
    {
        if !is_ascii_digit(v[i]) {
            assert(!is_digit(v@.subrange(start as int, hi as int)[i - start]));
            return false;
        }
        i = i + 1;
    }
    assert forall|k: int| 0 <= k < hi - start implies is_digit(
        #[trigger] v@.subrange(start as int, hi as int)[k],
    ) by {
        assert(v@.subrange(start as int, hi as int)[k] == v@[start + k]);
    }
    true
}

/// Why a path was refused.
#[derive(Debug, Clone)]
pub enum PathError {
    /// The path contains `..`.
    ParentTraversal,
    /// The path is outside `/sys/class/hwmon/` and `/sys/class/drm/`.
    OutsideSysfs(String),
    /// The path ends with `/`.
    NoFilename,
    /// The file name is not `pwm` followed by digits.
    BadFilename(String),
}

/// The verdict on a path, in the order the checks are made.
pub enum PathVerdict {
    Accepted,
    ParentTraversal,
    OutsideSysfs,
    NoFilename,
    BadFilename(Seq<char>),
}

/// The last `/`-separated component of a path.
pub open spec fn file_name_of(path: Seq<char>) -> Seq<char> {
    split_char(path, '/').last()
}

/// The verdict on a PWM path: refused when it contains `..`, when it does
/// not start with `/sys/class/hwmon/` or `/sys/class/drm/`, when its file
/// name is empty or is not `pwm` followed by digits; accepted otherwise.
pub open spec fn path_verdict(path: Seq<char>) -> PathVerdict {
    if contains_str(path, ".."@) {
        PathVerdict::ParentTraversal
    } else if !(starts_with(path, "/sys/class/hwmon/"@) || starts_with(
        path,
        "/sys/class/drm/"@,
    )) {
        PathVerdict::OutsideSysfs
    } else if file_name_of(path).len() == 0 {
        PathVerdict::NoFilename
    } else if !is_valid_pwm_filename_spec(file_name_of(path)) {
        PathVerdict::BadFilename(file_name_of(path))
    } else {
        PathVerdict::Accepted
    }
}

/// `r` is the result that the verdict on `path` calls for.
pub open spec fn path_result_is(r: Result<(), PathError>, path: Seq<char>) -> bool {
    match path_verdict(path) {
        PathVerdict::Accepted => r is Ok,
        PathVerdict::ParentTraversal => r matches Err(PathError::ParentTraversal),
        PathVerdict::OutsideSysfs => r matches Err(PathError::OutsideSysfs(p)) && p@ == path,
        PathVerdict::NoFilename => r matches Err(PathError::NoFilename),
        PathVerdict::BadFilename(f) => r matches Err(PathError::BadFilename(g)) && g@ == f,
    }
}

/// Checks that `path` is a hwmon PWM sysfs file.
pub fn validate_pwm_path(path: &str) -> (r: Result<(), PathError>)
    ensures
        path_result_is(r, path@),
{
    let v = chars_of(path);
    assert(v@.subrange(0, v@.len() as int) =~= v@);
    let dots = chars_of("..");
    if contains_at(&v, 0, v.len(), &dots) {
        return Err(PathError::ParentTraversal);
    }
    let hwmon = chars_of("/sys/class/hwmon/");
    let drm = chars_of("/sys/class/drm/");
    if !(starts_with_at(&v, 0, v.len(), &hwmon) || starts_with_at(&v, 0, v.len(), &drm)) {
        return Err(PathError::OutsideSysfs(owned(path)));
    }
    let parts = split_ranges(&v, 0, v.len(), '/');
    proof {
        lemma_split_char_nonempty(v@, '/');
    }
    let (a, b) = parts[parts.len() - 1];
    assert(pieces(v@, parts@).last() == v@.subrange(a as int, b as int));
    assert(0 <= parts@[parts@.len() - 1].0 <= parts@[parts@.len() - 1].1 <= v@.len());
    if a == b {
        return Err(PathError::NoFilename);
    }
    let pwm = chars_of("pwm");
    if !valid_pwm_filename_at(&v, a, b, &pwm) {
        return Err(PathError::BadFilename(string_of(&v, a, b)));
    }
    Ok(())
}

pub proof fn lemma_split_char_nonempty(s: Seq<char>, c: char)
    ensures
        split_char(s, c).len() > 0,
    decreases s.len(),
{
    crate::text::lemma_char_pos(s, c);
    let e = crate::text::char_pos(s, c);
    if e < s.len() {
        lemma_split_char_nonempty(s.subrange(e as int + 1, s.len() as int), c);
    }
}

/// Every accepted path lies under `/sys/class/hwmon/` or
/// `/sys/class/drm/`, contains no `..`, and names a file `pwm` followed by
/// at least one digit.
pub proof fn law_accepted_paths_are_pwm_files(path: Seq<char>)
    requires
        path_verdict(path) is Accepted,
    ensures
        !contains_str(path, ".."@),
        starts_with(path, "/sys/class/hwmon/"@) || starts_with(path, "/sys/class/drm/"@),
        is_valid_pwm_filename_spec(file_name_of(path)),
        file_name_of(path).len() > 3,
{
    reveal_strlit("pwm");
}

pub proof fn lemma_split_last_after_slash(a: Seq<char>, b: Seq<char>)
    requires
        !b.contains('/'),
    ensures
        split_char(a + seq!['/'] + b, '/').last() == b,
    decreases a.len(),
{
    let s = a + seq!['/'] + b;
    crate::text::lemma_char_pos(s, '/');
    let e = crate::text::char_pos(s, '/');
    assert(s[a.len() as int] == '/');
    assert(e <= a.len());
    if e == a.len() {
        assert(s.subrange(e as int + 1, s.len() as int) =~= b);
        crate::text::lemma_char_pos(b, '/');
        assert(split_char(b, '/') == seq![b]);
    } else {
        let a2 = a.subrange(e as int + 1, a.len() as int);
        assert(s.subrange(e as int + 1, s.len() as int) =~= a2 + seq!['/'] + b);
        lemma_split_last_after_slash(a2, b);
        lemma_split_char_nonempty(a2 + seq!['/'] + b, '/');
    }
}

/// A PWM file found by the fan scan in a hwmon directory under
/// `/sys/class/hwmon/` or `/sys/class/drm/` (a path without `..`) is a
/// path that the helper accepts.
pub proof fn law_scanned_pwm_paths_accepted(dir: Seq<char>, n: nat)
    requires
        starts_with(dir, "/sys/class/hwmon/"@) || starts_with(dir, "/sys/class/drm/"@),
        !contains_str(dir, ".."@),
    ensures
        path_verdict(join_spec(dir, "pwm"@ + decimal(n))) is Accepted,
{
    reveal_strlit("pwm");
    reveal_strlit("..");
    reveal_strlit("/sys/class/hwmon/");
    reveal_strlit("/sys/class/drm/");
    lemma_decimal_digits(n);
    let name = "pwm"@ + decimal(n);
    let a = if dir.last() == '/' {
        dir.drop_last()
    } else {
        dir
    };
    let p = join_spec(dir, name);
    assert(p =~= a + seq!['/'] + name);
    assert(!name.contains('/')) by {
        if name.contains('/') {
            let k = choose|k: int| 0 <= k < name.len() && name[k] == '/';
            if k >= 3 {
                assert(is_digit(decimal(n)[k - 3]));
            }
        }
    }
    lemma_split_last_after_slash(a, name);
    assert(file_name_of(p) == name);
    assert(name.subrange(0, 3) =~= "pwm"@);
    assert(name.subrange(3, name.len() as int) =~= decimal(n));
    // the prefix of the directory is kept
    assert(p.subrange(0, dir.len() as int) =~= dir) by {
        if dir.last() == '/' {
            assert(dir =~= a + seq!['/']);
        }
    }
    if starts_with(dir, "/sys/class/hwmon/"@) {
        assert(p.subrange(0, "/sys/class/hwmon/"@.len() as int) =~= dir.subrange(
            0,
            "/sys/class/hwmon/"@.len() as int,
        ));
    } else {
        assert(p.subrange(0, "/sys/class/drm/"@.len() as int) =~= dir.subrange(
            0,
            "/sys/class/drm/"@.len() as int,
        ));
    }
    // no `..` appears
    assert(!contains_str(p, ".."@)) by {
        if contains_str(p, ".."@) {
            let i = choose|i: int| 0 <= i && i + 2 <= p.len() && #[trigger] p.subrange(i, i + 2)
                == ".."@;
            assert(p.subrange(i, i + 2)[0] == '.');
            assert(p.subrange(i, i + 2)[1] == '.');
            assert(p[i] == '.');
            assert(p[i + 1] == '.');
            if i + 2 <= a.len() {
                assert(a.subrange(i, i + 2) =~= p.subrange(i, i + 2));
                assert(dir.subrange(i, i + 2) =~= a.subrange(i, i + 2));
                assert(contains_str(dir, ".."@));
            } else if i + 1 == a.len() {
                assert(p[a.len() as int] == '/');
            } else if i == a.len() {
                assert(p[i] == '/');
            } else {
                let k = i - a.len() - 1;
                assert(p[i] == name[k]);
                if k >= 3 {
                    assert(is_digit(decimal(n)[k - 3]));
                }
            }
        }
    }
}

/// Why a duty-cycle value was refused.
#[derive(Debug, Clone, Copy, PartialEq, Eq)]
pub enum ValueError {
    /// An integer above 255.
    OutOfRange(u32),
    /// Not an integer that fits a `u32`.
    NotInteger,
}

/// The duty cycle named by the value argument: a `u32` of at most 255.
pub open spec fn pwm_value_spec(s: Seq<char>) -> Result<u32, ValueError> {
    match parse_u32(s) {
        Some(v) => if v <= 255 {
            Ok(v)
        } else {
            Err(ValueError::OutOfRange(v))
        },
        None => Err(ValueError::NotInteger),
    }
}

/// Reads the duty-cycle argument.
pub fn parse_pwm_value(s: &str) -> (r: Result<u32, ValueError>)
    ensures
        r == pwm_value_spec(s@),
{
    let v = chars_of(s);
    assert(v@.subrange(0, v@.len() as int) =~= v@);
    match parse_u32_at(&v, 0, v.len()) {
        Some(n) => if n <= 255 {
            Ok(n)
        } else {
            Err(ValueError::OutOfRange(n))
        },
        None => Err(ValueError::NotInteger),
    }
}

/// A validated request to set a fan's duty cycle.
#[derive(Debug, Clone)]
pub struct SetFan {
    pub path: String,
    pub value: u32,
}

/// Why the helper's arguments were refused.
#[derive(Debug, Clone)]
pub enum HelperError {
    /// No command was given.
    NoCommand,
    /// The command is not `set-fan`.
    UnknownCommand(String),
    /// `set-fan` was not given exactly two arguments.
    WrongArgCount,
    /// The path was refused.
    Path(PathError),
    /// The value (shown as given) was refused.
    Value(ValueError, String),
}

/// The request named by the helper's command line (`args[0]` is the
/// program): `set-fan <path> <value>` with exactly two arguments, a valid
/// path (checked first) and a valid value.
pub open spec fn helper_args_ok(args: Seq<String>, r: Result<SetFan, HelperError>) -> bool {
    if args.len() < 2 {
        r matches Err(HelperError::NoCommand)
    } else if args[1]@ != "set-fan"@ {
        r matches Err(HelperError::UnknownCommand(c)) && c@ == args[1]@
    } else if args.len() != 4 {
        r matches Err(HelperError::WrongArgCount)
    } else if !(path_verdict(args[2]@) is Accepted) {
        r matches Err(HelperError::Path(e)) && path_result_is(Err(e), args[2]@)
    } else {
        match pwm_value_spec(args[3]@) {
            Ok(v) => r matches Ok(req) && req.path@ == args[2]@ && req.value == v,
            Err(e) => r matches Err(HelperError::Value(f, text)) && f == e && text@ == args[3]@,
        }
    }
}

/// Reads the helper's command line.
pub fn parse_helper_args(args: &Vec<String>) -> (r: Result<SetFan, HelperError>)
    ensures
        helper_args_ok(args@, r),
{
    if args.len() < 2 {
        return Err(HelperError::NoCommand);
    }
    if !str_eq(args[1].as_str(), "set-fan") {
        return Err(HelperError::UnknownCommand(args[1].clone()));
    }
    if args.len() != 4 {
        return Err(HelperError::WrongArgCount);
    }
    match validate_pwm_path(args[2].as_str()) {
        Err(e) => {
            return Err(HelperError::Path(e));
        },
        Ok(()) => {},
    }
    match parse_pwm_value(args[3].as_str()) {
        Ok(v) => Ok(SetFan { path: args[2].clone(), value: v }),
        Err(e) => Err(HelperError::Value(e, args[3].clone())),
    }
}

// ---------------------------------------------------------------------------
// Laws linking the GUI and the helper
// ---------------------------------------------------------------------------

pub proof fn lemma_decimal_trimmed(n: nat)
    ensures
        trim(decimal(n)) == decimal(n),
{
    lemma_decimal_digits(n);
    let d = decimal(n);
    assert(is_digit(d[0]));
    assert(is_digit(d.last()));
    assert(!is_whitespace(d[0]));
    assert(!is_whitespace(d.last()));
    assert(trim_start(d) == d);
    assert(trim_end(d) == d);
}

/// What setting a fan to `percent` writes reads back as the same
/// percentage: the GUI sends the helper the duty cycle in decimal, the
/// helper accepts it unchanged, and a `pwmN` file holding that value is
/// shown as `min(percent, 100)`.
pub proof fn law_written_duty_reads_back(percent: u8)
    ensures
        ({
            let p = if percent > 100 {
                100u8
            } else {
                percent
            };
            let v = percent_pwm_spec(p);
            &&& pwm_value_spec(decimal(v as nat)) == Ok::<u32, ValueError>(v)
            &&& sysfs_u32_spec(Some(decimal(v as nat))) == Some(v)
            &&& pwm_percent_spec(v) == p
        }),
{
    let p = if percent > 100 {
        100u8
    } else {
        percent
    };
    law_pwm_round_trip(p);
    let v = percent_pwm_spec(p);
    lemma_parse_decimal(v as nat, u32::MAX as nat);
    lemma_decimal_trimmed(v as nat);
}

/// Setting a fan and reading the fans back: when `pwm_target` accepts
/// `label` (the first fan carrying it has PWM control), the helper writes
/// the duty cycle it names in decimal, and that fan's `pwmN` then holds
/// it, the reading of that fan (see `SysfsFanController::readings`) is
/// writable and shows `min(percent, 100)`.
pub proof fn law_set_percent_reads_back(
    c: SysfsFanController,
    label: Seq<char>,
    percent: u8,
    raw: FanRaw,
)
    requires
        first_with_label(c.entries(), label) matches Some(i) && c.entries()[i].pwm_path is Some,
        opt_string_view(raw.pwm) == Some(
            decimal(
                percent_pwm_spec(
                    if percent > 100 {
                        100u8
                    } else {
                        percent
                    },
                ) as nat,
            ),
        ),
    ensures
        ({
            let i = first_with_label(c.entries(), label)->0;
            &&& c.entries()[i].pwm_path is Some
            &&& fan_percent_spec(c.entries()[i], raw) == Some(
                if percent > 100 {
                    100u8
                } else {
                    percent
                },
            )
        }),
{
    law_written_duty_reads_back(percent);
}

} // verus!
