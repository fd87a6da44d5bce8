//! Identity of the current device: host name, distribution, kernel and
//! architecture, computed from the contents of `/etc/hostname`,
//! `/etc/os-release` and the output of `hostname` and `uname -srm`.
use vstd::prelude::*;
use crate::text::{
    chars_of, line_ranges, lines, opt_as_str, opt_string_view, opt_view, owned, pieces,
    ranges_within, starts_with_at, string_of, strip_prefix, trim, trim_char, trim_char_range,
    trim_range, word_ranges, words,
};

verus! {

broadcast use vstd::string::group_string_axioms;

/// Static identity of the device the application runs on.
#[derive(Debug, Clone)]
pub struct HostInfo {
    pub hostname: String,
    pub distro: String,
    pub distro_version: Option<String>,
    pub kernel: String,
    pub arch: String,
}

/// The raw material that host identity is read from.  Each field is `None`
/// when the file could not be read or the command could not be run (or did
/// not print UTF-8).
#[derive(Debug, Clone)]
pub struct HostSources {
    /// Contents of `/etc/hostname`.
    pub etc_hostname: Option<String>,
    /// Standard output of the `hostname` command.
    pub hostname_output: Option<String>,
    /// Contents of `/etc/os-release`.
    pub os_release: Option<String>,
    /// Standard output of `uname -srm`.
    pub uname_output: Option<String>,
}

/// `s.trim().trim_matches('"')`.
pub open spec fn strip_quotes_spec(s: Seq<char>) -> Seq<char> {
    trim_char(trim(s), '"')
}

/// The host name read from `/etc/hostname`: its trimmed contents, unless
/// the file is missing or blank.
pub open spec fn hostname_from_file_spec(contents: Option<Seq<char>>) -> Option<Seq<char>> {
    match contents {
        Some(c) => if trim(c).len() > 0 {
            Some(trim(c))
        } else {
            None
        },
        None => None,
    }
}

/// The host name printed by the `hostname` command (trimmed), or `unknown`
/// when the command gave nothing.
pub open spec fn hostname_from_command_spec(output: Option<Seq<char>>) -> Seq<char> {
    match output {
        Some(o) => trim(o),
        None => "unknown"@,
    }
}

/// What one line of `/etc/os-release` does to the (name, version) found so
/// far: `PRETTY_NAME=` always sets the name, `NAME=` sets it only while no
/// name is known, `VERSION_ID=` sets the version.
pub open spec fn os_release_step(
    st: (Option<Seq<char>>, Option<Seq<char>>),
    line: Seq<char>,
) -> (Option<Seq<char>>, Option<Seq<char>>) {
    let name = match strip_prefix(line, "PRETTY_NAME="@) {
        Some(v) => Some(strip_quotes_spec(v)),
        None => if st.0 is None {
            match strip_prefix(line, "NAME="@) {
                Some(v) => Some(strip_quotes_spec(v)),
                None => None,
            }
        } else {
            st.0
        },
    };
    let version = match strip_prefix(line, "VERSION_ID="@) {
        Some(v) => Some(strip_quotes_spec(v)),
        None => st.1,
    };
    (name, version)
}

/// The (name, version) found after reading the given lines in order.
pub open spec fn os_release_fold(ls: Seq<Seq<char>>) -> (Option<Seq<char>>, Option<Seq<char>>)
    decreases ls.len(),
{
    if ls.len() == 0 {
        (None, None)
    } else {
        os_release_step(os_release_fold(ls.drop_last()), ls.last())
    }
}

/// The version found in the given lines is the quote-stripped value of
/// the last `VERSION_ID=` line, and there is none without such a line;
/// no other line (`VERSION=` among them) changes it.
pub proof fn lemma_os_release_version(ls: Seq<Seq<char>>)
    ensures
        (forall|i: int| 0 <= i < ls.len() ==> strip_prefix(#[trigger] ls[i], "VERSION_ID="@) is None)
            ==> os_release_fold(ls).1 is None,
        forall|i: int|
            0 <= i < ls.len() && (#[trigger] strip_prefix(ls[i], "VERSION_ID="@)) is Some && (
            forall|j: int| i < j < ls.len() ==> strip_prefix(#[trigger] ls[j], "VERSION_ID="@) is None)
                ==> os_release_fold(ls).1 == Some(
                strip_quotes_spec(strip_prefix(ls[i], "VERSION_ID="@)->0),
            ),
    decreases ls.len(),
{
    if ls.len() > 0 {
        let init = ls.drop_last();
        lemma_os_release_version(init);
        assert forall|i: int| 0 <= i < init.len() implies init[i] == ls[i] by {}
        let last = ls.len() - 1;
        assert(ls.last() == ls[last]);
        assert forall|i: int|
            0 <= i < ls.len() && (#[trigger] strip_prefix(ls[i], "VERSION_ID="@)) is Some && (
            forall|j: int| i < j < ls.len() ==> strip_prefix(#[trigger] ls[j], "VERSION_ID="@) is None)
            implies os_release_fold(ls).1 == Some(
            strip_quotes_spec(strip_prefix(ls[i], "VERSION_ID="@)->0),
        ) by {
            if i < last {
                assert(strip_prefix(ls[last], "VERSION_ID="@) is None);
                assert(init[i] == ls[i]);
                assert forall|j: int| i < j < init.len() implies strip_prefix(
                    #[trigger] init[j],
                    "VERSION_ID="@,
                ) is None by {
                    assert(init[j] == ls[j]);
                }
            }
        }
        if forall|i: int| 0 <= i < ls.len() ==> strip_prefix(#[trigger] ls[i], "VERSION_ID="@) is None {
            assert(strip_prefix(ls[last], "VERSION_ID="@) is None);
            assert forall|i: int| 0 <= i < init.len() implies strip_prefix(
                #[trigger] init[i],
                "VERSION_ID="@,
            ) is None by {
                assert(init[i] == ls[i]);
            }
        }
    }
}

/// The distribution version of `/etc/os-release` is the quote-stripped
/// value of its last `VERSION_ID=` line; there is none without such a line
/// or without the file.  `VERSION=` and every other line leave it alone.
pub proof fn law_os_release_version(contents: Option<Seq<char>>)
    ensures
        contents is None ==> os_release_spec(contents).1 is None,
        contents matches Some(c) ==> {
            let ls = lines(c);
            &&& (forall|i: int|
                0 <= i < ls.len() ==> strip_prefix(#[trigger] ls[i], "VERSION_ID="@) is None)
                ==> os_release_spec(contents).1 is None
            &&& forall|i: int|
                0 <= i < ls.len() && (#[trigger] strip_prefix(ls[i], "VERSION_ID="@)) is Some && (
                forall|j: int|
                    i < j < ls.len() ==> strip_prefix(#[trigger] ls[j], "VERSION_ID="@) is None)
                    ==> os_release_spec(contents).1 == Some(
                    strip_quotes_spec(strip_prefix(ls[i], "VERSION_ID="@)->0),
                )
        },
{
    if let Some(c) = contents {
        lemma_os_release_version(lines(c));
    }
}

/// Distribution name and version from the contents of `/etc/os-release`;
/// the name is `Linux` when the file is missing or names no distribution.
pub open spec fn os_release_spec(contents: Option<Seq<char>>) -> (Seq<char>, Option<Seq<char>>) {
    match contents {
        None => ("Linux"@, None),
        Some(c) => {
            let st = os_release_fold(lines(c));
            (
                match st.0 {
                    Some(n) => n,
                    None => "Linux"@,
                },
                st.1,
            )
        },
    }
}

/// Kernel release and architecture from the output of `uname -srm`
/// ("Linux 6.14.0 x86_64"): its second and third words, each empty when
/// missing; both `unknown` when there is no output.
pub open spec fn uname_spec(output: Option<Seq<char>>) -> (Seq<char>, Seq<char>) {
    match output {
        None => ("unknown"@, "unknown"@),
        Some(o) => {
            let parts = words(trim(o));
            (
                if parts.len() > 1 {
                    parts[1]
                } else {
                    Seq::<char>::empty()
                },
                if parts.len() > 2 {
                    parts[2]
                } else {
                    Seq::<char>::empty()
                },
            )
        },
    }
}

/// Strips surrounding whitespace, then every leading and trailing `"`.
pub fn strip_quotes(s: &str) -> (r: String)
    ensures
        r@ == strip_quotes_spec(s@),
{
    let v = chars_of(s);
    let (a, b) = trim_range(&v, 0, v.len());
    let (c, d) = trim_char_range(&v, a, b, '"');
    assert(v@.subrange(0, v@.len() as int) =~= v@);
    string_of(&v, c, d)
}

/// The host name from `/etc/hostname`, when the file holds one.
pub fn hostname_from_file(contents: Option<&str>) -> (r: Option<String>)
    ensures
        opt_string_view(r) == hostname_from_file_spec(opt_view(contents)),
{
    match contents {
        None => None,
        Some(s) => {
            let v = chars_of(s);
            let (a, b) = trim_range(&v, 0, v.len());
            assert(v@.subrange(0, v@.len() as int) =~= v@);
            if a < b {
                Some(string_of(&v, a, b))
            } else {
                None
            }
        },
    }
}

/// The host name printed by the `hostname` command.
pub fn hostname_from_command(output: Option<&str>) -> (r: String)
    ensures
        r@ == hostname_from_command_spec(opt_view(output)),
{
    match output {
        None => owned("unknown"),
        Some(s) => {
            let v = chars_of(s);
            let (a, b) = trim_range(&v, 0, v.len());
            assert(v@.subrange(0, v@.len() as int) =~= v@);
            string_of(&v, a, b)
        },
    }
}

/// Distribution name and version from the contents of `/etc/os-release`.
pub fn parse_os_release(contents: Option<&str>) -> (r: (String, Option<String>))
    ensures
        (r.0@, opt_string_view(r.1)) == os_release_spec(opt_view(contents)),
{
    let s = match contents {
        None => {
            return (owned("Linux"), None);
        },
        Some(s) => s,
    };
    let v = chars_of(s);
    let ls = line_ranges(&v, 0, v.len());
    assert(v@.subrange(0, v@.len() as int) =~= v@);
    let pretty = chars_of("PRETTY_NAME=");
    let name_key = chars_of("NAME=");
    let version_key = chars_of("VERSION_ID=");
    let mut name: Option<String> = None;
    let mut version: Option<String> = None;
    let mut k: usize = 0;
    while k < ls.len()
        invariant
            k <= ls@.len(),
            pieces(v@, ls@) == lines(v@),
            ranges_within(ls@, 0, v@.len() as int),
            pretty@ == "PRETTY_NAME="@,
            name_key@ == "NAME="@,
            version_key@ == "VERSION_ID="@,
            (opt_string_view(name), opt_string_view(version)) == os_release_fold(
                pieces(v@, ls@).take(k as int),
            ),
        decreases ls@.len() - k,
    {
        let (lo, hi) = ls[k];
        let ghost line = v@.subrange(lo as int, hi as int);
        assert(pieces(v@, ls@).take(k + 1).drop_last() =~= pieces(v@, ls@).take(k as int));
        assert(pieces(v@, ls@).take(k + 1).last() == line);
        proof {
            assert(ranges_within(ls@, 0, v@.len() as int));
            assert(0 <= ls@[k as int].0 <= ls@[k as int].1 <= v@.len());
        }
        if starts_with_at(&v, lo, hi, &pretty) {
            let (a, b) = trim_range(&v, lo + pretty.len(), hi);
            let (c, d) = trim_char_range(&v, a, b, '"');
            assert(line.subrange(pretty@.len() as int, line.len() as int) =~= v@.subrange(
                lo + pretty@.len(),
                hi as int,
            ));
            name = Some(string_of(&v, c, d));
        } else if name.is_none() {
            if starts_with_at(&v, lo, hi, &name_key) {
                let (a, b) = trim_range(&v, lo + name_key.len(), hi);
                let (c, d) = trim_char_range(&v, a, b, '"');
                assert(line.subrange(name_key@.len() as int, line.len() as int) =~= v@.subrange(
                    lo + name_key@.len(),
                    hi as int,
                ));
                name = Some(string_of(&v, c, d));
            }
        }
        if starts_with_at(&v, lo, hi, &version_key) {
            let (a, b) = trim_range(&v, lo + version_key.len(), hi);
            let (c, d) = trim_char_range(&v, a, b, '"');
            assert(line.subrange(version_key@.len() as int, line.len() as int) =~= v@.subrange(
                lo + version_key@.len(),
                hi as int,
            ));
            version = Some(string_of(&v, c, d));
        }
        k = k + 1;
    }
    assert(pieces(v@, ls@).take(ls@.len() as int) =~= pieces(v@, ls@));
    let name = match name {
        Some(n) => n,
        None => owned("Linux"),
    };
    (name, version)
}

/// Kernel release and architecture from the output of `uname -srm`.
pub fn parse_uname(output: Option<&str>) -> (r: (String, String))
    ensures
        (r.0@, r.1@) == uname_spec(opt_view(output)),
{
    let s = match output {
        None => {
            return (owned("unknown"), owned("unknown"));
        },
        Some(s) => s,
    };
    let v = chars_of(s);
    let (a, b) = trim_range(&v, 0, v.len());
    assert(v@.subrange(0, v@.len() as int) =~= v@);
    let parts = word_ranges(&v, a, b);
    assert(pieces(v@, parts@).len() == parts@.len());
    let kernel = if parts.len() > 1 {
        let (lo, hi) = parts[1];
        assert(ranges_within(parts@, a as int, b as int));
        assert(a <= parts@[1].0 <= parts@[1].1 <= b);
        string_of(&v, lo, hi)
    } else {
        String::new()
    };
    let arch = if parts.len() > 2 {
        let (lo, hi) = parts[2];
        assert(a <= parts@[2].0 <= parts@[2].1 <= b);
        string_of(&v, lo, hi)
    } else {
        String::new()
    };
    (kernel, arch)
}

impl HostInfo {
    /// The identity reported where host information cannot be read.
    pub fn unknown() -> (r: HostInfo)
        ensures
            r.hostname@ == "unknown"@,
            r.distro@ == "unknown"@,
            r.distro_version is None,
            r.kernel@ == "unknown"@,
            r.arch@ == "unknown"@,
    {
        HostInfo {
            hostname: owned("unknown"),
            distro: owned("unknown"),
            distro_version: None,
            kernel: owned("unknown"),
            arch: owned("unknown"),
        }
    }
}

/// Host identity for the "current device" overview: the host name from
/// `/etc/hostname`, else from the `hostname` command; the distribution from
/// `/etc/os-release`; kernel and architecture from `uname -srm`.
pub fn read_host_info(sources: &HostSources) -> (r: HostInfo)
    ensures
        r.hostname@ == (match hostname_from_file_spec(opt_string_view(sources.etc_hostname)) {
            Some(h) => h,
            None => hostname_from_command_spec(opt_string_view(sources.hostname_output)),
        }),
        (r.distro@, opt_string_view(r.distro_version)) == os_release_spec(
            opt_string_view(sources.os_release),
        ),
        (r.kernel@, r.arch@) == uname_spec(opt_string_view(sources.uname_output)),
{
    let hostname = match hostname_from_file(opt_as_str(&sources.etc_hostname)) {
        Some(h) => h,
        None => hostname_from_command(opt_as_str(&sources.hostname_output)),
    };
    let (distro, distro_version) = parse_os_release(opt_as_str(&sources.os_release));
    let (kernel, arch) = parse_uname(opt_as_str(&sources.uname_output));
    HostInfo { hostname, distro, distro_version, kernel, arch }
}

} // verus!
