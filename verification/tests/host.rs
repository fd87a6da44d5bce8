use sysctrl::host::{
    hostname_from_command, hostname_from_file, parse_os_release, parse_uname, read_host_info,
    strip_quotes, HostInfo, HostSources,
};

#[test]
fn strip_quotes_trims_then_unquotes() {
    assert_eq!(strip_quotes("  \"Ubuntu 24.04 LTS\"\n"), "Ubuntu 24.04 LTS");
    assert_eq!(strip_quotes("\"\"\"x\"\""), "x");
    assert_eq!(strip_quotes("plain"), "plain");
    assert_eq!(strip_quotes("\"\""), "");
    assert_eq!(strip_quotes(" \" spaced \" "), " spaced ");
}

#[test]
fn os_release_prefers_pretty_name() {
    let text = "NAME=\"Ubuntu\"\nVERSION_ID=\"24.04\"\nPRETTY_NAME=\"Ubuntu 24.04.1 LTS\"\nID=ubuntu\n";
    let (name, version) = parse_os_release(Some(text));
    assert_eq!(name, "Ubuntu 24.04.1 LTS");
    assert_eq!(version.as_deref(), Some("24.04"));
}

#[test]
fn os_release_name_used_when_no_pretty_name() {
    let (name, version) = parse_os_release(Some("NAME=Arch Linux\nID=arch\n"));
    assert_eq!(name, "Arch Linux");
    assert_eq!(version, None);
}

#[test]
fn os_release_first_name_kept_last_pretty_wins() {
    let text = "NAME=First\nNAME=Second\nPRETTY_NAME=P1\nPRETTY_NAME=P2\nVERSION_ID=1\nVERSION_ID=2";
    let (name, version) = parse_os_release(Some(text));
    assert_eq!(name, "P2");
    assert_eq!(version.as_deref(), Some("2"));
    let (name, _) = parse_os_release(Some("NAME=First\nNAME=Second\n"));
    assert_eq!(name, "First");
}

#[test]
fn os_release_missing_or_empty_is_linux() {
    assert_eq!(parse_os_release(None), ("Linux".to_string(), None));
    assert_eq!(parse_os_release(Some("")), ("Linux".to_string(), None));
    assert_eq!(parse_os_release(Some("ID=debian\r\n")), ("Linux".to_string(), None));
}

#[test]
fn os_release_crlf_lines() {
    let (name, version) = parse_os_release(Some("PRETTY_NAME=\"Fedora 40\"\r\nVERSION_ID=40\r\n"));
    assert_eq!(name, "Fedora 40");
    assert_eq!(version.as_deref(), Some("40"));
}

#[test]
fn hostname_from_file_trims_and_rejects_blank() {
    assert_eq!(hostname_from_file(Some("  box\n")).as_deref(), Some("box"));
    assert_eq!(hostname_from_file(Some(" \n\t")), None);
    assert_eq!(hostname_from_file(None), None);
}

#[test]
fn hostname_from_command_output() {
    assert_eq!(hostname_from_command(Some("laptop\n")), "laptop");
    assert_eq!(hostname_from_command(Some("  \n")), "");
    assert_eq!(hostname_from_command(None), "unknown");
}

#[test]
fn uname_kernel_and_arch() {
    assert_eq!(
        parse_uname(Some("Linux 6.14.0 x86_64\n")),
        ("6.14.0".to_string(), "x86_64".to_string())
    );
    assert_eq!(parse_uname(Some("Linux")), (String::new(), String::new()));
    assert_eq!(parse_uname(Some("Linux  6.1.0\t")), ("6.1.0".to_string(), String::new()));
    assert_eq!(parse_uname(None), ("unknown".to_string(), "unknown".to_string()));
}

#[test]
fn host_info_from_sources() {
    let sources = HostSources {
        etc_hostname: Some("\n".to_string()),
        hostname_output: Some("fallback-host\n".to_string()),
        os_release: Some("PRETTY_NAME=\"Debian GNU/Linux 12 (bookworm)\"\nVERSION_ID=\"12\"\n".to_string()),
        uname_output: Some("Linux 6.1.0-18-amd64 x86_64\n".to_string()),
    };
    let info = read_host_info(&sources);
    assert_eq!(info.hostname, "fallback-host");
    assert_eq!(info.distro, "Debian GNU/Linux 12 (bookworm)");
    assert_eq!(info.distro_version.as_deref(), Some("12"));
    assert_eq!(info.kernel, "6.1.0-18-amd64");
    assert_eq!(info.arch, "x86_64");

    let sources = HostSources {
        etc_hostname: Some("desk\n".to_string()),
        hostname_output: None,
        os_release: None,
        uname_output: None,
    };
    let info = read_host_info(&sources);
    assert_eq!(info.hostname, "desk");
    assert_eq!(info.distro, "Linux");
    assert_eq!(info.distro_version, None);
    assert_eq!(info.kernel, "unknown");
    assert_eq!(info.arch, "unknown");

    let sources = HostSources { etc_hostname: None, hostname_output: None, os_release: None, uname_output: None };
    assert_eq!(read_host_info(&sources).hostname, "unknown");
}

#[test]
fn unknown_host_info() {
    let info = HostInfo::unknown();
    assert_eq!(info.hostname, "unknown");
    assert_eq!(info.distro, "unknown");
    assert_eq!(info.distro_version, None);
    assert_eq!(info.kernel, "unknown");
    assert_eq!(info.arch, "unknown");
}
