use sysctrl::ram::{meminfo_totals, parse_dmidecode_memory, parse_meminfo_value, ram_usage};

#[test]
fn meminfo_value_forms() {
    assert_eq!(parse_meminfo_value("  12345 kB"), 12345);
    assert_eq!(parse_meminfo_value("12345 KB"), 12345);
    assert_eq!(parse_meminfo_value("  42"), 42);
    assert_eq!(parse_meminfo_value("  +7 kB"), 7);
    assert_eq!(parse_meminfo_value("abc kB"), 0);
    assert_eq!(parse_meminfo_value(""), 0);
    assert_eq!(parse_meminfo_value("18446744073709551616 kB"), 0);
    assert_eq!(parse_meminfo_value("18446744073709551615 kB"), u64::MAX);
}

const MEMINFO: &str = "MemTotal:       16303428 kB\nMemFree:         1234567 kB\nMemAvailable:    8151714 kB\nBuffers:          100 kB\n";

#[test]
fn meminfo_totals_read() {
    assert_eq!(meminfo_totals(MEMINFO), (16303428, 8151714));
    assert_eq!(meminfo_totals("MemFree: 5 kB\n"), (0, 0));
    // the scan stops once both are known
    assert_eq!(meminfo_totals("MemTotal: 10 kB\nMemAvailable: 4 kB\nMemTotal: 99 kB\n"), (10, 4));
    // a zero value does not stop the scan
    assert_eq!(meminfo_totals("MemTotal: 10 kB\nMemAvailable: 0 kB\nMemAvailable: 3 kB\n"), (10, 3));
}

#[test]
fn ram_usage_computed() {
    let u = ram_usage(Some(MEMINFO)).unwrap();
    assert_eq!(u.total_kb, 16303428);
    assert_eq!(u.used_kb, 16303428 - 8151714);
    assert_eq!(u.total_mb, 15921);
    assert_eq!(u.used_mb, 7960);
    assert!(u.used_mb <= u.total_mb);
}

#[test]
fn ram_usage_edge_cases() {
    assert!(ram_usage(None).is_none());
    assert!(ram_usage(Some("MemAvailable: 5 kB\n")).is_none());
    let u = ram_usage(Some("MemTotal: 2048 kB\nMemAvailable: 4096 kB\n")).unwrap();
    assert_eq!(u.used_kb, 0);
    assert_eq!(u.total_mb, 2);
    assert_eq!(u.used_mb, 0);
    let u = ram_usage(Some("MemTotal: 2048 kB\n")).unwrap();
    assert_eq!(u.used_kb, 2048);
}

const DMI: &str = "# dmidecode 3.5\nHandle 0x0040, DMI type 17, 92 bytes\nMemory Device\n\tType: DDR4\n\tType Detail: Synchronous Unbuffered (Unregistered)\n\tSpeed: 3200 MT/s\n\tPart Number: CMK16GX4M2B3200C16\n";

#[test]
fn dmidecode_type_then_speed() {
    // a real part number is preferred to the DDR type
    let (model, speed) = parse_dmidecode_memory(DMI);
    assert_eq!(model.as_deref(), Some("CMK16GX4M2B3200C16"));
    assert_eq!(speed, Some(3200));
    let text = "Memory Device\n\tType: DDR4\n\tSpeed: 3200 MT/s\n\tPart Number: F4-3200C16-8GVKB\n";
    assert_eq!(parse_dmidecode_memory(text), (Some("F4-3200C16-8GVKB".to_string()), Some(3200)));
}

#[test]
fn dmidecode_type_as_fallback() {
    // without a real part number the DDR type is the model
    let text = "\tType: DDR5\n\tSpeed: 4800 MT/s\n\tPart Number: Not Specified\n\tType: DDR4\n";
    assert_eq!(parse_dmidecode_memory(text), (Some("DDR5".to_string()), Some(4800)));
    // the first part number is kept
    let text = "\tPart Number: A1\n\tType: DDR4\n\tPart Number: B2\n\tSpeed: 1 MHz\n";
    assert_eq!(parse_dmidecode_memory(text).0.as_deref(), Some("A1"));
}

#[test]
fn dmidecode_part_number_and_mhz() {
    let text = "\tType: Other\n\tPart Number: Not Specified\n\tPart Number: HMA82GS6CJR8N-VK\n\tSpeed: Unknown\n\tSpeed: 2666 MHz\n";
    let (model, speed) = parse_dmidecode_memory(text);
    assert_eq!(model.as_deref(), Some("HMA82GS6CJR8N-VK"));
    assert_eq!(speed, Some(2666));
}

#[test]
fn dmidecode_nothing() {
    assert_eq!(parse_dmidecode_memory(""), (None, None));
    assert_eq!(parse_dmidecode_memory("\tPart Number: Unknown\n\tType: Unknown\n"), (None, None));
    // Type Detail is not Type
    assert_eq!(parse_dmidecode_memory("\tType Detail: DDR5\n").0, None);
}
