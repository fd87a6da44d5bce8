use sysctrl::text::{
    chars_of, line_ranges, parse_i64_at, parse_u32_at, parse_u64_at, push_decimal, replace_str,
    split_ranges, string_of, trim_range, word_ranges,
};

fn pieces(v: &[char], r: &[(usize, usize)]) -> Vec<String> {
    r.iter().map(|&(a, b)| string_of(v, a, b)).collect()
}

#[test]
fn lines_like_std() {
    for s in ["", "a", "a\n", "a\nb", "a\r\nb\r\n", "a\r", "\n\n", "x\ry\n", "\r\n"] {
        let v = chars_of(s);
        let r = line_ranges(&v, 0, v.len());
        let expected: Vec<String> = s.lines().map(|l| l.to_string()).collect();
        assert_eq!(pieces(&v, &r), expected, "{:?}", s);
    }
}

#[test]
fn words_and_split_like_std() {
    for s in ["", "  a  b\tc\n", "one", " \u{00A0}x\u{2003}y "] {
        let v = chars_of(s);
        let r = word_ranges(&v, 0, v.len());
        let expected: Vec<String> = s.split_whitespace().map(|l| l.to_string()).collect();
        assert_eq!(pieces(&v, &r), expected, "{:?}", s);
        let r = split_ranges(&v, 0, v.len(), ' ');
        let expected: Vec<String> = s.split(' ').map(|l| l.to_string()).collect();
        assert_eq!(pieces(&v, &r), expected, "{:?}", s);
        let (a, b) = trim_range(&v, 0, v.len());
        assert_eq!(string_of(&v, a, b), s.trim());
    }
}

#[test]
fn integers_like_std() {
    for s in ["0", "+7", "-7", "+", "-", "", "007", "18446744073709551615", "18446744073709551616",
        "4294967295", "4294967296", "9223372036854775807", "-9223372036854775808",
        "-9223372036854775809", " 1", "1 ", "1_000", "٣"] {
        let v = chars_of(s);
        assert_eq!(parse_u64_at(&v, 0, v.len()), s.parse::<u64>().ok(), "{:?}", s);
        assert_eq!(parse_u32_at(&v, 0, v.len()), s.parse::<u32>().ok(), "{:?}", s);
        assert_eq!(parse_i64_at(&v, 0, v.len()), s.parse::<i64>().ok(), "{:?}", s);
    }
}

#[test]
fn decimal_round_trip() {
    for n in [0u64, 9, 10, 99, 100, 12345, u64::MAX] {
        let mut s = String::from("#");
        push_decimal(&mut s, n);
        assert_eq!(s, format!("#{}", n));
        assert_eq!(s[1..].parse::<u64>().unwrap(), n);
    }
}

#[test]
fn replace_like_std() {
    for (s, f, t) in [("temp1_label", "_label", "_input"), ("aaa", "aa", "b"), ("x", "y", "z"), ("_label_label", "_label", "")] {
        assert_eq!(replace_str(s, f, t), s.replace(f, t));
    }
}
