use gunicorn_autoscaler::number::{format_i32, format_u64, parse_i32, parse_u32, parse_u64};
use gunicorn_autoscaler::system::{effective_cores, parse_pid, read_cpu_max, Amount};
use gunicorn_autoscaler::text::{
    begins_with, chars_of, ends_with, find, is_white, spells, split_words, trim,
};

#[test]
fn white_space_is_unicode_white_space() {
    for c in char::MIN..=char::MAX {
        assert_eq!(is_white(c), c.is_whitespace());
    }
}

#[test]
fn texts_are_compared_by_characters() {
    let c = chars_of("héllo");
    assert_eq!(c.len(), 5);
    assert!(spells(&c, "héllo"));
    assert!(!spells(&c, "héll"));
    assert!(!spells(&c, "hello"));
    assert!(begins_with(&c, "hé") && begins_with(&c, "") && !begins_with(&c, "él"));
    assert!(ends_with(&c, "llo") && ends_with(&c, "") && !ends_with(&c, "xhéllo"));
    assert_eq!((find(&c, 'l'), find(&c, 'z')), (2, 5));
}

#[test]
fn trimming_cuts_both_ends() {
    let c = chars_of("\u{2003}\t a b \n");
    assert_eq!(trim(&c), &['a', ' ', 'b']);
    assert_eq!(trim(&chars_of("  ")), &[] as &[char]);
}

#[test]
fn words_are_set_apart_by_white_space() {
    assert_eq!(split_words(" 200000  100000\n"), vec!["200000", "100000"]);
    assert_eq!(split_words("max"), vec!["max"]);
    assert!(split_words(" \t").is_empty());
}

#[test]
fn numbers_are_read_as_the_standard_library_reads_them() {
    for s in [
        "", "+", "-", "0", "-0", "+0", "007", "12", "-12", "+12", "+-1", "1 ", " 1", "1_0", "٣",
        "2147483647", "2147483648", "-2147483648", "-2147483649", "4294967295", "4294967296",
        "18446744073709551615", "18446744073709551616", "00000000000000000000000000001",
        "99999999999999999999999999999999", "0x10", "1.5",
    ] {
        assert_eq!(parse_u64(s), s.parse::<u64>().ok(), "{s}");
        assert_eq!(parse_u32(s), s.parse::<u32>().ok(), "{s}");
        assert_eq!(parse_i32(s), s.parse::<i32>().ok(), "{s}");
    }
}

#[test]
fn numbers_are_written_and_read_back() {
    for n in [0, 7, 10, 99, 100, 12345678901234567890, u64::MAX] {
        assert_eq!(format_u64(n), n.to_string());
        assert_eq!(parse_u64(&format_u64(n)), Some(n));
    }
    for n in [0, -1, 42, -10, i32::MIN, i32::MAX] {
        assert_eq!(format_i32(n), n.to_string());
        assert_eq!(parse_i32(&format_i32(n)), Some(n));
    }
}

#[test]
fn cpu_max_holds_quota_and_period() {
    let q = read_cpu_max("150000 100000\n").unwrap();
    assert_eq!((q.quota.as_str(), q.period.as_str()), ("150000", "100000"));
    assert!(read_cpu_max("max 100000\n").is_none());
    assert!(read_cpu_max("100000").is_none());
    assert!(read_cpu_max("1 2 3").is_none());
    assert!(read_cpu_max("").is_none());
}

fn num(value: f64) -> Option<Amount<f64>> {
    Some(Amount { value, positive: value > 0.0 })
}

#[test]
fn cpu_max_comes_before_the_older_files() {
    assert_eq!(effective_cores(Some((num(2.0), num(1.0))), num(8.0), num(4.0)), Some((2.0, 1.0)));
    assert_eq!(effective_cores(Some((num(-2.0), num(1.0))), None, None), Some((-2.0, 1.0)));
    assert_eq!(effective_cores(Some((num(2.0), num(0.0))), num(8.0), num(4.0)), Some((8.0, 4.0)));
    assert_eq!(effective_cores(None, num(8.0), num(4.0)), Some((8.0, 4.0)));
}

#[test]
fn unreadable_quotas_leave_the_cores_unknown() {
    assert_eq!(effective_cores(Some((None, num(1.0))), num(8.0), num(4.0)), None);
    assert_eq!(effective_cores(Some((num(1.0), None)), num(8.0), num(4.0)), None);
    assert_eq!(effective_cores(None, num(-1.0), num(4.0)), None);
    assert_eq!(effective_cores(None, num(8.0), num(0.0)), None);
    assert_eq!(effective_cores::<f64>(None, None, num(4.0)), None);
    assert_eq!(effective_cores::<f64>(None, num(4.0), None), None);
}

#[test]
fn pid_is_read_from_a_file() {
    assert_eq!(parse_pid("  4711\n"), Some(4711));
    assert_eq!(parse_pid("47 11"), None);
    assert_eq!(parse_pid(""), None);
    assert_eq!(parse_pid("4294967296"), None);
}
