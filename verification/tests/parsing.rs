use proclist::numeric::parse_pid;
use proclist::numeric::parse_u32_digits;
use proclist::numeric::u32_to_dec;
use proclist::status::parse_status;
use proclist::text::str_eq;
use proclist::text::trim_str;

#[test]
fn string_equality() {
    assert!(str_eq("abc", "abc"));
    assert!(str_eq("", ""));
    assert!(!str_eq("abc", "abd"));
    assert!(!str_eq("abc", "ab"));
}

#[test]
fn trimming() {
    assert_eq!(trim_str("  a b\t\r\n"), "a b");
    assert_eq!(trim_str(""), "");
    assert_eq!(trim_str("\t \t"), "");
    assert_eq!(trim_str("x"), "x");
}

#[test]
fn pid_names_accepted() {
    assert_eq!(parse_pid("0"), Some(0));
    assert_eq!(parse_pid("1"), Some(1));
    assert_eq!(parse_pid("42"), Some(42));
    assert_eq!(parse_pid("987654"), Some(987654));
    assert_eq!(parse_pid("18446744073709551615"), Some(u64::MAX));
}

#[test]
fn pid_names_rejected() {
    assert_eq!(parse_pid(""), None);
    assert_eq!(parse_pid("self"), None);
    assert_eq!(parse_pid("thread-self"), None);
    assert_eq!(parse_pid("-1"), None);
    assert_eq!(parse_pid("+7"), None);
    assert_eq!(parse_pid("007"), None);
    assert_eq!(parse_pid("0x1f"), None);
    assert_eq!(parse_pid("12a"), None);
    assert_eq!(parse_pid("1 "), None);
    assert_eq!(parse_pid("18446744073709551616"), None);
}

#[test]
fn credential_tokens() {
    assert_eq!(parse_u32_digits("0"), Some(0));
    assert_eq!(parse_u32_digits("1000"), Some(1000));
    assert_eq!(parse_u32_digits("0042"), Some(42));
    assert_eq!(parse_u32_digits("4294967295"), Some(u32::MAX));
    assert_eq!(parse_u32_digits("4294967296"), None);
    assert_eq!(parse_u32_digits(""), None);
    assert_eq!(parse_u32_digits("-1"), None);
    assert_eq!(parse_u32_digits("12 "), None);
}

#[test]
fn decimal_rendering() {
    assert_eq!(u32_to_dec(0).as_str(), "0");
    assert_eq!(u32_to_dec(7).as_str(), "7");
    assert_eq!(u32_to_dec(10).as_str(), "10");
    assert_eq!(u32_to_dec(65534).as_str(), "65534");
    assert_eq!(u32_to_dec(u32::MAX).as_str(), "4294967295");
}

#[test]
fn status_fields_parsed() {
    let m = parse_status("Name:\tinit\nUid:\t0\t0\t0\t0\nGid:\t0\t0\t0\t0\n");
    assert_eq!(m.get("Name").unwrap().as_str(), "init");
    assert_eq!(m.get("Uid").unwrap().as_str(), "0\t0\t0\t0");
    assert_eq!(m.get("Gid").unwrap().as_str(), "0\t0\t0\t0");
    assert!(m.get("State").is_none());
}

#[test]
fn line_without_separator_yields_empty_value() {
    let m = parse_status("Name:\tinit\nSeccomp\nUid:\t5\t5\t5\t5\n");
    assert!(m.contains_key("Seccomp"));
    assert_eq!(m.get("Seccomp").unwrap().as_str(), "");
}

#[test]
fn values_are_trimmed_but_interior_space_kept() {
    let m = parse_status("Name:\t  a b  \n  Key  :\tv\n");
    assert_eq!(m.get("Name").unwrap().as_str(), "a b");
    assert_eq!(m.get("Key").unwrap().as_str(), "v");
}

#[test]
fn duplicate_field_last_wins() {
    let m = parse_status("K:\tfirst\nK:\tsecond\n");
    assert_eq!(m.get("K").unwrap().as_str(), "second");
}

#[test]
fn value_keeps_content_after_first_separator() {
    let m = parse_status("K:\ta:\tb\n");
    assert_eq!(m.get("K").unwrap().as_str(), "a:\tb");
}

#[test]
fn empty_and_blank_records() {
    let m = parse_status("");
    assert!(m.get("Name").is_none());
    let m2 = parse_status("\n");
    assert!(m2.contains_key(""));
    assert_eq!(m2.get("").unwrap().as_str(), "");
}

#[test]
fn carriage_returns_are_trimmed() {
    let m = parse_status("Name:\tinit\r\nUid:\t1\t2\t3\t4\r\n");
    assert_eq!(m.get("Name").unwrap().as_str(), "init");
    assert_eq!(m.get("Uid").unwrap().as_str(), "1\t2\t3\t4");
}
