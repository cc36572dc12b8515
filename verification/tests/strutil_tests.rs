use winproc::strutil::{
    parse_u32, u32_to_decimal, str_trim, str_trim_quotes, str_contains, str_starts_with,
    eq_ignore_case, split_str, lower_char,
};

#[test]
fn parse_plain_numbers() {
    assert_eq!(parse_u32("0"), Some(0));
    assert_eq!(parse_u32("368"), Some(368));
    assert_eq!(parse_u32("007"), Some(7));
    assert_eq!(parse_u32("+42"), Some(42));
    assert_eq!(parse_u32("4294967295"), Some(u32::MAX));
}

#[test]
fn parse_rejects_junk() {
    assert_eq!(parse_u32(""), None);
    assert_eq!(parse_u32("+"), None);
    assert_eq!(parse_u32("12a"), None);
    assert_eq!(parse_u32("-5"), None);
    assert_eq!(parse_u32("4294967296"), None);
    assert_eq!(parse_u32("99999999999999999999"), None);
    assert_eq!(parse_u32(" 5"), None);
}

#[test]
fn decimal_rendering() {
    assert_eq!(u32_to_decimal(0), "0");
    assert_eq!(u32_to_decimal(7), "7");
    assert_eq!(u32_to_decimal(368), "368");
    assert_eq!(u32_to_decimal(u32::MAX), "4294967295");
}

#[test]
fn decimal_round_trips_through_parse() {
    for n in [0u32, 1, 9, 10, 99, 1024, 65535, u32::MAX] {
        assert_eq!(parse_u32(&u32_to_decimal(n)), Some(n));
    }
}

#[test]
fn trimming() {
    assert_eq!(str_trim("  a b \r\n"), "a b");
    assert_eq!(str_trim("\t\t"), "");
    assert_eq!(str_trim("x"), "x");
    assert_eq!(str_trim_quotes("\"368\""), "368");
    assert_eq!(str_trim_quotes("\"\"x\"\""), "x");
    assert_eq!(str_trim_quotes("\"\""), "");
    assert_eq!(str_trim_quotes("plain"), "plain");
}

#[test]
fn substring_search() {
    assert!(str_contains("ERROR: The process not found.", "not found"));
    assert!(!str_contains("all good", "not found"));
    assert!(str_contains("abc", ""));
    assert!(str_starts_with("Success: started", "Success"));
    assert!(!str_starts_with("failure", "Success"));
}

#[test]
fn case_insensitive_equality() {
    assert!(eq_ignore_case("Notepad.EXE", "notepad.exe"));
    assert!(!eq_ignore_case("notepad.exe", "notepad.ex"));
    assert_eq!(lower_char('A'), 'a');
    assert_eq!(lower_char('z'), 'z');
    assert_eq!(lower_char('1'), '1');
}

#[test]
fn splitting() {
    assert_eq!(split_str("a,b,c", ','), vec!["a", "b", "c"]);
    assert_eq!(split_str("", ','), vec![""]);
    assert_eq!(split_str(",", ','), vec!["", ""]);
    assert_eq!(split_str("x\r\ny", '\n'), vec!["x\r", "y"]);
}
