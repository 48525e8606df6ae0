use mersenne::args::{get_and_parse, parse_cmd_args, parse_u32, strip_characters};

fn strings(v: &[&str]) -> Vec<String> {
    v.iter().map(|s| s.to_string()).collect()
}

#[test]
fn strips_listed_characters() {
    assert_eq!(strip_characters("1_000_000", "_"), "1000000");
    assert_eq!(strip_characters("a-b_c", "_-"), "abc");
    assert_eq!(strip_characters("", "_"), "");
}

#[test]
fn parses_unsigned_numbers() {
    assert_eq!(parse_u32("1234"), Some(1234));
    assert_eq!(parse_u32("+7"), Some(7));
    assert_eq!(parse_u32("4294967295"), Some(u32::MAX));
    assert_eq!(parse_u32("4294967296"), None);
    assert_eq!(parse_u32(""), None);
    assert_eq!(parse_u32("+"), None);
    assert_eq!(parse_u32("-1"), None);
    assert_eq!(parse_u32("12a"), None);
    assert_eq!(parse_u32("99999999999999999999x"), None);
}

#[test]
fn argument_with_default() {
    assert_eq!(get_and_parse(Some(&"1_000".to_string()), 5), 1000);
    assert_eq!(get_and_parse(Some(&"abc".to_string()), 5), 5);
    assert_eq!(get_and_parse(None, 5), 5);
}

#[test]
fn bounds_from_command_line() {
    assert_eq!(parse_cmd_args(&strings(&["prog"])), (2, 1000));
    assert_eq!(parse_cmd_args(&strings(&["prog", "5_000"])), (2, 5000));
    assert_eq!(parse_cmd_args(&strings(&["prog", "10", "20"])), (10, 20));
    assert_eq!(parse_cmd_args(&strings(&["prog", "x", "y"])), (2, 1000));
    assert_eq!(parse_cmd_args(&strings(&["prog", "x"])), (2, 1000));
}
