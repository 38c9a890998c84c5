use website_checker::config::{parse_args, url_list, ArgError, Config, ParsedArgs};
use website_checker::number::{parse_bounded, parse_usize, ParseNumError};

fn args(v: &[&str]) -> Vec<String> {
    v.iter().map(|s| s.to_string()).collect()
}

fn parse(v: &[&str]) -> Result<ParsedArgs, ArgError> {
    parse_args(&args(v), 4)
}

fn err_message(v: &[&str]) -> String {
    match parse(v) {
        Ok(_) => panic!("expected an error"),
        Err(e) => e.message(),
    }
}

#[test]
fn defaults_apply_without_flags() {
    let p = parse(&["https://a", "https://b"]).ok().unwrap();
    assert_eq!(p.urls, args(&["https://a", "https://b"]));
    assert_eq!(p.file, None);
    assert_eq!(p.workers, 4);
    assert_eq!(p.timeout_secs, 5);
    assert_eq!(p.retries, 0);
    assert_eq!(p.status_file, "status.json");
}

#[test]
fn flags_set_their_values() {
    let p = parse(&["--workers", "8", "u1", "--timeout", "+3", "--retries", "2", "--status-file", "out.json", "--file", "list.txt", "u2"])
        .ok()
        .unwrap();
    assert_eq!(p.urls, args(&["u1", "u2"]));
    assert_eq!(p.file, Some("list.txt".to_string()));
    assert_eq!(p.workers, 8);
    assert_eq!(p.timeout_secs, 3);
    assert_eq!(p.retries, 2);
    assert_eq!(p.status_file, "out.json");
}

#[test]
fn later_flag_overrides_earlier() {
    let p = parse(&["--workers", "2", "--workers", "6"]).ok().unwrap();
    assert_eq!(p.workers, 6);
}

#[test]
fn each_error_has_its_message() {
    assert_eq!(err_message(&["--file"]), "Missing value after --file.");
    assert_eq!(err_message(&["--workers"]), "Missing value after --workers.");
    assert_eq!(err_message(&["--workers", "x"]), "Invalid value for workers.");
    assert_eq!(err_message(&["--workers", "0"]), "Invalid value for workers.");
    assert_eq!(err_message(&["--timeout"]), "Missing value after --timeout.");
    assert_eq!(err_message(&["--timeout", "-1"]), "Invalid timeout value.");
    assert_eq!(err_message(&["--retries"]), "Missing value after --retries");
    assert_eq!(err_message(&["--retries", "4294967296"]), "Invalid retries value.");
    assert_eq!(err_message(&["--status-file"]), "Missing value after --status-file");
    assert_eq!(err_message(&["u", "--verbose"]), "Unknown flag: --verbose");
}

#[test]
fn single_dash_argument_is_a_url() {
    let p = parse(&["-v"]).ok().unwrap();
    assert_eq!(p.urls, args(&["-v"]));
}

#[test]
fn no_url_at_all_is_refused() {
    let p = parse(&["--workers", "3"]).ok().unwrap();
    assert!(Config::from_parts(p, vec![]).is_none());
}

#[test]
fn file_urls_follow_command_line_urls() {
    let p = parse(&["a", "--retries", "1"]).ok().unwrap();
    let c = Config::from_parts(p, args(&["b", "c"])).unwrap();
    assert_eq!(c.urls, args(&["a", "b", "c"]));
    assert_eq!(c.retries, 1);
    assert_eq!(c.workers, 4);
    let p = parse(&[]).ok().unwrap();
    let c = Config::from_parts(p, args(&["only"])).unwrap();
    assert_eq!(c.urls, args(&["only"]));
}

#[test]
fn url_lines_are_trimmed_and_blank_lines_dropped() {
    let lines = args(&["  https://a.example  ", "", "   ", "\thttps://b.example\r", "c"]);
    assert_eq!(url_list(&lines), args(&["https://a.example", "https://b.example", "c"]));
}

#[test]
fn numbers_parse_like_unsigned_decimals() {
    assert_eq!(parse_usize("42"), Ok(42));
    assert_eq!(parse_usize("+7"), Ok(7));
    assert_eq!(parse_usize("007"), Ok(7));
    assert_eq!(parse_usize(""), Err(ParseNumError::Empty));
    assert_eq!(parse_usize("+"), Err(ParseNumError::InvalidDigit));
    assert_eq!(parse_usize("-3"), Err(ParseNumError::InvalidDigit));
    assert_eq!(parse_usize("1 2"), Err(ParseNumError::InvalidDigit));
    assert_eq!(parse_usize("99999999999999999999"), Err(ParseNumError::Overflow));
    assert_eq!(parse_bounded("255", 255), Ok(255));
    assert_eq!(parse_bounded("256", 255), Err(ParseNumError::Overflow));
    assert_eq!(parse_bounded("18446744073709551615", u64::MAX), Ok(u64::MAX));
}

#[test]
fn blank_urls_are_left_out() {
    let p = parse(&["", "  ", "\t"]).ok().unwrap();
    assert!(Config::from_parts(p, vec![]).is_none());
    let p = parse(&["", "https://a", " "]).ok().unwrap();
    let c = Config::from_parts(p, args(&["\u{3000}", "https://b"])).unwrap();
    assert_eq!(c.urls, args(&["https://a", "https://b"]));
}

#[test]
fn urls_keep_their_text_unchanged() {
    let p = parse(&[" https://a "]).ok().unwrap();
    let c = Config::from_parts(p, vec![]).unwrap();
    assert_eq!(c.urls, args(&[" https://a "]));
}

#[test]
fn unicode_white_space_is_trimmed_from_lines() {
    let lines = args(&["\u{3000}https://a\u{a0}", "\u{2028}\u{85}", "x\u{200b}"]);
    assert_eq!(url_list(&lines), args(&["https://a", "x\u{200b}"]));
}
