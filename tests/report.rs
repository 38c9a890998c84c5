use website_checker::report::status_report_bytes;
use website_checker::status::{Timestamp, WebsiteStatus};

fn text(results: &Vec<WebsiteStatus>) -> String {
    String::from_utf8(status_report_bytes(results)).unwrap()
}

#[test]
fn empty_report_is_an_empty_array() {
    assert_eq!(text(&vec![]), "[\n]\n");
}

#[test]
fn report_with_success_and_failure() {
    let results = vec![
        WebsiteStatus::new("https://example.com".to_string(), Ok(200), 142, Timestamp { secs: 1700000000, nanos: 5 }),
        WebsiteStatus::new(
            "https://bad.invalid".to_string(),
            Err("Failed to process https://bad.invalid: Error: dns".to_string()),
            3021,
            Timestamp { secs: 1700000003, nanos: 123456789 },
        ),
    ];
    let expected = "[\n\
{\"url\": \"https://example.com\", \"action_status\": 200, \"response_time\": 142, \"timestamp\": \"1700000000.000000005\"},\n\
{\"url\": \"https://bad.invalid\", \"action_status\": \"Failed to process https://bad.invalid: Error: dns\", \"response_time\": 3021, \"timestamp\": \"1700000003.123456789\"}\n\
]\n";
    assert_eq!(text(&results), expected);
}

#[test]
fn quotes_backslashes_and_control_bytes_are_escaped() {
    let results = vec![WebsiteStatus::new(
        "h\"t\\p".to_string(),
        Err("line\nbreak\t\u{1f}".to_string()),
        0,
        Timestamp { secs: 0, nanos: 0 },
    )];
    let expected = "[\n{\"url\": \"h\\\"t\\\\p\", \"action_status\": \"line\\u000abreak\\u0009\\u001f\", \"response_time\": 0, \"timestamp\": \"0.000000000\"}\n]\n";
    assert_eq!(text(&results), expected);
}

#[test]
fn non_ascii_text_is_kept_as_utf8() {
    let results = vec![WebsiteStatus::new("https://bücher.example".to_string(), Ok(200), 7, Timestamp { secs: 9, nanos: 10 })];
    let t = text(&results);
    assert!(t.contains("\"url\": \"https://bücher.example\""));
    assert!(t.contains("\"timestamp\": \"9.000000010\""));
}

#[test]
fn record_count_matches_results() {
    let results: Vec<WebsiteStatus> = (0..5)
        .map(|i| WebsiteStatus::new(format!("u{}", i), Ok(200), i, Timestamp { secs: i, nanos: 0 }))
        .collect();
    let t = text(&results);
    assert_eq!(t.matches("{\"url\"").count(), 5);
    assert_eq!(t.matches("},\n").count(), 4);
    assert!(t.ends_with("}\n]\n"));
}

fn field<'a>(line: &'a str, name: &str) -> &'a str {
    let key = format!("\"{}\": ", name);
    let start = line.find(&key).unwrap() + key.len();
    let rest = &line[start..];
    let end = rest.find(", \"").unwrap_or(rest.len() - 1);
    &rest[..end]
}

#[test]
fn report_reads_back_into_the_same_records() {
    let results = vec![
        WebsiteStatus::new("https://a.example".to_string(), Ok(204), 17, Timestamp { secs: 3, nanos: 4 }),
        WebsiteStatus::new("https://b.example".to_string(), Err("status 500".to_string()), 250, Timestamp { secs: 5, nanos: 6 }),
        WebsiteStatus::new("https://c.example".to_string(), Ok(200), 1, Timestamp { secs: 7, nanos: 8 }),
    ];
    let t = text(&results);
    let lines: Vec<&str> = t.lines().collect();
    assert_eq!(lines.first(), Some(&"["));
    assert_eq!(lines.last(), Some(&"]"));
    let records = &lines[1..lines.len() - 1];
    assert_eq!(records.len(), results.len());
    for (line, r) in records.iter().zip(results.iter()) {
        assert_eq!(field(line, "url"), format!("\"{}\"", r.url));
        match &r.action_status {
            Ok(code) => assert_eq!(field(line, "action_status"), code.to_string()),
            Err(m) => assert_eq!(field(line, "action_status"), format!("\"{}\"", m)),
        }
        assert_eq!(field(line, "response_time"), r.response_time_ms.to_string());
    }
}
