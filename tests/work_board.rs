use website_checker::board::WorkBoard;
use website_checker::status::{Timestamp, WebsiteStatus};

fn record(url: &str, outcome: Result<u16, String>) -> WebsiteStatus {
    WebsiteStatus::new(url.to_string(), outcome, 12, Timestamp { secs: 1, nanos: 2 })
}

fn outcome_for(url: &str) -> Result<u16, String> {
    if url.len() % 3 == 0 {
        Err(format!("Failed to process {}: Error: refused", url))
    } else {
        Ok(200)
    }
}

/// Drains the board with `workers` interleaved workers, each taking a URL and
/// reporting it once every worker has taken one.
fn drain(urls: &[String], workers: usize) -> Vec<(String, Result<u16, String>)> {
    let mut board = WorkBoard::new(urls.to_vec());
    loop {
        let mut taken = Vec::new();
        for _ in 0..workers {
            if let Some(u) = board.take() {
                taken.push(u);
            }
        }
        if taken.is_empty() {
            break;
        }
        for u in taken.into_iter().rev() {
            let o = outcome_for(&u);
            assert!(board.complete(record(&u, o)));
        }
    }
    assert!(board.is_finished());
    let mut pairs: Vec<(String, Result<u16, String>)> =
        board.into_results().into_iter().map(|r| (r.url, r.action_status)).collect();
    pairs.sort();
    pairs
}

#[test]
fn one_record_per_url_including_duplicates() {
    let urls: Vec<String> = vec!["a".into(), "b".into(), "a".into()];
    let mut board = WorkBoard::new(urls.clone());
    let mut seen = Vec::new();
    while let Some(u) = board.take() {
        seen.push(u.clone());
        assert!(board.complete(record(&u, Ok(200))));
    }
    assert!(board.is_finished());
    assert_eq!(board.result_count(), 3);
    let results = board.into_results();
    let mut got: Vec<String> = results.iter().map(|r| r.url.clone()).collect();
    got.sort();
    assert_eq!(got, vec!["a".to_string(), "a".to_string(), "b".to_string()]);
    assert_eq!(seen.len(), 3);
}

#[test]
fn take_on_empty_board_keeps_returning_none() {
    let mut board = WorkBoard::new(vec!["x".to_string()]);
    assert_eq!(board.take(), Some("x".to_string()));
    assert_eq!(board.take(), None);
    assert_eq!(board.take(), None);
    assert!(!board.is_finished());
    assert!(board.complete(record("x", Ok(204))));
    assert!(board.is_finished());
}

#[test]
fn completing_a_url_not_in_flight_is_refused() {
    let mut board = WorkBoard::new(vec!["x".to_string(), "y".to_string()]);
    assert!(!board.complete(record("y", Ok(200))));
    let first = board.take().unwrap();
    assert_eq!(first, "y");
    assert!(!board.complete(record("x", Ok(200))));
    assert!(board.complete(record("y", Ok(200))));
    assert!(!board.complete(record("y", Ok(200))));
    assert_eq!(board.result_count(), 1);
}

#[test]
fn one_worker_and_eight_workers_give_the_same_pairs() {
    let urls: Vec<String> = (0..50).map(|i| format!("https://site{}.example/{}", i, "p".repeat(i % 4))).collect();
    let one = drain(&urls, 1);
    let eight = drain(&urls, 8);
    assert_eq!(one.len(), 50);
    assert_eq!(one, eight);
}
