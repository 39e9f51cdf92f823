use email_checker::checkpoint::{after_checkpoint, Marker};
use email_checker::format::{format_message, DEFAULT_PREVIEW_LEN};
use email_checker::message::{fetch_since, Message};

fn msg(id: u64, ts: u64) -> Message {
    Message::new(id, ts, "from@x".to_string(), format!("subject {}", id), format!("body {}", id))
}

fn ids(v: &[Message]) -> Vec<u64> {
    v.iter().map(|m| m.id).collect()
}

#[test]
fn ties_broken_by_identifier() {
    // identifiers A < B < C
    let (a, b, c) = (1u64, 2u64, 3u64);
    let t = 1000u64;
    let got = fetch_since(vec![msg(b, t), msg(a, t), msg(c, t + 1)], &None);
    assert_eq!(ids(&got), vec![a, b, c]);
}

#[test]
fn only_messages_after_marker() {
    let all = vec![msg(5, 10), msg(1, 9), msg(7, 10), msg(2, 11), msg(3, 10)];
    let got = fetch_since(all, &Some(Marker::new(10, 5)));
    assert_eq!(ids(&got), vec![7, 2]);
    assert_eq!(ids(&fetch_since(vec![], &None)), Vec::<u64>::new());
    assert!(after_checkpoint(&Marker::new(10, 6), &Some(Marker::new(10, 5))));
    assert!(!after_checkpoint(&Marker::new(10, 5), &Some(Marker::new(10, 5))));
}

#[test]
fn repeated_marker_listed_once() {
    let got = fetch_since(vec![msg(4, 1), msg(4, 1), msg(2, 1)], &None);
    assert_eq!(ids(&got), vec![2, 4]);
}

#[test]
fn long_body_truncated_to_max_chars() {
    let mut m = msg(1, 1);
    m.body = "héllo wörld".to_string();
    let p = format_message(&m, 7);
    assert_eq!(p.preview, "héllo w");
    assert_eq!(p.preview.chars().count(), 7);
    assert_eq!(p.sender, "from@x");
    assert_eq!(p.subject, "subject 1");
    assert_eq!(p.timestamp, 1);
}

#[test]
fn short_body_kept_whole() {
    let mut m = msg(1, 1);
    m.body = "ünïcödé".to_string();
    assert_eq!(format_message(&m, 7).preview, "ünïcödé");
    assert_eq!(format_message(&m, 500).preview, "ünïcödé");
    assert_eq!(format_message(&m, 0).preview, "");
    m.body = "x".repeat(600);
    assert_eq!(format_message(&m, DEFAULT_PREVIEW_LEN).preview.len(), 500);
}
