use issue_bot::codec::{
    encode_active_issue, encode_processed_issues, parse_active_issue, parse_processed_issues,
};
use issue_bot::ActiveIssue;

#[test]
fn processed_set_round_trip() {
    let ids: Vec<u64> = vec![7, 42, 0, u64::MAX];
    let doc = encode_processed_issues(&ids);
    assert_eq!(doc, "[7,42,0,18446744073709551615]");
    let back = parse_processed_issues(&doc).expect("parses");
    assert_eq!(back, ids);
}

#[test]
fn empty_processed_set_round_trip() {
    let ids: Vec<u64> = vec![];
    let doc = encode_processed_issues(&ids);
    assert_eq!(doc, "[]");
    let back = parse_processed_issues(&doc).expect("parses");
    assert!(back.is_empty());
}

#[test]
fn malformed_processed_documents_are_rejected() {
    assert!(parse_processed_issues("").is_none());
    assert!(parse_processed_issues("[").is_none());
    assert!(parse_processed_issues("[1,]").is_none());
    assert!(parse_processed_issues("[1,2").is_none());
    assert!(parse_processed_issues("1,2]").is_none());
    assert!(parse_processed_issues("[1,2]x").is_none());
    assert!(parse_processed_issues("[18446744073709551616]").is_none());
}

fn sample(owner: &str, name: &str, url: &str, requested_at: i64, timeout: i64) -> ActiveIssue {
    ActiveIssue {
        repo_owner: owner.to_string(),
        repo_name: name.to_string(),
        issue_number: 42,
        issue_url: url.to_string(),
        requested_at,
        timeout,
    }
}

#[test]
fn active_issue_round_trip() {
    let a = sample("octo", "hello", "https://example.invalid/issues/42", 1_000, 87_400);
    let doc = encode_active_issue(&a);
    assert_eq!(
        doc,
        "{\"repo_owner\":\"octo\",\"repo_name\":\"hello\",\"issue_number\":42,\
         \"issue_url\":\"https://example.invalid/issues/42\",\
         \"requested_at\":1000,\"timeout\":87400}"
    );
    let b = parse_active_issue(&doc).expect("parses");
    assert_eq!(b.repo_owner, a.repo_owner);
    assert_eq!(b.repo_name, a.repo_name);
    assert_eq!(b.issue_number, a.issue_number);
    assert_eq!(b.issue_url, a.issue_url);
    assert_eq!(b.requested_at, a.requested_at);
    assert_eq!(b.timeout, a.timeout);
}

#[test]
fn active_issue_round_trip_with_escapes_and_negative_times() {
    let a = sample("o\"wn\\er", "na\"me\n", "u\\rl\t\u{1}", -5, i64::MIN);
    let doc = encode_active_issue(&a);
    let b = parse_active_issue(&doc).expect("parses");
    assert_eq!(b.repo_owner, a.repo_owner);
    assert_eq!(b.repo_name, a.repo_name);
    assert_eq!(b.issue_url, a.issue_url);
    assert_eq!(b.requested_at, -5);
    assert_eq!(b.timeout, i64::MIN);
}

#[test]
fn control_characters_are_escaped_as_unicode_sequences() {
    let a = sample("a\nb", "c", "d", 1, 2);
    let doc = encode_active_issue(&a);
    assert!(doc.contains("a\\u000ab"));
    assert!(!doc.contains('\n'));
    let b = parse_active_issue(&doc).expect("parses");
    assert_eq!(b.repo_owner, "a\nb");
}

#[test]
fn malformed_active_documents_are_rejected() {
    assert!(parse_active_issue("").is_none());
    assert!(parse_active_issue("{}").is_none());
    assert!(parse_active_issue("{\"repo_owner\":\"octo\"}").is_none());
    let a = sample("octo", "hello", "url", 1, 2);
    let doc = encode_active_issue(&a);
    let truncated = &doc[..doc.len() - 1];
    assert!(parse_active_issue(truncated).is_none());
    let padded = format!("{} ", doc);
    assert!(parse_active_issue(&padded).is_none());
    let bad_escape = doc.replace("octo", "oc\\u0041to");
    assert!(parse_active_issue(&bad_escape).is_none());
}
