use issue_bot::state::scan_allowed;
use issue_bot::{ActiveIssue, BotState, Issue, ProcessedSet};

fn pending_state(timeout: i64) -> BotState {
    let active = ActiveIssue::new(
        "octo".to_string(),
        "hello".to_string(),
        42,
        "https://example.invalid/issues/42".to_string(),
        timeout - 3600,
        1,
    );
    BotState::restore(Some(active), ProcessedSet::new())
}

#[test]
fn idle_state_proceeds() {
    let mut s = BotState::new();
    assert!(s.cycle_gate(1_000));
    assert!(s.active_issue.is_none());
}

#[test]
fn pending_future_expiry_blocks_cycle() {
    let mut s = pending_state(10_000);
    let proceed = s.cycle_gate(9_999);
    assert!(!proceed);
    assert!(s.active_issue.is_some());
}

#[test]
fn pending_past_expiry_releases_then_proceeds() {
    let mut s = pending_state(10_000);
    let proceed = s.cycle_gate(10_000);
    assert!(proceed);
    assert!(s.active_issue.is_none());
}

#[test]
fn low_headroom_skips_scan() {
    assert!(!scan_allowed(10, 50));
    assert!(scan_allowed(50, 50));
    assert!(scan_allowed(100, 50));
}

#[test]
fn expiry_is_posting_time_plus_cooldown() {
    let a = ActiveIssue::new(
        "octo".to_string(),
        "hello".to_string(),
        7,
        "u".to_string(),
        1_000,
        24,
    );
    assert_eq!(a.requested_at, 1_000);
    assert_eq!(a.timeout, 1_000 + 24 * 3600);
}

#[test]
fn recording_a_request_occupies_the_slot_and_marks_processed() {
    let mut s = BotState::new();
    let issue = Issue {
        id: 420,
        number: 42,
        title: "t".to_string(),
        html_url: "https://example.invalid/issues/42".to_string(),
        state: "open".to_string(),
        created_at: 5,
        updated_at: 5,
        assigned: false,
        labels: vec![],
    };
    s.mark_issue_as_active(
        &"octo".to_string(),
        &"hello".to_string(),
        &issue,
        2_000,
        24,
    );
    let active = s.active_issue.as_ref().expect("pending");
    assert_eq!(active.repo_owner, "octo");
    assert_eq!(active.repo_name, "hello");
    assert_eq!(active.issue_number, 42);
    assert_eq!(active.requested_at, 2_000);
    assert_eq!(active.timeout, 2_000 + 24 * 3600);
    assert!(s.processed_issues.contains(420));
}

#[test]
fn processed_set_grows_and_ignores_duplicates() {
    let mut p = ProcessedSet::new();
    assert!(!p.contains(1));
    p.insert(1);
    p.insert(2);
    p.insert(1);
    assert!(p.contains(1));
    assert!(p.contains(2));
    assert!(!p.contains(3));
    assert_eq!(p.len(), 2);
}

#[test]
fn processed_set_round_trips_through_vec() {
    let mut p = ProcessedSet::new();
    p.insert(5);
    p.insert(9);
    let v = p.to_vec();
    let q = ProcessedSet::from_vec(&v);
    assert!(q.contains(5));
    assert!(q.contains(9));
    assert!(!q.contains(6));
}
