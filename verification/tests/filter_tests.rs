use issue_bot::filter::{rank_candidates, select_candidate};
use issue_bot::{Issue, Label, ProcessedSet, Repository};

fn label(name: &str) -> Label {
    Label { name: name.to_string(), color: "ffffff".to_string(), description: None }
}

fn issue(id: u64, number: u64, title: &str, created_at: i64, assigned: bool, labels: Vec<&str>) -> Issue {
    Issue {
        id,
        number,
        title: title.to_string(),
        html_url: format!("https://example.invalid/issues/{}", number),
        state: "open".to_string(),
        created_at,
        updated_at: created_at,
        assigned,
        labels: labels.into_iter().map(label).collect(),
    }
}

fn rule(required: Vec<&str>, excluded: Vec<&str>, title_regex: Option<&str>) -> Repository {
    Repository {
        owner: "octo".to_string(),
        repo: "hello".to_string(),
        labels: required.into_iter().map(|s| s.to_string()).collect(),
        title_regex: title_regex.map(|s| s.to_string()),
        exclude_labels: excluded.into_iter().map(|s| s.to_string()).collect(),
    }
}

#[test]
fn assigned_issue_is_never_selected() {
    let issues = vec![issue(1, 10, "a", 100, true, vec![])];
    let r = rule(vec![], vec![], None);
    let p = ProcessedSet::new();
    assert!(select_candidate(issues, &r, &p).is_none());
}

#[test]
fn missing_required_label_is_never_selected() {
    let issues = vec![issue(1, 10, "a", 100, false, vec!["bug"])];
    let r = rule(vec!["help wanted"], vec![], None);
    let p = ProcessedSet::new();
    assert!(select_candidate(issues, &r, &p).is_none());
}

#[test]
fn excluded_label_is_never_selected() {
    let issues = vec![issue(1, 10, "a", 100, false, vec!["blocked", "bug"])];
    let r = rule(vec![], vec!["blocked"], None);
    let p = ProcessedSet::new();
    assert!(select_candidate(issues, &r, &p).is_none());
}

#[test]
fn fairness_orders_by_creation_time() {
    let t1 = issue(3, 30, "third", 100, false, vec![]);
    let t2 = issue(1, 10, "first", 200, false, vec![]);
    let t3 = issue(2, 20, "second", 300, false, vec![]);
    let issues = vec![t2, t3, t1];
    let r = rule(vec![], vec![], None);
    let p = ProcessedSet::new();
    let ranked = rank_candidates(issues, &r, &p);
    let times: Vec<i64> = ranked.iter().map(|i| i.created_at).collect();
    assert_eq!(times, vec![100, 200, 300]);
}

#[test]
fn ties_break_by_identifier() {
    let a = issue(9, 90, "a", 100, false, vec![]);
    let b = issue(4, 40, "b", 100, false, vec![]);
    let issues = vec![a, b];
    let r = rule(vec![], vec![], None);
    let p = ProcessedSet::new();
    let ranked = rank_candidates(issues, &r, &p);
    let ids: Vec<u64> = ranked.iter().map(|i| i.id).collect();
    assert_eq!(ids, vec![4, 9]);
}

#[test]
fn labeled_candidate_is_selected() {
    let candidate = issue(420, 42, "fix the docs", 1000, false, vec!["good first issue"]);
    let other = issue(421, 43, "unlabeled", 900, false, vec![]);
    let issues = vec![other, candidate];
    let r = rule(vec!["good first issue"], vec![], None);
    let p = ProcessedSet::new();
    let selected = select_candidate(issues, &r, &p).expect("a candidate");
    assert_eq!(selected.number, 42);
}

#[test]
fn processed_issue_is_never_selected_again() {
    let seven = issue(7, 7, "still open", 100, false, vec![]);
    let issues = vec![seven];
    let r = rule(vec![], vec![], None);
    let mut p = ProcessedSet::new();
    p.insert(7);
    assert!(select_candidate(issues, &r, &p).is_none());
}

#[test]
fn title_pattern_filters_titles() {
    let good = issue(1, 10, "docs: fix typo", 100, false, vec![]);
    let bad = issue(2, 20, "feat: new thing", 50, false, vec![]);
    let issues = vec![good, bad];
    let r = rule(vec![], vec![], Some("^docs:"));
    let p = ProcessedSet::new();
    let selected = select_candidate(issues, &r, &p).expect("a candidate");
    assert_eq!(selected.id, 1);
}

#[test]
fn bad_title_pattern_is_tolerated() {
    let issues = vec![issue(1, 10, "anything", 100, false, vec![])];
    let r = rule(vec![], vec![], Some("([unclosed"));
    let p = ProcessedSet::new();
    let selected = select_candidate(issues, &r, &p).expect("a candidate");
    assert_eq!(selected.id, 1);
}

#[test]
fn oldest_eligible_wins_within_repository() {
    let newer = issue(1, 10, "newer", 300, false, vec![]);
    let older_but_assigned = issue(2, 20, "older assigned", 100, true, vec![]);
    let middle = issue(3, 30, "middle", 200, false, vec![]);
    let issues = vec![newer, older_but_assigned, middle];
    let r = rule(vec![], vec![], None);
    let p = ProcessedSet::new();
    let selected = select_candidate(issues, &r, &p).expect("a candidate");
    assert_eq!(selected.id, 3);
}

#[test]
fn eligibility_predicate_decides_each_rule_part() {
    let r = rule(vec!["help wanted"], vec!["blocked"], None);
    let p = ProcessedSet::new();
    let ok = issue(1, 10, "a", 100, false, vec!["help wanted"]);
    assert!(issue_bot::filter::issue_eligible(&ok, &r, &p));
    let blocked = issue(2, 20, "a", 100, false, vec!["help wanted", "blocked"]);
    assert!(!issue_bot::filter::issue_eligible(&blocked, &r, &p));
    let assigned = issue(3, 30, "a", 100, true, vec!["help wanted"]);
    assert!(!issue_bot::filter::issue_eligible(&assigned, &r, &p));
    let unlabeled = issue(4, 40, "a", 100, false, vec![]);
    assert!(!issue_bot::filter::issue_eligible(&unlabeled, &r, &p));
}
