use issue_bot::config::{
    default_comment_templates, default_cooldown_hours, default_max_retries, default_poll_interval,
    default_rate_limit_floor,
};
use issue_bot::poller::{choose_comment, fallback_comment};
use issue_bot::{Config, FilePersistence};

#[test]
fn defaults_match_the_documented_values() {
    assert_eq!(default_poll_interval(), 45);
    assert_eq!(default_max_retries(), 3);
    assert_eq!(default_cooldown_hours(), 24);
    assert_eq!(default_rate_limit_floor(), 50);
}

#[test]
fn minimal_config_holds_credentials_and_defaults() {
    let c = Config::minimal("tok123".to_string(), "me".to_string());
    assert_eq!(c.auth_token, "tok123");
    assert_eq!(c.user_login, "me");
    assert_eq!(c.poll_interval_secs, 45);
    assert_eq!(c.max_retries, 3);
    assert_eq!(c.cooldown_hours, 24);
    assert_eq!(c.rate_limit_floor, 50);
    assert_eq!(c.comment_templates.len(), 3);
    assert!(c.repositories.is_empty());
}

#[test]
fn empty_template_list_gets_the_defaults() {
    let mut c = Config::minimal("t".to_string(), "u".to_string());
    c.comment_templates = vec![];
    c.ensure_comment_templates();
    assert_eq!(c.comment_templates, default_comment_templates());
    assert_eq!(c.comment_templates[0], "Hi, I'd love to take this one!");
}

#[test]
fn non_empty_template_list_is_kept() {
    let mut c = Config::minimal("t".to_string(), "u".to_string());
    c.comment_templates = vec!["mine".to_string()];
    c.ensure_comment_templates();
    assert_eq!(c.comment_templates, vec!["mine".to_string()]);
}

#[test]
fn chosen_comment_comes_from_the_templates() {
    let templates = vec!["a".to_string(), "b".to_string()];
    for _ in 0..20 {
        let c = choose_comment(&templates);
        assert!(templates.contains(&c));
    }
}

#[test]
fn empty_templates_fall_back_to_the_default_text() {
    let templates: Vec<String> = vec![];
    assert_eq!(choose_comment(&templates), "Hi, I'd like to work on this issue!");
    assert_eq!(fallback_comment(), "Hi, I'd like to work on this issue!");
}

#[test]
fn persistence_paths_join_the_data_directory() {
    let p = FilePersistence::new(".gh-issues-bot".to_string());
    assert_eq!(p.active_issue_path(), ".gh-issues-bot/active_issue.json");
    assert_eq!(p.processed_issues_path(), ".gh-issues-bot/processed_issues.json");
}
