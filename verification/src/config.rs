//! Configuration: the requesting identity, polling and cooldown settings,
//! comment templates, and the per-repository rules.

use vstd::prelude::*;

verus! {

/// One monitored repository and its rule set: an issue must carry every
/// label in `labels`, none in `exclude_labels`, and, when `title_regex` is
/// given, a matching title.
#[derive(Debug, Clone)]
pub struct Repository {
    pub owner: String,
    pub repo: String,
    pub labels: Vec<String>,
    pub title_regex: Option<String>,
    pub exclude_labels: Vec<String>,
}

#[derive(Debug, Clone)]
pub struct Config {
    pub auth_token: String,
    pub user_login: String,
    pub poll_interval_secs: u64,
    pub max_retries: u32,
    pub cooldown_hours: u32,
    pub rate_limit_floor: u32,
    pub comment_templates: Vec<String>,
    pub repositories: Vec<Repository>,
}

pub fn default_poll_interval() -> (r: u64)
    ensures
        r == 45,
{
    45
}

pub fn default_max_retries() -> (r: u32)
    ensures
        r == 3,
{
    3
}

pub fn default_cooldown_hours() -> (r: u32)
    ensures
        r == 24,
{
    24
}

/// Floor for the remaining rate-limit headroom below which a cycle skips
/// its scan step.
pub fn default_rate_limit_floor() -> (r: u32)
    ensures
        r == 50,
{
    50
}

/// The comment bodies used when the configuration supplies none.
pub fn default_comment_templates() -> (r: Vec<String>)
    ensures
        r@.len() == 3,
        r@[0]@ == "Hi, I'd love to take this one!"@,
        r@[1]@ == "This looks interesting, may I work on it?"@,
        r@[2]@ == "I'd like to contribute to this issue, thanks!"@,
{
    let mut r: Vec<String> = Vec::new();
    r.push("Hi, I'd love to take this one!".to_owned());
    r.push("This looks interesting, may I work on it?".to_owned());
    r.push("I'd like to contribute to this issue, thanks!".to_owned());
    r
}

impl Config {
    /// The minimal configuration built from credentials alone: every other
    /// setting takes its default, and no repository is monitored.
    pub fn minimal(auth_token: String, user_login: String) -> (r: Config)
        ensures
            r.auth_token == auth_token,
            r.user_login == user_login,
            r.poll_interval_secs == 45,
            r.max_retries == 3,
            r.cooldown_hours == 24,
            r.rate_limit_floor == 50,
            r.comment_templates@.len() == 3,
            r.comment_templates@[0]@ == "Hi, I'd love to take this one!"@,
            r.comment_templates@[1]@ == "This looks interesting, may I work on it?"@,
            r.comment_templates@[2]@ == "I'd like to contribute to this issue, thanks!"@,
            r.repositories@.len() == 0,
    {
        Config {
            auth_token,
            user_login,
            poll_interval_secs: default_poll_interval(),
            max_retries: default_max_retries(),
            cooldown_hours: default_cooldown_hours(),
            rate_limit_floor: default_rate_limit_floor(),
            comment_templates: default_comment_templates(),
            repositories: Vec::new(),
        }
    }

    /// Fill in the default comment templates when the configuration names
    /// none; a non-empty template list is kept as it is.
    pub fn ensure_comment_templates(&mut self)
        ensures
            old(self).comment_templates@.len() == 0 ==> (
                final(self).comment_templates@.len() == 3
                && final(self).comment_templates@[0]@ == "Hi, I'd love to take this one!"@
                && final(self).comment_templates@[1]@
                    == "This looks interesting, may I work on it?"@
                && final(self).comment_templates@[2]@
                    == "I'd like to contribute to this issue, thanks!"@),
            old(self).comment_templates@.len() > 0 ==> final(self).comment_templates
                == old(self).comment_templates,
            final(self).comment_templates@.len() > 0,
            final(self).auth_token == old(self).auth_token,
            final(self).user_login == old(self).user_login,
            final(self).poll_interval_secs == old(self).poll_interval_secs,
            final(self).max_retries == old(self).max_retries,
            final(self).cooldown_hours == old(self).cooldown_hours,
            final(self).rate_limit_floor == old(self).rate_limit_floor,
            final(self).repositories == old(self).repositories,
    {
        if self.comment_templates.len() == 0 {
            let d = default_comment_templates();
            self.comment_templates = d;
        }
    }
}

} // verus!
