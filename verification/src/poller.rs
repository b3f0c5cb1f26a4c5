//! Per-cycle decision helpers the poller needs around the state machine:
//! choosing a comment body and recording a successful post.

use vstd::prelude::*;

use crate::github::Issue;
use crate::state::{ActiveIssue, BotState};

verus! {

/// Relies on rand::random_range: the result lies within the given
/// non-empty range.
#[verifier::external_body]
fn random_below(n: usize) -> (r: usize)
    requires
        n > 0,
    ensures
        r < n,
{
    rand::random_range(0..n)
}

/// The comment body used when the configured template set is empty.
pub fn fallback_comment() -> (r: String)
    ensures
        r@ == "Hi, I'd like to work on this issue!"@,
{
    "Hi, I'd like to work on this issue!".to_owned()
}

/// Choose a comment body uniformly at random from the configured template
/// set, or the fallback text when the set is empty.
pub fn choose_comment(templates: &Vec<String>) -> (r: String)
    ensures
        templates@.len() == 0 ==> r@ == "Hi, I'd like to work on this issue!"@,
        templates@.len() > 0 ==> exists|k: int|
            0 <= k < templates@.len() && r@ == templates@[k]@,
{
    if templates.len() == 0 {
        fallback_comment()
    } else {
        let k = random_below(templates.len());
        let r = templates[k].clone();
        assert(r@ == templates@[k as int]@);
        r
    }
}

impl BotState {
    /// The state change after a successful comment post: occupy the single
    /// request slot with a record expiring `cooldown_hours` hours after
    /// `now`, and add the issue's identifier to the processed set. The
    /// caller persists both through the codec as one logical update.
    pub fn mark_issue_as_active(
        &mut self,
        owner: &String,
        repo: &String,
        issue: &Issue,
        now: i64,
        cooldown_hours: u32,
    )
        requires
            old(self).wf(),
            old(self).may_record(),
            now + (cooldown_hours as i64) * 3600 <= i64::MAX,
        ensures
            final(self).wf(),
            final(self).active_issue matches Some(a) && a.repo_owner@ == owner@
                && a.repo_name@ == repo@ && a.issue_number == issue.number
                && a.issue_url@ == issue.html_url@ && a.requested_at == now
                && a.timeout == now + (cooldown_hours as i64) * 3600,
            final(self).processed_issues.spec_contains(issue.id),
            forall|x: u64|
                final(self).processed_issues.spec_contains(x) <==> (
                    old(self).processed_issues.spec_contains(x) || x == issue.id),
    {
        let active = ActiveIssue::new(
            owner.clone(),
            repo.clone(),
            issue.number,
            issue.html_url.clone(),
            now,
            cooldown_hours,
        );
        self.record_request(active, issue.id);
    }
}

} // verus!
