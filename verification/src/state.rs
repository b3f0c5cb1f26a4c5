//! The request state machine's data: the single outstanding request and the
//! monotonic set of issue identifiers ever requested.

use vstd::prelude::*;

verus! {

/// Set of issue identifiers for which an assignment request has ever been
/// posted, regardless of outcome. Grows monotonically; never shrinks.
pub struct ProcessedSet {
    ids: Vec<u64>,
}

impl ProcessedSet {
    /// The identifiers, as a sequence without duplicates.
    pub closed spec fn view(&self) -> Seq<u64> {
        self.ids@
    }

    /// Internal invariant: no identifier is recorded twice.
    pub closed spec fn wf(&self) -> bool {
        forall|i: int, j: int|
            0 <= i < j < self.ids@.len() ==> self.ids@[i] != self.ids@[j]
    }

    /// Whether `id` has ever been requested.
    pub open spec fn spec_contains(&self, id: u64) -> bool {
        self@.contains(id)
    }

    pub fn new() -> (r: Self)
        ensures
            r.wf(),
            r@.len() == 0,
            forall|id: u64| !r.spec_contains(id),
    {
        ProcessedSet { ids: Vec::new() }
    }

    pub fn contains(&self, id: u64) -> (r: bool)
        ensures
            r == self.spec_contains(id),
    {
        let mut k: usize = 0;
        while k < self.ids.len()
            invariant
                k <= self.ids.len(),
                forall|i: int| 0 <= i < k ==> self.ids@[i] != id,
            decreases self.ids.len() - k,
        {
            if self.ids[k] == id {
                return true;
            }
            k += 1;
        }
        false
    }

    /// Record `id` as requested. Keeps every identifier already present.
    pub fn insert(&mut self, id: u64)
        requires
            old(self).wf(),
        ensures
            final(self).wf(),
            final(self).spec_contains(id),
            forall|x: u64|
                final(self).spec_contains(x) <==> old(self).spec_contains(x) || x == id,
            final(self)@.len() >= old(self)@.len(),
    {
        broadcast use vstd::seq_lib::lemma_seq_contains_after_push;

        if !self.contains(id) {
            self.ids.push(id);
        }
    }

    pub fn len(&self) -> (r: usize)
        ensures
            r == self@.len(),
    {
        self.ids.len()
    }

    /// The identifiers as a plain vector, for persistence.
    pub fn to_vec(&self) -> (r: Vec<u64>)
        ensures
            r@ == self@,
    {
        let mut out: Vec<u64> = Vec::new();
        let mut k: usize = 0;
        while k < self.ids.len()
            invariant
                k <= self.ids.len(),
                out@ == self.ids@.take(k as int),
            decreases self.ids.len() - k,
        {
            out.push(self.ids[k]);
            assert(out@ == self.ids@.take(k as int + 1)) by {
                assert(self.ids@.take(k as int + 1) =~= self.ids@.take(k as int).push(self.ids@[k as int]));
            }
            k += 1;
        }
        assert(self.ids@.take(self.ids@.len() as int) =~= self.ids@);
        out
    }

    /// Rebuild the set from a stored list of identifiers, dropping duplicates.
    pub fn from_vec(ids: &Vec<u64>) -> (r: Self)
        ensures
            r.wf(),
            forall|x: u64| r.spec_contains(x) <==> ids@.contains(x),
    {
        broadcast use vstd::seq_lib::lemma_seq_contains_after_push;

        let mut r = ProcessedSet::new();
        let mut k: usize = 0;
        while k < ids.len()
            invariant
                r.wf(),
                k <= ids.len(),
                forall|x: u64| r.spec_contains(x) <==> ids@.take(k as int).contains(x),
            decreases ids.len() - k,
        {
            r.insert(ids[k]);
            assert(ids@.take(k as int + 1) =~= ids@.take(k as int).push(ids@[k as int]));
            assert forall|x: u64|
                r.spec_contains(x) <==> ids@.take(k as int + 1).contains(x) by {
                vstd::seq_lib::lemma_seq_contains_after_push(
                    ids@.take(k as int),
                    ids@[k as int],
                    x,
                );
            }
            k += 1;
        }
        assert(ids@.take(ids@.len() as int) =~= ids@);
        r
    }
}

/// The single outstanding assignment attempt. At most one instance exists
/// system-wide at any moment; absence means the system is free to act.
#[derive(Debug, Clone)]
pub struct ActiveIssue {
    pub repo_owner: String,
    pub repo_name: String,
    pub issue_number: u64,
    pub issue_url: String,
    /// Seconds since the Unix epoch at which the comment was posted.
    pub requested_at: i64,
    /// Seconds since the Unix epoch at which the request expires.
    pub timeout: i64,
}

impl ActiveIssue {
    /// Build the record of a request posted at `now`, expiring after
    /// `cooldown_hours` hours.
    pub fn new(
        repo_owner: String,
        repo_name: String,
        issue_number: u64,
        issue_url: String,
        now: i64,
        cooldown_hours: u32,
    ) -> (r: ActiveIssue)
        requires
            now + (cooldown_hours as i64) * 3600 <= i64::MAX,
        ensures
            r.repo_owner == repo_owner,
            r.repo_name == repo_name,
            r.issue_number == issue_number,
            r.issue_url == issue_url,
            r.requested_at == now,
            r.timeout == now + (cooldown_hours as i64) * 3600,
    {
        let timeout: i64 = now + (cooldown_hours as i64) * 3600;
        ActiveIssue {
            repo_owner,
            repo_name,
            issue_number,
            issue_url,
            requested_at: now,
            timeout,
        }
    }
}

/// The request state machine together with the processed-set tracker.
/// `active_issue` being `None` is the idle state; `Some` is pending.
pub struct BotState {
    pub active_issue: Option<ActiveIssue>,
    pub processed_issues: ProcessedSet,
}

impl BotState {
    pub open spec fn wf(&self) -> bool {
        self.processed_issues.wf()
    }

    /// Whether a new request may be recorded: only with none outstanding.
    pub open spec fn may_record(&self) -> bool {
        self.active_issue is None
    }

    /// Startup state before any persisted state is loaded.
    pub fn new() -> (r: BotState)
        ensures
            r.wf(),
            r.active_issue is None,
            forall|id: u64| !r.processed_issues.spec_contains(id),
    {
        BotState { active_issue: None, processed_issues: ProcessedSet::new() }
    }

    /// Reconcile with the persisted state before the first cycle runs:
    /// pending exactly when a persisted request exists.
    pub fn restore(active_issue: Option<ActiveIssue>, processed_issues: ProcessedSet) -> (r:
        BotState)
        requires
            processed_issues.wf(),
        ensures
            r.wf(),
            r.active_issue == active_issue,
            r.processed_issues == processed_issues,
    {
        BotState { active_issue, processed_issues }
    }

    /// The waiting/expiry decision at the head of a cycle. Returns whether
    /// this cycle may go on to scan: an outstanding request whose expiry has
    /// not passed blocks the cycle; one whose expiry has passed is released
    /// (lazily) before any scan; no request never blocks.
    pub fn cycle_gate(&mut self, now: i64) -> (proceed: bool)
        requires
            old(self).wf(),
        ensures
            final(self).wf(),
            final(self).processed_issues == old(self).processed_issues,
            old(self).active_issue is None ==> *final(self) == *old(self) && proceed,
            (old(self).active_issue matches Some(a) && now < a.timeout) ==> (
                *final(self) == *old(self) && !proceed),
            (old(self).active_issue matches Some(a) && now >= a.timeout) ==> (
                final(self).active_issue is None && proceed),
            proceed <==> final(self).active_issue is None,
    {
        match &self.active_issue {
            None => true,
            Some(a) => {
                if now < a.timeout {
                    false
                } else {
                    self.active_issue = None;
                    true
                }
            },
        }
    }

    /// Record a successful comment post: occupy the single request slot and
    /// add the issue's identifier to the processed set, in lockstep.
    pub fn record_request(&mut self, active: ActiveIssue, issue_id: u64)
        requires
            old(self).wf(),
            old(self).may_record(),
        ensures
            final(self).wf(),
            final(self).active_issue == Some(active),
            final(self).processed_issues.spec_contains(issue_id),
            forall|x: u64|
                final(self).processed_issues.spec_contains(x) <==> (
                    old(self).processed_issues.spec_contains(x) || x == issue_id),
    {
        self.active_issue = Some(active);
        self.processed_issues.insert(issue_id);
    }
}

/// Law: the rate-limit decision. A cycle scans only when the remaining
/// headroom is at least the configured floor; below it the scan step is
/// skipped for the whole cycle.
pub fn scan_allowed(headroom: u32, floor: u32) -> (r: bool)
    ensures
        r == (headroom >= floor),
{
    headroom >= floor
}

/// How many requests a state holds outstanding.
pub open spec fn outstanding_requests(s: BotState) -> nat {
    match s.active_issue {
        Some(_) => 1nat,
        None => 0nat,
    }
}

/// Law: at most one outstanding request exists at any evaluated instant,
/// whatever sequence of cycles produced the state, and a new request may
/// be recorded only in a state with none outstanding.
pub proof fn lemma_single_outstanding(s: BotState)
    ensures
        outstanding_requests(s) <= 1,
        s.may_record() <==> outstanding_requests(s) == 0,
{
}

} // verus!
