//! Point-in-time snapshots of remote issues, as the eligibility filter
//! consumes them. A snapshot is immutable once fetched and is discarded
//! after one decision cycle.

use vstd::prelude::*;

verus! {

#[derive(Debug, Clone)]
pub struct Label {
    pub name: String,
    pub color: String,
    pub description: Option<String>,
}

/// A snapshot of one remote issue. `created_at` and `updated_at` are
/// seconds since the Unix epoch; `assigned` says whether anyone currently
/// holds the issue (an assignee is set or the assignee list is non-empty).
#[derive(Debug, Clone)]
pub struct Issue {
    pub id: u64,
    pub number: u64,
    pub title: String,
    pub html_url: String,
    pub state: String,
    pub created_at: i64,
    pub updated_at: i64,
    pub assigned: bool,
    pub labels: Vec<Label>,
}

} // verus!
