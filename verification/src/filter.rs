//! The eligibility filter: the selection predicate over issue snapshots and
//! a repository's rule, and the ranking that orders candidates oldest first.

use vstd::prelude::*;

use crate::config::Repository;
use crate::github::{Issue, Label};
use crate::state::ProcessedSet;

verus! {

/// Whether the pattern is accepted by the regular-expression engine.
pub uninterp spec fn pattern_ok(p: Seq<char>) -> bool;

/// Whether the pattern matches somewhere in the text.
pub uninterp spec fn pattern_match(p: Seq<char>, t: Seq<char>) -> bool;

/// Relies on regex::Regex::new and regex::Regex::is_match: whether a
/// pattern compiles depends on the pattern alone, and whether a compiled
/// pattern matches depends on the pattern and the text alone.
#[verifier::external_body]
fn regex_check(pattern: &str, text: &str) -> (r: Option<bool>)
    ensures
        pattern_ok(pattern@) ==> r == Some(pattern_match(pattern@, text@)),
        !pattern_ok(pattern@) ==> r is None,
{
    match regex::Regex::new(pattern) {
        Ok(re) => Some(re.is_match(text)),
        Err(_) => None,
    }
}

/// The issue carries a label of this name.
pub open spec fn has_label(labels: Seq<Label>, name: Seq<char>) -> bool {
    exists|k: int| 0 <= k < labels.len() && labels[k].name@ == name
}

/// Every label the rule requires is on the issue.
pub open spec fn required_labels_ok(i: Issue, rule: Repository) -> bool {
    forall|k: int| 0 <= k < rule.labels@.len() ==> has_label(i.labels@, rule.labels@[k]@)
}

/// No label the rule excludes is on the issue.
pub open spec fn excluded_labels_ok(i: Issue, rule: Repository) -> bool {
    forall|k: int| 0 <= k < rule.exclude_labels@.len() ==> !has_label(
        i.labels@,
        rule.exclude_labels@[k]@,
    )
}

/// The title rule: no pattern passes everything; a pattern that does not
/// compile is treated as not applied (a tolerated misconfiguration, not a
/// fatal error); a compiling pattern must match the title.
pub open spec fn title_ok(i: Issue, rule: Repository) -> bool {
    match rule.title_regex {
        None => true,
        Some(p) => !pattern_ok(p@) || pattern_match(p@, i.title@),
    }
}

/// The selection predicate: an issue is a candidate when it was never
/// requested before, nobody holds it, and it satisfies the rule's required
/// labels, excluded labels, and title pattern.
pub open spec fn eligible(i: Issue, rule: Repository, processed: ProcessedSet) -> bool {
    &&& !processed.spec_contains(i.id)
    &&& !i.assigned
    &&& required_labels_ok(i, rule)
    &&& excluded_labels_ok(i, rule)
    &&& title_ok(i, rule)
}

/// The fairness order on candidates: older creation time first, ties
/// broken deterministically by identifier.
pub open spec fn ranked_before(a: Issue, b: Issue) -> bool {
    a.created_at < b.created_at || (a.created_at == b.created_at && a.id <= b.id)
}

fn labels_contain(labels: &Vec<Label>, name: &String) -> (r: bool)
    ensures
        r == has_label(labels@, name@),
{
    let mut k: usize = 0;
    while k < labels.len()
        invariant
            k <= labels.len(),
            forall|i: int| 0 <= i < k ==> labels@[i].name@ != name@,
        decreases labels.len() - k,
    {
        if labels[k].name == *name {
            assert(has_label(labels@, name@));
            return true;
        }
        k += 1;
    }
    false
}

/// Decide the selection predicate for one issue.
pub fn issue_eligible(i: &Issue, rule: &Repository, processed: &ProcessedSet) -> (r: bool)
    ensures
        r == eligible(*i, *rule, *processed),
{
    if processed.contains(i.id) {
        return false;
    }
    if i.assigned {
        return false;
    }
    let mut k: usize = 0;
    while k < rule.labels.len()
        invariant
            k <= rule.labels.len(),
            forall|j: int| 0 <= j < k ==> has_label(i.labels@, rule.labels@[j]@),
        decreases rule.labels.len() - k,
    {
        if !labels_contain(&i.labels, &rule.labels[k]) {
            return false;
        }
        k += 1;
    }
    let mut k: usize = 0;
    while k < rule.exclude_labels.len()
        invariant
            k <= rule.exclude_labels.len(),
            forall|j: int| 0 <= j < k ==> !has_label(i.labels@, rule.exclude_labels@[j]@),
        decreases rule.exclude_labels.len() - k,
    {
        if labels_contain(&i.labels, &rule.exclude_labels[k]) {
            return false;
        }
        k += 1;
    }
    match &rule.title_regex {
        None => true,
        Some(p) => match regex_check(p.as_str(), i.title.as_str()) {
            Some(m) => m,
            None => true,
        },
    }
}

/// The candidate list is in fairness order: oldest creation time first.
pub open spec fn sorted_by_rank(s: Seq<Issue>) -> bool {
    forall|i: int, j: int| 0 <= i < j < s.len() ==> ranked_before(s[i], s[j])
}

fn rank_at_most(v: &Vec<Issue>, pos: usize, x: &Issue) -> (r: bool)
    requires
        pos < v@.len(),
    ensures
        r == ranked_before(v@[pos as int], *x),
{
    let a = &v[pos];
    a.created_at < x.created_at || (a.created_at == x.created_at && a.id <= x.id)
}

fn insertion_point(v: &Vec<Issue>, x: &Issue) -> (pos: usize)
    ensures
        pos <= v@.len(),
        forall|j: int| 0 <= j < pos ==> ranked_before(v@[j], *x),
        pos < v@.len() ==> !ranked_before(v@[pos as int], *x),
{
    let mut pos: usize = 0;
    while pos < v.len() && rank_at_most(v, pos, x)
        invariant
            pos <= v.len(),
            forall|j: int| 0 <= j < pos ==> ranked_before(v@[j], *x),
        decreases v.len() - pos,
    {
        pos += 1;
    }
    pos
}

proof fn lemma_insert_facts(s: Seq<Issue>, pos: int, x: Issue)
    requires
        0 <= pos <= s.len(),
    ensures
        s.insert(pos, x).len() == s.len() + 1,
        forall|i: int| 0 <= i < pos ==> #[trigger] s.insert(pos, x)[i] == s[i],
        forall|i: int| pos <= i < s.len() ==> s.insert(pos, x)[i + 1] == s[i],
        s.insert(pos, x)[pos] == x,
        forall|y: Issue| #[trigger] s.insert(pos, x).contains(y) <==> s.contains(y) || y == x,
{
    s.insert_ensures(pos, x);
    let t = s.insert(pos, x);
    assert forall|y: Issue| #[trigger] t.contains(y) <==> s.contains(y) || y == x by {
        if t.contains(y) {
            let i = choose|i: int| 0 <= i < t.len() && t[i] == y;
            if i < pos {
                assert(s[i] == y);
            } else if i == pos {
                assert(y == x);
            } else {
                assert(t[(i - 1) + 1] == s[i - 1]);
                assert(s[i - 1] == y);
            }
        }
        if s.contains(y) {
            let i = choose|i: int| 0 <= i < s.len() && s[i] == y;
            if i < pos {
                assert(t[i] == y);
            } else {
                assert(t[i + 1] == y);
            }
        }
        assert(t[pos] == x);
    }
}

proof fn lemma_insert_to_multiset(s: Seq<Issue>, pos: int, x: Issue)
    requires
        0 <= pos <= s.len(),
    ensures
        s.insert(pos, x).to_multiset() == s.to_multiset().insert(x),
{
    broadcast use vstd::multiset::group_multiset_axioms;

    let a = s.subrange(0, pos);
    let b = s.subrange(pos, s.len() as int);
    assert(s.insert(pos, x) == a.push(x) + b);
    vstd::seq_lib::lemma_multiset_commutative(a.push(x), b);
    vstd::seq_lib::to_multiset_build(a, x);
    assert(a + b =~= s);
    vstd::seq_lib::lemma_multiset_commutative(a, b);
    assert(s.insert(pos, x).to_multiset() =~= s.to_multiset().insert(x));
}

/// Produce the ordered candidate list for one repository scan: exactly the
/// eligible issues, oldest creation time first, ties broken by identifier.
pub fn rank_candidates(issues: Vec<Issue>, rule: &Repository, processed: &ProcessedSet) -> (r:
    Vec<Issue>)
    ensures
        sorted_by_rank(r@),
        forall|k: int|
            0 <= k < r@.len() ==> eligible(r@[k], *rule, *processed) && issues@.contains(r@[k]),
        forall|k: int|
            0 <= k < issues@.len() && eligible(issues@[k], *rule, *processed) ==> r@.contains(
                issues@[k],
            ),
        forall|x: Issue|
            #[trigger] r@.to_multiset().count(x) <= issues@.to_multiset().count(x),
{
    let ghost orig = issues@;
    let mut rest = issues;
    let mut out: Vec<Issue> = Vec::new();
    let ghost mut done: Seq<Issue> = Seq::empty();
    while rest.len() > 0
        invariant
            orig == done + rest@,
            sorted_by_rank(out@),
            forall|k: int|
                0 <= k < out@.len() ==> eligible(out@[k], *rule, *processed) && done.contains(
                    out@[k],
                ),
            forall|k: int|
                0 <= k < done.len() && eligible(done[k], *rule, *processed) ==> out@.contains(
                    done[k],
                ),
            forall|x: Issue|
                #[trigger] out@.to_multiset().count(x) <= done.to_multiset().count(x),
        decreases rest.len(),
    {
        let ghost prev_rest = rest@;
        let ghost prev_done = done;
        let x = rest.remove(0);
        proof {
            prev_rest.remove_ensures(0);
            assert(prev_done.push(x) + rest@ =~= prev_done + prev_rest);
            done = prev_done.push(x);
            vstd::seq_lib::lemma_seq_contains_after_push(prev_done, x, x);
            assert forall|y: Issue| prev_done.contains(y) implies done.contains(y) by {
                vstd::seq_lib::lemma_seq_contains_after_push(prev_done, x, y);
            }
            vstd::seq_lib::to_multiset_build(prev_done, x);
        }
        if issue_eligible(&x, rule, processed) {
            let ghost prev_out = out@;
            let pos = insertion_point(&out, &x);
            out.insert(pos, x);
            proof {
                broadcast use vstd::multiset::group_multiset_axioms;
                broadcast use vstd::multiset::group_multiset_properties;

                lemma_insert_facts(prev_out, pos as int, x);
                lemma_insert_to_multiset(prev_out, pos as int, x);
                assert forall|y: Issue|
                    #[trigger] out@.to_multiset().count(y) <= done.to_multiset().count(y) by {
                    assert(out@.to_multiset().count(y) == prev_out.to_multiset().count(y) + (
                    if y == x {
                        1nat
                    } else {
                        0nat
                    }));
                    assert(done.to_multiset().count(y) == prev_done.to_multiset().count(y) + (
                    if y == x {
                        1nat
                    } else {
                        0nat
                    }));
                }
                assert forall|i: int, j: int|
                    0 <= i < j < out@.len() implies ranked_before(out@[i], out@[j]) by {
                    if j < pos {
                    } else if j == pos {
                        assert(out@[j] == x);
                        assert(out@[i] == prev_out[i]);
                    } else {
                        assert(out@[(j - 1) + 1] == prev_out[j - 1]);
                        if i < pos {
                            assert(out@[i] == prev_out[i]);
                        } else if i == pos {
                            assert(out@[i] == x);
                            assert(!ranked_before(prev_out[pos as int], x));
                            if pos < j - 1 {
                                assert(ranked_before(prev_out[pos as int], prev_out[j - 1]));
                            }
                        } else {
                            assert(out@[(i - 1) + 1] == prev_out[i - 1]);
                        }
                    }
                }
            }
        } else {
            proof {
                broadcast use vstd::multiset::group_multiset_axioms;
                broadcast use vstd::multiset::group_multiset_properties;

                assert forall|y: Issue|
                    #[trigger] out@.to_multiset().count(y) <= done.to_multiset().count(y) by {
                    assert(done.to_multiset().count(y) == prev_done.to_multiset().count(y) + (
                    if y == x {
                        1nat
                    } else {
                        0nat
                    }));
                }
                assert forall|k: int|
                    0 <= k < done.len() && eligible(done[k], *rule, *processed)
                        implies out@.contains(done[k]) by {
                    if k < done.len() - 1 {
                        assert(done[k] == prev_done[k]);
                    } else {
                        assert(done[k] == x);
                    }
                }
            }
        }
        proof {
            assert(orig =~= done + rest@);
        }
    }
    proof {
        assert(done =~= orig);
    }
    out
}

/// One repository scan's decision: the single oldest eligible issue, or
/// nothing when no issue is eligible.
pub fn select_candidate(issues: Vec<Issue>, rule: &Repository, processed: &ProcessedSet) -> (r:
    Option<Issue>)
    ensures
        r matches Some(i) ==> eligible(i, *rule, *processed) && issues@.contains(i) && (forall|
            k: int,
        |
            0 <= k < issues@.len() && eligible(issues@[k], *rule, *processed) ==> ranked_before(
                i,
                issues@[k],
            )),
        r is None ==> forall|k: int|
            0 <= k < issues@.len() ==> !eligible(issues@[k], *rule, *processed),
{
    let ghost iseq = issues@;
    let mut ranked = rank_candidates(issues, rule, processed);
    if ranked.len() > 0 {
        let ghost rseq = ranked@;
        let first = ranked.remove(0);
        proof {
            assert(first == rseq[0]);
            assert forall|k: int|
                0 <= k < iseq.len() && eligible(iseq[k], *rule, *processed) implies ranked_before(
                first,
                iseq[k],
            ) by {
                assert(rseq.contains(iseq[k]));
                let m = choose|m: int| 0 <= m < rseq.len() && rseq[m] == iseq[k];
                if m > 0 {
                    assert(ranked_before(rseq[0], rseq[m]));
                }
            }
        }
        Some(first)
    } else {
        None
    }
}

/// Law: the filter never selects an issue that is assigned, that lacks a
/// required label, or that carries an excluded label.
pub proof fn lemma_filter_rejects(i: Issue, rule: Repository, processed: ProcessedSet)
    ensures
        i.assigned ==> !eligible(i, rule, processed),
        !required_labels_ok(i, rule) ==> !eligible(i, rule, processed),
        !excluded_labels_ok(i, rule) ==> !eligible(i, rule, processed),
{
}

/// Law: no duplicate requests: an identifier in the processed set is never
/// eligible again, even after its original request's cooldown expired.
pub proof fn lemma_no_duplicate(i: Issue, rule: Repository, processed: ProcessedSet)
    ensures
        processed.spec_contains(i.id) ==> !eligible(i, rule, processed),
{
}

} // verus!
