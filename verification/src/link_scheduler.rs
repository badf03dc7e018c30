//! When the link scheduler applies a rule, and what it records of a run.
use vstd::prelude::*;
use crate::api_server::{AppState, can_count_run, status_after_run};
use crate::graph::join;
use crate::link_manager_cli::{LinkRuleResult, ResultModel};
use crate::linker::LinkRule;
use crate::text::push_str_chars;

verus! {

/// Whether a rule is due: a rule not run yet is due where it links at
/// startup; a rule that ran is due again once `relink_every` seconds have
/// passed, and never where that is 0 (link once only).
pub open spec fn rule_due(link_at_startup: bool, relink_every: u64, elapsed_since_last: Option<u64>) -> bool {
    match elapsed_since_last {
        None => link_at_startup,
        Some(e) => relink_every != 0 && e >= relink_every,
    }
}

/// Whether the scheduler applies `rule` now, given the whole seconds passed
/// since it last applied it (`None` where it never did).
pub fn should_apply(rule: &LinkRule, elapsed_since_last: Option<u64>) -> (r: bool)
    ensures
        r == rule_due(rule.link_at_startup, rule.relink_every, elapsed_since_last),
{
    match elapsed_since_last {
        None => rule.link_at_startup,
        Some(e) => rule.relink_every != 0 && e >= rule.relink_every,
    }
}

pub open spec fn results_view(rs: Seq<LinkRuleResult>) -> Seq<ResultModel> {
    rs.map_values(|r: LinkRuleResult| r@)
}

/// How many of the results succeeded.
pub open spec fn succeeded(rs: Seq<ResultModel>) -> nat
    decreases rs.len(),
{
    if rs.len() == 0 {
        0
    } else {
        succeeded(rs.drop_last()) + if rs.last().success {
            1nat
        } else {
            0nat
        }
    }
}

/// The messages of the results that failed, in order.
pub open spec fn failure_messages(rs: Seq<ResultModel>) -> Seq<Seq<char>>
    decreases rs.len(),
{
    if rs.len() == 0 {
        seq![]
    } else if rs.last().success {
        failure_messages(rs.drop_last())
    } else {
        failure_messages(rs.drop_last()).push(rs.last().message)
    }
}

/// What a run of a rule comes to.
#[derive(Debug, Clone)]
pub struct RunSummary {
    pub succeeded: usize,
    pub failed: usize,
    /// The failures' messages joined by `; `, where any failed.
    pub error: Option<String>,
}

proof fn lemma_counts(rs: Seq<ResultModel>)
    ensures
        succeeded(rs) + failure_messages(rs).len() == rs.len(),
    decreases rs.len(),
{
    if rs.len() > 0 {
        lemma_counts(rs.drop_last());
    }
}

/// Count the results that succeeded and failed, and join the failures'
/// messages with `; `.
pub fn summarize(results: &[LinkRuleResult]) -> (r: RunSummary)
    ensures
        r.succeeded == succeeded(results_view(results@)),
        r.failed == failure_messages(results_view(results@)).len(),
        r.succeeded + r.failed == results@.len(),
        match r.error {
            Some(e) => r.failed > 0 && e@ == join(failure_messages(results_view(results@)), "; "@),
            None => r.failed == 0,
        },
{
    let ghost rv = results_view(results@);
    let mut ok: usize = 0;
    let mut failed: usize = 0;
    let mut msg = String::new();
    let mut i: usize = 0;
    while i < results.len()
        invariant
            i <= results.len(),
            rv == results_view(results@),
            ok == succeeded(rv.take(i as int)),
            failed == failure_messages(rv.take(i as int)).len(),
            msg@ == join(failure_messages(rv.take(i as int)), "; "@),
            ok + failed == i,
        decreases results.len() - i,
    {
        assert(rv.take(i + 1).drop_last() =~= rv.take(i as int));
        assert(rv.take(i + 1).last() == results@[i as int]@);
        if results[i].success {
            ok = ok + 1;
        } else {
            if failed > 0 {
                push_str_chars(&mut msg, "; ");
            }
            push_str_chars(&mut msg, results[i].message.as_str());
            proof {
                let fm = failure_messages(rv.take(i as int));
                let fm2 = failure_messages(rv.take(i + 1));
                assert(fm2 == fm.push(results@[i as int].message@));
                assert(fm2.drop_last() == fm);
                if fm.len() == 0 {
                    assert(msg@ =~= join(fm2, "; "@));
                } else {
                    assert(msg@ =~= join(fm2, "; "@));
                }
            }
            failed = failed + 1;
        }
        i = i + 1;
    }
    assert(rv.take(rv.len() as int) =~= rv);
    proof {
        lemma_counts(rv);
    }
    let error = if failed > 0 {
        Some(msg)
    } else {
        None
    };
    RunSummary { succeeded: ok, failed, error }
}

/// Record a run of rule `idx` in the rule statuses: the summary of its
/// results, or no link created or failed and the error where it could not be
/// applied at all.
pub fn record_run(state: &mut AppState, idx: usize, outcome: &Result<Vec<LinkRuleResult>, String>)
    requires
        can_count_run(old(state)@.rule_status, idx),
    ensures
        final(state)@.rule_status.contains_key(idx),
        final(state)@.rule_status[idx].last_run is Some,
        final(state)@.link_rules == old(state)@.link_rules,
        final(state)@.object_cache == old(state)@.object_cache,
        match outcome {
            Ok(results) => final(state)@.rule_status == old(state)@.rule_status.insert(
                idx,
                status_after_run(
                    old(state)@.rule_status,
                    idx,
                    final(state)@.rule_status[idx].last_run->Some_0,
                    succeeded(results_view(results@)) as usize,
                    failure_messages(results_view(results@)).len() as usize,
                    if failure_messages(results_view(results@)).len() > 0 {
                        Some(join(failure_messages(results_view(results@)), "; "@))
                    } else {
                        None
                    },
                ),
            ),
            Err(e) => final(state)@.rule_status == old(state)@.rule_status.insert(
                idx,
                status_after_run(
                    old(state)@.rule_status,
                    idx,
                    final(state)@.rule_status[idx].last_run->Some_0,
                    0,
                    0,
                    Some(e@),
                ),
            ),
        },
{
    match outcome {
        Ok(results) => {
            let s = summarize(results.as_slice());
            state.update_rule_status(idx, s.succeeded, s.failed, s.error);
        },
        Err(e) => {
            state.update_rule_status(idx, 0, 0, Some(e.clone()));
        },
    }
}

/// The positions of the rules applied at startup: those that link at startup.
pub fn startup_rule_indices(rules: &[LinkRule]) -> (r: Vec<usize>)
    ensures
        forall|k: int| 0 <= k < r@.len() ==> r@[k] < rules@.len() && rules@[r@[k] as int].link_at_startup,
        forall|j: int| 0 <= j < rules@.len() && #[trigger] rules@[j].link_at_startup ==> r@.contains(j as usize),
        forall|a: int, b: int| 0 <= a < b < r@.len() ==> r@[a] < r@[b],
{
    let mut out: Vec<usize> = Vec::new();
    let mut i: usize = 0;
    while i < rules.len()
        invariant
            i <= rules.len(),
            forall|k: int| 0 <= k < out@.len() ==> out@[k] < i && rules@[out@[k] as int].link_at_startup,
            forall|j: int| 0 <= j < i && #[trigger] rules@[j].link_at_startup ==> out@.contains(j as usize),
            forall|a: int, b: int| 0 <= a < b < out@.len() ==> out@[a] < out@[b],
        decreases rules.len() - i,
    {
        if rules[i].link_at_startup {
            let ghost before = out@;
            out.push(i);
            assert forall|j: int| 0 <= j < i + 1 && #[trigger] rules@[j].link_at_startup implies out@.contains(j as usize) by {
                if j < i {
                    assert(before.contains(j as usize));
                    let w = choose|w: int| 0 <= w < before.len() && before[w] == j as usize;
                    assert(out@[w] == j as usize);
                } else {
                    assert(out@[out@.len() - 1] == j as usize);
                }
            }
        }
        i = i + 1;
    }
    out
}

} // verus!
