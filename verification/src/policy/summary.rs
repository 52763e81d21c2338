use vstd::prelude::*;
use vstd::string::*;
use crate::common::counts::{bump_count, counts_of, keys_sorted, map_view};
use crate::common::diagnostics::diagnostics_text;
use crate::common::text::{dec, push_dec};
use crate::packet::summary::{count_lines, push_count_lines};
use crate::policy::analyze::{analyze_policy, order_score_upto, rule_order_score, spec_analyze};
use crate::policy::model::{FwView, LocalPolicy, PolicyAction, PolicyActionView, fw_views};

verus! {

/// Totals over a policy's rules. Chain counts are kept in key order, each chain once.
#[derive(Debug, Clone, PartialEq, Eq)]
pub struct PolicySummary {
    pub rule_count: usize,
    pub chain_counts: Vec<(String, usize)>,
    pub accepts: usize,
    pub drops: usize,
    pub rejects: usize,
    pub order_score: u8,
    pub diagnostics: String,
}

/// How many rules have the action.
pub open spec fn count_action(rs: Seq<FwView>, a: PolicyActionView) -> nat
    decreases rs.len(),
{
    if rs.len() == 0 {
        0
    } else {
        count_action(rs.drop_last(), a) + if rs.last().action == a {
            1nat
        } else {
            0nat
        }
    }
}

pub open spec fn chain_keys(rs: Seq<FwView>) -> Seq<Seq<char>> {
    rs.map_values(|r: FwView| r.chain)
}

proof fn lemma_count_action_le(rs: Seq<FwView>, a: PolicyActionView)
    ensures
        count_action(rs, a) <= rs.len(),
    decreases rs.len(),
{
    if rs.len() > 0 {
        lemma_count_action_le(rs.drop_last(), a);
    }
}

/// Counts the rules by chain and by action, scores their order, and renders the audit's
/// findings.
pub fn summarize_policy(policy: &LocalPolicy) -> (r: PolicySummary)
    ensures
        ({
            let rv = policy@.rules;
            &&& r.rule_count == rv.len()
            &&& counts_of(map_view(r.chain_counts@), chain_keys(rv))
            &&& r.accepts == count_action(rv, PolicyActionView::Accept)
            &&& r.drops == count_action(rv, PolicyActionView::Drop)
            &&& r.rejects == count_action(rv, PolicyActionView::Reject)
            &&& r.order_score == order_score_upto(rv, rv.len() as int)
            &&& r.diagnostics@ == diagnostics_text(spec_analyze(rv))
        }),
{
    let ghost rv = policy@.rules;
    let rules = &policy.rules;
    let mut chain_counts: Vec<(String, usize)> = Vec::new();
    let mut accepts: usize = 0;
    let mut drops: usize = 0;
    let mut rejects: usize = 0;
    let mut i: usize = 0;
    assert(map_view(chain_counts@) =~= Seq::<(Seq<char>, usize)>::empty());
    assert(chain_keys(rv.take(0)) =~= Seq::<Seq<char>>::empty());
    while i < rules.len()
        invariant
            i <= rules@.len(),
            rv == fw_views(rules@),
            counts_of(map_view(chain_counts@), chain_keys(rv.take(i as int))),
            accepts == count_action(rv.take(i as int), PolicyActionView::Accept),
            drops == count_action(rv.take(i as int), PolicyActionView::Drop),
            rejects == count_action(rv.take(i as int), PolicyActionView::Reject),
        decreases rules@.len() - i,
    {
        let rule = &rules[i];
        let ghost pre = rv.take(i as int);
        let ghost post = rv.take(i + 1);
        assert(post.drop_last() =~= pre);
        assert(post.last() == rule@);
        assert(chain_keys(post) =~= chain_keys(pre).push(rule@.chain));
        assert(chain_keys(pre).len() == i);
        proof {
            lemma_count_action_le(pre, PolicyActionView::Accept);
            lemma_count_action_le(pre, PolicyActionView::Drop);
            lemma_count_action_le(pre, PolicyActionView::Reject);
        }
        bump_count(&mut chain_counts, rule.chain.clone(), Ghost(chain_keys(pre)));
        match rule.action {
            PolicyAction::Accept => {
                accepts = accepts + 1;
            },
            PolicyAction::Drop => {
                drops = drops + 1;
            },
            PolicyAction::Reject => {
                rejects = rejects + 1;
            },
            _ => {},
        }
        i = i + 1;
    }
    assert(rv.take(rules@.len() as int) =~= rv);
    let diagnostics = analyze_policy(policy).render_text();
    PolicySummary {
        rule_count: rules.len(),
        chain_counts,
        accepts,
        drops,
        rejects,
        order_score: rule_order_score(rules.as_slice()),
        diagnostics,
    }
}

pub open spec fn policy_summary_text(s: PolicySummary) -> Seq<char> {
    "rules: "@ + dec(s.rule_count as nat) + "\n"@ + "accept: "@ + dec(s.accepts as nat)
        + " drop: "@ + dec(s.drops as nat) + " reject: "@ + dec(s.rejects as nat) + "\n"@
        + "order score: "@ + dec(s.order_score as nat) + "\n"@ + "chains:\n"@ + count_lines(
        map_view(s.chain_counts@),
    ) + if s.diagnostics@.len() > 0 {
        "diagnostics:\n"@ + s.diagnostics@
    } else {
        Seq::empty()
    }
}

impl PolicySummary {
    /// A text report: counts, order score, chains in key order, and the findings where
    /// there are any. The chain counts are a map: sorted by key, each key once.
    pub fn render_text(&self) -> (r: String)
        requires
            keys_sorted(map_view(self.chain_counts@)),
        ensures
            r@ == policy_summary_text(*self),
    {
        let mut out = String::from_str("rules: ");
        push_dec(&mut out, self.rule_count as u64);
        out.append("\n");
        out.append("accept: ");
        push_dec(&mut out, self.accepts as u64);
        out.append(" drop: ");
        push_dec(&mut out, self.drops as u64);
        out.append(" reject: ");
        push_dec(&mut out, self.rejects as u64);
        out.append("\n");
        out.append("order score: ");
        push_dec(&mut out, self.order_score as u64);
        out.append("\n");
        out.append("chains:\n");
        push_count_lines(&mut out, &self.chain_counts, self.chain_counts.len());
        proof {
            assert(map_view(self.chain_counts@).len() == self.chain_counts@.len());
        }
        if !self.diagnostics.as_str().is_empty() {
            out.append("diagnostics:\n");
            out.append(self.diagnostics.as_str());
        }
        assert(out@ =~= policy_summary_text(*self));
        out
    }
}

} // verus!
