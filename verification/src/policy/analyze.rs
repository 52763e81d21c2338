use vstd::prelude::*;
use vstd::string::*;
use crate::common::catalog::{port_exposure_score, spec_port_exposure_score};
use crate::common::diagnostics::{DiagView, Diagnostic, DiagnosticSet, diag_views, finding_at};
use crate::common::status::Severity;
use crate::common::text::{chars_eq, chars_of, dec, push_dec};
use crate::policy::model::{
    FirewallRule, FwView, LocalPolicy, PolicyAction, PolicyActionView, fw_views, spec_overlaps,
    spec_rule_key,
};

verus! {

// ---------------------------------------------------------------------
// Duplicates
// ---------------------------------------------------------------------

/// The last rule with the given key.
pub open spec fn last_same_key(rs: Seq<FwView>, k: Seq<char>) -> Option<int>
    decreases rs.len(),
{
    if rs.len() == 0 {
        None
    } else if spec_rule_key(rs.last()) == k {
        Some(rs.len() - 1)
    } else {
        last_same_key(rs.drop_last(), k)
    }
}

pub proof fn lemma_last_same_key(rs: Seq<FwView>, k: Seq<char>)
    ensures
        last_same_key(rs, k) matches Some(j) ==> 0 <= j < rs.len(),
    decreases rs.len(),
{
    if rs.len() > 0 {
        lemma_last_same_key(rs.drop_last(), k);
    }
}

/// Each rule whose key an earlier rule has, reported against the latest such rule.
pub open spec fn duplicate_findings(rs: Seq<FwView>) -> Seq<DiagView>
    decreases rs.len(),
{
    if rs.len() == 0 {
        Seq::empty()
    } else {
        let r = rs.last();
        duplicate_findings(rs.drop_last()) + match last_same_key(
            rs.drop_last(),
            spec_rule_key(r),
        ) {
            Some(j) => seq![
                finding_at(
                    Severity::Low,
                    "policy.rule.duplicate"@,
                    "rule "@ + dec(r.index as nat) + " duplicates rule "@ + dec(
                        rs[j].index as nat,
                    ),
                    r.index,
                ),
            ],
            None => Seq::empty(),
        }
    }
}

fn detect_duplicates(policy: &LocalPolicy, set: &mut DiagnosticSet)
    ensures
        diag_views(final(set)@) == diag_views(old(set)@) + duplicate_findings(policy@.rules),
{
    let ghost rv = policy@.rules;
    let ghost start = diag_views(set@);
    let rules = &policy.rules;
    let mut keys: Vec<Vec<char>> = Vec::new();
    let mut i: usize = 0;
    assert(rv.take(0) =~= Seq::<FwView>::empty());
    assert(start =~= start + duplicate_findings(rv.take(0)));
    while i < rules.len()
        invariant
            i <= rules@.len(),
            rv == fw_views(rules@),
            keys@.len() == i,
            forall|k: int| 0 <= k < i ==> (#[trigger] keys@[k])@ == spec_rule_key(rv[k]),
            diag_views(set@) == start + duplicate_findings(rv.take(i as int)),
        decreases rules@.len() - i,
    {
        let rule = &rules[i];
        let ghost pre = rv.take(i as int);
        let ghost before = diag_views(set@);
        assert(rv.take(i + 1).drop_last() =~= pre);
        assert(rv.take(i + 1).last() == rule@);
        let key = chars_of(rule.normalized_key().as_str());
        let mut j: usize = keys.len();
        let mut found: Option<usize> = None;
        assert(pre.take(j as int) =~= pre);
        while j > 0 && found.is_none()
            invariant
                j <= i,
                i < rules@.len(),
                rv == fw_views(rules@),
                keys@.len() == i,
                pre == rv.take(i as int),
                forall|k: int| 0 <= k < i ==> (#[trigger] keys@[k])@ == spec_rule_key(rv[k]),
                found is None ==> last_same_key(pre, key@) == last_same_key(pre.take(j as int), key@),
                found matches Some(f) ==> last_same_key(pre, key@) == Some(f as int),
            decreases j + (if found is None { 1int } else { 0int }),
        {
            let ghost pj = pre.take(j as int);
            assert(pj.drop_last() =~= pre.take(j - 1));
            assert(pj.last() == rv[j - 1]);
            if chars_eq(keys[j - 1].as_slice(), key.as_slice()) {
                found = Some(j - 1);
            } else {
                j = j - 1;
            }
        }
        if found.is_none() {
            assert(pre.take(j as int) =~= Seq::<FwView>::empty());
        }
        proof {
            lemma_last_same_key(pre, key@);
        }
        match found {
            Some(f) => {
                let mut m = String::from_str("rule ");
                push_dec(&mut m, rule.index as u64);
                m.append(" duplicates rule ");
                push_dec(&mut m, rules[f].index as u64);
                let d = Diagnostic::new(Severity::Low, "policy.rule.duplicate", m.as_str()).at(
                    rule.index,
                );
                set.push(d);
                assert(pre[f as int] == rv[f as int]);
                assert(diag_views(set@) =~= before + seq![d@]);
            },
            None => {
                assert(diag_views(set@) =~= before + Seq::<DiagView>::empty());
            },
        }
        keys.push(key);
        assert(keys@[i as int]@ == spec_rule_key(rv[i as int]));
        i = i + 1;
    }
    assert(rv.take(rules@.len() as int) =~= rv);
}

// ---------------------------------------------------------------------
// Shadowed rules
// ---------------------------------------------------------------------

/// The action ends the walk through the chain.
pub open spec fn terminal(a: PolicyActionView) -> bool {
    a is Accept || a is Drop || a is Reject
}

pub open spec fn shadows(p: FwView, r: FwView) -> bool {
    spec_overlaps(p, r) && terminal(p.action)
}

/// The first of the earlier rules that overlaps `r` and ends the walk.
pub open spec fn first_shadow(prev: Seq<FwView>, r: FwView) -> Option<int>
    decreases prev.len(),
{
    if prev.len() == 0 {
        None
    } else if shadows(prev[0], r) {
        Some(0)
    } else {
        match first_shadow(prev.skip(1), r) {
            Some(k) => Some(k + 1),
            None => None,
        }
    }
}

proof fn lemma_first_shadow(prev: Seq<FwView>, r: FwView, j: int)
    requires
        0 <= j <= prev.len(),
        j < prev.len() ==> shadows(prev[j], r),
        forall|k: int| 0 <= k < j ==> !shadows(#[trigger] prev[k], r),
    ensures
        first_shadow(prev, r) == (if j < prev.len() {
            Some(j)
        } else {
            None::<int>
        }),
    decreases j,
{
    if j > 0 {
        let t = prev.skip(1);
        assert forall|k: int| 0 <= k < j - 1 implies !shadows(#[trigger] t[k], r) by {
            assert(t[k] == prev[k + 1]);
        }
        if j < prev.len() {
            assert(t[j - 1] == prev[j]);
        }
        assert(!shadows(prev[0], r));
        lemma_first_shadow(t, r, j - 1);
    } else if prev.len() == 0 {
    }
}

/// Each rule that an earlier overlapping accept, drop or reject may hide, reported
/// against the first such rule.
pub open spec fn shadow_findings(rs: Seq<FwView>) -> Seq<DiagView>
    decreases rs.len(),
{
    if rs.len() == 0 {
        Seq::empty()
    } else {
        let r = rs.last();
        shadow_findings(rs.drop_last()) + match first_shadow(rs.drop_last(), r) {
            Some(j) => seq![
                finding_at(
                    Severity::Medium,
                    "policy.rule.shadowed"@,
                    "rule "@ + dec(r.index as nat) + " may be shadowed by rule "@ + dec(
                        rs[j].index as nat,
                    ),
                    r.index,
                ),
            ],
            None => Seq::empty(),
        }
    }
}

fn terminal_action(action: &PolicyAction) -> (r: bool)
    ensures
        r == terminal(action@),
{
    match action {
        PolicyAction::Accept | PolicyAction::Drop | PolicyAction::Reject => true,
        _ => false,
    }
}

fn detect_shadowed_rules(policy: &LocalPolicy, set: &mut DiagnosticSet)
    ensures
        diag_views(final(set)@) == diag_views(old(set)@) + shadow_findings(policy@.rules),
{
    let ghost rv = policy@.rules;
    let ghost start = diag_views(set@);
    let rules = &policy.rules;
    let mut i: usize = 0;
    assert(rv.take(0) =~= Seq::<FwView>::empty());
    assert(start =~= start + shadow_findings(rv.take(0)));
    while i < rules.len()
        invariant
            i <= rules@.len(),
            rv == fw_views(rules@),
            diag_views(set@) == start + shadow_findings(rv.take(i as int)),
        decreases rules@.len() - i,
    {
        let rule = &rules[i];
        let ghost pre = rv.take(i as int);
        let ghost before = diag_views(set@);
        assert(rv.take(i + 1).drop_last() =~= pre);
        assert(rv.take(i + 1).last() == rule@);
        let mut j: usize = 0;
        while j < i && !(rules[j].overlaps(rule) && terminal_action(&rules[j].action))
            invariant
                j <= i < rules@.len(),
                rv == fw_views(rules@),
                pre == rv.take(i as int),
                forall|k: int| 0 <= k < j ==> !shadows(#[trigger] pre[k], rule@),
            decreases i - j,
        {
            assert(pre[j as int] == rules@[j as int]@);
            j = j + 1;
        }
        if j < i {
            assert(pre[j as int] == rules@[j as int]@);
        }
        proof {
            lemma_first_shadow(pre, rule@, j as int);
        }
        if j < i {
            let mut m = String::from_str("rule ");
            push_dec(&mut m, rule.index as u64);
            m.append(" may be shadowed by rule ");
            push_dec(&mut m, rules[j].index as u64);
            let d = Diagnostic::new(Severity::Medium, "policy.rule.shadowed", m.as_str()).at(
                rule.index,
            );
            set.push(d);
            assert(diag_views(set@) =~= before + seq![d@]);
        } else {
            assert(diag_views(set@) =~= before + Seq::<DiagView>::empty());
        }
        i = i + 1;
    }
    assert(rv.take(rules@.len() as int) =~= rv);
}

// ---------------------------------------------------------------------
// Exposed services and broad accepts
// ---------------------------------------------------------------------

/// An accept from any source to a port whose service scores 45 or more (70 or more is
/// high).
pub open spec fn exposure_finding(r: FwView) -> Seq<DiagView> {
    if r.action is Accept && r.source is None && r.destination_port is Some {
        let port = r.destination_port->0;
        let proto = match r.protocol {
            Some(p) => p,
            None => "tcp"@,
        };
        let score = spec_port_exposure_score(port, proto);
        let what = proto + "/"@ + dec(port as nat) + " allowed from any source"@;
        if score >= 70 {
            seq![
                finding_at(
                    Severity::High,
                    "policy.exposure.service"@,
                    "high exposure service "@ + what,
                    r.index,
                ),
            ]
        } else if score >= 45 {
            seq![
                finding_at(
                    Severity::Medium,
                    "policy.exposure.service"@,
                    "sensitive service "@ + what,
                    r.index,
                ),
            ]
        } else {
            Seq::empty()
        }
    } else {
        Seq::empty()
    }
}

/// An accept with no source, destination or destination port.
pub open spec fn default_finding(r: FwView) -> Seq<DiagView> {
    if r.source is None && r.destination is None && r.destination_port is None
        && r.action is Accept {
        seq![
            finding_at(
                Severity::High,
                "policy.default.accept"@,
                "chain "@ + r.chain + " contains broad accept"@,
                r.index,
            ),
        ]
    } else {
        Seq::empty()
    }
}

pub open spec fn exposure_findings(rs: Seq<FwView>) -> Seq<DiagView>
    decreases rs.len(),
{
    if rs.len() == 0 {
        Seq::empty()
    } else {
        exposure_findings(rs.drop_last()) + exposure_finding(rs.last())
    }
}

pub open spec fn default_findings(rs: Seq<FwView>) -> Seq<DiagView>
    decreases rs.len(),
{
    if rs.len() == 0 {
        Seq::empty()
    } else {
        default_findings(rs.drop_last()) + default_finding(rs.last())
    }
}

fn exposure_of(rule: &FirewallRule, set: &mut DiagnosticSet)
    ensures
        diag_views(final(set)@) == diag_views(old(set)@) + exposure_finding(rule@),
{
    let ghost before = diag_views(set@);
    let accept = match rule.action {
        PolicyAction::Accept => true,
        _ => false,
    };
    if accept && rule.source.is_none() {
        match rule.destination_port {
            Some(port) => {
                let proto = match &rule.protocol {
                    Some(p) => p.clone(),
                    None => String::from_str("tcp"),
                };
                let score = port_exposure_score(port, proto.as_str());
                let mut what = proto.clone();
                what.append("/");
                push_dec(&mut what, port as u64);
                what.append(" allowed from any source");
                if score >= 70 {
                    let mut m = String::from_str("high exposure service ");
                    m.append(what.as_str());
                    let d = Diagnostic::new(Severity::High, "policy.exposure.service", m.as_str()).at(
                        rule.index,
                    );
                    set.push(d);
                    assert(diag_views(set@) =~= before + seq![d@]);
                } else if score >= 45 {
                    let mut m = String::from_str("sensitive service ");
                    m.append(what.as_str());
                    let d = Diagnostic::new(
                        Severity::Medium,
                        "policy.exposure.service",
                        m.as_str(),
                    ).at(rule.index);
                    set.push(d);
                    assert(diag_views(set@) =~= before + seq![d@]);
                } else {
                    assert(diag_views(set@) =~= before + Seq::<DiagView>::empty());
                }
                return ;
            },
            None => {},
        }
    }
    assert(diag_views(set@) =~= before + Seq::<DiagView>::empty());
}

fn detect_exposed_services(policy: &LocalPolicy, set: &mut DiagnosticSet)
    ensures
        diag_views(final(set)@) == diag_views(old(set)@) + exposure_findings(policy@.rules),
{
    let ghost rv = policy@.rules;
    let ghost start = diag_views(set@);
    let rules = &policy.rules;
    let mut i: usize = 0;
    assert(rv.take(0) =~= Seq::<FwView>::empty());
    assert(start =~= start + exposure_findings(rv.take(0)));
    while i < rules.len()
        invariant
            i <= rules@.len(),
            rv == fw_views(rules@),
            diag_views(set@) == start + exposure_findings(rv.take(i as int)),
        decreases rules@.len() - i,
    {
        assert(rv.take(i + 1).drop_last() =~= rv.take(i as int));
        assert(rv.take(i + 1).last() == rules@[i as int]@);
        let ghost before = diag_views(set@);
        exposure_of(&rules[i], set);
        assert(diag_views(set@) =~= start + exposure_findings(rv.take(i + 1)));
        i = i + 1;
    }
    assert(rv.take(rules@.len() as int) =~= rv);
}

fn detect_default_accept(policy: &LocalPolicy, set: &mut DiagnosticSet)
    ensures
        diag_views(final(set)@) == diag_views(old(set)@) + default_findings(policy@.rules),
{
    let ghost rv = policy@.rules;
    let ghost start = diag_views(set@);
    let rules = &policy.rules;
    let mut i: usize = 0;
    assert(rv.take(0) =~= Seq::<FwView>::empty());
    assert(start =~= start + default_findings(rv.take(0)));
    while i < rules.len()
        invariant
            i <= rules@.len(),
            rv == fw_views(rules@),
            diag_views(set@) == start + default_findings(rv.take(i as int)),
        decreases rules@.len() - i,
    {
        let rule = &rules[i];
        assert(rv.take(i + 1).drop_last() =~= rv.take(i as int));
        assert(rv.take(i + 1).last() == rule@);
        let ghost before = diag_views(set@);
        let accept = match rule.action {
            PolicyAction::Accept => true,
            _ => false,
        };
        if rule.source.is_none() && rule.destination.is_none() && rule.destination_port.is_none()
            && accept {
            let mut m = String::from_str("chain ");
            m.append(rule.chain.as_str());
            m.append(" contains broad accept");
            let d = Diagnostic::new(Severity::High, "policy.default.accept", m.as_str()).at(
                rule.index,
            );
            set.push(d);
            assert(diag_views(set@) =~= before + seq![d@]);
        } else {
            assert(diag_views(set@) =~= before + Seq::<DiagView>::empty());
        }
        assert(diag_views(set@) =~= start + default_findings(rv.take(i + 1)));
        i = i + 1;
    }
    assert(rv.take(rules@.len() as int) =~= rv);
}

/// All findings for a policy: duplicates, then shadowed rules, then exposed services, then
/// broad accepts.
pub open spec fn spec_analyze(rs: Seq<FwView>) -> Seq<DiagView> {
    duplicate_findings(rs) + shadow_findings(rs) + exposure_findings(rs) + default_findings(rs)
}

/// Audits a policy's rules.
pub fn analyze_policy(policy: &LocalPolicy) -> (set: DiagnosticSet)
    ensures
        diag_views(set@) == spec_analyze(policy@.rules),
{
    let mut set = DiagnosticSet::new();
    assert(diag_views(set@) =~= Seq::<DiagView>::empty());
    detect_duplicates(policy, &mut set);
    detect_shadowed_rules(policy, &mut set);
    detect_exposed_services(policy, &mut set);
    detect_default_accept(policy, &mut set);
    assert(diag_views(set@) =~= spec_analyze(policy@.rules));
    set
}

/// The finding sits at the index of one of the rules.
pub open spec fn placed_at_rule(f: DiagView, rs: Seq<FwView>) -> bool {
    exists|k: int| 0 <= k < rs.len() && f.offset == Some((#[trigger] rs[k]).index)
}

pub open spec fn all_placed(fs: Seq<DiagView>, rs: Seq<FwView>) -> bool {
    forall|i: int| 0 <= i < fs.len() ==> placed_at_rule(#[trigger] fs[i], rs)
}

proof fn lemma_placed_append(a: Seq<DiagView>, b: Seq<DiagView>, rs: Seq<FwView>)
    requires
        all_placed(a, rs),
        all_placed(b, rs),
    ensures
        all_placed(a + b, rs),
{
    assert forall|i: int| 0 <= i < (a + b).len() implies placed_at_rule(#[trigger] (a + b)[i], rs) by {
        if i < a.len() {
            assert((a + b)[i] == a[i]);
        } else {
            assert((a + b)[i] == b[i - a.len()]);
        }
    }
}

proof fn lemma_placed_prefix(fs: Seq<DiagView>, rs: Seq<FwView>)
    requires
        all_placed(fs, rs.drop_last()),
        rs.len() > 0,
    ensures
        all_placed(fs, rs),
{
    assert forall|i: int| 0 <= i < fs.len() implies placed_at_rule(#[trigger] fs[i], rs) by {
        let t = rs.drop_last();
        let k = choose|k: int| 0 <= k < t.len() && fs[i].offset == Some((#[trigger] t[k]).index);
        assert(rs[k] == t[k]);
    }
}

proof fn lemma_last_placed(fs: Seq<DiagView>, rs: Seq<FwView>)
    requires
        rs.len() > 0,
        forall|i: int| 0 <= i < fs.len() ==> (#[trigger] fs[i]).offset == Some(rs.last().index),
    ensures
        all_placed(fs, rs),
{
    assert forall|i: int| 0 <= i < fs.len() implies placed_at_rule(#[trigger] fs[i], rs) by {
        assert(rs[rs.len() - 1] == rs.last());
    }
}

proof fn lemma_findings_placed(rs: Seq<FwView>)
    ensures
        all_placed(duplicate_findings(rs), rs),
        all_placed(shadow_findings(rs), rs),
        all_placed(exposure_findings(rs), rs),
        all_placed(default_findings(rs), rs),
    decreases rs.len(),
{
    if rs.len() > 0 {
        let t = rs.drop_last();
        let r = rs.last();
        lemma_findings_placed(t);
        lemma_placed_prefix(duplicate_findings(t), rs);
        lemma_placed_prefix(shadow_findings(t), rs);
        lemma_placed_prefix(exposure_findings(t), rs);
        lemma_placed_prefix(default_findings(t), rs);
        let d = match last_same_key(t, spec_rule_key(r)) {
            Some(j) => seq![
                finding_at(
                    Severity::Low,
                    "policy.rule.duplicate"@,
                    "rule "@ + dec(r.index as nat) + " duplicates rule "@ + dec(rs[j].index as nat),
                    r.index,
                ),
            ],
            None => Seq::<DiagView>::empty(),
        };
        let sh = match first_shadow(t, r) {
            Some(j) => seq![
                finding_at(
                    Severity::Medium,
                    "policy.rule.shadowed"@,
                    "rule "@ + dec(r.index as nat) + " may be shadowed by rule "@ + dec(
                        rs[j].index as nat,
                    ),
                    r.index,
                ),
            ],
            None => Seq::<DiagView>::empty(),
        };
        lemma_last_placed(d, rs);
        lemma_last_placed(sh, rs);
        lemma_last_placed(exposure_finding(r), rs);
        lemma_last_placed(default_finding(r), rs);
        lemma_placed_append(duplicate_findings(t), d, rs);
        lemma_placed_append(shadow_findings(t), sh, rs);
        lemma_placed_append(exposure_findings(t), exposure_finding(r), rs);
        lemma_placed_append(default_findings(t), default_finding(r), rs);
    }
}

/// Every finding of a policy audit points at the index of one of the policy's rules.
pub proof fn law_findings_point_at_rules(rs: Seq<FwView>)
    ensures
        all_placed(spec_analyze(rs), rs),
{
    lemma_findings_placed(rs);
    lemma_placed_append(duplicate_findings(rs), shadow_findings(rs), rs);
    lemma_placed_append(duplicate_findings(rs) + shadow_findings(rs), exposure_findings(rs), rs);
    lemma_placed_append(
        duplicate_findings(rs) + shadow_findings(rs) + exposure_findings(rs),
        default_findings(rs),
        rs,
    );
}

proof fn lemma_first_shadow_some(prev: Seq<FwView>, r: FwView, j: int)
    requires
        0 <= j < prev.len(),
        shadows(prev[j], r),
    ensures
        first_shadow(prev, r) matches Some(x) && 0 <= x <= j,
    decreases j,
{
    if !shadows(prev[0], r) {
        let t = prev.skip(1);
        assert(t[j - 1] == prev[j]);
        lemma_first_shadow_some(t, r, j - 1);
    }
}

proof fn lemma_shadow_prefix(rs: Seq<FwView>, m: int)
    requires
        0 <= m <= rs.len(),
    ensures
        shadow_findings(rs.take(m)).len() <= shadow_findings(rs).len(),
        forall|i: int|
            0 <= i < shadow_findings(rs.take(m)).len() ==> #[trigger] shadow_findings(rs)[i]
                == shadow_findings(rs.take(m))[i],
    decreases rs.len(),
{
    if m == rs.len() {
        assert(rs.take(m) =~= rs);
    } else {
        let t = rs.drop_last();
        lemma_shadow_prefix(t, m);
        assert(t.take(m) =~= rs.take(m));
    }
}

/// A rule that comes after an overlapping accept, drop or reject is reported as possibly
/// shadowed, at its own index and with medium severity.
pub proof fn law_shadowed_rule_reported(rs: Seq<FwView>, j: int, k: int)
    requires
        0 <= j < k < rs.len(),
        spec_overlaps(rs[j], rs[k]),
        rs[j].action is Accept || rs[j].action is Drop || rs[j].action is Reject,
    ensures
        exists|f: int|
            0 <= f < spec_analyze(rs).len() && (#[trigger] spec_analyze(rs)[f]).code
                == "policy.rule.shadowed"@ && spec_analyze(rs)[f].offset == Some(rs[k].index)
                && spec_analyze(rs)[f].severity == Severity::Medium,
{
    let pre = rs.take(k);
    assert(pre[j] == rs[j]);
    lemma_first_shadow_some(pre, rs[k], j);
    let t = rs.take(k + 1);
    assert(t.drop_last() =~= pre);
    assert(t.last() == rs[k]);
    let sf = shadow_findings(t);
    let n = sf.len() - 1;
    assert(sf[n].offset == Some(rs[k].index) && sf[n].severity == Severity::Medium);
    lemma_shadow_prefix(rs, k + 1);
    let all = shadow_findings(rs);
    assert(all[n] == sf[n]);
    let d = duplicate_findings(rs);
    let a = spec_analyze(rs);
    assert(a[d.len() + n] == all[n]);
}

proof fn lemma_duplicate_prefix(rs: Seq<FwView>, m: int)
    requires
        0 <= m <= rs.len(),
    ensures
        duplicate_findings(rs.take(m)).len() <= duplicate_findings(rs).len(),
        forall|i: int|
            0 <= i < duplicate_findings(rs.take(m)).len() ==> #[trigger] duplicate_findings(rs)[i]
                == duplicate_findings(rs.take(m))[i],
    decreases rs.len(),
{
    if m == rs.len() {
        assert(rs.take(m) =~= rs);
    } else {
        let t = rs.drop_last();
        lemma_duplicate_prefix(t, m);
        assert(t.take(m) =~= rs.take(m));
    }
}

proof fn lemma_exposure_prefix(rs: Seq<FwView>, m: int)
    requires
        0 <= m <= rs.len(),
    ensures
        exposure_findings(rs.take(m)).len() <= exposure_findings(rs).len(),
        forall|i: int|
            0 <= i < exposure_findings(rs.take(m)).len() ==> #[trigger] exposure_findings(rs)[i]
                == exposure_findings(rs.take(m))[i],
    decreases rs.len(),
{
    if m == rs.len() {
        assert(rs.take(m) =~= rs);
    } else {
        let t = rs.drop_last();
        lemma_exposure_prefix(t, m);
        assert(t.take(m) =~= rs.take(m));
    }
}

proof fn lemma_default_prefix(rs: Seq<FwView>, m: int)
    requires
        0 <= m <= rs.len(),
    ensures
        default_findings(rs.take(m)).len() <= default_findings(rs).len(),
        forall|i: int|
            0 <= i < default_findings(rs.take(m)).len() ==> #[trigger] default_findings(rs)[i]
                == default_findings(rs.take(m))[i],
    decreases rs.len(),
{
    if m == rs.len() {
        assert(rs.take(m) =~= rs);
    } else {
        let t = rs.drop_last();
        lemma_default_prefix(t, m);
        assert(t.take(m) =~= rs.take(m));
    }
}

proof fn lemma_last_same_key_some(rs: Seq<FwView>, k: Seq<char>, j: int)
    requires
        0 <= j < rs.len(),
        spec_rule_key(rs[j]) == k,
    ensures
        last_same_key(rs, k) is Some,
    decreases rs.len(),
{
    if spec_rule_key(rs.last()) != k {
        assert(j < rs.len() - 1);
        assert(rs.drop_last()[j] == rs[j]);
        lemma_last_same_key_some(rs.drop_last(), k, j);
    }
}

/// A rule that repeats an earlier rule in chain, protocol, blocks, ports and action is
/// reported as a duplicate, at its own index and with low severity.
pub proof fn law_duplicate_rule_reported(rs: Seq<FwView>, j: int, k: int)
    requires
        0 <= j < k < rs.len(),
        rs[j].chain == rs[k].chain,
        rs[j].protocol == rs[k].protocol,
        rs[j].source == rs[k].source,
        rs[j].destination == rs[k].destination,
        rs[j].source_port == rs[k].source_port,
        rs[j].destination_port == rs[k].destination_port,
        rs[j].action == rs[k].action,
    ensures
        exists|f: int|
            0 <= f < spec_analyze(rs).len() && (#[trigger] spec_analyze(rs)[f]).code
                == "policy.rule.duplicate"@ && spec_analyze(rs)[f].offset == Some(rs[k].index)
                && spec_analyze(rs)[f].severity == Severity::Low,
{
    let pre = rs.take(k);
    assert(pre[j] == rs[j]);
    assert(spec_rule_key(rs[j]) == spec_rule_key(rs[k]));
    lemma_last_same_key_some(pre, spec_rule_key(rs[k]), j);
    let t = rs.take(k + 1);
    assert(t.drop_last() =~= pre);
    assert(t.last() == rs[k]);
    let df = duplicate_findings(t);
    let n = df.len() - 1;
    assert(df[n].offset == Some(rs[k].index) && df[n].severity == Severity::Low);
    lemma_duplicate_prefix(rs, k + 1);
    let a = spec_analyze(rs);
    assert(a[n] == duplicate_findings(rs)[n]);
}

/// An accept from any source to a destination port whose service scores at least 70 is
/// reported as a high exposure at the rule's index (a score from 45 up, as a medium one).
pub proof fn law_exposed_service_reported(rs: Seq<FwView>, k: int)
    requires
        0 <= k < rs.len(),
        rs[k].action is Accept,
        rs[k].source is None,
        rs[k].destination_port is Some,
        spec_port_exposure_score(
            rs[k].destination_port->0,
            match rs[k].protocol {
                Some(p) => p,
                None => "tcp"@,
            },
        ) >= 45,
    ensures
        exists|f: int|
            0 <= f < spec_analyze(rs).len() && (#[trigger] spec_analyze(rs)[f]).code
                == "policy.exposure.service"@ && spec_analyze(rs)[f].offset == Some(rs[k].index)
                && spec_analyze(rs)[f].severity == (if spec_port_exposure_score(
                rs[k].destination_port->0,
                match rs[k].protocol {
                    Some(p) => p,
                    None => "tcp"@,
                },
            ) >= 70 {
                Severity::High
            } else {
                Severity::Medium
            }),
{
    let t = rs.take(k + 1);
    assert(t.drop_last() =~= rs.take(k));
    assert(t.last() == rs[k]);
    let ef = exposure_findings(t);
    let n = ef.len() - 1;
    assert(ef[n].offset == Some(rs[k].index));
    lemma_exposure_prefix(rs, k + 1);
    let a = spec_analyze(rs);
    let off = duplicate_findings(rs).len() + shadow_findings(rs).len();
    assert(a[off + n] == exposure_findings(rs)[n]);
}

/// An accept with no source, destination or destination port is reported as a broad accept,
/// with high severity, at the rule's index.
pub proof fn law_broad_accept_reported(rs: Seq<FwView>, k: int)
    requires
        0 <= k < rs.len(),
        rs[k].action is Accept,
        rs[k].source is None,
        rs[k].destination is None,
        rs[k].destination_port is None,
    ensures
        exists|f: int|
            0 <= f < spec_analyze(rs).len() && (#[trigger] spec_analyze(rs)[f]).code
                == "policy.default.accept"@ && spec_analyze(rs)[f].offset == Some(rs[k].index)
                && spec_analyze(rs)[f].severity == Severity::High,
{
    let t = rs.take(k + 1);
    assert(t.drop_last() =~= rs.take(k));
    assert(t.last() == rs[k]);
    let df = default_findings(t);
    let n = df.len() - 1;
    assert(df[n].offset == Some(rs[k].index));
    lemma_default_prefix(rs, k + 1);
    let a = spec_analyze(rs);
    let off = duplicate_findings(rs).len() + shadow_findings(rs).len() + exposure_findings(
        rs,
    ).len();
    assert(a[off + n] == default_findings(rs)[n]);
}

// ---------------------------------------------------------------------
// Ordering score
// ---------------------------------------------------------------------

/// The score after rule `idx` of `n`: an accept from any source costs 10 plus its position
/// (at most 5), never going below 0; a drop or reject as the last rule earns 5, up to 100.
pub open spec fn order_step(score: int, idx: int, n: int, r: FwView) -> int {
    let s1 = if r.action is Accept && r.source is None {
        let cost = 10 + if idx < 5 {
            idx
        } else {
            5
        };
        if score > cost {
            score - cost
        } else {
            0
        }
    } else {
        score
    };
    if (r.action is Drop || r.action is Reject) && idx + 1 == n {
        if s1 + 5 > 100 {
            100
        } else {
            s1 + 5
        }
    } else {
        s1
    }
}

/// The score after the first `k` rules, starting from 100.
pub open spec fn order_score_upto(rs: Seq<FwView>, k: int) -> int
    decreases k,
{
    if k <= 0 {
        100
    } else {
        order_step(order_score_upto(rs, k - 1), k - 1, rs.len() as int, rs[k - 1])
    }
}

/// How well a rule list is ordered, from 0 to 100.
pub fn rule_order_score(rules: &[FirewallRule]) -> (r: u8)
    ensures
        r == order_score_upto(fw_views(rules@), rules@.len() as int),
        r <= 100,
{
    let ghost rv = fw_views(rules@);
    let n = rules.len();
    let mut score: u8 = 100;
    let mut idx: usize = 0;
    while idx < n
        invariant
            idx <= n,
            n == rules@.len(),
            rv == fw_views(rules@),
            score <= 100,
            score == order_score_upto(rv, idx as int),
        decreases n - idx,
    {
        let rule = &rules[idx];
        assert(rv[idx as int] == rule@);
        let accept = match rule.action {
            PolicyAction::Accept => true,
            _ => false,
        };
        if accept && rule.source.is_none() {
            let cost: u8 = if idx < 5 {
                10 + idx as u8
            } else {
                15
            };
            score = if score > cost {
                score - cost
            } else {
                0
            };
        }
        let blocks = match rule.action {
            PolicyAction::Drop | PolicyAction::Reject => true,
            _ => false,
        };
        if blocks && idx + 1 == n {
            score = if score + 5 > 100 {
                100
            } else {
                score + 5
            };
        }
        idx = idx + 1;
    }
    score
}

} // verus!
