use vstd::prelude::*;
use vstd::string::*;
use vstd::utf8::encode_utf8;
use std::collections::BTreeSet;
use crate::common::diagnostics::{DiagView, Diagnostic, DiagnosticSet, diag_views, finding};
use crate::common::status::Severity;
use crate::common::text::{chars_of, dec, eq_str, push_dec};
use crate::rules::model::{
    ActionView, IdsRule, RuleAction, RuleView, spec_contents, spec_number_option,
    spec_option_value, str_views,
};

verus! {

pub open spec fn known_protocol(p: Seq<char>) -> bool {
    p == "tcp"@ || p == "udp"@ || p == "icmp"@ || p == "ip"@ || p == "http"@ || p == "dns"@
}

pub open spec fn when(cond: bool, d: DiagView) -> Seq<DiagView> {
    if cond {
        seq![d]
    } else {
        Seq::empty()
    }
}

/// What one `content` value is flagged for: being empty, or taking more than 512 bytes.
pub open spec fn content_findings(cs: Seq<Seq<char>>) -> Seq<DiagView>
    decreases cs.len(),
{
    if cs.len() == 0 {
        Seq::empty()
    } else {
        let c = cs.last();
        content_findings(cs.drop_last()) + when(
            c.len() == 0,
            finding(Severity::Medium, "rule.content.empty"@, "content option is empty"@),
        ) + when(
            encode_utf8(c).len() > 512,
            finding(
                Severity::Low,
                "rule.content.large"@,
                "large content option may be expensive"@,
            ),
        )
    }
}

/// The findings for one rule, in the order they are checked: an unknown action, an unusual
/// protocol, a direction other than `->` and `<>`, a missing numeric `sid`, a missing
/// numeric `rev`, a missing `msg`, then each `content` value.
pub open spec fn rule_findings(r: RuleView) -> Seq<DiagView> {
    when(
        r.action is Unknown,
        finding(Severity::Medium, "rule.action.unknown"@, "unknown rule action"@),
    ) + when(
        !known_protocol(r.protocol),
        finding(Severity::Low, "rule.protocol.unusual"@, "unusual rule protocol"@),
    ) + when(
        r.direction != "->"@ && r.direction != "<>"@,
        finding(Severity::High, "rule.direction.invalid"@, "direction must be -> or <>"@),
    ) + when(
        spec_number_option(r.options, "sid"@) is None,
        finding(Severity::Medium, "rule.sid.missing"@, "rule should contain numeric sid"@),
    ) + when(
        spec_number_option(r.options, "rev"@) is None,
        finding(Severity::Low, "rule.rev.missing"@, "rule should contain numeric rev"@),
    ) + when(
        spec_option_value(r.options, "msg"@) is None,
        finding(Severity::Low, "rule.msg.missing"@, "rule should contain msg"@),
    ) + content_findings(spec_contents(r.options))
}

fn push_when(set: &mut DiagnosticSet, cond: bool, severity: Severity, code: &str, message: &str)
    ensures
        diag_views(final(set)@) == diag_views(old(set)@) + when(
            cond,
            finding(severity, code@, message@),
        ),
{
    let ghost before = diag_views(set@);
    if cond {
        let d = Diagnostic::new(severity, code, message);
        set.push(d);
        assert(diag_views(set@) =~= before + seq![finding(severity, code@, message@)]);
    } else {
        assert(diag_views(set@) =~= before + Seq::<DiagView>::empty());
    }
}

fn is_known_protocol(p: &str) -> (r: bool)
    ensures
        r == known_protocol(p@),
{
    let c = chars_of(p);
    let s = c.as_slice();
    eq_str(s, "tcp") || eq_str(s, "udp") || eq_str(s, "icmp") || eq_str(s, "ip") || eq_str(
        s,
        "http",
    ) || eq_str(s, "dns")
}

/// Checks one rule for what would make it unusable or hard to maintain.
pub fn validate_rule(rule: &IdsRule) -> (set: DiagnosticSet)
    ensures
        diag_views(set@) == rule_findings(rule@),
{
    let mut set = DiagnosticSet::new();
    let unknown = match &rule.action {
        RuleAction::Unknown(_) => true,
        _ => false,
    };
    assert(diag_views(set@) =~= Seq::<DiagView>::empty());
    push_when(&mut set, unknown, Severity::Medium, "rule.action.unknown", "unknown rule action");
    push_when(
        &mut set,
        !is_known_protocol(rule.protocol.as_str()),
        Severity::Low,
        "rule.protocol.unusual",
        "unusual rule protocol",
    );
    let dir = chars_of(rule.direction.as_str());
    push_when(
        &mut set,
        !eq_str(dir.as_slice(), "->") && !eq_str(dir.as_slice(), "<>"),
        Severity::High,
        "rule.direction.invalid",
        "direction must be -> or <>",
    );
    push_when(
        &mut set,
        rule.sid().is_none(),
        Severity::Medium,
        "rule.sid.missing",
        "rule should contain numeric sid",
    );
    push_when(
        &mut set,
        rule.rev().is_none(),
        Severity::Low,
        "rule.rev.missing",
        "rule should contain numeric rev",
    );
    push_when(
        &mut set,
        rule.msg().is_none(),
        Severity::Low,
        "rule.msg.missing",
        "rule should contain msg",
    );
    let ghost head = diag_views(set@);
    let contents = rule.contents();
    let ghost cs = str_views(contents@);
    let mut i: usize = 0;
    assert(cs.take(0) =~= Seq::<Seq<char>>::empty());
    assert(head =~= head + content_findings(cs.take(0)));
    while i < contents.len()
        invariant
            i <= contents@.len(),
            cs == str_views(contents@),
            diag_views(set@) == head + content_findings(cs.take(i as int)),
        decreases contents@.len() - i,
    {
        let content = contents[i];
        assert(cs.take(i + 1).drop_last() =~= cs.take(i as int));
        assert(cs.take(i + 1).last() == content@);
        let bytes = content.as_bytes();
        push_when(
            &mut set,
            content.is_empty(),
            Severity::Medium,
            "rule.content.empty",
            "content option is empty",
        );
        push_when(
            &mut set,
            bytes.len() > 512,
            Severity::Low,
            "rule.content.large",
            "large content option may be expensive",
        );
        assert(diag_views(set@) =~= head + content_findings(cs.take(i + 1)));
        i = i + 1;
    }
    assert(cs.take(cs.len() as int) =~= cs);
    set
}

/// The rules before the last one give some rule that `sid`.
pub open spec fn sid_seen(rs: Seq<RuleView>, sid: nat) -> bool {
    exists|k: int| 0 <= k < rs.len() && spec_number_option((#[trigger] rs[k]).options, "sid"@) == Some(sid)
}

/// The findings for each rule in turn, and a duplicate `sid` flagged on every rule after the
/// first that carries it.
pub open spec fn rules_findings(rs: Seq<RuleView>) -> Seq<DiagView>
    decreases rs.len(),
{
    if rs.len() == 0 {
        Seq::empty()
    } else {
        let r = rs.last();
        rules_findings(rs.drop_last()) + rule_findings(r) + match spec_number_option(
            r.options,
            "sid"@,
        ) {
            Some(sid) => when(
                sid_seen(rs.drop_last(), sid),
                finding(Severity::Medium, "rule.sid.duplicate"@, "duplicate sid "@ + dec(sid)),
            ),
            None => Seq::empty(),
        }
    }
}

/// The duplicate-`sid` finding for rule `i`: there where an earlier rule has its `sid`.
pub open spec fn sid_duplicate_finding(rs: Seq<RuleView>, i: int) -> Seq<DiagView> {
    match spec_number_option(rs[i].options, "sid"@) {
        Some(sid) => when(
            sid_seen(rs.take(i), sid),
            finding(Severity::Medium, "rule.sid.duplicate"@, "duplicate sid "@ + dec(sid)),
        ),
        None => Seq::empty(),
    }
}

/// What rule `i` contributes: its own findings, then its duplicate-`sid` finding.
pub open spec fn rule_block(rs: Seq<RuleView>, i: int) -> Seq<DiagView> {
    rule_findings(rs[i]) + sid_duplicate_finding(rs, i)
}

/// The number of rules whose `sid` an earlier rule already has.
pub open spec fn duplicate_sid_count(rs: Seq<RuleView>) -> nat
    decreases rs.len(),
{
    if rs.len() == 0 {
        0
    } else {
        duplicate_sid_count(rs.drop_last()) + match spec_number_option(rs.last().options, "sid"@) {
            Some(sid) => if sid_seen(rs.drop_last(), sid) {
                1nat
            } else {
                0nat
            },
            None => 0nat,
        }
    }
}

/// The number of findings the rules have one by one.
pub open spec fn own_findings_count(rs: Seq<RuleView>) -> nat
    decreases rs.len(),
{
    if rs.len() == 0 {
        0
    } else {
        own_findings_count(rs.drop_last()) + rule_findings(rs.last()).len()
    }
}

/// Validating a list of rules gives, rule by rule in order, the rule's own findings and then
/// its duplicate-`sid` finding; so there are as many findings as the rules have one by one,
/// plus one for each rule whose `sid` an earlier rule has.
pub proof fn law_rules_findings_flat(rs: Seq<RuleView>)
    ensures
        rules_findings(rs) == Seq::new(rs.len(), |i: int| rule_block(rs, i)).flatten(),
        rules_findings(rs).len() == own_findings_count(rs) + duplicate_sid_count(rs),
    decreases rs.len(),
{
    if rs.len() == 0 {
        assert(Seq::new(0, |i: int| rule_block(rs, i)) =~= Seq::<Seq<DiagView>>::empty());
    } else {
        let n = rs.len() as int;
        let t = rs.drop_last();
        law_rules_findings_flat(t);
        let prev = Seq::new(t.len(), |i: int| rule_block(t, i));
        let all = Seq::new(rs.len(), |i: int| rule_block(rs, i));
        assert forall|i: int| 0 <= i < t.len() implies #[trigger] prev[i] == all[i] by {
            assert(t[i] == rs[i]);
            assert(t.take(i) =~= rs.take(i));
        }
        assert(rs.take(n - 1) =~= t);
        assert(rs[n - 1] == rs.last());
        assert(all =~= prev.push(rule_block(rs, n - 1)));
        prev.lemma_flatten_push(rule_block(rs, n - 1));
    }
}

pub open spec fn rule_views(v: Seq<IdsRule>) -> Seq<RuleView> {
    v.map_values(|r: IdsRule| r@)
}

/// `u32` keeps the order laws that a `BTreeSet` relies on.
pub open spec fn sids_ordered() -> bool {
    vstd::laws_cmp::obeys_cmp::<u32>()
}

proof fn lemma_sids_ordered()
    ensures
        sids_ordered(),
{
    broadcast use vstd::laws_cmp::group_laws_cmp;

    assert(vstd::laws_cmp::obeys_cmp::<u32>());
}

/// Checks each rule, and flags every `sid` that an earlier rule already used.
pub fn validate_rules(rules: &[IdsRule]) -> (set: DiagnosticSet)
    ensures
        diag_views(set@) == rules_findings(rule_views(rules@)),
        diag_views(set@) == Seq::new(
            rules@.len(),
            |i: int| rule_block(rule_views(rules@), i),
        ).flatten(),
        set@.len() == own_findings_count(rule_views(rules@)) + duplicate_sid_count(
            rule_views(rules@),
        ),
{
    let ghost rv = rule_views(rules@);
    let mut set = DiagnosticSet::new();
    let mut seen: BTreeSet<u32> = BTreeSet::new();
    proof {
        lemma_sids_ordered();
    }
    let mut i: usize = 0;
    assert(rv.take(0) =~= Seq::<RuleView>::empty());
    assert(diag_views(set@) =~= rules_findings(rv.take(0)));
    while i < rules.len()
        invariant
            i <= rules@.len(),
            rv == rule_views(rules@),
            diag_views(set@) == rules_findings(rv.take(i as int)),
            forall|x: u32| seen@.contains(x) <==> sid_seen(rv.take(i as int), x as nat),
            sids_ordered(),
        decreases rules@.len() - i,
    {
        let rule = &rules[i];
        let ghost pre = rv.take(i as int);
        let ghost before = diag_views(set@);
        assert(rv.take(i + 1).drop_last() =~= pre);
        assert(rv.take(i + 1).last() == rule@);
        let found = validate_rule(rule);
        set.extend(found);
        assert(diag_views(set@) =~= before + rule_findings(rule@));
        let ghost mid = diag_views(set@);
        let ghost old_seen = seen@;
        match rule.sid() {
            Some(sid) => {
                let fresh = seen.insert(sid);
                if !fresh {
                    let mut m = String::from_str("duplicate sid ");
                    push_dec(&mut m, sid as u64);
                    set.push(Diagnostic::new(Severity::Medium, "rule.sid.duplicate", m.as_str()));
                    assert(diag_views(set@) =~= mid + seq![
                        finding(Severity::Medium, "rule.sid.duplicate"@, "duplicate sid "@ + dec(sid as nat)),
                    ]);
                } else {
                    assert(diag_views(set@) =~= mid + Seq::<DiagView>::empty());
                }
                assert forall|x: u32| seen@.contains(x) <==> sid_seen(
                    rv.take(i + 1),
                    x as nat,
                ) by {
                    let nt = rv.take(i + 1);
                    if sid_seen(pre, x as nat) {
                        let k = choose|k: int|
                            0 <= k < pre.len() && spec_number_option(
                                (#[trigger] pre[k]).options,
                                "sid"@,
                            ) == Some(x as nat);
                        assert(nt[k] == pre[k]);
                    }
                    assert(nt[i as int] == rule@);
                    if x == sid {
                        assert(spec_number_option(nt[i as int].options, "sid"@) == Some(x as nat));
                        assert(sid_seen(nt, x as nat));
                    }
                    assert(seen@ == old_seen.insert(sid));
                    if sid_seen(nt, x as nat) {
                        let k = choose|k: int|
                            0 <= k < nt.len() && spec_number_option(
                                (#[trigger] nt[k]).options,
                                "sid"@,
                            ) == Some(x as nat);
                        if k < i {
                            assert(nt[k] == pre[k]);
                        }
                    }
                }
            },
            None => {
                assert(diag_views(set@) =~= mid + Seq::<DiagView>::empty());
                assert forall|x: u32| seen@.contains(x) <==> sid_seen(
                    rv.take(i + 1),
                    x as nat,
                ) by {
                    let nt = rv.take(i + 1);
                    if sid_seen(pre, x as nat) {
                        let k = choose|k: int|
                            0 <= k < pre.len() && spec_number_option(
                                (#[trigger] pre[k]).options,
                                "sid"@,
                            ) == Some(x as nat);
                        assert(nt[k] == pre[k]);
                    }
                    if sid_seen(nt, x as nat) {
                        let k = choose|k: int|
                            0 <= k < nt.len() && spec_number_option(
                                (#[trigger] nt[k]).options,
                                "sid"@,
                            ) == Some(x as nat);
                        if k < i {
                            assert(nt[k] == pre[k]);
                        }
                    }
                }
            },
        }
        i = i + 1;
    }
    assert(rv.take(rules@.len() as int) =~= rv);
    proof {
        law_rules_findings_flat(rv);
    }
    set
}

} // verus!
