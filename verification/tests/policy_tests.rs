use aegislens::common::status::Severity;
use aegislens::policy::analyze::{analyze_policy, rule_order_score};
use aegislens::policy::firewall::{parse_cidr_or_ip, parse_iptables_line, parse_nft_line};
use aegislens::policy::model::PolicyAction;
use aegislens::policy::parser::parse_policy_text;
use aegislens::policy::summary::summarize_policy;

#[test]
fn broad_admin_allow_is_flagged() {
    let policy = parse_policy_text("-A INPUT -p tcp --dport 22 -j ACCEPT\n-A INPUT -j DROP\n");
    let diagnostics = analyze_policy(&policy);
    assert!(diagnostics.iter().any(|d| d.code == "policy.exposure.service"));
}

#[test]
fn iptables_line_fields() {
    let rule = parse_iptables_line(4, "  -A FORWARD -p TCP -s 10.0.0.0/8 -d 192.168.1.7 --sport 1000 --dport 443 -j REJECT ").unwrap();
    assert_eq!(rule.index, 4);
    assert_eq!(rule.chain, "FORWARD");
    assert_eq!(rule.protocol.as_deref(), Some("tcp"));
    assert_eq!(rule.source, parse_cidr_or_ip("10.0.0.0/8"));
    assert_eq!(rule.destination.unwrap().prefix, 32);
    assert_eq!(rule.source_port, Some(1000));
    assert_eq!(rule.destination_port, Some(443));
    assert_eq!(rule.action, PolicyAction::Reject);
    assert!(parse_iptables_line(0, "-P INPUT DROP").is_none());
    assert!(parse_iptables_line(0, "-A INPUT").is_none());
}

#[test]
fn nft_line_fields() {
    let rule = parse_nft_line(2, "add rule inet filter chain input ip saddr 10.1.0.0/16 tcp dport 22 accept").unwrap();
    assert_eq!(rule.chain, "input");
    assert_eq!(rule.protocol.as_deref(), Some("tcp"));
    assert_eq!(rule.destination_port, Some(22));
    assert_eq!(rule.action, PolicyAction::Accept);
    assert!(rule.source.is_some());
    let plain = parse_nft_line(0, "udp sport 53 counter").unwrap();
    assert_eq!(plain.chain, "nft");
    assert_eq!(plain.source_port, Some(53));
    assert!(parse_nft_line(0, "table inet filter").is_none());
}

#[test]
fn settings_and_rules() {
    let policy = parse_policy_text("# audit\nMode = \"strict\"\n{\"Owner\": \"ops\"}\nretention, 30, days\n-A INPUT -j DROP\n");
    assert_eq!(policy.rules.len(), 1);
    assert_eq!(policy.rules[0].index, 4);
    assert_eq!(
        policy.settings,
        vec![
            ("mode".to_string(), "strict".to_string()),
            ("owner".to_string(), "ops".to_string()),
            ("retention".to_string(), "30".to_string()),
        ]
    );
}

#[test]
fn duplicates_shadows_and_broad_accepts() {
    let policy = parse_policy_text("-A INPUT -j ACCEPT\n-A INPUT -p tcp --dport 80 -j DROP\n-A INPUT -j ACCEPT\n");
    let set = analyze_policy(&policy);
    let found: Vec<(String, String, Severity)> = set.iter().map(|d| (d.code.clone(), d.message.clone(), d.severity)).collect();
    assert_eq!(
        found,
        vec![
            ("policy.rule.duplicate".to_string(), "rule 2 duplicates rule 0".to_string(), Severity::Low),
            ("policy.rule.shadowed".to_string(), "rule 1 may be shadowed by rule 0".to_string(), Severity::Medium),
            ("policy.rule.shadowed".to_string(), "rule 2 may be shadowed by rule 0".to_string(), Severity::Medium),
            ("policy.default.accept".to_string(), "chain INPUT contains broad accept".to_string(), Severity::High),
            ("policy.default.accept".to_string(), "chain INPUT contains broad accept".to_string(), Severity::High),
        ]
    );
}

#[test]
fn overlap_is_symmetric_on_examples() {
    let a = parse_iptables_line(0, "-A INPUT -s 10.0.0.0/8 -j DROP").unwrap();
    let b = parse_iptables_line(1, "-A INPUT -s 10.1.2.0/24 -j ACCEPT").unwrap();
    let c = parse_iptables_line(2, "-A INPUT -s 192.168.0.0/16 -j ACCEPT").unwrap();
    assert!(a.overlaps(&b) && b.overlaps(&a));
    assert!(!a.overlaps(&c) && !c.overlaps(&a));
}

#[test]
fn order_score_and_summary() {
    let policy = parse_policy_text("-A INPUT -j ACCEPT\n-A INPUT -p tcp -j ACCEPT\n-A OUTPUT -j DROP\n");
    assert_eq!(rule_order_score(&policy.rules), 84);
    let summary = summarize_policy(&policy);
    assert_eq!(summary.rule_count, 3);
    assert_eq!(summary.accepts, 2);
    assert_eq!(summary.drops, 1);
    assert_eq!(summary.chain_counts, vec![("INPUT".to_string(), 2), ("OUTPUT".to_string(), 1)]);
    let text = summary.render_text();
    assert!(text.starts_with("rules: 3\naccept: 2 drop: 1 reject: 0\norder score: 84\nchains:\n  INPUT: 2\n  OUTPUT: 1\ndiagnostics:\n"));
}

#[test]
fn chain_counts_add_up_to_rule_count() {
    let policy = parse_policy_text("-A INPUT -j DROP\n-A OUTPUT -j ACCEPT\n-I INPUT -p udp -j LOG\nchain fwd tcp dport 80 drop\n");
    let summary = summarize_policy(&policy);
    let total: usize = summary.chain_counts.iter().map(|(_, c)| *c).sum();
    assert_eq!(total, summary.rule_count);
    assert_eq!(summary.rule_count, 4);
}

#[test]
fn normalized_key_lists_fields() {
    let rule = parse_iptables_line(9, "-A INPUT -p tcp -s 10.0.0.0/8 --dport 22 -j ACCEPT").unwrap();
    assert_eq!(
        rule.normalized_key(),
        "INPUT|Some(\"tcp\")|Some(CidrBlock { network: Ipv4AddrExt(167772160), prefix: 8 })|None|None|Some(22)|ACCEPT"
    );
}

#[test]
fn findings_point_at_rule_indexes() {
    let policy = parse_policy_text("# header\n-A INPUT -j ACCEPT\n\n-A INPUT -p tcp --dport 3389 -j ACCEPT\n-A INPUT -j ACCEPT\n");
    let indexes: Vec<usize> = policy.rules.iter().map(|r| r.index).collect();
    assert_eq!(indexes, vec![1, 3, 4]);
    let set = analyze_policy(&policy);
    assert!(set.len() > 0);
    for d in set.iter() {
        assert!(indexes.contains(&d.offset.unwrap()));
    }
}
