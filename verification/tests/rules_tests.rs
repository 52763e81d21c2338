use aegislens::common::status::{AegisError, Severity};
use aegislens::packet::metadata::PacketMetadata;
use aegislens::rules::lexer::{lex_rule, RuleToken};
use aegislens::rules::matcher::{match_rules_to_metadata, matches_metadata};
use aegislens::rules::model::RuleAction;
use aegislens::rules::normalize::normalize_rule;
use aegislens::rules::parser::{parse_port_spec, parse_rule, parse_rules_file};
use aegislens::rules::validate::{validate_rule, validate_rules};

#[test]
fn parses_valid_rule() {
    let rule = parse_rule("alert tcp any any -> any 80 (msg:\"web hit\"; content:\"GET\"; sid:1001; rev:1; classtype:web-application-activity;)").unwrap();
    assert_eq!(rule.sid(), Some(1001));
    assert!(!validate_rule(&rule).has_errors());
}

#[test]
fn lexer_tokens() {
    let toks = lex_rule("alert (msg:\"a \\\"b\\\"\"; sid:1;)");
    assert_eq!(
        toks,
        vec![
            RuleToken::Word("alert".to_string()),
            RuleToken::LParen,
            RuleToken::Word("msg".to_string()),
            RuleToken::Colon,
            RuleToken::Quoted("a \"b\"".to_string()),
            RuleToken::Semicolon,
            RuleToken::Word("sid".to_string()),
            RuleToken::Colon,
            RuleToken::Word("1".to_string()),
            RuleToken::Semicolon,
            RuleToken::RParen,
        ]
    );
}

#[test]
fn rule_fields_and_options() {
    let rule = parse_rule("DROP UDP 10.0.0.0/8 any <> any [53,5353] (msg:\"dns\"; content:\"abc\"; content:\"def\"; nocase; classtype:attempted-admin;)").unwrap();
    assert_eq!(rule.action, RuleAction::Drop);
    assert_eq!(rule.protocol, "udp");
    assert_eq!(rule.msg(), Some("dns"));
    assert_eq!(rule.contents(), vec!["abc", "def"]);
    assert_eq!(rule.option_value("NOCASE"), None);
    assert_eq!(rule.severity_hint(), Severity::High);
    assert!(rule.destination_ports.contains(5353));
    assert!(!rule.destination_ports.contains(80));
    assert_eq!(rule.sid(), None);
}

#[test]
fn rule_errors() {
    assert_eq!(
        parse_rule("alert tcp any any -> any 80"),
        Err(AegisError::InvalidFormat("rule options missing '('".to_string()))
    );
    assert_eq!(
        parse_rule("alert tcp any any -> any 80 ("),
        Err(AegisError::InvalidFormat("rule options missing ')'".to_string()))
    );
    assert_eq!(
        parse_rule("alert ) tcp ("),
        Err(AegisError::InvalidFormat("rule option block is malformed".to_string()))
    );
    assert_eq!(
        parse_rule("alert tcp any -> any 80 (sid:1;)"),
        Err(AegisError::InvalidFormat("rule header expects 7 fields, got 6".to_string()))
    );
    assert_eq!(
        parse_rule("alert tcp any x -> any 80 (sid:1;)"),
        Err(AegisError::InvalidFormat("invalid port x".to_string()))
    );
}

#[test]
fn port_specs() {
    let p = parse_port_spec("![1:1024, 8080]").unwrap();
    assert!(p.negated);
    assert_eq!(p.ranges, vec![(1, 1024), (8080, 8080)]);
    assert!(!p.contains(80));
    assert!(p.contains(2000));
    let any = parse_port_spec("ANY").unwrap();
    assert!(any.any && any.contains(1));
    let open = parse_port_spec(":100").unwrap();
    assert_eq!(open.ranges, vec![(0, 100)]);
    let high = parse_port_spec("1000:").unwrap();
    assert_eq!(high.ranges, vec![(1000, 65535)]);
    assert_eq!(parse_port_spec("[]"), Err(AegisError::InvalidFormat("empty port spec []".to_string())));
    assert_eq!(parse_port_spec("9:3"), Err(AegisError::InvalidFormat("invalid port range 9:3".to_string())));
    assert_eq!(parse_port_spec("70000"), Err(AegisError::InvalidFormat("invalid port 70000".to_string())));
}

#[test]
fn normalized_rule_text() {
    let rule = parse_rule("alert tcp any any -> any [80,443] (sid:7; zeta; msg:\"two words\"; rev:2; content:\"x\";)").unwrap();
    assert_eq!(
        normalize_rule(&rule),
        "alert tcp any any -> any [80,443] (msg:\"two words\"; content:x; sid:7; rev:2; zeta;)"
    );
    let single = parse_rule("pass ip any !any -> any 1:9 (b; a;)").unwrap();
    assert_eq!(normalize_rule(&single), "pass ip any !any -> any 1:9 (a; b;)");
}

#[test]
fn validation_findings() {
    let rule = parse_rule("bogus smtp any any => any any (content:\"\";)").unwrap();
    let set = validate_rule(&rule);
    let codes: Vec<&str> = set.iter().map(|d| d.code.as_str()).collect();
    assert_eq!(
        codes,
        vec![
            "rule.action.unknown",
            "rule.protocol.unusual",
            "rule.direction.invalid",
            "rule.sid.missing",
            "rule.rev.missing",
            "rule.msg.missing",
            "rule.content.empty",
        ]
    );
    assert!(set.has_errors());
}

#[test]
fn duplicate_sids_are_flagged() {
    let parsed = parse_rules_file("# comment\n\nalert tcp any any -> any 80 (msg:\"a\"; sid:5; rev:1;)\nalert tcp any any -> any 81 (msg:\"b\"; sid:5; rev:1;)\nnot a rule\n");
    assert_eq!(parsed.len(), 3);
    assert!(parsed[2].is_err());
    let rules: Vec<_> = parsed.into_iter().filter_map(|r| r.ok()).collect();
    let set = validate_rules(&rules);
    let dups: Vec<String> = set.iter().filter(|d| d.code == "rule.sid.duplicate").map(|d| d.message.clone()).collect();
    assert_eq!(dups, vec!["duplicate sid 5".to_string()]);
}

fn meta(protocol: &str, sport: u16, dport: u16, names: &[&str]) -> PacketMetadata {
    PacketMetadata {
        frame_index: 3,
        source_ip: None,
        destination_ip: None,
        protocol: Some(protocol.to_string()),
        source_port: Some(sport),
        destination_port: Some(dport),
        dns_names: names.iter().map(|s| s.to_string()).collect(),
        notes: Vec::new(),
        exposure_score: 0,
    }
}

#[test]
fn rules_match_packets() {
    let web = parse_rule("alert tcp any any -> any 80 (sid:1;)").unwrap();
    let dns = parse_rule("alert udp any any -> any 53 (content:\"EVIL\"; sid:2;)").unwrap();
    assert_eq!(matches_metadata(&web, &meta("tcp", 5000, 80, &[])), Some("protocol-and-port".to_string()));
    assert_eq!(matches_metadata(&web, &meta("udp", 5000, 80, &[])), None);
    assert_eq!(matches_metadata(&dns, &meta("udp", 5000, 53, &["evil.example"])), Some("content-hint-domain".to_string()));
    let all = match_rules_to_metadata(&[web, dns], &[meta("tcp", 1, 80, &[]), meta("udp", 1, 53, &[])]);
    assert_eq!(all.len(), 2);
    assert_eq!(all[0].sid, Some(1));
    assert_eq!(all[1].sid, Some(2));
    assert_eq!(all[1].frame_index, 3);
}

#[test]
fn validation_counts_per_rule_and_duplicates() {
    let parsed = parse_rules_file("alert tcp any any -> any 80 (sid:9;)\nalert tcp any any -> any 81 (msg:\"x\"; sid:9; rev:2;)\nalert tcp any any -> any 82 (sid:9;)\n");
    let rules: Vec<_> = parsed.into_iter().map(|r| r.unwrap()).collect();
    let own: usize = rules.iter().map(|r| validate_rule(r).len()).sum();
    let set = validate_rules(&rules);
    assert_eq!(set.len(), own + 2);
}
