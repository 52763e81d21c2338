use aegislens::ioc::classify::{classify_candidate, CandidateKind};
use aegislens::ioc::normalize::{extract_domain_from_url, normalize_domain, normalize_hash};
use aegislens::ioc::parser::parse_ioc_text;

#[test]
fn parses_ioc_list_and_detects_duplicate() {
    let set = parse_ioc_text("block 203.0.113.5 malware\n203.0.113.5\nexample.com\n");
    assert_eq!(set.records.len(), 2);
    assert_eq!(set.duplicates.len(), 1);
}

#[test]
fn domains_are_normalized() {
    assert_eq!(normalize_domain("Example.COM."), Some("example.com".to_string()));
    assert_eq!(normalize_domain(""), None);
}

#[test]
fn urls_give_their_host() {
    assert_eq!(extract_domain_from_url("https://Evil.Example.net/path?q=1"), Some("evil.example.net".to_string()));
}

#[test]
fn hashes_are_classified_by_length() {
    let md5 = "d41d8cd98f00b204e9800998ecf8427e";
    let (alg, value) = normalize_hash(md5).unwrap();
    assert_eq!(alg, "md5");
    assert_eq!(value, md5);
    assert!(normalize_hash("xyz").is_none());
}

#[test]
fn candidates_are_classified() {
    assert_eq!(classify_candidate("10.0.0.1"), CandidateKind::Ip);
    assert_eq!(classify_candidate("10.0.0.0/8"), CandidateKind::Cidr);
}

#[test]
fn normalized_domain_is_stable() {
    let d = normalize_domain("\"*.Sub.Example.COM..\"").unwrap();
    assert_eq!(d, "sub.example.com");
    assert_eq!(normalize_domain(&d), Some(d.clone()));
}
