use vstd::prelude::*;
use crate::common::ip::{CidrBlock, Ipv4AddrExt, spec_parse_cidr, spec_parse_ipv4};
use crate::common::text::{chars_of, contains_seq, contains_str, has_char, string_of, trim, trim_ws};
use crate::ioc::normalize::{normalize_domain, normalize_hash, normalize_url,
    spec_normalize_domain, spec_normalize_hash, spec_normalize_url};

verus! {

/// What a piece of indicator text looks like.
#[derive(Debug, Clone, Copy, PartialEq, Eq, Structural)]
pub enum CandidateKind {
    Ip,
    Cidr,
    Domain,
    Url,
    Hash,
    Unknown,
}

/// The kind of a candidate, tried in the order CIDR, IP, URL, hash, domain.
pub open spec fn spec_classify(input: Seq<char>) -> CandidateKind {
    let v = trim(input);
    if v.contains('/') && spec_parse_cidr(v) is Ok {
        CandidateKind::Cidr
    } else if spec_parse_ipv4(v) is Ok {
        CandidateKind::Ip
    } else if spec_normalize_url(v) is Some {
        CandidateKind::Url
    } else if spec_normalize_hash(v) is Some {
        CandidateKind::Hash
    } else if spec_normalize_domain(v) is Some {
        CandidateKind::Domain
    } else {
        CandidateKind::Unknown
    }
}

pub fn classify_candidate(input: &str) -> (r: CandidateKind)
    ensures
        r == spec_classify(input@),
{
    let all = chars_of(input);
    let t = trim_ws(all.as_slice());
    let value = string_of(t);
    let v = value.as_str();
    if has_char(t, '/') && CidrBlock::parse(v).is_ok() {
        return CandidateKind::Cidr;
    }
    if Ipv4AddrExt::parse(v).is_ok() {
        return CandidateKind::Ip;
    }
    if normalize_url(v).is_some() {
        return CandidateKind::Url;
    }
    if normalize_hash(v).is_some() {
        return CandidateKind::Hash;
    }
    if normalize_domain(v).is_some() {
        return CandidateKind::Domain;
    }
    CandidateKind::Unknown
}

pub open spec fn base_confidence(kind: CandidateKind) -> u8 {
    match kind {
        CandidateKind::Ip => 75,
        CandidateKind::Cidr => 80,
        CandidateKind::Domain => 70,
        CandidateKind::Url => 85,
        CandidateKind::Hash => 90,
        CandidateKind::Unknown => 0,
    }
}

/// The confidence for a kind: lowered by 10 for an allow hint, raised by 10 (to at most
/// 100) for a block or deny hint.
pub open spec fn spec_confidence(kind: CandidateKind, hint: Seq<char>) -> u8 {
    let base = base_confidence(kind);
    if contains_seq(hint, "allow"@) {
        if base >= 10 {
            (base - 10) as u8
        } else {
            0
        }
    } else if contains_seq(hint, "block"@) || contains_seq(hint, "deny"@) {
        if base + 10 > 100 {
            100
        } else {
            (base + 10) as u8
        }
    } else {
        base
    }
}

pub fn confidence_for_candidate(kind: CandidateKind, source_hint: &str) -> (r: u8)
    ensures
        r == spec_confidence(kind, source_hint@),
{
    let base: u8 = match kind {
        CandidateKind::Ip => 75,
        CandidateKind::Cidr => 80,
        CandidateKind::Domain => 70,
        CandidateKind::Url => 85,
        CandidateKind::Hash => 90,
        CandidateKind::Unknown => 0,
    };
    let hint = chars_of(source_hint);
    if contains_str(hint.as_slice(), "allow") {
        if base >= 10 {
            base - 10
        } else {
            0
        }
    } else if contains_str(hint.as_slice(), "block") || contains_str(hint.as_slice(), "deny") {
        if base + 10 > 100 {
            100
        } else {
            base + 10
        }
    } else {
        base
    }
}

} // verus!
