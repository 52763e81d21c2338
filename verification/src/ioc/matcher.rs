use vstd::prelude::*;
use vstd::string::*;
use crate::common::ip::{CidrBlock, Ipv4AddrExt};
use crate::common::status::{MatchDisposition, Severity};
use crate::common::text::{CharSet, chars_eq, chars_of, ends_with, has_suffix, lower, lower_chars,
    lower_seq, trim_end_set, trim_end_slice};
use crate::ioc::model::{IocKind, IocRecord, IocSet, KindView, RecordView, kind_key};
use crate::ioc::normalize::{extract_domain_from_url, spec_extract_domain};
use crate::packet::metadata::{MetaView, PacketMetadata};

verus! {

/// An indicator seen in a frame, and why.
#[derive(Debug, Clone, PartialEq, Eq)]
pub struct IocMatch {
    pub key: String,
    pub frame_index: usize,
    pub disposition: MatchDisposition,
    pub severity: Severity,
    pub confidence: u8,
    pub reason: String,
}

pub ghost struct MatchView {
    pub key: Seq<char>,
    pub frame_index: usize,
    pub disposition: MatchDisposition,
    pub severity: Severity,
    pub confidence: u8,
    pub reason: Seq<char>,
}

impl View for IocMatch {
    type V = MatchView;

    open spec fn view(&self) -> MatchView {
        MatchView {
            key: self.key@,
            frame_index: self.frame_index,
            disposition: self.disposition,
            severity: self.severity,
            confidence: self.confidence,
            reason: self.reason@,
        }
    }
}

/// An observed name is the indicator's domain or a subdomain of it (trailing dots and case
/// ignored).
pub open spec fn spec_domain_matches(ioc: Seq<char>, observed: Seq<char>) -> bool {
    let i = lower_seq(trim_end_set(ioc, CharSet::One('.')));
    let o = lower_seq(trim_end_set(observed, CharSet::One('.')));
    o == i || has_suffix(o, "."@ + i)
}

pub open spec fn any_name_matches(domain: Seq<char>, names: Seq<Seq<char>>) -> bool {
    exists|k: int| 0 <= k < names.len() && spec_domain_matches(domain, #[trigger] names[k])
}

pub open spec fn in_block(n: u32, p: u8, a: Option<u32>) -> bool {
    match a {
        Some(x) => (CidrBlock { network: Ipv4AddrExt(n), prefix: p }).spec_contains(x),
        None => false,
    }
}

/// Why a record matches a frame, if it does.
pub open spec fn match_reason(r: KindView, m: MetaView) -> Option<Seq<char>> {
    match r {
        KindView::Ip(ip) => if m.source_ip == Some(ip) || m.destination_ip == Some(ip) {
            Some("endpoint-ip"@)
        } else {
            None
        },
        KindView::Cidr(n, p) => if in_block(n, p, m.source_ip) || in_block(n, p, m.destination_ip) {
            Some("endpoint-cidr"@)
        } else {
            None
        },
        KindView::Domain(d) => if any_name_matches(d, m.dns_names) {
            Some("dns-name"@)
        } else {
            None
        },
        KindView::Url(u) => match spec_extract_domain(u) {
            Some(d) => if any_name_matches(d, m.dns_names) {
                Some("url-host-via-dns"@)
            } else {
                None
            },
            None => None,
        },
        KindView::Hash(_, _) => None,
    }
}

/// The matches of the records against one frame, in record order.
pub open spec fn frame_matches(records: Seq<RecordView>, m: MetaView) -> Seq<MatchView>
    decreases records.len(),
{
    if records.len() == 0 {
        Seq::empty()
    } else {
        let r = records.last();
        frame_matches(records.drop_last(), m) + match match_reason(r.kind, m) {
            Some(reason) => seq![
                MatchView {
                    key: kind_key(r.kind),
                    frame_index: m.frame_index,
                    disposition: r.disposition,
                    severity: r.severity,
                    confidence: r.confidence,
                    reason,
                },
            ],
            None => Seq::empty(),
        }
    }
}

/// The matches of the records against the frames, frame by frame.
pub open spec fn all_matches(records: Seq<RecordView>, packets: Seq<MetaView>) -> Seq<MatchView>
    decreases packets.len(),
{
    if packets.len() == 0 {
        Seq::empty()
    } else {
        all_matches(records, packets.drop_last()) + frame_matches(records, packets.last())
    }
}

fn domain_matches(ioc: &[char], observed: &[char]) -> (r: bool)
    ensures
        r == spec_domain_matches(ioc@, observed@),
{
    let i = lower_chars(trim_end_slice(ioc, CharSet::One('.')));
    let o = lower_chars(trim_end_slice(observed, CharSet::One('.')));
    if chars_eq(o.as_slice(), i.as_slice()) {
        return true;
    }
    let mut dotted: Vec<char> = Vec::new();
    dotted.push('.');
    let mut k: usize = 0;
    while k < i.len()
        invariant
            k <= i@.len(),
            dotted@ == seq!['.'] + i@.take(k as int),
        decreases i@.len() - k,
    {
        dotted.push(i[k]);
        assert(i@.take(k + 1) =~= i@.take(k as int).push(i@[k as int]));
        assert(dotted@ =~= seq!['.'] + i@.take(k + 1));
        k = k + 1;
    }
    proof {
        reveal_strlit(".");
        assert(i@.take(i@.len() as int) =~= i@);
        assert(dotted@ =~= "."@ + i@);
    }
    ends_with(o.as_slice(), dotted.as_slice())
}

fn any_name(domain: &[char], names: &Vec<String>) -> (r: bool)
    ensures
        r == any_name_matches(domain@, names.deep_view()),
{
    let mut k: usize = 0;
    while k < names.len()
        invariant
            k <= names@.len(),
            forall|j: int| 0 <= j < k ==> !spec_domain_matches(domain@, #[trigger] names.deep_view()[j]),
        decreases names@.len() - k,
    {
        let n = chars_of(names[k].as_str());
        if domain_matches(domain, n.as_slice()) {
            assert(spec_domain_matches(domain@, names.deep_view()[k as int]));
            return true;
        }
        k = k + 1;
    }
    false
}

fn record_matches_packet(record: &IocRecord, packet: &PacketMetadata) -> (r: Option<String>)
    ensures
        match match_reason(record.kind@, packet@) {
            Some(x) => r matches Some(s) && s@ == x,
            None => r is None,
        },
{
    match &record.kind {
        IocKind::Ip(ip) => {
            let src = match packet.source_ip {
                Some(a) => a.0 == ip.0,
                None => false,
            };
            let dst = match packet.destination_ip {
                Some(a) => a.0 == ip.0,
                None => false,
            };
            if src || dst {
                Some(String::from_str("endpoint-ip"))
            } else {
                None
            }
        },
        IocKind::Cidr(cidr) => {
            let src = match packet.source_ip {
                Some(ip) => cidr.contains(ip),
                None => false,
            };
            let dst = match packet.destination_ip {
                Some(ip) => cidr.contains(ip),
                None => false,
            };
            if src || dst {
                Some(String::from_str("endpoint-cidr"))
            } else {
                None
            }
        },
        IocKind::Domain(domain) => {
            let d = chars_of(domain.as_str());
            if any_name(d.as_slice(), &packet.dns_names) {
                Some(String::from_str("dns-name"))
            } else {
                None
            }
        },
        IocKind::Url(url) => match extract_domain_from_url(url.as_str()) {
            Some(domain) => {
                let d = chars_of(domain.as_str());
                if any_name(d.as_slice(), &packet.dns_names) {
                    Some(String::from_str("url-host-via-dns"))
                } else {
                    None
                }
            },
            None => None,
        },
        IocKind::Hash { .. } => None,
    }
}

fn match_frame(out: &mut Vec<IocMatch>, records: &Vec<IocRecord>, packet: &PacketMetadata)
    ensures
        final(out)@.map_values(|m: IocMatch| m@) == old(out)@.map_values(|m: IocMatch| m@)
            + frame_matches(records@.map_values(|r: IocRecord| r@), packet@),
{
    let ghost rv = records@.map_values(|r: IocRecord| r@);
    let ghost start = out@.map_values(|m: IocMatch| m@);
    let mut i: usize = 0;
    assert(rv.take(0) =~= Seq::<RecordView>::empty());
    assert(start + frame_matches(rv.take(0), packet@) =~= start);
    while i < records.len()
        invariant
            i <= records@.len(),
            rv == records@.map_values(|r: IocRecord| r@),
            out@.map_values(|m: IocMatch| m@) == start + frame_matches(rv.take(i as int), packet@),
        decreases records@.len() - i,
    {
        let record = &records[i];
        assert(rv.take(i + 1).drop_last() =~= rv.take(i as int));
        assert(rv.take(i + 1).last() == record@);
        let ghost before = out@.map_values(|m: IocMatch| m@);
        match record_matches_packet(record, packet) {
            Some(reason) => {
                let m = IocMatch {
                    key: record.normalized_key(),
                    frame_index: packet.frame_index,
                    disposition: record.disposition,
                    severity: record.severity,
                    confidence: record.confidence,
                    reason,
                };
                let ghost mv = m@;
                out.push(m);
                assert(out@.map_values(|m: IocMatch| m@) =~= before.push(mv));
                assert(before.push(mv) =~= start + frame_matches(rv.take(i + 1), packet@));
            },
            None => {
                assert(before =~= start + frame_matches(rv.take(i + 1), packet@));
            },
        }
        i = i + 1;
    }
    assert(rv.take(records@.len() as int) =~= rv);
}

/// Every (frame, record) pair that matches, frame by frame and in record order.
pub fn match_iocs_to_metadata(set: &IocSet, packets: &[PacketMetadata]) -> (r: Vec<IocMatch>)
    ensures
        r@.map_values(|m: IocMatch| m@) == all_matches(
            set@.records,
            packets@.map_values(|p: PacketMetadata| p@),
        ),
{
    let ghost pv = packets@.map_values(|p: PacketMetadata| p@);
    let mut out: Vec<IocMatch> = Vec::new();
    let mut i: usize = 0;
    assert(pv.take(0) =~= Seq::<MetaView>::empty());
    assert(out@.map_values(|m: IocMatch| m@) =~= Seq::<MatchView>::empty());
    while i < packets.len()
        invariant
            i <= packets@.len(),
            pv == packets@.map_values(|p: PacketMetadata| p@),
            out@.map_values(|m: IocMatch| m@) == all_matches(set@.records, pv.take(i as int)),
        decreases packets@.len() - i,
    {
        assert(pv.take(i + 1).drop_last() =~= pv.take(i as int));
        assert(pv.take(i + 1).last() == packets@[i as int]@);
        match_frame(&mut out, &set.records, &packets[i]);
        i = i + 1;
    }
    assert(pv.take(packets@.len() as int) =~= pv);
    out
}

#[derive(Debug, Clone, PartialEq, Eq)]
pub struct IocMatchSummary {
    pub blocked: usize,
    pub allowed: usize,
    pub observed: usize,
    pub highest: Severity,
}

/// The number of matches with the given disposition; `observed` counts all that are neither
/// blocked nor allowed.
pub open spec fn count_disposition(ms: Seq<MatchView>, d: MatchDisposition) -> nat
    decreases ms.len(),
{
    if ms.len() == 0 {
        0
    } else {
        count_disposition(ms.drop_last(), d) + if ms.last().disposition == d {
            1nat
        } else {
            0nat
        }
    }
}

pub open spec fn highest_severity(ms: Seq<MatchView>) -> Severity
    decreases ms.len(),
{
    if ms.len() == 0 {
        Severity::Info
    } else {
        highest_severity(ms.drop_last()).spec_max(ms.last().severity)
    }
}

/// Counts of blocked, allowed and other matches, and the highest severity (`Info` if none).
pub fn summarize_matches(matches: &[IocMatch]) -> (r: IocMatchSummary)
    ensures
        ({
            let ms = matches@.map_values(|m: IocMatch| m@);
            &&& r.blocked == count_disposition(ms, MatchDisposition::Blocked)
            &&& r.allowed == count_disposition(ms, MatchDisposition::Allowed)
            &&& r.observed == ms.len() - count_disposition(ms, MatchDisposition::Blocked)
                - count_disposition(ms, MatchDisposition::Allowed)
            &&& r.blocked + r.allowed + r.observed == ms.len()
            &&& r.highest == highest_severity(ms)
        }),
{
    let ghost ms = matches@.map_values(|m: IocMatch| m@);
    let mut blocked: usize = 0;
    let mut allowed: usize = 0;
    let mut observed: usize = 0;
    let mut highest = Severity::Info;
    let mut i: usize = 0;
    while i < matches.len()
        invariant
            i <= matches@.len(),
            ms == matches@.map_values(|m: IocMatch| m@),
            blocked == count_disposition(ms.take(i as int), MatchDisposition::Blocked),
            allowed == count_disposition(ms.take(i as int), MatchDisposition::Allowed),
            blocked + allowed + observed == i,
            highest == highest_severity(ms.take(i as int)),
        decreases matches@.len() - i,
    {
        let item = &matches[i];
        assert(ms.take(i + 1).drop_last() =~= ms.take(i as int));
        assert(ms.take(i + 1).last() == item@);
        match item.disposition {
            MatchDisposition::Blocked => blocked = blocked + 1,
            MatchDisposition::Allowed => allowed = allowed + 1,
            _ => observed = observed + 1,
        }
        highest = highest.max(item.severity);
        i = i + 1;
    }
    assert(ms.take(matches@.len() as int) =~= ms);
    IocMatchSummary { blocked, allowed, observed, highest }
}

/// A domain indicator matches a frame that asked for the domain itself or for any name
/// beneath it (`x.` followed by the domain), names and domain being in lower case with no
/// trailing dot.
pub proof fn law_domain_ioc_matches_subdomains(d: Seq<char>, x: Seq<char>, m: MetaView, k: int)
    requires
        d.len() > 0,
        d.last() != '.',
        lower_seq(d) == d,
        lower_seq(x) == x,
        0 <= k < m.dns_names.len(),
        m.dns_names[k] == d || m.dns_names[k] == x + "."@ + d,
    ensures
        match_reason(KindView::Domain(d), m) == Some("dns-name"@),
{
    reveal_strlit(".");
    let o = m.dns_names[k];
    assert(trim_end_set(d, CharSet::One('.')) == d);
    if o == x + "."@ + d {
        let dot = "."@ + d;
        assert(o =~= x + dot);
        assert(o.last() == d.last());
        assert(trim_end_set(o, CharSet::One('.')) == o);
        assert(lower_seq(o) =~= lower_seq(x) + seq![lower('.')] + lower_seq(d));
        assert(lower('.') == '.');
        assert(lower_seq(o) =~= o);
        assert(o.skip(o.len() - dot.len()) =~= dot);
        assert(has_suffix(o, dot));
    }
    assert(spec_domain_matches(d, m.dns_names[k]));
    assert(any_name_matches(d, m.dns_names));
}

/// An address indicator matches exactly the frames with that address at either end, and a
/// block indicator those with an address of the block at either end.
pub proof fn law_address_iocs_match_endpoints(ip: u32, n: u32, p: u8, m: MetaView)
    ensures
        match_reason(KindView::Ip(ip), m) is Some <==> (m.source_ip == Some(ip)
            || m.destination_ip == Some(ip)),
        match_reason(KindView::Cidr(n, p), m) is Some <==> ((m.source_ip matches Some(a) && (
        CidrBlock { network: Ipv4AddrExt(n), prefix: p }).spec_contains(a)) || (
        m.destination_ip matches Some(a) && (CidrBlock {
            network: Ipv4AddrExt(n),
            prefix: p,
        }).spec_contains(a))),
{
}

} // verus!
