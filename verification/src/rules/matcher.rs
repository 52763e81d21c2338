use vstd::prelude::*;
use vstd::string::*;
use crate::common::text::{chars_of, contains, contains_seq, contains_str, eq_str, lower_chars, lower_seq};
use crate::packet::metadata::{MetaView, PacketMetadata};
use crate::rules::model::{
    IdsRule, RuleView, spec_contents, spec_number_option, spec_port_contains, str_views,
};

verus! {

/// A packet that a rule's protocol and ports admit, and why.
#[derive(Debug, Clone, PartialEq, Eq)]
pub struct RuleMetadataMatch {
    pub sid: Option<u32>,
    pub frame_index: usize,
    pub reason: String,
}

pub ghost struct RuleMatchView {
    pub sid: Option<nat>,
    pub frame_index: usize,
    pub reason: Seq<char>,
}

impl View for RuleMetadataMatch {
    type V = RuleMatchView;

    open spec fn view(&self) -> RuleMatchView {
        RuleMatchView {
            sid: match self.sid {
                Some(s) => Some(s as nat),
                None => None,
            },
            frame_index: self.frame_index,
            reason: self.reason@,
        }
    }
}

/// A port field admits the packet's port; a packet without one only passes `any`.
pub open spec fn port_admits(p: crate::rules::model::PortView, port: Option<u16>) -> bool {
    match port {
        Some(x) => spec_port_contains(p, x),
        None => p.any,
    }
}

/// Some name holds the text.
pub open spec fn some_name_contains(names: Seq<Seq<char>>, t: Seq<char>) -> bool {
    exists|i: int| 0 <= i < names.len() && contains_seq(#[trigger] names[i], t)
}

/// Why the first telling `content` value relates to the packet's DNS names: one that
/// mentions `dns` on a packet with names, or one that a name contains (both compared in
/// lower case); with none, the protocol and ports alone.
pub open spec fn content_reason(cs: Seq<Seq<char>>, names: Seq<Seq<char>>) -> Seq<char>
    decreases cs.len(),
{
    if cs.len() == 0 {
        "protocol-and-port"@
    } else {
        let l = lower_seq(cs[0]);
        if contains_seq(l, "dns"@) && names.len() > 0 {
            "content-hint-dns"@
        } else if some_name_contains(names, l) {
            "content-hint-domain"@
        } else {
            content_reason(cs.skip(1), names)
        }
    }
}

/// A rule matches a packet where its protocol is `ip` or the packet's (`unknown` where it
/// has none), and both port fields admit the packet's ports.
pub open spec fn spec_matches_metadata(r: RuleView, p: MetaView) -> Option<Seq<char>> {
    let proto = match p.protocol {
        Some(x) => x,
        None => "unknown"@,
    };
    if r.protocol != "ip"@ && proto != r.protocol {
        None
    } else if !port_admits(r.destination_ports, p.destination_port) {
        None
    } else if !port_admits(r.source_ports, p.source_port) {
        None
    } else {
        Some(content_reason(spec_contents(r.options), p.dns_names))
    }
}

fn port_admits_exec(p: &crate::rules::model::PortSpec, port: Option<u16>) -> (r: bool)
    ensures
        r == port_admits(p@, port),
{
    match port {
        Some(x) => p.contains(x),
        None => p.any,
    }
}

fn any_name_contains(names: &Vec<String>, t: &[char]) -> (r: bool)
    ensures
        r == some_name_contains(names.deep_view(), t@),
{
    let ghost nv = names.deep_view();
    let mut i: usize = 0;
    while i < names.len()
        invariant
            i <= names@.len(),
            nv == names.deep_view(),
            forall|k: int| 0 <= k < i ==> !contains_seq(#[trigger] nv[k], t@),
        decreases names@.len() - i,
    {
        let n = chars_of(names[i].as_str());
        assert(nv[i as int] == names@[i as int]@);
        if contains(n.as_slice(), t) {
            return true;
        }
        i = i + 1;
    }
    false
}

/// Whether a rule's protocol and ports admit a packet, and if so why.
pub fn matches_metadata(rule: &IdsRule, packet: &PacketMetadata) -> (r: Option<String>)
    ensures
        match r {
            Some(s) => spec_matches_metadata(rule@, packet@) == Some(s@),
            None => spec_matches_metadata(rule@, packet@) is None,
        },
{
    let proto = match &packet.protocol {
        Some(p) => chars_of(p.as_str()),
        None => chars_of("unknown"),
    };
    let rp = chars_of(rule.protocol.as_str());
    if !eq_str(rp.as_slice(), "ip") && !crate::common::text::chars_eq(proto.as_slice(), rp.as_slice()) {
        return None;
    }
    if !port_admits_exec(&rule.destination_ports, packet.destination_port) {
        return None;
    }
    if !port_admits_exec(&rule.source_ports, packet.source_port) {
        return None;
    }
    let contents = rule.contents();
    let ghost cs = str_views(contents@);
    let ghost names = packet@.dns_names;
    let mut i: usize = 0;
    assert(cs.skip(0) =~= cs);
    assert(spec_matches_metadata(rule@, packet@) == Some(content_reason(cs, names)));
    while i < contents.len()
        invariant
            i <= contents@.len(),
            cs == str_views(contents@),
            names == packet.dns_names.deep_view(),
            names == packet@.dns_names,
            cs == spec_contents(rule@.options),
            spec_matches_metadata(rule@, packet@) == Some(content_reason(cs, names)),
            content_reason(cs.skip(i as int), names) == content_reason(cs, names),
        decreases contents@.len() - i,
    {
        let ghost q = cs.skip(i as int);
        assert(q[0] == contents@[i as int]@);
        assert(q.skip(1) =~= cs.skip(i + 1));
        let c = chars_of(contents[i]);
        let lower = lower_chars(c.as_slice());
        if contains_str(lower.as_slice(), "dns") && packet.dns_names.len() > 0 {
            return Some(String::from_str("content-hint-dns"));
        }
        if any_name_contains(&packet.dns_names, lower.as_slice()) {
            return Some(String::from_str("content-hint-domain"));
        }
        i = i + 1;
    }
    assert(cs.skip(i as int) =~= Seq::<Seq<char>>::empty());
    Some(String::from_str("protocol-and-port"))
}

/// The matches of one rule, packet by packet.
pub open spec fn rule_packet_matches(r: RuleView, ps: Seq<MetaView>) -> Seq<RuleMatchView>
    decreases ps.len(),
{
    if ps.len() == 0 {
        Seq::empty()
    } else {
        rule_packet_matches(r, ps.drop_last()) + match spec_matches_metadata(r, ps.last()) {
            Some(reason) => seq![
                RuleMatchView {
                    sid: spec_number_option(r.options, "sid"@),
                    frame_index: ps.last().frame_index,
                    reason,
                },
            ],
            None => Seq::empty(),
        }
    }
}

/// The matches of every rule, rule by rule.
pub open spec fn all_rule_matches(rs: Seq<RuleView>, ps: Seq<MetaView>) -> Seq<RuleMatchView>
    decreases rs.len(),
{
    if rs.len() == 0 {
        Seq::empty()
    } else {
        all_rule_matches(rs.drop_last(), ps) + rule_packet_matches(rs.last(), ps)
    }
}

/// The match of one rule and one packet, where there is one.
pub open spec fn packet_match(r: RuleView, p: MetaView) -> Option<RuleMatchView> {
    match spec_matches_metadata(r, p) {
        Some(reason) => Some(
            RuleMatchView {
                sid: spec_number_option(r.options, "sid"@),
                frame_index: p.frame_index,
                reason,
            },
        ),
        None => None,
    }
}

proof fn lemma_rule_packet_matches_flat(r: RuleView, ps: Seq<MetaView>)
    ensures
        rule_packet_matches(r, ps) == ps.filter_map(|p: MetaView| packet_match(r, p)),
    decreases ps.len(),
{
    if ps.len() > 0 {
        lemma_rule_packet_matches_flat(r, ps.drop_last());
    }
}

/// Matching is rule-major: for each rule in turn, one entry per packet it matches, in
/// packet order, with the rule's `sid`, the packet's frame index and the reason.
pub proof fn law_rule_matches_flat(rs: Seq<RuleView>, ps: Seq<MetaView>)
    ensures
        all_rule_matches(rs, ps) == rs.flat_map(
            |r: RuleView| ps.filter_map(|p: MetaView| packet_match(r, p)),
        ),
    decreases rs.len(),
{
    let g = |r: RuleView| ps.filter_map(|p: MetaView| packet_match(r, p));
    if rs.len() == 0 {
        assert(rs.map_values(g) =~= Seq::<Seq<RuleMatchView>>::empty());
        assert(rs.flat_map(g) =~= Seq::<RuleMatchView>::empty());
    } else {
        law_rule_matches_flat(rs.drop_last(), ps);
        lemma_rule_packet_matches_flat(rs.last(), ps);
        rs.drop_last().lemma_flat_map_push(g, rs.last());
        assert(rs.drop_last().push(rs.last()) =~= rs);
    }
}

pub open spec fn rule_match_views(v: Seq<RuleMetadataMatch>) -> Seq<RuleMatchView> {
    v.map_values(|m: RuleMetadataMatch| m@)
}

fn match_rule(out: &mut Vec<RuleMetadataMatch>, rule: &IdsRule, packets: &[PacketMetadata])
    ensures
        rule_match_views(final(out)@) == rule_match_views(old(out)@) + rule_packet_matches(
            rule@,
            packets@.map_values(|p: PacketMetadata| p@),
        ),
{
    let ghost pv = packets@.map_values(|p: PacketMetadata| p@);
    let ghost start = rule_match_views(out@);
    let sid = rule.sid();
    let mut i: usize = 0;
    assert(pv.take(0) =~= Seq::<MetaView>::empty());
    assert(start =~= start + rule_packet_matches(rule@, pv.take(0)));
    while i < packets.len()
        invariant
            i <= packets@.len(),
            pv == packets@.map_values(|p: PacketMetadata| p@),
            sid matches Some(v) ==> spec_number_option(rule@.options, "sid"@) == Some(v as nat),
            sid is None ==> spec_number_option(rule@.options, "sid"@) is None,
            rule_match_views(out@) == start + rule_packet_matches(rule@, pv.take(i as int)),
        decreases packets@.len() - i,
    {
        let ghost before = rule_match_views(out@);
        assert(pv.take(i + 1).drop_last() =~= pv.take(i as int));
        assert(pv.take(i + 1).last() == packets@[i as int]@);
        match matches_metadata(rule, &packets[i]) {
            Some(reason) => {
                let m = RuleMetadataMatch { sid, frame_index: packets[i].frame_index, reason };
                out.push(m);
                assert(rule_match_views(out@) =~= before.push(m@));
            },
            None => {},
        }
        assert(rule_match_views(out@) =~= start + rule_packet_matches(rule@, pv.take(i + 1)));
        i = i + 1;
    }
    assert(pv.take(packets@.len() as int) =~= pv);
}

/// For each rule in turn, each packet whose protocol and ports it admits.
pub fn match_rules_to_metadata(rules: &[IdsRule], packets: &[PacketMetadata]) -> (r: Vec<
    RuleMetadataMatch,
>)
    ensures
        rule_match_views(r@) == all_rule_matches(
            rules@.map_values(|x: IdsRule| x@),
            packets@.map_values(|p: PacketMetadata| p@),
        ),
        rule_match_views(r@) == rules@.map_values(|x: IdsRule| x@).flat_map(
            |rule: RuleView| packets@.map_values(|p: PacketMetadata| p@).filter_map(
                |p: MetaView| packet_match(rule, p),
            ),
        ),
{
    let ghost rv = rules@.map_values(|x: IdsRule| x@);
    let ghost pv = packets@.map_values(|p: PacketMetadata| p@);
    let mut out: Vec<RuleMetadataMatch> = Vec::new();
    let mut i: usize = 0;
    assert(rv.take(0) =~= Seq::<RuleView>::empty());
    assert(rule_match_views(out@) =~= Seq::<RuleMatchView>::empty());
    while i < rules.len()
        invariant
            i <= rules@.len(),
            rv == rules@.map_values(|x: IdsRule| x@),
            pv == packets@.map_values(|p: PacketMetadata| p@),
            rule_match_views(out@) == all_rule_matches(rv.take(i as int), pv),
        decreases rules@.len() - i,
    {
        assert(rv.take(i + 1).drop_last() =~= rv.take(i as int));
        assert(rv.take(i + 1).last() == rules@[i as int]@);
        match_rule(&mut out, &rules[i], packets);
        i = i + 1;
    }
    assert(rv.take(rules@.len() as int) =~= rv);
    proof {
        law_rule_matches_flat(rv, pv);
    }
    out
}

/// A rule for protocol `ip` whose port fields admit the packet's ports matches the packet,
/// whatever the packet's protocol; a rule for another protocol matches only packets of
/// that protocol (`unknown` for a packet without one).
pub proof fn law_ip_rules_match_any_protocol(r: RuleView, p: MetaView)
    ensures
        r.protocol == "ip"@ && port_admits(r.destination_ports, p.destination_port) && port_admits(
            r.source_ports,
            p.source_port,
        ) ==> spec_matches_metadata(r, p) is Some,
        r.protocol != "ip"@ && spec_matches_metadata(r, p) is Some ==> p.protocol == Some(
            r.protocol,
        ) || (p.protocol is None && r.protocol == "unknown"@),
{
}

/// A rule matches a packet only if the packet's destination port lies in the rule's
/// destination ports and its source port in the rule's source ports; a packet without a
/// port passes only a port field of `any`.
pub proof fn law_rule_match_checks_ports(r: RuleView, p: MetaView)
    ensures
        spec_matches_metadata(r, p) is Some ==> match p.destination_port {
            Some(x) => spec_port_contains(r.destination_ports, x),
            None => r.destination_ports.any,
        },
        spec_matches_metadata(r, p) is Some ==> match p.source_port {
            Some(x) => spec_port_contains(r.source_ports, x),
            None => r.source_ports.any,
        },
{
}

} // verus!
