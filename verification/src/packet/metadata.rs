use vstd::prelude::*;
use vstd::string::*;
use crate::common::catalog::{port_exposure_score, protocol_name, spec_port_exposure_score,
    spec_protocol_name};
use crate::common::checksum::spec_internet_checksum;
use crate::common::endian::{be16_at, be32, u16_from_be};
use crate::common::ip::{Ipv4AddrExt, ip_text, spec_classify_ipv4};
use crate::common::status::{ErrorView, error_text};
use crate::common::text::{dec, push_dec};
use crate::packet::dns::{DnsMessage, DnsQuestion, QuestionView, spec_dns};
use crate::packet::ethernet::{EthernetFrame, spec_ethernet};
use crate::packet::ipv4::{Ipv4Packet, ipv4_error, ipv4_fields_ok, spec_path_risk_notes};
use crate::packet::pcap::{PcapFile, PcapRecord, spec_pcap, packet_matches};
use crate::packet::transport::{TransportPacket, tcp_error, udp_error, tcp_fields_ok, udp_fields_ok};

verus! {

/// What one frame says: endpoints, protocol, ports, DNS names, notes and exposure.
#[derive(Debug, Clone, PartialEq, Eq)]
pub struct PacketMetadata {
    pub frame_index: usize,
    pub source_ip: Option<Ipv4AddrExt>,
    pub destination_ip: Option<Ipv4AddrExt>,
    pub protocol: Option<String>,
    pub source_port: Option<u16>,
    pub destination_port: Option<u16>,
    pub dns_names: Vec<String>,
    pub notes: Vec<String>,
    pub exposure_score: u8,
}

pub ghost struct MetaView {
    pub frame_index: usize,
    pub source_ip: Option<u32>,
    pub destination_ip: Option<u32>,
    pub protocol: Option<Seq<char>>,
    pub source_port: Option<u16>,
    pub destination_port: Option<u16>,
    pub dns_names: Seq<Seq<char>>,
    pub notes: Seq<Seq<char>>,
    pub exposure_score: u8,
}

pub open spec fn opt_ip(a: Option<Ipv4AddrExt>) -> Option<u32> {
    match a {
        Some(x) => Some(x.0),
        None => None,
    }
}

pub open spec fn opt_text(a: Option<String>) -> Option<Seq<char>> {
    match a {
        Some(x) => Some(x@),
        None => None,
    }
}

impl View for PacketMetadata {
    type V = MetaView;

    open spec fn view(&self) -> MetaView {
        MetaView {
            frame_index: self.frame_index,
            source_ip: opt_ip(self.source_ip),
            destination_ip: opt_ip(self.destination_ip),
            protocol: opt_text(self.protocol),
            source_port: self.source_port,
            destination_port: self.destination_port,
            dns_names: self.dns_names.deep_view(),
            notes: self.notes.deep_view(),
            exposure_score: self.exposure_score,
        }
    }
}

/// `text` or `-`.
pub open spec fn or_dash(t: Option<Seq<char>>) -> Seq<char> {
    match t {
        Some(x) => x,
        None => "-"@,
    }
}

/// `src:sport>dst:dport:protocol`, `-` for what is missing and `unknown` for no protocol.
pub open spec fn endpoint_text(m: MetaView) -> Seq<char> {
    or_dash(
        match m.source_ip {
            Some(x) => Some(ip_text(x)),
            None => None,
        },
    ) + ":"@ + or_dash(
        match m.source_port {
            Some(p) => Some(dec(p as nat)),
            None => None,
        },
    ) + ">"@ + or_dash(
        match m.destination_ip {
            Some(x) => Some(ip_text(x)),
            None => None,
        },
    ) + ":"@ + or_dash(
        match m.destination_port {
            Some(p) => Some(dec(p as nat)),
            None => None,
        },
    ) + ":"@ + match m.protocol {
        Some(p) => p,
        None => "unknown"@,
    }
}

fn push_opt_ip(s: &mut String, a: Option<Ipv4AddrExt>)
    ensures
        final(s)@ == old(s)@ + or_dash(
            match a {
                Some(x) => Some(ip_text(x.0)),
                None => None,
            },
        ),
{
    match a {
        Some(x) => {
            let t = x.to_string();
            s.append(t.as_str());
        },
        None => {
            s.append("-");
        },
    }
}

fn push_opt_port(s: &mut String, p: Option<u16>)
    ensures
        final(s)@ == old(s)@ + or_dash(
            match p {
                Some(x) => Some(dec(x as nat)),
                None => None,
            },
        ),
{
    match p {
        Some(x) => {
            push_dec(s, x as u64);
        },
        None => {
            s.append("-");
        },
    }
}

impl PacketMetadata {
    /// The key that groups frames of one conversation.
    pub fn endpoint_key(&self) -> (r: String)
        ensures
            r@ == endpoint_text(self@),
    {
        let mut s = String::new();
        push_opt_ip(&mut s, self.source_ip);
        s.append(":");
        push_opt_port(&mut s, self.source_port);
        s.append(">");
        push_opt_ip(&mut s, self.destination_ip);
        s.append(":");
        push_opt_port(&mut s, self.destination_port);
        s.append(":");
        match &self.protocol {
            Some(p) => {
                s.append(p.as_str());
            },
            None => {
                s.append("unknown");
            },
        }
        s
    }
}

/// The payload of an accepted IPv4 header: up to the total length.
pub open spec fn ipv4_payload(s: Seq<u8>) -> Seq<u8> {
    let hl = (s[0] % 16) as int * 4;
    let total = be16_at(s, 2) as int;
    if total >= hl {
        s.subrange(hl, total)
    } else {
        Seq::empty()
    }
}

/// The path notes of an accepted IPv4 header, from its bytes.
pub open spec fn ipv4_risk_notes(s: Seq<u8>) -> Seq<Seq<char>> {
    let hl = (s[0] % 16) as int * 4;
    let frag = be16_at(s, 6);
    let src = be32(s[12], s[13], s[14], s[15]) as u32;
    let dst = be32(s[16], s[17], s[18], s[19]) as u32;
    (if s[8] <= 1 {
        seq!["ttl-expiring-near-sensor"@]
    } else {
        Seq::empty()
    }) + (if spec_internet_checksum(s.take(hl)) != 0 {
        seq!["invalid-ipv4-checksum"@]
    } else {
        Seq::empty()
    }) + (if frag % 8192 != 0 || (frag / 8192) % 2 != 0 {
        seq!["fragmented-ipv4"@]
    } else {
        Seq::empty()
    }) + (if spec_classify_ipv4(src) == "global"@ && spec_classify_ipv4(dst) == "private"@ {
        seq!["inbound-global-to-private"@]
    } else {
        Seq::empty()
    })
}

/// The names a DNS message asks about, if it parses.
pub open spec fn dns_names_of(s: Seq<u8>) -> Option<Seq<Seq<char>>> {
    match spec_dns(s) {
        Ok(v) => Some(v.questions.map_values(|q: QuestionView| q.name)),
        Err(_) => None,
    }
}

/// DNS names carried over TCP: a two-byte length, then the message.
pub open spec fn tcp_dns_names(tp: Seq<u8>) -> Option<Seq<Seq<char>>> {
    if tp.len() > 2 && tp.len() >= 2 + be16_at(tp, 0) {
        dns_names_of(tp.subrange(2, 2 + be16_at(tp, 0) as int))
    } else {
        None
    }
}

/// The names found, or the ones already there.
pub open spec fn names_or(found: Option<Seq<Seq<char>>>, keep: Seq<Seq<char>>) -> Seq<Seq<char>> {
    match found {
        Some(n) => n,
        None => keep,
    }
}

/// What the transport layer adds to `m`.
pub open spec fn transport_meta(m: MetaView, proto: u8, ps: Seq<u8>) -> MetaView {
    let pname = match m.protocol {
        Some(p) => p,
        None => "tcp"@,
    };
    if proto == 6 {
        match tcp_error(ps) {
            Some(e) => MetaView { notes: m.notes.push("transport-parse-error:"@ + error_text(e)), ..m },
            None => {
                let sp = be16_at(ps, 0) as u16;
                let dp = be16_at(ps, 2) as u16;
                let hl = (ps[12] / 16) as int * 4;
                MetaView {
                    source_port: Some(sp),
                    destination_port: Some(dp),
                    exposure_score: spec_port_exposure_score(dp, pname),
                    dns_names: if sp == 53 || dp == 53 {
                        names_or(tcp_dns_names(ps.skip(hl)), m.dns_names)
                    } else {
                        m.dns_names
                    },
                    ..m
                }
            },
        }
    } else if proto == 17 {
        match udp_error(ps) {
            Some(e) => MetaView { notes: m.notes.push("transport-parse-error:"@ + error_text(e)), ..m },
            None => {
                let sp = be16_at(ps, 0) as u16;
                let dp = be16_at(ps, 2) as u16;
                MetaView {
                    source_port: Some(sp),
                    destination_port: Some(dp),
                    exposure_score: spec_port_exposure_score(dp, pname),
                    dns_names: if sp == 53 || dp == 53 {
                        names_or(dns_names_of(ps.subrange(8, be16_at(ps, 4) as int)), m.dns_names)
                    } else {
                        m.dns_names
                    },
                    ..m
                }
            },
        }
    } else {
        m
    }
}

/// Metadata with nothing known but the frame index.
pub open spec fn empty_meta(frame_index: usize) -> MetaView {
    MetaView {
        frame_index,
        source_ip: None,
        destination_ip: None,
        protocol: None,
        source_port: None,
        destination_port: None,
        dns_names: Seq::empty(),
        notes: Seq::empty(),
        exposure_score: 0,
    }
}

/// What `extract_frame_metadata` finds in one frame.
pub open spec fn spec_frame_metadata(frame_index: usize, data: Seq<u8>) -> MetaView {
    let m0 = empty_meta(frame_index);
    match spec_ethernet(data) {
        Err(e) => MetaView { notes: seq!["ethernet-parse-error:"@ + error_text(e)], ..m0 },
        Ok((_, et, off)) => if et != 0x0800 {
            MetaView {
                notes: seq!["non-ipv4-ethertype:"@ + EthernetFrame::spec_ethertype_name(et)],
                ..m0
            }
        } else {
            ipv4_meta(m0, data.skip(off as int))
        },
    }
}

/// What the IPv4 layer and those above it add to `m0`.
pub open spec fn ipv4_meta(m0: MetaView, ip: Seq<u8>) -> MetaView {
    match ipv4_error(ip) {
        Some(e) => MetaView { notes: seq!["ipv4-parse-error:"@ + error_text(e)], ..m0 },
        None => {
            let m1 = MetaView {
                source_ip: Some(be32(ip[12], ip[13], ip[14], ip[15]) as u32),
                destination_ip: Some(be32(ip[16], ip[17], ip[18], ip[19]) as u32),
                protocol: Some(spec_protocol_name(ip[9])),
                notes: ipv4_risk_notes(ip),
                ..m0
            };
            transport_meta(m1, ip[9], ipv4_payload(ip))
        },
    }
}

proof fn lemma_notes_from_bytes(p: Ipv4Packet, s: Seq<u8>)
    requires
        ipv4_fields_ok(p, s),
    ensures
        spec_path_risk_notes(p) == ipv4_risk_notes(s),
{
}

fn note_with_error(prefix: &str, e: &crate::common::status::AegisError) -> (r: String)
    ensures
        r@ == prefix@ + error_text(e@),
{
    let mut s = String::from_str(prefix);
    let t = e.render();
    s.append(t.as_str());
    s
}

fn dns_names_exec(payload: &[u8]) -> (r: Option<Vec<String>>)
    requires
        payload@.len() <= isize::MAX,
    ensures
        match spec_dns(payload@) {
            Ok(v) => r matches Some(x) && x.deep_view() == v.questions.map_values(
                |q: QuestionView| q.name,
            ),
            Err(_) => r is None,
        },
{
    match DnsMessage::parse(payload) {
        Ok(dns) => {
            let names = dns.queried_names();
            proof {
                let v = spec_dns(payload@)->Ok_0;
                assert(names.deep_view() =~= v.questions.map_values(|q: QuestionView| q.name)) by {
                    assert(dns.questions@.map_values(|q: DnsQuestion| q@) == v.questions);
                    assert forall|i: int| 0 <= i < v.questions.len() implies #[trigger] names.deep_view()[i]
                        == v.questions[i].name by {
                        assert(dns.questions@.map_values(|q: DnsQuestion| q@)[i] == dns.questions@[i]@);
                    }
                }
            }
            Some(names)
        },
        Err(_) => None,
    }
}

fn exposure_for(meta: &PacketMetadata, dst: u16) -> (r: u8)
    ensures
        r == spec_port_exposure_score(
            dst,
            match opt_text(meta.protocol) {
                Some(p) => p,
                None => "tcp"@,
            },
        ),
{
    match &meta.protocol {
        Some(p) => port_exposure_score(dst, p.as_str()),
        None => port_exposure_score(dst, "tcp"),
    }
}

fn tcp_dns(tcp: &crate::packet::transport::TcpSegment) -> (r: Option<Vec<String>>)
    requires
        tcp.payload@.len() <= isize::MAX,
    ensures
        match tcp_dns_names(tcp.payload@) {
            Some(n) => r matches Some(x) && x.deep_view() == n,
            None => r is None,
        },
{
    let tp = tcp.payload;
    if tp.len() > 2 {
        let dns_len = u16_from_be(tp[0], tp[1]) as usize;
        if tp.len() >= 2 + dns_len {
            let msg = &tp[2..2 + dns_len];
            return dns_names_exec(msg);
        }
    }
    None
}

fn add_tcp(meta: &mut PacketMetadata, tcp: &crate::packet::transport::TcpSegment, ps: Ghost<Seq<u8>>)
    requires
        tcp_error(ps@) is None,
        tcp_fields_ok(*tcp, ps@),
        ps@.len() <= isize::MAX,
    ensures
        final(meta)@ == transport_meta(old(meta)@, 6, ps@),
{
    let ghost expected = transport_meta(old(meta)@, 6, ps@);
    let ghost hl = (ps@[12] / 16) as int * 4;
    assert(tcp.payload@ == ps@.skip(hl));
    meta.source_port = Some(tcp.source_port);
    meta.destination_port = Some(tcp.destination_port);
    meta.exposure_score = exposure_for(meta, tcp.destination_port);
    assert(meta.exposure_score == expected.exposure_score);
    if tcp.source_port == 53 || tcp.destination_port == 53 {
        match tcp_dns(tcp) {
            Some(names) => {
                meta.dns_names = names;
            },
            None => {},
        }
    }
    assert(meta.dns_names.deep_view() == expected.dns_names);
    assert(meta@ =~= expected);
}

#[verifier::rlimit(40)]
fn add_udp(meta: &mut PacketMetadata, udp: &crate::packet::transport::UdpDatagram, ps: Ghost<Seq<u8>>)
    requires
        udp_error(ps@) is None,
        udp_fields_ok(*udp, ps@),
        ps@.len() <= isize::MAX,
    ensures
        final(meta)@ == transport_meta(old(meta)@, 17, ps@),
{
    meta.source_port = Some(udp.source_port);
    meta.destination_port = Some(udp.destination_port);
    meta.exposure_score = exposure_for(meta, udp.destination_port);
    if udp.source_port == 53 || udp.destination_port == 53 {
        match dns_names_exec(udp.payload) {
            Some(names) => {
                meta.dns_names = names;
            },
            None => {},
        }
    }
    assert(meta@ =~= transport_meta(old(meta)@, 17, ps@));
}

fn add_transport(meta: &mut PacketMetadata, protocol: u8, payload: &[u8])
    requires
        payload@.len() <= isize::MAX,
    ensures
        final(meta)@ == transport_meta(old(meta)@, protocol, payload@),
{
    let parsed = TransportPacket::parse(protocol, payload);
    match parsed {
        Ok(TransportPacket::Tcp(tcp)) => {
            assert(protocol == 6);
            add_tcp(meta, &tcp, Ghost(payload@));
        },
        Ok(TransportPacket::Udp(udp)) => {
            assert(protocol == 17);
            add_udp(meta, &udp, Ghost(payload@));
        },
        Ok(TransportPacket::Other { .. }) => {
            assert(protocol != 6 && protocol != 17);
        },
        Err(err) => {
            let n = note_with_error("transport-parse-error:", &err);
            let ghost nv = n@;
            let ghost before = meta.notes.deep_view();
            meta.notes.push(n);
            assert(meta.notes.deep_view() =~= before.push(nv));
        },
    }
    assert(meta@ =~= transport_meta(old(meta)@, protocol, payload@));
}

fn add_ipv4(meta: &mut PacketMetadata, payload: &[u8])
    requires
        payload@.len() <= isize::MAX,
        old(meta).notes@.len() == 0,
    ensures
        final(meta)@ == ipv4_meta(old(meta)@, payload@),
{
    let ipv4 = match Ipv4Packet::parse(payload) {
        Ok(packet) => packet,
        Err(err) => {
            let n = note_with_error("ipv4-parse-error:", &err);
            let ghost nv = n@;
            meta.notes.push(n);
            assert(meta.notes.deep_view() =~= seq![nv]);
            assert(meta@ =~= ipv4_meta(old(meta)@, payload@));
            return;
        },
    };
    let ghost ip = payload@;
    proof {
        lemma_notes_from_bytes(ipv4, ip);
    }
    meta.source_ip = Some(ipv4.source);
    meta.destination_ip = Some(ipv4.destination);
    meta.protocol = Some(String::from_str(protocol_name(ipv4.protocol)));
    let notes = ipv4.path_risk_notes();
    meta.notes = notes;
    assert(ipv4.payload@ == ipv4_payload(ip));
    add_transport(meta, ipv4.protocol, ipv4.payload);
}

/// Reads one frame: Ethernet, then IPv4, then TCP or UDP, then DNS on port 53. Whatever
/// fails to parse leaves a note and stops the reading there.
pub fn extract_frame_metadata(frame_index: usize, data: &[u8]) -> (r: PacketMetadata)
    requires
        data@.len() <= isize::MAX,
    ensures
        r@ == spec_frame_metadata(frame_index, data@),
{
    let ghost eth = spec_ethernet(data@);
    let frame = match EthernetFrame::parse(data) {
        Ok(frame) => frame,
        Err(err) => {
            let n = note_with_error("ethernet-parse-error:", &err);
            return meta_with_note(frame_index, n);
        },
    };
    if frame.ethertype != 0x0800 {
        let mut n = String::from_str("non-ipv4-ethertype:");
        n.append(frame.ethertype_name());
        return meta_with_note(frame_index, n);
    }
    let mut meta = meta_with_nothing(frame_index);
    assert(spec_frame_metadata(frame_index, data@) == ipv4_meta(empty_meta(frame_index), frame.payload@));
    add_ipv4(&mut meta, frame.payload);
    meta
}

fn meta_with_nothing(frame_index: usize) -> (r: PacketMetadata)
    ensures
        r@ == empty_meta(frame_index),
        r.notes@.len() == 0,
{
    let meta = PacketMetadata {
        frame_index,
        source_ip: None,
        destination_ip: None,
        protocol: None,
        source_port: None,
        destination_port: None,
        dns_names: Vec::new(),
        notes: Vec::new(),
        exposure_score: 0,
    };
    assert(meta.dns_names.deep_view() =~= Seq::<Seq<char>>::empty());
    assert(meta.notes.deep_view() =~= Seq::<Seq<char>>::empty());
    assert(meta@ =~= empty_meta(frame_index));
    meta
}

fn meta_with_note(frame_index: usize, note: String) -> (r: PacketMetadata)
    ensures
        r@ == (MetaView { notes: seq![note@], ..empty_meta(frame_index) }),
{
    let mut meta = meta_with_nothing(frame_index);
    let ghost nv = note@;
    meta.notes.push(note);
    assert(meta.notes.deep_view() =~= seq![nv]);
    assert(meta@ =~= (MetaView { notes: seq![nv], ..empty_meta(frame_index) }));
    meta
}

/// Metadata for the first `n` records.
pub open spec fn record_metas(data: Seq<u8>, recs: Seq<PcapRecord>, n: nat) -> Seq<MetaView> {
    Seq::new(
        n,
        |i: int| spec_frame_metadata(i as usize, data.subrange(recs[i].start as int, recs[i].end as int)),
    )
}

pub proof fn lemma_pcap_records_bounds(s: Seq<u8>, off: nat, endian: crate::packet::pcap::PcapEndian, count: nat)
    ensures
        crate::packet::pcap::pcap_records(s, off, endian, count) matches Ok(recs) ==> forall|i: int|
            0 <= i < recs.len() ==> (#[trigger] recs[i]).start <= recs[i].end <= s.len(),
    decreases s.len() - off,
{
    if off < s.len() && s.len() - off >= 16 {
        let incl = crate::packet::pcap::rd32(s, off as int + 8, endian);
        let end: nat = (off + 16 + incl) as nat;
        if end <= s.len() {
            lemma_pcap_records_bounds(s, end, endian, count + 1);
        }
    }
}

/// What `extract_packet_metadata` gives: one entry per captured packet, or one for the whole
/// input when it is not a capture file.
pub open spec fn spec_packet_metadata(data: Seq<u8>) -> Seq<MetaView> {
    match spec_pcap(data) {
        Ok((_, _, recs)) => record_metas(data, recs, recs.len()),
        Err(_) => seq![spec_frame_metadata(0, data)],
    }
}

/// Metadata for each packet of a capture, or for the input as one frame.
pub fn extract_packet_metadata(data: &[u8]) -> (r: Vec<PacketMetadata>)
    requires
        data@.len() <= isize::MAX,
    ensures
        r@.map_values(|m: PacketMetadata| m@) == spec_packet_metadata(data@),
{
    match PcapFile::parse(data) {
        Ok(pcap) => {
            let ghost recs = spec_pcap(data@)->Ok_0.2;
            let ghost nanos = spec_pcap(data@)->Ok_0.1;
            let mut out: Vec<PacketMetadata> = Vec::new();
            let mut idx: usize = 0;
            proof {
                lemma_pcap_records_bounds(data@, 24, pcap.header.endian, 0);
            }
            while idx < pcap.packets.len()
                invariant
                    idx <= pcap.packets@.len(),
                    pcap.packets@.len() == recs.len(),
                    forall|i: int|
                        0 <= i < recs.len() ==> packet_matches(
                            #[trigger] pcap.packets@[i],
                            recs[i],
                            data@,
                            nanos,
                        ),
                    forall|i: int|
                        0 <= i < recs.len() ==> (#[trigger] recs[i]).start <= recs[i].end <= data@.len(),
                    data@.len() <= isize::MAX,
                    out@.map_values(|m: PacketMetadata| m@) == record_metas(data@, recs, idx as nat),
                decreases pcap.packets@.len() - idx,
            {
                let pkt = &pcap.packets[idx];
                let ghost r = recs[idx as int];
                assert(packet_matches(pcap.packets@[idx as int], r, data@, nanos));
                assert(r.start <= r.end <= data@.len());
                let m = extract_frame_metadata(idx, pkt.data);
                let ghost before = out@.map_values(|m: PacketMetadata| m@);
                let ghost mv = m@;
                out.push(m);
                assert(out@.map_values(|m: PacketMetadata| m@) =~= before.push(mv));
                assert(record_metas(data@, recs, (idx + 1) as nat) =~= record_metas(data@, recs, idx as nat).push(mv));
                idx = idx + 1;
            }
            out
        },
        Err(_) => {
            let mut out: Vec<PacketMetadata> = Vec::new();
            out.push(extract_frame_metadata(0, data));
            assert(out@.map_values(|m: PacketMetadata| m@) =~= spec_packet_metadata(data@));
            out
        },
    }
}

/// The metadata of a frame carry the frame's index, whatever its bytes.
proof fn lemma_frame_index(frame_index: usize, data: Seq<u8>)
    ensures
        spec_frame_metadata(frame_index, data).frame_index == frame_index,
{
}

/// Metadata come one per frame and in order: the item at position `i` carries frame index
/// `i`.
pub proof fn law_frame_indexes(data: Seq<u8>, i: int)
    requires
        0 <= i < spec_packet_metadata(data).len(),
        i <= usize::MAX,
    ensures
        spec_packet_metadata(data)[i].frame_index == i,
{
    match spec_pcap(data) {
        Ok((_, _, recs)) => {
            let d = data.subrange(recs[i].start as int, recs[i].end as int);
            lemma_frame_index(i as usize, d);
        },
        Err(_) => {
            lemma_frame_index(0, data);
        },
    }
}

} // verus!
