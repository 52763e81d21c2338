use vstd::prelude::*;
use crate::common::text::eq_str;

verus! {

/// The name of an IP protocol number.
pub open spec fn spec_protocol_name(protocol: u8) -> Seq<char> {
    match protocol {
        1 => "icmp"@,
        2 => "igmp"@,
        6 => "tcp"@,
        17 => "udp"@,
        41 => "ipv6"@,
        47 => "gre"@,
        50 => "esp"@,
        51 => "ah"@,
        58 => "icmpv6"@,
        89 => "ospf"@,
        132 => "sctp"@,
        _ => "unknown"@,
    }
}

pub fn protocol_name(protocol: u8) -> (r: &'static str)
    ensures
        r@ == spec_protocol_name(protocol),
{
    match protocol {
        1 => "icmp",
        2 => "igmp",
        6 => "tcp",
        17 => "udp",
        41 => "ipv6",
        47 => "gre",
        50 => "esp",
        51 => "ah",
        58 => "icmpv6",
        89 => "ospf",
        132 => "sctp",
        _ => "unknown",
    }
}

/// How exposed a service on a destination port is (0 to 100); datagram-only services score
/// only for `udp`.
pub open spec fn spec_port_exposure_score(port: u16, protocol: Seq<char>) -> u8 {
    if protocol == "udp"@ && (port == 69 || port == 161) {
        70
    } else if protocol == "udp"@ && port == 1900 {
        60
    } else if protocol == "udp"@ && port == 123 {
        40
    } else {
        match port {
            23 => 95,
            2375 => 95,
            445 => 90,
            3389 => 90,
            135 => 85,
            5900 => 85,
            6379 => 85,
            27017 => 85,
            139 => 80,
            1433 => 80,
            3306 => 80,
            5432 => 80,
            9200 => 80,
            11211 => 80,
            22 => 75,
            21 => 70,
            25 => 50,
            110 => 50,
            143 => 50,
            53 => 45,
            8080 => 40,
            80 => 30,
            443 => 20,
            _ => if port < 1024 {
                35
            } else {
                10
            },
        }
    }
}

pub fn port_exposure_score(port: u16, protocol: &str) -> (r: u8)
    ensures
        r == spec_port_exposure_score(port, protocol@),
        r <= 100,
{
    let udp = eq_str(crate::common::text::chars_of(protocol).as_slice(), "udp");
    if udp && (port == 69 || port == 161) {
        70
    } else if udp && port == 1900 {
        60
    } else if udp && port == 123 {
        40
    } else {
        match port {
            23 => 95,
            2375 => 95,
            445 => 90,
            3389 => 90,
            135 => 85,
            5900 => 85,
            6379 => 85,
            27017 => 85,
            139 => 80,
            1433 => 80,
            3306 => 80,
            5432 => 80,
            9200 => 80,
            11211 => 80,
            22 => 75,
            21 => 70,
            25 => 50,
            110 => 50,
            143 => 50,
            53 => 45,
            8080 => 40,
            80 => 30,
            443 => 20,
            _ => if port < 1024 {
                35
            } else {
                10
            },
        }
    }
}

/// The mnemonic of a DNS record type.
pub open spec fn spec_dns_record_name(rrtype: u16) -> Seq<char> {
    match rrtype {
        1 => "A"@,
        2 => "NS"@,
        5 => "CNAME"@,
        6 => "SOA"@,
        12 => "PTR"@,
        15 => "MX"@,
        16 => "TXT"@,
        28 => "AAAA"@,
        33 => "SRV"@,
        41 => "OPT"@,
        255 => "ANY"@,
        _ => "UNKNOWN"@,
    }
}

pub fn dns_record_name(rrtype: u16) -> (r: &'static str)
    ensures
        r@ == spec_dns_record_name(rrtype),
{
    match rrtype {
        1 => "A",
        2 => "NS",
        5 => "CNAME",
        6 => "SOA",
        12 => "PTR",
        15 => "MX",
        16 => "TXT",
        28 => "AAAA",
        33 => "SRV",
        41 => "OPT",
        255 => "ANY",
        _ => "UNKNOWN",
    }
}

} // verus!
