use aegislens::common::checksum::{byte_counts, crc32_ieee, internet_checksum, ones_complement_sum};
use aegislens::common::diagnostics::{Diagnostic, DiagnosticSet};
use aegislens::common::endian::{align_up, read_u16_be, read_u32_be, read_u32_le, write_u32_be};
use aegislens::common::ip::{CidrBlock, Ipv4AddrExt};
use aegislens::common::reader::ByteReader;
use aegislens::common::status::{AegisError, MatchDisposition, Severity};
use aegislens::common::strings::percent_decode_lossy;
use aegislens::common::time::{parse_duration_seconds, Timestamp};
use std::str::FromStr;

#[test]
fn cidr_contains_private_address() {
    let block = CidrBlock::from_str("192.168.1.0/24").unwrap();
    assert!(block.contains(Ipv4AddrExt::from_str("192.168.1.25").unwrap()));
    assert!(!block.contains(Ipv4AddrExt::from_str("192.168.2.1").unwrap()));
}

fn sample_ipv4_header() -> Vec<u8> {
    vec![
        0x45, 0x00, 0x00, 0x73, 0x00, 0x00, 0x40, 0x00, 0x40, 0x11, 0x00, 0x00, 0xc0, 0xa8, 0x00,
        0x01, 0xc0, 0xa8, 0x00, 0xc7,
    ]
}

#[test]
fn internet_checksum_of_known_header() {
    let header = sample_ipv4_header();
    assert_eq!(internet_checksum(&header), 0xb861);
}

#[test]
fn header_with_its_checksum_sums_to_zero() {
    let mut header = sample_ipv4_header();
    let sum = internet_checksum(&header);
    header[10] = (sum >> 8) as u8;
    header[11] = (sum & 0xff) as u8;
    assert_eq!(internet_checksum(&header), 0);
}

#[test]
fn ones_complement_sum_pads_odd_length() {
    assert_eq!(ones_complement_sum(&[0x12]), 0x1200);
    assert_eq!(ones_complement_sum(&[0xff, 0xff, 0x00, 0x01]), 0x0001);
}

#[test]
fn crc32_check_value() {
    assert_eq!(crc32_ieee(b"123456789"), 0xcbf4_3926);
    assert_eq!(crc32_ieee(b""), 0);
}

#[test]
fn byte_counts_histogram() {
    let counts = byte_counts(&[1, 1, 2, 255]);
    assert_eq!(counts.len(), 256);
    assert_eq!(counts[1], 2);
    assert_eq!(counts[2], 1);
    assert_eq!(counts[255], 1);
    assert_eq!(counts[0], 0);
}

#[test]
fn endian_round_trip() {
    let mut out = Vec::new();
    write_u32_be(0x0102_0304, &mut out);
    assert_eq!(out, vec![1, 2, 3, 4]);
    assert_eq!(read_u32_be(&out), Some(0x0102_0304));
    assert_eq!(read_u32_le(&out), Some(0x0403_0201));
    assert_eq!(read_u16_be(&[0xab]), None);
    assert_eq!(align_up(5, 4), 8);
    assert_eq!(align_up(8, 4), 8);
}

#[test]
fn severity_from_score_bands() {
    assert_eq!(Severity::from_score(0), Severity::Info);
    assert_eq!(Severity::from_score(19), Severity::Info);
    assert_eq!(Severity::from_score(20), Severity::Low);
    assert_eq!(Severity::from_score(69), Severity::Medium);
    assert_eq!(Severity::from_score(70), Severity::High);
    assert_eq!(Severity::from_score(95), Severity::Critical);
    assert_eq!(Severity::High.max(Severity::Low), Severity::High);
}

#[test]
fn strongest_disposition_prefers_block() {
    assert_eq!(MatchDisposition::Allowed.strongest(MatchDisposition::Blocked), MatchDisposition::Blocked);
    assert_eq!(MatchDisposition::Observed.strongest(MatchDisposition::Allowed), MatchDisposition::Allowed);
    assert_eq!(MatchDisposition::Unknown.strongest(MatchDisposition::Observed), MatchDisposition::Observed);
    assert_eq!(MatchDisposition::Unknown.strongest(MatchDisposition::Unknown), MatchDisposition::Unknown);
}

#[test]
fn truncated_error_text() {
    let e = AegisError::Truncated { needed: 4, available: 2 };
    assert_eq!(e.render(), "truncated input: needed 4, available 2");
}

#[test]
fn reader_reports_truncation() {
    let data = [1u8, 2, 3];
    let mut r = ByteReader::new(&data);
    assert_eq!(r.read_u16_be().unwrap(), 0x0102);
    assert_eq!(r.position(), 2);
    assert_eq!(r.read_u16_be(), Err(AegisError::Truncated { needed: 2, available: 1 }));
    assert_eq!(r.read_u8().unwrap(), 3);
    assert_eq!(r.remaining_len(), 0);
}

#[test]
fn ipv4_text_round_trip() {
    let ip = Ipv4AddrExt::parse("10.20.30.40").unwrap();
    assert_eq!(ip, Ipv4AddrExt::new(10, 20, 30, 40));
    assert_eq!(ip.to_string(), "10.20.30.40");
    assert!(Ipv4AddrExt::parse("256.1.1.1").is_err());
    assert!(Ipv4AddrExt::parse("1.2.3").is_err());
    assert!(Ipv4AddrExt::new(10, 1, 2, 3).is_private());
    assert!(Ipv4AddrExt::new(127, 0, 0, 1).is_loopback());
}

#[test]
fn cidr_parse_and_size() {
    let block = CidrBlock::parse("10.1.2.3/8").unwrap();
    assert_eq!(block.network, Ipv4AddrExt::new(10, 0, 0, 0));
    assert_eq!(block.size(), 1 << 24);
    assert_eq!(block.to_string(), "10.0.0.0/8");
    assert!(CidrBlock::parse("10.0.0.0/33").is_err());
    assert!(CidrBlock::new(Ipv4AddrExt::new(1, 2, 3, 4), 40).is_err());
}

#[test]
fn timestamps_normalize_and_render() {
    let t = Timestamp::new(5, 1_500_000_000);
    assert_eq!(t.seconds, 6);
    assert_eq!(t.nanos, 500_000_000);
    assert_eq!(t.render_compact(), "6.500000000");
    let p = Timestamp::from_pcap(1, 250, false);
    assert_eq!(p.nanos, 250_000);
}

#[test]
fn durations_with_units() {
    assert_eq!(parse_duration_seconds("90"), Some(90));
    assert_eq!(parse_duration_seconds(" 2 min "), Some(120));
    assert_eq!(parse_duration_seconds("3h"), Some(10800));
    assert_eq!(parse_duration_seconds("1 day"), Some(86400));
    assert_eq!(parse_duration_seconds("5 weeks"), None);
    assert_eq!(parse_duration_seconds("5m3"), None);
    assert_eq!(parse_duration_seconds(""), None);
}

#[test]
fn diagnostics_highest_and_errors() {
    let mut set = DiagnosticSet::new();
    assert!(set.is_empty());
    assert_eq!(set.highest(), None);
    set.push(Diagnostic::new(Severity::Low, "a.b", "first"));
    assert!(!set.has_errors());
    set.push(Diagnostic::new(Severity::High, "c.d", "second").at(7));
    assert!(set.has_errors());
    assert_eq!(set.highest(), Some(Severity::High));
    assert_eq!(set.len(), 2);
    assert_eq!(set.render_text(), "[low] a.b: first\n[high] c.d at 7: second\n");
    assert_eq!(set.iter().count(), 2);
    let d = DiagnosticSet::default();
    assert!(d.is_empty());
}

#[test]
fn cidr_text_round_trip() {
    for text in ["0.0.0.0/0", "10.0.0.0/8", "172.16.5.0/24", "255.255.255.255/32"] {
        let block = CidrBlock::parse(text).unwrap();
        assert_eq!(block.to_string(), text);
        assert_eq!(CidrBlock::parse(&block.to_string()).unwrap(), block);
    }
}

#[test]
fn percent_decoding_replaces_invalid_utf8() {
    assert_eq!(percent_decode_lossy("a%20b%41"), "a bA");
    assert_eq!(percent_decode_lossy("%ff!"), "\u{fffd}!");
    assert_eq!(percent_decode_lossy("100%"), "100%");
}
