use aegislens::packet::metadata::extract_packet_metadata;
use aegislens::packet::pcap::PcapFile;
use aegislens::packet::summary::summarize_capture;

#[test]
fn malformed_capture_does_not_panic() {
    let summary = summarize_capture(b"not a pcap");
    assert_eq!(summary.packet_count, 1);
}

fn udp_capture() -> Vec<u8> {
    let mut data = vec![
        0xd4, 0xc3, 0xb2, 0xa1, 2, 0, 4, 0, 0, 0, 0, 0, 0, 0, 0, 0, 0xff, 0xff, 0, 0, 1, 0, 0, 0,
    ];
    let mut frame = vec![0xff; 6];
    frame.extend_from_slice(&[0x02, 0, 0, 0, 0, 1]);
    frame.extend_from_slice(&[0x08, 0x00]);
    frame.extend_from_slice(&[
        0x45, 0x00, 0x00, 28, 0, 0, 0, 0, 64, 17, 0, 0, 10, 0, 0, 1, 10, 0, 0, 2,
    ]);
    frame.extend_from_slice(&[0x04, 0xd2, 0x00, 0xa1, 0x00, 0x08, 0x00, 0x00]);
    let n = frame.len() as u32;
    data.extend_from_slice(&[1, 0, 0, 0, 0, 0, 0, 0]);
    data.extend_from_slice(&n.to_le_bytes());
    data.extend_from_slice(&n.to_le_bytes());
    data.extend_from_slice(&frame);
    data
}

#[test]
fn udp_frame_metadata() {
    let data = udp_capture();
    let pcap = PcapFile::parse(&data).unwrap();
    assert_eq!(pcap.packets.len(), 1);
    let meta = extract_packet_metadata(&data);
    assert_eq!(meta.len(), 1);
    let m = &meta[0];
    assert_eq!(m.frame_index, 0);
    assert_eq!(m.protocol.as_deref(), Some("udp"));
    assert_eq!(m.source_port, Some(1234));
    assert_eq!(m.destination_port, Some(161));
    assert_eq!(m.endpoint_key(), "10.0.0.1:1234>10.0.0.2:161:udp");
}

#[test]
fn truncated_capture_is_refused() {
    let mut data = udp_capture();
    data.truncate(30);
    assert!(PcapFile::parse(&data).is_err());
    assert!(PcapFile::parse(&[0u8; 10]).is_err());
}
