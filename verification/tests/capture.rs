use flow_aggregator::capture::{frame_payload, CAPTURE_HEADER_LEN, FRAME_HEADER_LEN};
use flow_aggregator::PcapListener;

fn v5_datagram(port: u8) -> Vec<u8> {
    let mut bytes = vec![0, 5, 0, 1, 0, 0, 0, 1, 0, 0, 0, 2, 0, 0, 0, 3, 0, 0, 0, 4, 0, 0, 0, 0];
    bytes.extend_from_slice(&[
        10, 0, 0, 1, 10, 0, 0, 2, 0, 0, 0, 0, 0, 0, 0, 0, 0, 0, 0, 1, 0, 0, 0, 64, 0, 0, 0, 1, 0,
        0, 0, 2, 0x30, 0x39, 0, port, 0, 0, 17, 0, 0, 0, 0, 0, 0, 0, 0, 0,
    ]);
    bytes
}

/// The header of a capture file in big-endian byte order, timestamps in
/// microseconds.
fn capture_header() -> Vec<u8> {
    vec![
        0xA1, 0xB2, 0xC3, 0xD4, // magic number
        0, 2, 0, 4, // version
        0, 0, 0, 0, // zone
        0, 0, 0, 0, // accuracy
        0, 0, 0xFF, 0xFF, // longest frame
        0, 0, 0, 1, // link type
    ]
}

fn capture_record(data: &[u8]) -> Vec<u8> {
    let len = (data.len() as u32).to_be_bytes();
    let mut bytes = vec![0, 0, 0, 1, 0, 0, 0, 2];
    bytes.extend_from_slice(&len);
    bytes.extend_from_slice(&len);
    bytes.extend_from_slice(data);
    bytes
}

fn framed(datagram: &[u8]) -> Vec<u8> {
    let mut frame = vec![0xEE; FRAME_HEADER_LEN];
    frame.extend_from_slice(datagram);
    frame
}

#[test]
fn frame_payload_is_what_follows_the_header() {
    let frame: Vec<u8> = (0u8..40).collect();
    assert_eq!(FRAME_HEADER_LEN, 32);
    assert_eq!(frame_payload(&frame), Some(&frame[32..]));
    assert_eq!(frame_payload(&frame).unwrap(), &[32u8, 33, 34, 35, 36, 37, 38, 39][..]);
}

#[test]
fn frame_payload_of_a_bare_header_is_empty() {
    let frame = vec![7u8; 32];
    assert_eq!(frame_payload(&frame), Some(&[][..]));
}

#[test]
fn frame_payload_of_a_short_frame_is_none() {
    assert_eq!(frame_payload(&[7u8; 31]), None);
    assert_eq!(frame_payload(&[]), None);
}

#[test]
fn process_pcap_refuses_what_is_no_capture() {
    assert_eq!(CAPTURE_HEADER_LEN, 24);
    assert!(PcapListener::process_pcap(&[]).is_none());
    assert!(PcapListener::process_pcap(&[0u8; 24]).is_none());
    assert!(PcapListener::process_pcap(&[0xA1, 0xB2, 0xC3, 0xD4]).is_none());
    let mut short = capture_header();
    short.pop();
    assert!(PcapListener::process_pcap(&short).is_none());
    let mut wrong = capture_header();
    wrong[3] = 0xD5;
    assert!(PcapListener::process_pcap(&wrong).is_none());
}

#[test]
fn process_pcap_accepts_every_magic_number() {
    for magic in [
        [0xA1u8, 0xB2, 0xC3, 0xD4],
        [0xA1, 0xB2, 0x3C, 0x4D],
        [0xD4, 0xC3, 0xB2, 0xA1],
        [0x4D, 0x3C, 0xB2, 0xA1],
    ] {
        let mut bytes = vec![0u8; 24];
        bytes[..4].copy_from_slice(&magic);
        let flows = PcapListener::process_pcap(&bytes);
        assert!(flows.is_some());
        assert!(flows.unwrap().is_empty());
    }
}

#[test]
fn process_pcap_decodes_every_frame() {
    let mut bytes = capture_header();
    bytes.extend_from_slice(&capture_record(&framed(&v5_datagram(80))));
    bytes.extend_from_slice(&capture_record(&framed(&v5_datagram(53))));
    let flows = PcapListener::process_pcap(&bytes).unwrap();
    assert_eq!(flows.len(), 2);
    assert_eq!(flows[0].dst_port, Some(80));
    assert_eq!(flows[1].dst_port, Some(53));
    assert_eq!(flows[0].protocol_number, Some(17));
    assert_eq!(flows[0].src_addr.map(|a| a.to_string()), Some(String::from("10.0.0.1")));
}

#[test]
fn process_pcap_skips_the_frame_header() {
    // without the leading header the datagram would not be found
    let mut bytes = capture_header();
    bytes.extend_from_slice(&capture_record(&v5_datagram(80)));
    let flows = PcapListener::process_pcap(&bytes).unwrap();
    assert!(flows.is_empty());
}

#[test]
fn process_pcap_passes_over_frames_without_flows() {
    let mut bytes = capture_header();
    bytes.extend_from_slice(&capture_record(&[1, 2, 3]));
    bytes.extend_from_slice(&capture_record(&framed(&[9, 9, 9])));
    bytes.extend_from_slice(&capture_record(&framed(&[])));
    bytes.extend_from_slice(&capture_record(&framed(&v5_datagram(187))));
    let flows = PcapListener::process_pcap(&bytes).unwrap();
    assert_eq!(flows.len(), 1);
    assert_eq!(flows[0].dst_port, Some(187));
}

#[test]
fn process_pcap_ends_at_a_record_cut_short() {
    let mut bytes = capture_header();
    bytes.extend_from_slice(&capture_record(&framed(&v5_datagram(80))));
    let mut cut = capture_record(&framed(&v5_datagram(53)));
    cut.truncate(30);
    bytes.extend_from_slice(&cut);
    let flows = PcapListener::process_pcap(&bytes).unwrap();
    assert_eq!(flows.len(), 1);
    assert_eq!(flows[0].dst_port, Some(80));
}

#[test]
fn process_pcap_ends_at_a_damaged_record() {
    let mut bytes = capture_header();
    bytes.extend_from_slice(&capture_record(&framed(&v5_datagram(80))));
    // a record that claims more bytes than were on the wire
    let data = framed(&v5_datagram(53));
    let mut damaged = vec![0, 0, 0, 1, 0, 0, 0, 2];
    damaged.extend_from_slice(&(data.len() as u32).to_be_bytes());
    damaged.extend_from_slice(&1u32.to_be_bytes());
    damaged.extend_from_slice(&data);
    bytes.extend_from_slice(&damaged);
    bytes.extend_from_slice(&capture_record(&framed(&v5_datagram(25))));
    let flows = PcapListener::process_pcap(&bytes).unwrap();
    assert_eq!(flows.len(), 1);
    assert_eq!(flows[0].dst_port, Some(80));
}

#[test]
fn capture_payloads_are_the_frames_without_their_headers() {
    let mut first: Vec<u8> = vec![0xEE; FRAME_HEADER_LEN];
    first.extend_from_slice(&[1, 2, 3]);
    let second: Vec<u8> = (0u8..32).collect();
    let mut third: Vec<u8> = (100u8..140).collect();
    let mut bytes = capture_header();
    bytes.extend_from_slice(&capture_record(&first));
    bytes.extend_from_slice(&capture_record(&[5u8; 31]));
    bytes.extend_from_slice(&capture_record(&second));
    bytes.extend_from_slice(&capture_record(&third));
    let payloads = PcapListener::capture_payloads(&bytes).unwrap();
    third.drain(..32);
    assert_eq!(payloads, vec![vec![1u8, 2, 3], Vec::new(), third]);
    assert_eq!(payloads[2], vec![132u8, 133, 134, 135, 136, 137, 138, 139]);
}

#[test]
fn capture_payloads_of_a_little_endian_capture() {
    let mut bytes = vec![0xD4, 0xC3, 0xB2, 0xA1, 2, 0, 4, 0, 0, 0, 0, 0, 0, 0, 0, 0, 0xFF, 0xFF, 0, 0, 1, 0, 0, 0];
    let mut frame = vec![0u8; 32];
    frame.push(42);
    bytes.extend_from_slice(&[1, 0, 0, 0, 2, 0, 0, 0, 33, 0, 0, 0, 33, 0, 0, 0]);
    bytes.extend_from_slice(&frame);
    assert_eq!(PcapListener::capture_payloads(&bytes), Some(vec![vec![42u8]]));
}

#[test]
fn capture_payloads_of_what_is_no_capture() {
    assert_eq!(PcapListener::capture_payloads(&[1, 2, 3]), None);
    assert_eq!(PcapListener::capture_payloads(&capture_header()), Some(Vec::new()));
}

#[test]
fn process_pcap_decodes_every_frame_on_its_own() {
    // a template in one frame does not explain the data of the next
    let template = vec![
        0, 9, 0, 1, 0, 0, 9, 9, 0, 1, 2, 3, 0, 0, 0, 1, 0, 0, 0, 1, 0, 0, 0, 28, 1, 2, 0, 5, 0,
        8, 0, 4, 0, 12, 0, 4, 0, 11, 0, 2, 0, 4, 0, 1, 0, 5, 0, 1,
    ];
    let data = vec![
        0, 9, 0, 1, 0, 0, 9, 9, 0, 1, 2, 4, 0, 0, 0, 2, 0, 0, 0, 1, 1, 2, 0, 16, 10, 0, 0, 1,
        10, 0, 0, 2, 0, 80, 6, 0,
    ];
    let mut bytes = capture_header();
    bytes.extend_from_slice(&capture_record(&framed(&template)));
    bytes.extend_from_slice(&capture_record(&framed(&data)));
    bytes.extend_from_slice(&capture_record(&framed(&v5_datagram(25))));
    let flows = PcapListener::process_pcap(&bytes).unwrap();
    assert_eq!(flows.len(), 1);
    assert_eq!(flows[0].dst_port, Some(25));
}
