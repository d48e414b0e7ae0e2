use opuscast::pages::{collect_pages, extract_packets, last_nonzero_granule, OggPage, OggParser, OggSegment};

fn page_bytes(
    flags: u8,
    granule: u64,
    serial: u32,
    sequence: u32,
    checksum: u32,
    segments: &[&[u8]],
) -> Vec<u8> {
    let mut out = Vec::new();
    out.extend_from_slice(b"OggS");
    out.push(0);
    out.push(flags);
    out.extend_from_slice(&granule.to_le_bytes());
    out.extend_from_slice(&serial.to_le_bytes());
    out.extend_from_slice(&sequence.to_le_bytes());
    out.extend_from_slice(&checksum.to_le_bytes());
    out.push(segments.len() as u8);
    for s in segments {
        out.push(s.len() as u8);
    }
    for s in segments {
        out.extend_from_slice(s);
    }
    out
}

#[test]
fn parse_single_page() {
    let data = page_bytes(2, 960, 61, 0, 0xDEADBEEF, &[b"hello"]);
    let mut parser = OggParser::new(&data);
    let page = parser.next().expect("page should parse");
    assert_eq!(page.signature, "OggS");
    assert_eq!(page.version, 0);
    assert_eq!(page.flags, 2);
    assert_eq!(page.granule_position, 960);
    assert_eq!(page.serial_number, 61);
    assert_eq!(page.sequence_number, 0);
    assert_eq!(page.checksum, 0xDEADBEEF);
    assert_eq!(page.total_segments, 1);
    assert_eq!(page.segments.len(), 1);
    assert_eq!(page.segments[0].size, 5);
    assert_eq!(page.segments[0].data, b"hello".to_vec());
    assert!(parser.next().is_none());
}

#[test]
fn parse_truncated_input_yields_none() {
    let data = page_bytes(0, 0, 1, 0, 0, &[b"abc"]);
    let mut parser = OggParser::new(&data[..data.len() - 1]);
    assert!(parser.next().is_none());
}

#[test]
fn serialize_exact_bytes() {
    let page = OggPage {
        signature: "OggS".to_string(),
        version: 0,
        flags: 2,
        granule_position: 0x0102030405060708,
        serial_number: 0x11223344,
        sequence_number: 7,
        checksum: 0xAABBCCDD,
        total_segments: 2,
        segments: vec![
            OggSegment { size: 3, data: vec![1, 2, 3] },
            OggSegment { size: 2, data: vec![4, 5] },
        ],
    };
    let bytes = page.serialize();
    let mut expected = Vec::new();
    expected.extend_from_slice(b"OggS");
    expected.push(0);
    expected.push(2);
    expected.extend_from_slice(&0x0102030405060708u64.to_le_bytes());
    expected.extend_from_slice(&0x11223344u32.to_le_bytes());
    expected.extend_from_slice(&7u32.to_le_bytes());
    expected.extend_from_slice(&0xAABBCCDDu32.to_le_bytes());
    expected.push(2);
    expected.push(3);
    expected.push(2);
    expected.extend_from_slice(&[1, 2, 3, 4, 5]);
    assert_eq!(bytes, expected);
}

#[test]
fn serialize_then_parse_roundtrip() {
    let data = page_bytes(0, 48000, 9, 3, 77, &[b"abc", b"defg"]);
    let mut parser = OggParser::new(&data);
    let page = parser.next().expect("page should parse");
    assert_eq!(page.serialize(), data);
}

#[test]
fn collect_pages_walks_the_stream() {
    let mut data = page_bytes(2, 0, 61, 0, 0, &[b"one"]);
    data.extend_from_slice(&page_bytes(0, 960, 61, 1, 0, &[b"two", b"three"]));
    let pages = collect_pages(&data);
    assert_eq!(pages.len(), 2);
    assert_eq!(pages[0].segments.len(), 1);
    assert_eq!(pages[1].segments.len(), 2);
    assert_eq!(pages[1].granule_position, 960);
}

#[test]
fn extract_packets_joins_continued_segments() {
    // A 300-byte packet split as 255 + 45, crossing a page boundary, then a
    // short packet of its own.
    let big: Vec<u8> = (0..300).map(|i| (i % 251) as u8).collect();
    let first_chunk = &big[..255];
    let second_chunk = &big[255..];
    let mut data = page_bytes(2, 0, 61, 0, 0, &[first_chunk]);
    data.extend_from_slice(&page_bytes(0, 960, 61, 1, 0, &[second_chunk, b"tail"]));
    let pages = collect_pages(&data);
    let packets = extract_packets(&pages);
    assert_eq!(packets.len(), 2);
    assert_eq!(packets[0], big);
    assert_eq!(packets[1], b"tail".to_vec());
}

#[test]
fn extract_packets_drops_unfinished_trailing_packet() {
    let full = [7u8; 255];
    let data = page_bytes(2, 0, 61, 0, 0, &[&full[..]]);
    let pages = collect_pages(&data);
    let packets = extract_packets(&pages);
    assert_eq!(packets.len(), 0);
}

#[test]
fn last_nonzero_granule_takes_the_last_positive_one() {
    let mut data = page_bytes(2, 0, 61, 0, 0, &[b"a"]);
    data.extend_from_slice(&page_bytes(0, 5000, 61, 1, 0, &[b"b"]));
    data.extend_from_slice(&page_bytes(0, 480000, 61, 2, 0, &[b"c"]));
    data.extend_from_slice(&page_bytes(4, 0, 61, 3, 0, &[b"d"]));
    let pages = collect_pages(&data);
    assert_eq!(last_nonzero_granule(&pages), 480000);
    let empty: Vec<OggPage> = Vec::new();
    assert_eq!(last_nonzero_granule(&empty), 0);
}
