use opuscast::framer::{crc32, OggStream, OPUS_COMMENTS, OPUS_HEAD, SERIAL};
use opuscast::pages::OggParser;

/// An independent Ogg page checksum: CRC-32, polynomial 0x04C11DB7, no
/// reflection, initial value 0, no final exclusive-or.
fn reference_crc(bytes: &[u8]) -> u32 {
    let mut crc: u32 = 0;
    for &b in bytes {
        crc ^= (b as u32) << 24;
        for _ in 0..8 {
            crc = if crc & 0x8000_0000 != 0 { (crc << 1) ^ 0x04C1_1DB7 } else { crc << 1 };
        }
    }
    crc
}

#[test]
fn crc_matches_reference() {
    let vectors: Vec<Vec<u8>> = vec![
        vec![],
        vec![0],
        vec![1],
        vec![0xFF],
        b"OggS".to_vec(),
        (0..=255u8).collect(),
        vec![0xAB; 1000],
    ];
    for v in vectors {
        assert_eq!(crc32(&v), reference_crc(&v));
    }
}

#[test]
fn opus_head_constant_is_the_fixed_identity_header() {
    assert_eq!(
        OPUS_HEAD.to_vec(),
        vec![
            0x4F, 0x70, 0x75, 0x73, 0x48, 0x65, 0x61, 0x64, 0x01, 0x02, 0x00, 0x00, 0x80, 0xBB,
            0x00, 0x00, 0x00, 0x00, 0x00
        ]
    );
    assert_eq!(&OPUS_HEAD[..8], b"OpusHead");
}

#[test]
fn opus_comments_constant_names_the_vendor() {
    assert_eq!(&OPUS_COMMENTS[..8], b"OpusTags");
    assert_eq!(&OPUS_COMMENTS[8..12], &7u32.to_le_bytes());
    assert_eq!(&OPUS_COMMENTS[12..19], b"Octopus");
    assert_eq!(&OPUS_COMMENTS[19..23], &0u32.to_le_bytes());
}

#[test]
fn first_page_layout_is_exact() {
    let mut stream = OggStream::new();
    let page = stream.encode(vec![9, 8, 7], 1920);

    let mut expected = Vec::new();
    expected.extend_from_slice(b"OggS");
    expected.push(0); // version
    expected.push(2); // beginning-of-stream flag on the first page
    expected.extend_from_slice(&1920u64.to_le_bytes());
    expected.extend_from_slice(&SERIAL.to_le_bytes());
    expected.extend_from_slice(&0u32.to_le_bytes()); // sequence
    expected.extend_from_slice(&0u32.to_le_bytes()); // checksum placeholder
    expected.push(1); // one segment
    expected.push(3); // lacing value
    expected.extend_from_slice(&[9, 8, 7]);
    let crc = reference_crc(&expected);
    expected[22..26].copy_from_slice(&crc.to_le_bytes());

    assert_eq!(page, expected);
}

#[test]
fn sequence_number_advances_and_flags_clear() {
    let mut stream = OggStream::new();
    let first = stream.encode(vec![1], 960);
    let second = stream.encode(vec![2], 1920);
    assert_eq!(first[5], 2);
    assert_eq!(second[5], 0);
    assert_eq!(&second[18..22], &1u32.to_le_bytes());
}

#[test]
fn framed_pages_parse_back() {
    let mut stream = OggStream::new();
    let data: Vec<u8> = (0..100).collect();
    let bytes = stream.encode(data.clone(), 4800);
    let mut parser = OggParser::new(&bytes);
    let page = parser.next().expect("framed page should parse");
    assert_eq!(page.signature, "OggS");
    assert_eq!(page.granule_position, 4800);
    assert_eq!(page.serial_number, SERIAL);
    assert_eq!(page.segments.len(), 1);
    assert_eq!(page.segments[0].data, data);
}

#[test]
fn large_packet_gets_a_full_and_a_terminating_segment() {
    let mut stream = OggStream::new();
    let data = vec![5u8; 255];
    let bytes = stream.encode(data.clone(), 960);
    // 26 header bytes, then the segment count and lacing table.
    assert_eq!(bytes[26], 2);
    assert_eq!(bytes[27], 255);
    assert_eq!(bytes[28], 0);
    let mut parser = OggParser::new(&bytes);
    let page = parser.next().expect("page should parse");
    assert_eq!(page.segments.len(), 2);
    assert_eq!(page.segments[0].data, data);
    assert_eq!(page.segments[1].data.len(), 0);
}

#[test]
fn empty_packet_still_makes_a_page() {
    let mut stream = OggStream::new();
    let bytes = stream.encode(Vec::new(), 0);
    assert_eq!(bytes[26], 1);
    assert_eq!(bytes[27], 0);
    assert_eq!(bytes.len(), 28);
}
