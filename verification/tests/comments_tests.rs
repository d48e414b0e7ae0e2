use opuscast::comments::{get_opus_comments, parse_opus_comment_header, OpusComments};

fn tag_block(vendor: &str, entries: &[&str]) -> Vec<u8> {
    let mut out = Vec::new();
    out.extend_from_slice(b"OpusTags");
    out.extend_from_slice(&(vendor.len() as u32).to_le_bytes());
    out.extend_from_slice(vendor.as_bytes());
    out.extend_from_slice(&(entries.len() as u32).to_le_bytes());
    for e in entries {
        out.extend_from_slice(&(e.len() as u32).to_le_bytes());
        out.extend_from_slice(e.as_bytes());
    }
    out
}

fn page_bytes(flags: u8, segments: &[&[u8]]) -> Vec<u8> {
    let mut out = Vec::new();
    out.extend_from_slice(b"OggS");
    out.push(0);
    out.push(flags);
    out.extend_from_slice(&0u64.to_le_bytes());
    out.extend_from_slice(&61u32.to_le_bytes());
    out.extend_from_slice(&0u32.to_le_bytes());
    out.extend_from_slice(&0u32.to_le_bytes());
    out.push(segments.len() as u8);
    for s in segments {
        out.push(s.len() as u8);
    }
    for s in segments {
        out.extend_from_slice(s);
    }
    out
}

#[test]
fn parses_vendor_and_entries() {
    let block = tag_block("Octopus", &["TITLE=Morning Song", "ARTIST=The Choir"]);
    let c = parse_opus_comment_header(&block).expect("should parse");
    assert_eq!(c.vendor, "Octopus");
    assert_eq!(c.title(), Some("Morning Song"));
    assert_eq!(c.artist(), Some("The Choir"));
    assert_eq!(c.album(), None);
    assert_eq!(c.date(), None);
    assert_eq!(c.genre(), None);
}

#[test]
fn keys_fold_to_upper_case() {
    let block = tag_block("v", &["title=Lower", "Artist=Mixed", "GENRE=Kept"]);
    let c = parse_opus_comment_header(&block).expect("should parse");
    assert_eq!(c.title(), Some("Lower"));
    assert_eq!(c.artist(), Some("Mixed"));
    assert_eq!(c.genre(), Some("Kept"));
}

#[test]
fn later_entry_overwrites_earlier_one() {
    let block = tag_block("v", &["TITLE=First", "TITLE=Second"]);
    let c = parse_opus_comment_header(&block).expect("should parse");
    assert_eq!(c.title(), Some("Second"));
    assert_eq!(c.comments.len(), 1);
}

#[test]
fn entry_without_equals_is_ignored() {
    let block = tag_block("v", &["no separator here", "ALBUM=Yes"]);
    let c = parse_opus_comment_header(&block).expect("should parse");
    assert_eq!(c.album(), Some("Yes"));
    assert_eq!(c.comments.len(), 1);
}

#[test]
fn value_may_contain_equals() {
    let block = tag_block("v", &["DATE=2001=ish"]);
    let c = parse_opus_comment_header(&block).expect("should parse");
    assert_eq!(c.date(), Some("2001=ish"));
}

#[test]
fn bad_magic_is_rejected() {
    let err = parse_opus_comment_header(b"NotTags!rest").unwrap_err();
    assert_eq!(err, "Invalid Opus comment header");
    let err = parse_opus_comment_header(b"Opus").unwrap_err();
    assert_eq!(err, "Invalid Opus comment header");
}

#[test]
fn truncated_vendor_length_is_rejected() {
    let err = parse_opus_comment_header(b"OpusTags\x07\x00").unwrap_err();
    assert_eq!(err, "Invalid vendor string length");
}

#[test]
fn truncated_vendor_is_rejected() {
    let mut block = Vec::new();
    block.extend_from_slice(b"OpusTags");
    block.extend_from_slice(&100u32.to_le_bytes());
    block.extend_from_slice(b"short");
    let err = parse_opus_comment_header(&block).unwrap_err();
    assert_eq!(err, "Invalid vendor string");
}

#[test]
fn truncated_comment_list_length_is_rejected() {
    let mut block = Vec::new();
    block.extend_from_slice(b"OpusTags");
    block.extend_from_slice(&1u32.to_le_bytes());
    block.extend_from_slice(b"v");
    block.extend_from_slice(&[0, 0]);
    let err = parse_opus_comment_header(&block).unwrap_err();
    assert_eq!(err, "Invalid comment list length");
}

#[test]
fn truncated_comment_length_is_rejected() {
    let mut block = Vec::new();
    block.extend_from_slice(b"OpusTags");
    block.extend_from_slice(&1u32.to_le_bytes());
    block.extend_from_slice(b"v");
    block.extend_from_slice(&2u32.to_le_bytes());
    block.extend_from_slice(&5u32.to_le_bytes());
    block.extend_from_slice(b"A=BCD");
    block.extend_from_slice(&[9, 0]);
    let err = parse_opus_comment_header(&block).unwrap_err();
    assert_eq!(err, "Invalid comment length");
}

#[test]
fn truncated_comment_data_is_rejected() {
    let mut block = Vec::new();
    block.extend_from_slice(b"OpusTags");
    block.extend_from_slice(&1u32.to_le_bytes());
    block.extend_from_slice(b"v");
    block.extend_from_slice(&1u32.to_le_bytes());
    block.extend_from_slice(&50u32.to_le_bytes());
    block.extend_from_slice(b"A=B");
    let err = parse_opus_comment_header(&block).unwrap_err();
    assert_eq!(err, "Invalid comment data");
}

#[test]
fn reads_tags_from_a_stream() {
    let block = tag_block("Octopus", &["TITLE=Stream Title"]);
    let mut data = page_bytes(2, &[b"OpusHead ignored"]);
    data.extend_from_slice(&page_bytes(0, &[&block]));
    let c = get_opus_comments(&data).expect("should parse");
    assert_eq!(c.vendor, "Octopus");
    assert_eq!(c.title(), Some("Stream Title"));
}

#[test]
fn reads_tags_spanning_two_pages() {
    let long_title: String = std::iter::repeat('x').take(400).collect();
    let block = tag_block("v", &[&format!("TITLE={}", long_title)]);
    // Split the tag packet as one full 255-byte segment on the second page
    // and the remainder on the third.
    let first = &block[..255];
    let rest = &block[255..];
    assert!(rest.len() < 255);
    let mut data = page_bytes(2, &[b"OpusHead ignored"]);
    data.extend_from_slice(&page_bytes(0, &[first]));
    data.extend_from_slice(&page_bytes(1, &[rest]));
    let c = get_opus_comments(&data).expect("should parse");
    assert_eq!(c.title(), Some(long_title.as_str()));
}

#[test]
fn missing_pages_are_reported() {
    let err = get_opus_comments(b"").unwrap_err();
    assert_eq!(err, "No Ogg pages found");
    let only_first = page_bytes(2, &[b"OpusHead ignored"]);
    let err = get_opus_comments(&only_first).unwrap_err();
    assert_eq!(err, "Incomplete comment header");
}

#[test]
fn unfinished_comment_packet_is_reported() {
    let full = [1u8; 255];
    let mut data = page_bytes(2, &[b"OpusHead ignored"]);
    data.extend_from_slice(&page_bytes(0, &[&full[..]]));
    let err = get_opus_comments(&data).unwrap_err();
    assert_eq!(err, "Incomplete comment header");
}

#[test]
fn comments_struct_lookup_is_by_exact_key() {
    let c = OpusComments {
        vendor: "v".to_string(),
        comments: vec![("TITLE".to_string(), "T".to_string())],
    };
    assert_eq!(c.title(), Some("T"));
    assert_eq!(c.artist(), None);
}
