//! The container framer: wrap one encoded packet and its granule position
//! into one self-terminating Ogg page, so an HTTP response body is a valid
//! continuous stream. One packet per page keeps latency at a single frame.
use vstd::prelude::*;
use vstd::bytes::{spec_u32_to_le_bytes, spec_u64_to_le_bytes};
use vstd::utf8::encode_utf8;
use crate::pages::{spec_segments_bytes, OggPage, OggSegment};

verus! {

/// The stream serial number used for every connection: any value works as
/// long as it stays constant across the connection.
pub const SERIAL: u32 = 61;

/// The fixed identity header packet: "OpusHead", version 1, 2 channels,
/// no pre-skip, 48 000 Hz source rate, 0 dB gain, channel mapping 0.
pub const OPUS_HEAD: [u8; 19] = [
    0x4F,
    0x70,
    0x75,
    0x73,
    0x48,
    0x65,
    0x61,
    0x64,
    0x01,
    0x02,
    0x00,
    0x00,
    0x80,
    0xBB,
    0x00,
    0x00,
    0x00,
    0x00,
    0x00,
];

/// The fixed tag packet: "OpusTags", vendor "Octopus", no user comments.
pub const OPUS_COMMENTS: [u8; 23] = [
    0x4F,
    0x70,
    0x75,
    0x73,
    0x54,
    0x61,
    0x67,
    0x73,
    0x07,
    0x00,
    0x00,
    0x00,
    0x4F,
    0x63,
    0x74,
    0x6F,
    0x70,
    0x75,
    0x73,
    0x00,
    0x00,
    0x00,
    0x00,
];

/// The largest packet one page can carry: 254 full segments and one
/// terminating segment.
pub const MAX_PAGE_PACKET: usize = 65024;

/// One step of the page checksum: the CRC-32 with polynomial 0x04C11DB7,
/// shifted without reflection.
pub open spec fn crc_step(crc: u32) -> u32 {
    if crc & 0x8000_0000 != 0 {
        (crc << 1) ^ 0x04C1_1DB7
    } else {
        crc << 1
    }
}

/// `k` checksum steps.
pub open spec fn crc_bits(crc: u32, k: nat) -> u32
    decreases k,
{
    if k == 0 {
        crc
    } else {
        crc_bits(crc_step(crc), (k - 1) as nat)
    }
}

/// Fold one byte into the checksum: eight steps over the byte in the top
/// bits.
pub open spec fn crc_byte(crc: u32, b: u8) -> u32 {
    crc_bits(crc ^ ((b as u32) << 24), 8)
}

/// Fold every byte into the checksum, starting from `crc`.
pub open spec fn spec_crc32_from(bytes: Seq<u8>, crc: u32) -> u32
    decreases bytes.len(),
{
    if bytes.len() == 0 {
        crc
    } else {
        spec_crc32_from(bytes.drop_first(), crc_byte(crc, bytes[0]))
    }
}

/// The Ogg page checksum of the given bytes: initial value 0, no final
/// exclusive-or.
pub open spec fn spec_crc32(bytes: Seq<u8>) -> u32 {
    spec_crc32_from(bytes, 0)
}

/// The page checksum, computed bit by bit.
pub fn crc32(bytes: &Vec<u8>) -> (r: u32)
    ensures
        r == spec_crc32(bytes@),
{
    let ghost d = bytes@;
    let mut crc: u32 = 0;
    let mut i: usize = 0;
    proof {
        assert(d.skip(0) =~= d);
    }
    while i < bytes.len()
        invariant
            d == bytes@,
            0 <= i <= d.len(),
            spec_crc32_from(d.skip(i as int), crc) == spec_crc32(d),
        decreases d.len() - i,
    {
        proof {
            assert(d.skip(i as int)[0] == d[i as int]);
            assert(d.skip(i as int).drop_first() =~= d.skip(i + 1));
        }
        let b = bytes[i];
        let mut acc: u32 = crc ^ ((b as u32) << 24u32);
        let mut k: usize = 0;
        while k < 8
            invariant
                0 <= k <= 8,
                crc_bits(acc, (8 - k) as nat) == crc_byte(crc, b),
            decreases 8 - k,
        {
            acc = if acc & 0x8000_0000 != 0 {
                (acc << 1u32) ^ 0x04C1_1DB7
            } else {
                acc << 1u32
            };
            k += 1;
        }
        crc = acc;
        i += 1;
    }
    proof {
        assert(d.skip(d.len() as int) =~= Seq::<u8>::empty());
    }
    crc
}

/// The lacing table of one packet on one page: a full 255 for each whole
/// chunk, then the remainder, which also terminates the packet.
pub open spec fn spec_lacing_of(len: int) -> Seq<u8> {
    Seq::new((len / 255) as nat, |i: int| 255u8).push((len % 255) as u8)
}

/// The bytes of the page framing `data` at granule `absgp` with sequence
/// number `q` and checksum field `crc`: the first page of a stream carries
/// the beginning-of-stream flag.
pub open spec fn spec_page_bytes_with_crc(data: Seq<u8>, absgp: u64, q: u32, crc: u32) -> Seq<u8> {
    let flags: u8 = if q == 0 {
        2
    } else {
        0
    };
    let nsegs: u8 = (data.len() / 255 + 1) as u8;
    encode_utf8("OggS"@) + seq![0u8, flags] + spec_u64_to_le_bytes(absgp) + spec_u32_to_le_bytes(
        SERIAL,
    ) + spec_u32_to_le_bytes(q) + spec_u32_to_le_bytes(crc) + seq![nsegs] + spec_lacing_of(
        data.len() as int,
    ) + data
}

/// The finished page: the bytes above, with the checksum of those same
/// bytes taken over a zero checksum field.
pub open spec fn spec_framed_page(data: Seq<u8>, absgp: u64, q: u32) -> Seq<u8> {
    spec_page_bytes_with_crc(
        data,
        absgp,
        q,
        spec_crc32(spec_page_bytes_with_crc(data, absgp, q, 0)),
    )
}

/// Per-connection framing state: nothing but the next page's sequence
/// number.
#[derive(Debug)]
pub struct OggStream {
    pub sequence_number: u32,
}

impl OggStream {
    pub fn new() -> (r: Self)
        ensures
            r.sequence_number == 0,
    {
        OggStream { sequence_number: 0 }
    }

    /// Split `data` into page segments: full 255-byte chunks and the
    /// remainder.
    fn split_segments(data: &Vec<u8>) -> (r: Vec<OggSegment>)
        requires
            data@.len() <= MAX_PAGE_PACKET,
        ensures
            r@.len() == data@.len() / 255 + 1,
            r@.map_values(|s: OggSegment| s.size) == spec_lacing_of(data@.len() as int),
            spec_segments_bytes(r@) == data@,
            forall|i: int| 0 <= i < r@.len() ==> (#[trigger] r@[i]).wf(),
    {
        let ghost d = data@;
        let full: usize = data.len() / 255;
        let rem: usize = data.len() % 255;
        let mut segments: Vec<OggSegment> = Vec::new();
        let mut i: usize = 0;
        proof {
            assert(segments@.map_values(|s: OggSegment| s.size) =~= Seq::<u8>::empty());
            assert(spec_segments_bytes(segments@) =~= Seq::<u8>::empty());
            assert(d.take(0) =~= Seq::<u8>::empty());
        }
        while i < full
            invariant
                d == data@,
                d.len() <= usize::MAX,
                full == d.len() / 255,
                rem == d.len() % 255,
                0 <= i <= full,
                segments@.len() == i,
                forall|k: int| 0 <= k < segments@.len() ==> (#[trigger] segments@[k]).size == 255,
                spec_segments_bytes(segments@) == d.take((i * 255) as int),
                forall|k: int| 0 <= k < segments@.len() ==> (#[trigger] segments@[k]).wf(),
            decreases full - i,
        {
            proof {
                vstd::arithmetic::div_mod::lemma_fundamental_div_mod(d.len() as int, 255);
                assert(d.len() as int == 255 * (full as int) + (rem as int));
                vstd::arithmetic::mul::lemma_mul_inequality((i + 1) as int, full as int, 255);
                assert((i as int + 1) * 255 <= (full as int) * 255);
                assert((i as int) * 255 + 255 <= d.len());
            }
            let chunk = vstd::slice::slice_subrange(data.as_slice(), i * 255, i * 255 + 255);
            let seg = OggSegment::from_slice(chunk);
            let ghost before = segments@;
            segments.push(seg);
            proof {
                crate::pages::lemma_segments_bytes_push(before, segments@.last());
                assert(d.take(((i + 1) * 255) as int) =~= d.take((i * 255) as int) + d.subrange(
                    (i * 255) as int,
                    (i * 255 + 255) as int,
                ));
            }
            i += 1;
        }
        proof {
            vstd::arithmetic::div_mod::lemma_fundamental_div_mod(d.len() as int, 255);
        }
        let tail = vstd::slice::slice_subrange(data.as_slice(), full * 255, data.len());
        let seg = OggSegment::from_slice(tail);
        let ghost before = segments@;
        segments.push(seg);
        proof {
            crate::pages::lemma_segments_bytes_push(before, segments@.last());
            assert(d.take((full * 255) as int) + d.subrange((full * 255) as int, d.len() as int)
                =~= d);
            assert(segments@.last().size as int == rem as int);
            assert(segments@.map_values(|s: OggSegment| s.size) =~= spec_lacing_of(d.len() as int));
        }
        segments
    }

    /// Frame one packet as one self-terminating page carrying the given
    /// granule position, and advance the sequence number.
    pub fn encode(&mut self, data: Vec<u8>, absgp: u64) -> (r: Vec<u8>)
        requires
            old(self).sequence_number < u32::MAX,
            data@.len() <= MAX_PAGE_PACKET,
        ensures
            r@ == spec_framed_page(data@, absgp, old(self).sequence_number),
            final(self).sequence_number == old(self).sequence_number + 1,
    {
        let q = self.sequence_number;
        let flags: u8 = if q == 0 {
            2
        } else {
            0
        };
        let segments = Self::split_segments(&data);
        let total_segments: u8 = (data.len() / 255 + 1) as u8;
        let mut page = OggPage {
            signature: "OggS".to_owned(),
            version: 0,
            flags,
            granule_position: absgp,
            serial_number: SERIAL,
            sequence_number: q,
            checksum: 0,
            total_segments,
            segments,
        };
        let pre = page.serialize();
        proof {
            assert(pre@ =~= spec_page_bytes_with_crc(data@, absgp, q, 0));
        }
        let crc = crc32(&pre);
        page.checksum = crc;
        let out = page.serialize();
        proof {
            assert(out@ =~= spec_page_bytes_with_crc(data@, absgp, q, crc));
        }
        self.sequence_number = q + 1;
        out
    }
}

} // verus!
