//! Ogg pages: the container's on-the-wire unit. A page is a 27-byte header,
//! a lacing table of segment sizes, and the segments' bytes. Serialization
//! and parsing are specified byte-exactly.
use vstd::prelude::*;
use vstd::bytes::{
    spec_u32_to_le_bytes, spec_u64_to_le_bytes, u32_to_le_bytes, u64_to_le_bytes,
};
use vstd::utf8::encode_utf8;

verus! {

/// One segment of an Ogg page: at most 255 bytes, with its lacing value.
#[derive(Debug, Clone)]
pub struct OggSegment {
    pub size: u8,
    pub data: Vec<u8>,
}

impl OggSegment {
    /// The lacing value agrees with the payload's length.
    pub open spec fn wf(&self) -> bool {
        self.size as int == self.data@.len()
    }

    pub fn from_slice(value: &[u8]) -> (r: OggSegment)
        requires
            value@.len() <= 255,
        ensures
            r.wf(),
            r.data@ == value@,
    {
        OggSegment { size: value.len() as u8, data: vstd::slice::slice_to_vec(value) }
    }
}

/// An Ogg page with every header field explicit.
#[derive(Debug, Clone)]
pub struct OggPage {
    pub signature: String,
    pub version: u8,
    pub flags: u8,
    pub granule_position: u64,
    pub serial_number: u32,
    pub sequence_number: u32,
    pub checksum: u32,
    pub total_segments: u8,
    pub segments: Vec<OggSegment>,
}

/// The bytes of the segments, in order.
pub open spec fn spec_segments_bytes(segs: Seq<OggSegment>) -> Seq<u8>
    decreases segs.len(),
{
    if segs.len() == 0 {
        Seq::empty()
    } else {
        segs[0].data@ + spec_segments_bytes(segs.drop_first())
    }
}

pub proof fn lemma_segments_bytes_push(segs: Seq<OggSegment>, s: OggSegment)
    ensures
        spec_segments_bytes(segs.push(s)) == spec_segments_bytes(segs) + s.data@,
    decreases segs.len(),
{
    if segs.len() == 0 {
        assert(segs.push(s).drop_first() =~= Seq::<OggSegment>::empty());
        assert(spec_segments_bytes(segs.push(s).drop_first()) == Seq::<u8>::empty());
        assert(segs.push(s)[0] == s);
        assert(spec_segments_bytes(segs.push(s)) == s.data@ + Seq::<u8>::empty());
        assert(spec_segments_bytes(segs.push(s)) =~= spec_segments_bytes(segs) + s.data@);
    } else {
        assert(segs.push(s).drop_first() =~= segs.drop_first().push(s));
        lemma_segments_bytes_push(segs.drop_first(), s);
        assert(spec_segments_bytes(segs.push(s)) =~= spec_segments_bytes(segs) + s.data@);
    }
}

impl OggPage {
    /// Every segment's lacing value is its length, and the segment count
    /// field agrees with the table.
    pub open spec fn wf(&self) -> bool {
        &&& self.total_segments as int == self.segments@.len()
        &&& forall|i: int| 0 <= i < self.segments@.len() ==> (#[trigger] self.segments@[i]).wf()
    }

    /// The lacing table: one size byte per segment.
    pub open spec fn spec_lacing(&self) -> Seq<u8> {
        self.segments@.map_values(|s: OggSegment| s.size)
    }

    /// The exact bytes `serialize` produces: signature, version, flags,
    /// granule position, serial, sequence and checksum in little endian,
    /// the segment count, the lacing table, then the segments' bytes.
    pub open spec fn spec_serialize(&self) -> Seq<u8> {
        encode_utf8(self.signature@) + seq![self.version, self.flags]
            + spec_u64_to_le_bytes(self.granule_position)
            + spec_u32_to_le_bytes(self.serial_number)
            + spec_u32_to_le_bytes(self.sequence_number)
            + spec_u32_to_le_bytes(self.checksum) + seq![self.total_segments] + self.spec_lacing()
            + spec_segments_bytes(self.segments@)
    }

    pub fn serialize(&self) -> (r: Vec<u8>)
        ensures
            r@ == self.spec_serialize(),
    {
        let mut data: Vec<u8> = Vec::new();
        data.extend_from_slice(self.signature.as_str().as_bytes());
        assert(data@ =~= encode_utf8(self.signature@));
        data.push(self.version);
        data.push(self.flags);
        let mut granule = u64_to_le_bytes(self.granule_position);
        data.append(&mut granule);
        let mut serial = u32_to_le_bytes(self.serial_number);
        data.append(&mut serial);
        let mut sequence = u32_to_le_bytes(self.sequence_number);
        data.append(&mut sequence);
        let mut checksum = u32_to_le_bytes(self.checksum);
        data.append(&mut checksum);
        data.push(self.total_segments);
        let ghost header = data@;

        let mut i: usize = 0;
        while i < self.segments.len()
            invariant
                0 <= i <= self.segments@.len(),
                data@ =~= header + self.segments@.subrange(0, i as int).map_values(
                    |s: OggSegment| s.size,
                ),
            decreases self.segments@.len() - i,
        {
            data.push(self.segments[i].size);
            assert(self.segments@.subrange(0, i + 1 as int).map_values(|s: OggSegment| s.size)
                =~= self.segments@.subrange(0, i as int).map_values(|s: OggSegment| s.size).push(
                self.segments@[i as int].size,
            ));
            i += 1;
        }
        assert(self.segments@.subrange(0, self.segments@.len() as int) =~= self.segments@);
        let ghost with_lacing = data@;

        let mut i: usize = 0;
        while i < self.segments.len()
            invariant
                0 <= i <= self.segments@.len(),
                data@ =~= with_lacing + spec_segments_bytes(self.segments@.subrange(0, i as int)),
            decreases self.segments@.len() - i,
        {
            data.extend_from_slice(self.segments[i].data.as_slice());
            proof {
                lemma_segments_bytes_push(
                    self.segments@.subrange(0, i as int),
                    self.segments@[i as int],
                );
                assert(self.segments@.subrange(0, i + 1 as int) =~= self.segments@.subrange(
                    0,
                    i as int,
                ).push(self.segments@[i as int]));
                assert(data@ =~= with_lacing + spec_segments_bytes(
                    self.segments@.subrange(0, i + 1 as int),
                ));
            }
            i += 1;
        }
        assert(data@ =~= self.spec_serialize());
        data
    }
}

/// The segment count field of the page starting at `ps`.
pub open spec fn page_nsegs(d: Seq<u8>, ps: int) -> int {
    d[ps + 26] as int
}

/// The sum of the first `n` lacing values of the table starting at `start`.
pub open spec fn lace_total(d: Seq<u8>, start: int, n: int) -> int
    decreases n,
{
    if n <= 0 {
        0
    } else {
        lace_total(d, start, n - 1) + d[start + (n - 1)]
    }
}

pub proof fn lemma_lace_total_nonneg(d: Seq<u8>, start: int, n: int)
    ensures
        lace_total(d, start, n) >= 0,
    decreases n,
{
    if n > 0 {
        lemma_lace_total_nonneg(d, start, n - 1);
    }
}

pub proof fn lemma_lace_total_mono(d: Seq<u8>, start: int, i: int, j: int)
    requires
        0 <= i <= j,
    ensures
        lace_total(d, start, i) <= lace_total(d, start, j),
    decreases j - i,
{
    if i < j {
        lemma_lace_total_mono(d, start, i, j - 1);
    }
}

/// Where the page's segment bytes begin: after the header and lacing table.
pub open spec fn page_body_start(d: Seq<u8>, ps: int) -> int {
    ps + 27 + page_nsegs(d, ps)
}

/// One past the page's last byte.
pub open spec fn page_end(d: Seq<u8>, ps: int) -> int {
    page_body_start(d, ps) + lace_total(d, ps + 27, page_nsegs(d, ps))
}

/// Where segment `i` of the page starting at `ps` begins.
pub open spec fn seg_offset(d: Seq<u8>, ps: int, i: int) -> int {
    page_body_start(d, ps) + lace_total(d, ps + 27, i)
}

/// A whole page lies at `ps`: header, lacing table and segment bytes are in
/// bounds, and the four signature bytes decode as UTF-8.
pub open spec fn can_parse_page(d: Seq<u8>, ps: int) -> bool {
    &&& 0 <= ps
    &&& ps + 27 <= d.len()
    &&& page_body_start(d, ps) <= d.len()
    &&& page_end(d, ps) <= d.len()
    &&& vstd::utf8::valid_utf8(d.subrange(ps, ps + 4))
}

/// The page parsed from `d` at `ps` is exactly `p`: each field is read from
/// its place in the header, and each segment's bytes from its offset.
pub open spec fn is_page_at(d: Seq<u8>, ps: int, p: OggPage) -> bool {
    &&& encode_utf8(p.signature@) == d.subrange(ps, ps + 4)
    &&& p.version == d[ps + 4]
    &&& p.flags == d[ps + 5]
    &&& p.granule_position == vstd::bytes::spec_u64_from_le_bytes(d.subrange(ps + 6, ps + 14))
    &&& p.serial_number == vstd::bytes::spec_u32_from_le_bytes(d.subrange(ps + 14, ps + 18))
    &&& p.sequence_number == vstd::bytes::spec_u32_from_le_bytes(d.subrange(ps + 18, ps + 22))
    &&& p.checksum == vstd::bytes::spec_u32_from_le_bytes(d.subrange(ps + 22, ps + 26))
    &&& p.total_segments == d[ps + 26]
    &&& p.segments@.len() == page_nsegs(d, ps)
    &&& forall|i: int|
        0 <= i < p.segments@.len() ==> (#[trigger] p.segments@[i]).size == d[ps + 27 + i]
    &&& forall|i: int|
        0 <= i < p.segments@.len() ==> (#[trigger] p.segments@[i]).data@ == d.subrange(
            seg_offset(d, ps, i),
            seg_offset(d, ps, i + 1),
        )
    &&& p.wf()
}

/// All segments of the given pages, in stream order.
pub open spec fn spec_all_segments(pages: Seq<OggPage>) -> Seq<OggSegment>
    decreases pages.len(),
{
    if pages.len() == 0 {
        Seq::empty()
    } else {
        pages[0].segments@ + spec_all_segments(pages.drop_first())
    }
}

/// The packets assembled from a segment stream: segments are concatenated,
/// and a lacing value below 255 ends the packet. A trailing run of full
/// segments with no terminator is dropped, as an unfinished packet.
/// `acc` holds the bytes of the packet under assembly.
pub open spec fn spec_packets(segs: Seq<OggSegment>, acc: Seq<u8>) -> Seq<Seq<u8>>
    decreases segs.len(),
{
    if segs.len() == 0 {
        Seq::empty()
    } else {
        let acc2 = acc + segs[0].data@;
        if segs[0].size < 255 {
            seq![acc2] + spec_packets(segs.drop_first(), Seq::empty())
        } else {
            spec_packets(segs.drop_first(), acc2)
        }
    }
}

/// The granule position of the last page that carries a positive one, or 0
/// when no page does.
pub open spec fn spec_last_nonzero_granule(pages: Seq<OggPage>) -> u64
    decreases pages.len(),
{
    if pages.len() == 0 {
        0
    } else if pages.last().granule_position > 0 {
        pages.last().granule_position
    } else {
        spec_last_nonzero_granule(pages.drop_last())
    }
}

/// The segments of `pages` not yet consumed when the cursor stands at
/// segment `j` of page `i`.
pub open spec fn spec_rest_segments(pages: Seq<OggPage>, i: int, j: int) -> Seq<OggSegment> {
    if i < pages.len() {
        pages[i].segments@.skip(j) + spec_all_segments(pages.skip(i + 1))
    } else {
        Seq::empty()
    }
}

/// Splitting off the first page splits off its segments.
pub proof fn lemma_all_segments_skip(pages: Seq<OggPage>, i: int)
    requires
        0 <= i < pages.len(),
    ensures
        spec_all_segments(pages.skip(i)) == pages[i].segments@ + spec_all_segments(
            pages.skip(i + 1),
        ),
{
    assert(pages.skip(i)[0] == pages[i]);
    assert(pages.skip(i).drop_first() =~= pages.skip(i + 1));
}

/// Assemble the packets carried by `pages`.
pub fn extract_packets(pages: &Vec<OggPage>) -> (r: Vec<Vec<u8>>)
    ensures
        r.deep_view() == spec_packets(spec_all_segments(pages@), Seq::empty()),
{
    let ghost all = spec_all_segments(pages@);
    let mut out: Vec<Vec<u8>> = Vec::new();
    let mut acc: Vec<u8> = Vec::new();
    let mut i: usize = 0;
    proof {
        if pages@.len() > 0 {
            lemma_all_segments_skip(pages@, 0);
            assert(pages@.skip(0) =~= pages@);
            assert(pages@[0].segments@.skip(0) =~= pages@[0].segments@);
            assert(spec_rest_segments(pages@, 0, 0) =~= all);
        }
        assert(out.deep_view() =~~= Seq::<Seq<u8>>::empty());
        assert(out.deep_view() + spec_packets(spec_rest_segments(pages@, 0, 0), acc@)
            =~~= spec_packets(all, Seq::empty()));
    }
    while i < pages.len()
        invariant
            0 <= i <= pages@.len(),
            out.deep_view() + spec_packets(spec_rest_segments(pages@, i as int, 0), acc@)
                =~= spec_packets(all, Seq::empty()),
        decreases pages@.len() - i,
    {
        let page = &pages[i];
        let mut j: usize = 0;
        while j < page.segments.len()
            invariant
                0 <= i < pages@.len(),
                0 <= j <= page.segments@.len(),
                *page == pages@[i as int],
                out.deep_view() + spec_packets(
                    spec_rest_segments(pages@, i as int, j as int),
                    acc@,
                ) =~= spec_packets(all, Seq::empty()),
            decreases page.segments@.len() - j,
        {
            let ghost rest = spec_rest_segments(pages@, i as int, j as int);
            let ghost acc_before = acc@;
            proof {
                assert(page.segments@.skip(j as int)[0] == page.segments@[j as int]);
                assert(rest[0] == page.segments@[j as int]);
                assert(rest.drop_first() =~= spec_rest_segments(pages@, i as int, j + 1));
            }
            let seg = &page.segments[j];
            acc.extend_from_slice(seg.data.as_slice());
            proof {
                assert(acc@ =~= acc_before + seg.data@);
            }
            if seg.size < 255 {
                let done = acc;
                acc = Vec::new();
                let ghost old_out = out.deep_view();
                out.push(done);
                proof {
                    assert(out.deep_view() =~~= old_out.push(done@));
                    assert(spec_packets(rest, acc_before) =~~= seq![done@] + spec_packets(
                        rest.drop_first(),
                        Seq::empty(),
                    ));
                    assert(out.deep_view() + spec_packets(
                        spec_rest_segments(pages@, i as int, j + 1),
                        acc@,
                    ) =~~= spec_packets(all, Seq::empty()));
                }
            } else {
                proof {
                    assert(spec_packets(rest, acc_before) == spec_packets(
                        rest.drop_first(),
                        acc@,
                    ));
                }
            }
            j += 1;
        }
        proof {
            let sl = page.segments@.len() as int;
            assert(page.segments@.skip(sl) =~= Seq::<OggSegment>::empty());
            if i + 1 < pages@.len() {
                lemma_all_segments_skip(pages@, i + 1);
                assert(pages@[i + 1].segments@.skip(0) =~= pages@[i + 1].segments@);
                assert(spec_rest_segments(pages@, i as int, sl) =~= spec_rest_segments(
                    pages@,
                    i + 1,
                    0,
                ));
            } else {
                assert(pages@.skip(i + 1) =~= Seq::<OggPage>::empty());
                assert(spec_rest_segments(pages@, i as int, sl) =~= Seq::<OggSegment>::empty());
                assert(spec_rest_segments(pages@, i + 1, 0) =~= Seq::<OggSegment>::empty());
            }
        }
        i += 1;
    }
    proof {
        assert(spec_rest_segments(pages@, pages@.len() as int, 0) =~= Seq::<OggSegment>::empty());
        assert(out.deep_view() + spec_packets(Seq::<OggSegment>::empty(), acc@) =~~= out.deep_view());
        assert(out.deep_view() =~~= spec_packets(all, Seq::empty()));
    }
    out
}

/// The segments' lacing values and bytes as mathematical pairs.
pub open spec fn seg_views(segs: Seq<OggSegment>) -> Seq<(u8, Seq<u8>)> {
    segs.map_values(|s: OggSegment| (s.size, s.data@))
}

/// The start positions of the successive pages of `d`, from `ps` on: each
/// page begins where the one before it ended.
pub open spec fn spec_page_starts(d: Seq<u8>, ps: int) -> Seq<int>
    decreases d.len() - ps,
{
    if !can_parse_page(d, ps) {
        Seq::empty()
    } else if !(ps < page_end(d, ps) <= d.len()) {
        Seq::empty()
    } else {
        seq![ps] + spec_page_starts(d, page_end(d, ps))
    }
}

/// Parse every page of `data`, in order, until the bytes run out or fail
/// to parse.
pub fn collect_pages(data: &[u8]) -> (r: Vec<OggPage>)
    ensures
        ({
            let starts = spec_page_starts(data@, 0);
            &&& r@.len() == starts.len()
            &&& forall|i: int|
                0 <= i < starts.len() ==> is_page_at(data@, starts[i], #[trigger] r@[i])
        }),
{
    let ghost d = data@;
    let mut parser = OggParser::new(data);
    let mut out: Vec<OggPage> = Vec::new();
    let ghost mut done: Seq<int> = Seq::empty();
    proof {
        assert(done + spec_page_starts(d, 0) =~= spec_page_starts(d, 0));
    }
    loop
        invariant
            d == data@,
            parser.data@ == d,
            parser.pos <= d.len(),
            out@.len() == done.len(),
            forall|i: int| 0 <= i < done.len() ==> is_page_at(d, done[i], #[trigger] out@[i]),
            spec_page_starts(d, 0) == done + spec_page_starts(d, parser.pos as int),
        decreases d.len() - parser.pos,
    {
        let ghost ps = parser.pos as int;
        match parser.next() {
            None => {
                proof {
                    assert(spec_page_starts(d, ps) =~= Seq::<int>::empty());
                    assert(done + Seq::<int>::empty() =~= done);
                }
                return out;
            },
            Some(page) => {
                proof {
                    lemma_lace_total_nonneg(d, ps + 27, page_nsegs(d, ps));
                    assert(ps < page_end(d, ps) <= d.len());
                    assert(spec_page_starts(d, ps) == seq![ps] + spec_page_starts(
                        d,
                        page_end(d, ps),
                    ));
                }
                out.push(page);
                proof {
                    let done2 = done.push(ps);
                    assert(done + (seq![ps] + spec_page_starts(d, page_end(d, ps))) =~= done2
                        + spec_page_starts(d, page_end(d, ps)));
                    done = done2;
                }
            },
        }
    }
}

/// The last positive granule position found on any page, scanning in order.
pub fn last_nonzero_granule(pages: &Vec<OggPage>) -> (r: u64)
    ensures
        r == spec_last_nonzero_granule(pages@),
{
    let mut g: u64 = 0;
    let mut i: usize = 0;
    while i < pages.len()
        invariant
            0 <= i <= pages@.len(),
            g == spec_last_nonzero_granule(pages@.subrange(0, i as int)),
        decreases pages@.len() - i,
    {
        proof {
            assert(pages@.subrange(0, i + 1).drop_last() =~= pages@.subrange(0, i as int));
            assert(pages@.subrange(0, i + 1).last() == pages@[i as int]);
        }
        if pages[i].granule_position > 0 {
            g = pages[i].granule_position;
        }
        i += 1;
    }
    proof {
        assert(pages@.subrange(0, pages@.len() as int) =~= pages@);
    }
    g
}

/// A cursor over a byte slice, yielding one Ogg page at a time.
#[derive(Debug)]
pub struct OggParser<'a> {
    pub data: &'a [u8],
    pub pos: usize,
}

impl<'a> OggParser<'a> {
    pub fn new(data: &'a [u8]) -> (r: OggParser<'a>)
        ensures
            r.data@ == data@,
            r.pos == 0,
    {
        Self { data, pos: 0 }
    }

    /// Parse the page at the cursor, if a whole one lies there, and move the
    /// cursor past it. Truncated or malformed input yields `None` with the
    /// cursor unmoved.
    pub fn next(&mut self) -> (r: Option<OggPage>)
        ensures
            final(self).data@ == old(self).data@,
            can_parse_page(old(self).data@, old(self).pos as int) ==> {
                &&& r is Some
                &&& is_page_at(old(self).data@, old(self).pos as int, r->0)
                &&& final(self).pos as int == page_end(old(self).data@, old(self).pos as int)
            },
            !can_parse_page(old(self).data@, old(self).pos as int) ==> r is None && final(self).pos
                == old(self).pos,
    {
        let ghost d = self.data@;
        let ghost gps = self.pos as int;
        let ps = self.pos;
        let data = self.data;
        if data.len() < 27 || ps > data.len() - 27 {
            return None;
        }
        let nsegs = *vstd::slice::slice_index_get(data, ps + 26) as usize;
        assert(nsegs == page_nsegs(d, gps));
        if data.len() - (ps + 27) < nsegs {
            return None;
        }
        let body: usize = ps + 27 + nsegs;

        let mut total: usize = 0;
        let mut i: usize = 0;
        while i < nsegs
            invariant
                0 <= i <= nsegs,
                nsegs <= 255,
                d.len() <= usize::MAX,
                gps + 27 + nsegs <= d.len(),
                nsegs == page_nsegs(d, gps),
                ps == gps,
                data@ == d,
                total == lace_total(d, gps + 27, i as int),
                total <= 255 * i,
            decreases nsegs - i,
        {
            let b = *vstd::slice::slice_index_get(data, ps + 27 + i);
            total += b as usize;
            i += 1;
        }
        if data.len() - body < total {
            return None;
        }
        assert(page_end(d, gps) <= d.len());

        let sig_bytes = vstd::slice::slice_subrange(data, ps, ps + 4);
        let signature = match crate::outside::utf8_to_string(sig_bytes) {
            Some(s) => s,
            None => {
                return None;
            },
        };
        assert(can_parse_page(d, gps));

        let version = *vstd::slice::slice_index_get(data, ps + 4);
        let flags = *vstd::slice::slice_index_get(data, ps + 5);
        let granule_position = vstd::bytes::u64_from_le_bytes(
            vstd::slice::slice_subrange(data, ps + 6, ps + 14),
        );
        let serial_number = vstd::bytes::u32_from_le_bytes(
            vstd::slice::slice_subrange(data, ps + 14, ps + 18),
        );
        let sequence_number = vstd::bytes::u32_from_le_bytes(
            vstd::slice::slice_subrange(data, ps + 18, ps + 22),
        );
        let checksum = vstd::bytes::u32_from_le_bytes(
            vstd::slice::slice_subrange(data, ps + 22, ps + 26),
        );
        let total_segments = *vstd::slice::slice_index_get(data, ps + 26);

        let mut segments: Vec<OggSegment> = Vec::new();
        let mut off: usize = body;
        let mut i: usize = 0;
        while i < nsegs
            invariant
                0 <= i <= nsegs,
                nsegs <= 255,
                d.len() <= usize::MAX,
                gps + 27 + nsegs <= d.len(),
                nsegs == page_nsegs(d, gps),
                ps == gps,
                data@ == d,
                body == page_body_start(d, gps),
                page_end(d, gps) <= d.len(),
                off == seg_offset(d, gps, i as int),
                segments@.len() == i,
                forall|k: int|
                    0 <= k < i ==> (#[trigger] segments@[k]).size == d[gps + 27 + k],
                forall|k: int|
                    0 <= k < i ==> (#[trigger] segments@[k]).data@ == d.subrange(
                        seg_offset(d, gps, k),
                        seg_offset(d, gps, k + 1),
                    ),
                forall|k: int| 0 <= k < i ==> (#[trigger] segments@[k]).wf(),
            decreases nsegs - i,
        {
            let size = *vstd::slice::slice_index_get(data, ps + 27 + i) as usize;
            proof {
                assert(lace_total(d, gps + 27, i + 1) == lace_total(d, gps + 27, i as int)
                    + size);
                lemma_lace_total_mono(d, gps + 27, i + 1, nsegs as int);
                assert(off + size == seg_offset(d, gps, i + 1));
                assert(seg_offset(d, gps, i + 1) <= page_end(d, gps));
                assert(off + size <= d.len());
            }
            let seg_data = vstd::slice::slice_subrange(data, off, off + size);
            segments.push(OggSegment { size: size as u8, data: vstd::slice::slice_to_vec(seg_data) });
            off += size;
            i += 1;
        }

        self.pos = off;
        Some(
            OggPage {
                signature,
                version,
                flags,
                granule_position,
                serial_number,
                sequence_number,
                checksum,
                total_segments,
                segments,
            },
        )
    }
}

} // verus!
