//! The tag block of an Opus stream: an 8-byte magic, a vendor string, and
//! KEY=VALUE entries. Keys are folded to upper case for lookup.
use vstd::prelude::*;
use vstd::bytes::{spec_u32_from_le_bytes, u32_from_le_bytes};
use crate::outside::{to_uppercase, uppercase_of, utf8_lossy, utf8_lossy_of};
use crate::pages::{can_parse_page, page_end, page_nsegs};

verus! {

/// The bytes of the tag block's magic signature, "OpusTags".
pub const OPUS_TAGS_MAGIC: [u8; 8] = [0x4F, 0x70, 0x75, 0x73, 0x54, 0x61, 0x67, 0x73];

/// The value stored under the first entry whose key is `k`, if any.
pub open spec fn spec_lookup(m: Seq<(Seq<char>, Seq<char>)>, k: Seq<char>) -> Option<Seq<char>>
    decreases m.len(),
{
    if m.len() == 0 {
        None
    } else if m[0].0 == k {
        Some(m[0].1)
    } else {
        spec_lookup(m.drop_first(), k)
    }
}

/// The index of the first entry whose key is `k`, from `i` on, or -1.
pub open spec fn spec_find_key(m: Seq<(Seq<char>, Seq<char>)>, k: Seq<char>, i: int) -> int
    decreases m.len() - i,
{
    if i < 0 || i >= m.len() {
        -1
    } else if m[i].0 == k {
        i
    } else {
        spec_find_key(m, k, i + 1)
    }
}

/// Store `v` under `k`: replace the existing entry's value, or append.
pub open spec fn spec_insert_kv(
    m: Seq<(Seq<char>, Seq<char>)>,
    k: Seq<char>,
    v: Seq<char>,
) -> Seq<(Seq<char>, Seq<char>)> {
    let j = spec_find_key(m, k, 0);
    if j >= 0 {
        m.update(j, (k, v))
    } else {
        m.push((k, v))
    }
}

/// The index of the first '=' in `s`, from `i` on, or -1.
pub open spec fn spec_find_eq(s: Seq<char>, i: int) -> int
    decreases s.len() - i,
{
    if i < 0 || i >= s.len() {
        -1
    } else if s[i] == '=' {
        i
    } else {
        spec_find_eq(s, i + 1)
    }
}

/// Add one raw "KEY=VALUE" entry: the key, folded to upper case, maps to the
/// value; an entry without '=' is ignored.
pub open spec fn spec_insert_comment(
    m: Seq<(Seq<char>, Seq<char>)>,
    s: Seq<char>,
) -> Seq<(Seq<char>, Seq<char>)> {
    let e = spec_find_eq(s, 0);
    if e >= 0 {
        spec_insert_kv(m, uppercase_of(s.subrange(0, e)), s.subrange(e + 1, s.len() as int))
    } else {
        m
    }
}

/// Tags read from an Opus stream's comment header.
#[derive(Debug, Clone)]
pub struct OpusComments {
    pub vendor: String,
    pub comments: Vec<(String, String)>,
}

impl OpusComments {
    /// The entries as mathematical key/value pairs.
    pub open spec fn kv(&self) -> Seq<(Seq<char>, Seq<char>)> {
        self.comments.deep_view()
    }

    /// Keys are unique, as in a map.
    pub open spec fn wf(&self) -> bool {
        forall|i: int, j: int|
            0 <= i < j < self.kv().len() ==> (#[trigger] self.kv()[i]).0 != (
            #[trigger] self.kv()[j]).0
    }

    /// The value stored under `key`, if any.
    pub fn get_value(&self, key: &str) -> (r: Option<&str>)
        ensures
            match r {
                Some(s) => spec_lookup(self.kv(), key@) == Some(s@),
                None => spec_lookup(self.kv(), key@) is None,
            },
    {
        let k = key.to_owned();
        let mut i: usize = 0;
        proof {
            assert(self.kv().skip(0) =~= self.kv());
        }
        while i < self.comments.len()
            invariant
                0 <= i <= self.kv().len(),
                self.kv().len() == self.comments@.len(),
                k@ == key@,
                spec_lookup(self.kv(), key@) == spec_lookup(self.kv().skip(i as int), key@),
            decreases self.kv().len() - i,
        {
            proof {
                assert(self.kv().skip(i as int)[0] == self.kv()[i as int]);
                assert(self.kv().skip(i as int).drop_first() =~= self.kv().skip(i + 1));
                assert(self.kv()[i as int].0 == self.comments@[i as int].0@);
            }
            if self.comments[i].0 == k {
                return Some(self.comments[i].1.as_str());
            }
            i += 1;
        }
        proof {
            assert(self.kv().skip(self.kv().len() as int) =~= Seq::<(Seq<char>, Seq<char>)>::empty());
        }
        None
    }

    pub fn title(&self) -> (r: Option<&str>)
        ensures
            match r {
                Some(s) => spec_lookup(self.kv(), "TITLE"@) == Some(s@),
                None => spec_lookup(self.kv(), "TITLE"@) is None,
            },
    {
        self.get_value("TITLE")
    }

    pub fn artist(&self) -> (r: Option<&str>)
        ensures
            match r {
                Some(s) => spec_lookup(self.kv(), "ARTIST"@) == Some(s@),
                None => spec_lookup(self.kv(), "ARTIST"@) is None,
            },
    {
        self.get_value("ARTIST")
    }

    pub fn album(&self) -> (r: Option<&str>)
        ensures
            match r {
                Some(s) => spec_lookup(self.kv(), "ALBUM"@) == Some(s@),
                None => spec_lookup(self.kv(), "ALBUM"@) is None,
            },
    {
        self.get_value("ALBUM")
    }

    pub fn date(&self) -> (r: Option<&str>)
        ensures
            match r {
                Some(s) => spec_lookup(self.kv(), "DATE"@) == Some(s@),
                None => spec_lookup(self.kv(), "DATE"@) is None,
            },
    {
        self.get_value("DATE")
    }

    pub fn genre(&self) -> (r: Option<&str>)
        ensures
            match r {
                Some(s) => spec_lookup(self.kv(), "GENRE"@) == Some(s@),
                None => spec_lookup(self.kv(), "GENRE"@) is None,
            },
    {
        self.get_value("GENRE")
    }
}

/// A find that fails means no entry has the key.
proof fn lemma_find_key_none(m: Seq<(Seq<char>, Seq<char>)>, k: Seq<char>, i: int)
    requires
        0 <= i <= m.len(),
        spec_find_key(m, k, i) < 0,
    ensures
        forall|j: int| i <= j < m.len() ==> (#[trigger] m[j]).0 != k,
    decreases m.len() - i,
{
    if i < m.len() {
        lemma_find_key_none(m, k, i + 1);
    }
}

/// A find that succeeds points at the first match.
proof fn lemma_find_key_found(m: Seq<(Seq<char>, Seq<char>)>, k: Seq<char>, i: int)
    requires
        0 <= i <= m.len(),
        spec_find_key(m, k, i) >= 0,
    ensures
        i <= spec_find_key(m, k, i) < m.len(),
        m[spec_find_key(m, k, i)].0 == k,
        forall|j: int| i <= j < spec_find_key(m, k, i) ==> (#[trigger] m[j]).0 != k,
    decreases m.len() - i,
{
    if i < m.len() && m[i].0 != k {
        lemma_find_key_found(m, k, i + 1);
    }
}

/// Unique keys survive an insert.
proof fn lemma_insert_kv_unique(m: Seq<(Seq<char>, Seq<char>)>, k: Seq<char>, v: Seq<char>)
    requires
        forall|i: int, j: int| 0 <= i < j < m.len() ==> (#[trigger] m[i]).0 != (#[trigger] m[j]).0,
    ensures
        forall|i: int, j: int|
            0 <= i < j < spec_insert_kv(m, k, v).len() ==> (#[trigger] spec_insert_kv(m, k, v)[i]).0
                != (#[trigger] spec_insert_kv(m, k, v)[j]).0,
{
    let f = spec_find_key(m, k, 0);
    let r = spec_insert_kv(m, k, v);
    if f >= 0 {
        lemma_find_key_found(m, k, 0);
        assert forall|i: int, j: int| 0 <= i < j < r.len() implies (#[trigger] r[i]).0 != (
        #[trigger] r[j]).0 by {
            if i == f {
                assert(m[j].0 != m[f].0);
            } else if j == f {
                if i < f {
                    assert(m[i].0 != k);
                }
            } else {
                assert(r[i] == m[i] && r[j] == m[j]);
            }
        }
    } else {
        lemma_find_key_none(m, k, 0);
        assert forall|i: int, j: int| 0 <= i < j < r.len() implies (#[trigger] r[i]).0 != (
        #[trigger] r[j]).0 by {
            if j == m.len() {
                assert(m[i].0 != k);
            } else {
                assert(r[i] == m[i] && r[j] == m[j]);
            }
        }
    }
}

/// Store `v` under `k` in the entry list, replacing any existing entry.
fn insert_comment(m: &mut Vec<(String, String)>, k: String, v: String)
    ensures
        final(m).deep_view() == spec_insert_kv(old(m).deep_view(), k@, v@),
{
    let ghost dv = m.deep_view();
    let mut i: usize = 0;
    while i < m.len()
        invariant
            0 <= i <= m@.len(),
            dv == m.deep_view(),
            dv == old(m).deep_view(),
            m@ == old(m)@,
            dv.len() == m@.len(),
            spec_find_key(dv, k@, 0) == spec_find_key(dv, k@, i as int),
        decreases m@.len() - i,
    {
        proof {
            assert(dv[i as int].0 == m@[i as int].0@);
        }
        if m[i].0 == k {
            proof {
                assert(spec_find_key(dv, k@, i as int) == i);
            }
            let _ = m.remove(i);
            m.insert(i, (k, v));
            proof {
                assert(dv == old(m).deep_view());
                assert(m@.len() == dv.len());
                assert(m.deep_view().len() == dv.len());
                assert(spec_find_key(dv, k@, 0) == i);
                assert(m.deep_view() =~~= dv.update(i as int, (k@, v@)));
                assert(m.deep_view() =~~= spec_insert_kv(dv, k@, v@));
            }
            return ;
        }
        i += 1;
    }
    proof {
        assert(spec_find_key(dv, k@, m@.len() as int) == -1);
    }
    m.push((k, v));
    proof {
        assert(m.deep_view() =~~= spec_insert_kv(dv, k@, v@));
    }
}

/// What parsing a tag block yields: its vendor and entries, or the message
/// of the error that stopped it.
pub enum SpecCommentsResult {
    Parsed { vendor: Seq<char>, entries: Seq<(Seq<char>, Seq<char>)> },
    Failed { message: Seq<char> },
}

/// Parse `n` length-prefixed entries of the tag block from `pos` on,
/// folding each into the accumulated entry list.
pub open spec fn spec_parse_entries(
    d: Seq<u8>,
    pos: int,
    n: int,
    acc: Seq<(Seq<char>, Seq<char>)>,
    vendor: Seq<char>,
) -> SpecCommentsResult
    decreases n,
{
    if n <= 0 {
        SpecCommentsResult::Parsed { vendor, entries: acc }
    } else if pos + 4 > d.len() {
        SpecCommentsResult::Failed { message: "Invalid comment length"@ }
    } else {
        let cl = spec_u32_from_le_bytes(d.subrange(pos, pos + 4)) as int;
        if pos + 4 + cl > d.len() {
            SpecCommentsResult::Failed { message: "Invalid comment data"@ }
        } else {
            let s = utf8_lossy_of(d.subrange(pos + 4, pos + 4 + cl));
            spec_parse_entries(d, pos + 4 + cl, n - 1, spec_insert_comment(acc, s), vendor)
        }
    }
}

/// The whole tag block: magic, vendor length and bytes, entry count, then
/// the entries.
pub open spec fn spec_parse_comments(d: Seq<u8>) -> SpecCommentsResult {
    if d.len() < 8 || d.subrange(0, 8) != OPUS_TAGS_MAGIC@ {
        SpecCommentsResult::Failed { message: "Invalid Opus comment header"@ }
    } else if d.len() < 12 {
        SpecCommentsResult::Failed { message: "Invalid vendor string length"@ }
    } else {
        let vl = spec_u32_from_le_bytes(d.subrange(8, 12)) as int;
        if d.len() < 12 + vl {
            SpecCommentsResult::Failed { message: "Invalid vendor string"@ }
        } else {
            let vendor = utf8_lossy_of(d.subrange(12, 12 + vl));
            if d.len() < 12 + vl + 4 {
                SpecCommentsResult::Failed { message: "Invalid comment list length"@ }
            } else {
                let n = spec_u32_from_le_bytes(d.subrange(12 + vl, 12 + vl + 4)) as int;
                spec_parse_entries(d, 12 + vl + 4, n, Seq::empty(), vendor)
            }
        }
    }
}

/// Whether two byte slices hold the same bytes.
pub fn bytes_eq(a: &[u8], b: &[u8]) -> (r: bool)
    ensures
        r == (a@ == b@),
{
    if a.len() != b.len() {
        proof {
            assert(a@ != b@);
        }
        return false;
    }
    let mut i: usize = 0;
    while i < a.len()
        invariant
            0 <= i <= a@.len(),
            a@.len() == b@.len(),
            forall|j: int| 0 <= j < i ==> a@[j] == b@[j],
        decreases a@.len() - i,
    {
        if *vstd::slice::slice_index_get(a, i) != *vstd::slice::slice_index_get(b, i) {
            proof {
                assert(a@ != b@);
            }
            return false;
        }
        i += 1;
    }
    proof {
        assert(a@ =~= b@);
    }
    true
}

/// The index of the first '=' character in `s`, if any.
fn find_eq(s: &str) -> (r: Option<usize>)
    ensures
        match r {
            Some(e) => spec_find_eq(s@, 0) == e as int && e < s@.len() && s@[e as int] == '=',
            None => spec_find_eq(s@, 0) < 0,
        },
{
    let n = s.unicode_len();
    let mut i: usize = 0;
    while i < n
        invariant
            0 <= i <= n,
            n == s@.len(),
            spec_find_eq(s@, 0) == spec_find_eq(s@, i as int),
        decreases n - i,
    {
        if s.get_char(i) == '=' {
            return Some(i);
        }
        i += 1;
    }
    None
}

/// Parse the tag block: 8-byte magic, a 4-byte little-endian vendor length
/// and the vendor bytes, a 4-byte entry count, then entries of the form
/// KEY=VALUE, each behind a 4-byte length. Truncation fails with a message
/// naming the field that was cut short.
pub fn parse_opus_comment_header(data: &[u8]) -> (r: Result<OpusComments, String>)
    ensures
        ({
            let sp = spec_parse_comments(data@);
            match r {
                Ok(c) => {
                    &&& sp matches SpecCommentsResult::Parsed { vendor, entries } && c.vendor@
                        == vendor && c.kv() == entries
                    &&& c.wf()
                },
                Err(e) => sp matches SpecCommentsResult::Failed { message } && e@ == message,
            }
        }),
{
    let ghost d = data@;
    if data.len() < 8 {
        return Err("Invalid Opus comment header".to_owned());
    }
    let magic = vstd::slice::slice_subrange(data, 0, 8);
    let expected = OPUS_TAGS_MAGIC;
    if !bytes_eq(magic, expected.as_slice()) {
        return Err("Invalid Opus comment header".to_owned());
    }
    if data.len() < 12 {
        return Err("Invalid vendor string length".to_owned());
    }
    let vl = u32_from_le_bytes(vstd::slice::slice_subrange(data, 8, 12)) as usize;
    if data.len() - 12 < vl {
        return Err("Invalid vendor string".to_owned());
    }
    let vendor = utf8_lossy(vstd::slice::slice_subrange(data, 12, 12 + vl));
    let mut pos: usize = 12 + vl;
    if data.len() - pos < 4 {
        return Err("Invalid comment list length".to_owned());
    }
    let n = u32_from_le_bytes(vstd::slice::slice_subrange(data, pos, pos + 4)) as usize;
    pos += 4;

    let ghost pos0 = pos as int;
    let mut comments: Vec<(String, String)> = Vec::new();
    let mut idx: usize = 0;
    proof {
        assert(comments.deep_view() =~~= Seq::<(Seq<char>, Seq<char>)>::empty());
    }
    while idx < n
        invariant
            0 <= idx <= n,
            pos <= d.len(),
            data@ == d,
            vendor@ == utf8_lossy_of(d.subrange(12, 12 + vl as int)),
            spec_parse_comments(d) == spec_parse_entries(
                d,
                pos as int,
                n - idx,
                comments.deep_view(),
                vendor@,
            ),
            forall|i: int, j: int|
                0 <= i < j < comments.deep_view().len() ==> (#[trigger] comments.deep_view()[i]).0
                    != (#[trigger] comments.deep_view()[j]).0,
        decreases n - idx,
    {
        if data.len() - pos < 4 {
            return Err("Invalid comment length".to_owned());
        }
        let cl = u32_from_le_bytes(vstd::slice::slice_subrange(data, pos, pos + 4)) as usize;
        if data.len() - (pos + 4) < cl {
            return Err("Invalid comment data".to_owned());
        }
        let s = utf8_lossy(vstd::slice::slice_subrange(data, pos + 4, pos + 4 + cl));
        let ghost acc_before = comments.deep_view();
        proof {
            lemma_insert_kv_unique(
                acc_before,
                uppercase_of(s@.subrange(0, spec_find_eq(s@, 0))),
                s@.subrange(spec_find_eq(s@, 0) + 1, s@.len() as int),
            );
        }
        match find_eq(s.as_str()) {
            Some(e) => {
                let slen = s.as_str().unicode_len();
                let key = to_uppercase(s.as_str().substring_char(0, e));
                let value = s.as_str().substring_char(e + 1, slen).to_owned();
                insert_comment(&mut comments, key, value);
                proof {
                    assert(comments.deep_view() == spec_insert_comment(acc_before, s@));
                }
            },
            None => {
                proof {
                    assert(comments.deep_view() == spec_insert_comment(acc_before, s@));
                }
            },
        }
        pos += 4 + cl;
        idx += 1;
    }
    Ok(OpusComments { vendor, comments })
}

/// The lacing value and bytes of each segment of the page at `ps`.
pub open spec fn spec_page_segments(d: Seq<u8>, ps: int) -> Seq<(u8, Seq<u8>)> {
    Seq::new(
        page_nsegs(d, ps) as nat,
        |i: int|
            (
                d[ps + 27 + i],
                d.subrange(
                    crate::pages::seg_offset(d, ps, i),
                    crate::pages::seg_offset(d, ps, i + 1),
                ),
            ),
    )
}

/// The first packet that a lacing value below 255 completes, continuing a
/// packet whose earlier bytes are `acc`; `None` when every value is 255.
pub open spec fn spec_first_packet(segs: Seq<(u8, Seq<u8>)>, acc: Seq<u8>) -> Option<Seq<u8>>
    decreases segs.len(),
{
    if segs.len() == 0 {
        None
    } else {
        let acc2 = acc + segs[0].1;
        if segs[0].0 < 255 {
            Some(acc2)
        } else {
            spec_first_packet(segs.drop_first(), acc2)
        }
    }
}

/// The bytes of all the segments, in order.
pub open spec fn spec_flat(segs: Seq<(u8, Seq<u8>)>) -> Seq<u8>
    decreases segs.len(),
{
    if segs.len() == 0 {
        Seq::empty()
    } else {
        segs[0].1 + spec_flat(segs.drop_first())
    }
}

pub proof fn lemma_flat_push(segs: Seq<(u8, Seq<u8>)>, s: (u8, Seq<u8>))
    ensures
        spec_flat(segs.push(s)) == spec_flat(segs) + s.1,
    decreases segs.len(),
{
    if segs.len() == 0 {
        assert(segs.push(s).drop_first() =~= Seq::<(u8, Seq<u8>)>::empty());
        assert(spec_flat(segs.push(s).drop_first()) == Seq::<u8>::empty());
        assert(segs.push(s)[0] == s);
        assert(spec_flat(segs.push(s)) == s.1 + Seq::<u8>::empty());
        assert(spec_flat(segs.push(s)) =~= spec_flat(segs) + s.1);
    } else {
        assert(segs.push(s).drop_first() =~= segs.drop_first().push(s));
        lemma_flat_push(segs.drop_first(), s);
        assert(spec_flat(segs.push(s)) =~= spec_flat(segs) + s.1);
    }
}

/// Walk the pages from `ps` on, accumulating segment bytes onto `acc`,
/// until a lacing value below 255 completes the packet. `None` when the
/// pages end, or fail to parse, before that.
pub open spec fn spec_comment_packet_from(d: Seq<u8>, ps: int, acc: Seq<u8>) -> Option<Seq<u8>>
    decreases d.len() - ps,
{
    if !can_parse_page(d, ps) {
        None
    } else if !(ps < page_end(d, ps) <= d.len()) {
        None
    } else {
        match spec_first_packet(spec_page_segments(d, ps), acc) {
            Some(p) => Some(p),
            None => spec_comment_packet_from(
                d,
                page_end(d, ps),
                acc + spec_flat(spec_page_segments(d, ps)),
            ),
        }
    }
}

/// The tags of the stream held in `d`: the first page is the identity
/// header and is skipped; the packet the following pages carry is parsed
/// as the tag block.
pub open spec fn spec_get_opus_comments(d: Seq<u8>) -> SpecCommentsResult {
    if !can_parse_page(d, 0) {
        SpecCommentsResult::Failed { message: "No Ogg pages found"@ }
    } else {
        match spec_comment_packet_from(d, page_end(d, 0), Seq::empty()) {
            None => SpecCommentsResult::Failed { message: "Incomplete comment header"@ },
            Some(p) => spec_parse_comments(p),
        }
    }
}

/// The packet that follows the first page of the given pages: the segments
/// of the later pages, joined until a lacing value below 255 ends it. For a
/// well-formed stream this is the tag block.
pub open spec fn spec_pages_comment_packet(pages: Seq<crate::pages::OggPage>) -> Option<Seq<u8>> {
    if pages.len() == 0 {
        None
    } else {
        spec_first_packet(
            crate::pages::seg_views(crate::pages::spec_all_segments(pages.drop_first())),
            Seq::empty(),
        )
    }
}

/// The comment packet of the given pages, as `spec_pages_comment_packet`
/// names it.
pub fn pages_comment_packet(pages: &Vec<crate::pages::OggPage>) -> (r: Option<Vec<u8>>)
    ensures
        match r {
            Some(p) => spec_pages_comment_packet(pages@) == Some(p@),
            None => spec_pages_comment_packet(pages@) is None,
        },
{
    if pages.len() == 0 {
        return None;
    }
    let ghost whole = crate::pages::seg_views(
        crate::pages::spec_all_segments(pages@.drop_first()),
    );
    let mut acc: Vec<u8> = Vec::new();
    let mut i: usize = 1;
    proof {
        assert(pages@.drop_first() =~= pages@.skip(1));
        if pages@.len() > 1 {
            crate::pages::lemma_all_segments_skip(pages@, 1);
            assert(pages@[1].segments@.skip(0) =~= pages@[1].segments@);
            assert(crate::pages::spec_rest_segments(pages@, 1, 0) =~= crate::pages::spec_all_segments(
                pages@.skip(1),
            ));
        } else {
            assert(pages@.skip(1) =~= Seq::<crate::pages::OggPage>::empty());
            assert(crate::pages::spec_rest_segments(pages@, 1, 0)
                =~= Seq::<crate::pages::OggSegment>::empty());
            assert(crate::pages::spec_all_segments(pages@.skip(1))
                =~= Seq::<crate::pages::OggSegment>::empty());
        }
        assert(crate::pages::seg_views(crate::pages::spec_rest_segments(pages@, 1, 0)) =~= whole);
        assert(acc@ =~= Seq::<u8>::empty());
    }
    while i < pages.len()
        invariant
            1 <= i <= pages@.len(),
            whole == crate::pages::seg_views(
                crate::pages::spec_all_segments(pages@.drop_first()),
            ),
            spec_first_packet(
                crate::pages::seg_views(crate::pages::spec_rest_segments(pages@, i as int, 0)),
                acc@,
            ) == spec_first_packet(whole, Seq::empty()),
        decreases pages@.len() - i,
    {
        let page = &pages[i];
        let mut j: usize = 0;
        while j < page.segments.len()
            invariant
                1 <= i < pages@.len(),
                0 <= j <= page.segments@.len(),
                *page == pages@[i as int],
                whole == crate::pages::seg_views(
                    crate::pages::spec_all_segments(pages@.drop_first()),
                ),
                spec_first_packet(
                    crate::pages::seg_views(
                        crate::pages::spec_rest_segments(pages@, i as int, j as int),
                    ),
                    acc@,
                ) == spec_first_packet(whole, Seq::empty()),
            decreases page.segments@.len() - j,
        {
            let ghost rest = crate::pages::spec_rest_segments(pages@, i as int, j as int);
            let ghost rv = crate::pages::seg_views(rest);
            let ghost acc_before = acc@;
            proof {
                assert(page.segments@.skip(j as int)[0] == page.segments@[j as int]);
                assert(rest[0] == page.segments@[j as int]);
                assert(rv[0] == (page.segments@[j as int].size, page.segments@[j as int].data@));
                assert(rest.drop_first() =~= crate::pages::spec_rest_segments(
                    pages@,
                    i as int,
                    j + 1,
                ));
                assert(rv.drop_first() =~= crate::pages::seg_views(rest.drop_first()));
            }
            let seg = &page.segments[j];
            acc.extend_from_slice(seg.data.as_slice());
            proof {
                assert(acc@ =~= acc_before + seg.data@);
            }
            if seg.size < 255 {
                proof {
                    assert(spec_first_packet(whole, Seq::empty()) == Some(acc@));
                }
                return Some(acc);
            }
            j += 1;
        }
        proof {
            let sl = page.segments@.len() as int;
            assert(page.segments@.skip(sl) =~= Seq::<crate::pages::OggSegment>::empty());
            if i + 1 < pages@.len() {
                crate::pages::lemma_all_segments_skip(pages@, i + 1);
                assert(pages@[i + 1].segments@.skip(0) =~= pages@[i + 1].segments@);
                assert(crate::pages::spec_rest_segments(pages@, i as int, sl)
                    =~= crate::pages::spec_rest_segments(pages@, i + 1, 0));
            } else {
                assert(pages@.skip(i + 1) =~= Seq::<crate::pages::OggPage>::empty());
                assert(crate::pages::spec_rest_segments(pages@, i as int, sl)
                    =~= Seq::<crate::pages::OggSegment>::empty());
                assert(crate::pages::spec_rest_segments(pages@, i + 1, 0)
                    =~= Seq::<crate::pages::OggSegment>::empty());
            }
            assert(crate::pages::seg_views(crate::pages::spec_rest_segments(pages@, i as int, sl))
                =~= crate::pages::seg_views(crate::pages::spec_rest_segments(pages@, i + 1, 0)));
        }
        i += 1;
    }
    proof {
        assert(crate::pages::spec_rest_segments(pages@, pages@.len() as int, 0)
            =~= Seq::<crate::pages::OggSegment>::empty());
        assert(crate::pages::seg_views(Seq::<crate::pages::OggSegment>::empty())
            =~= Seq::<(u8, Seq<u8>)>::empty());
    }
    None
}

/// Read the tag block of the stream held in `data`: skip the identity
/// page, gather the next packet across page boundaries, and parse it.
pub fn get_opus_comments(data: &[u8]) -> (r: Result<OpusComments, String>)
    ensures
        ({
            let sp = spec_get_opus_comments(data@);
            match r {
                Ok(c) => {
                    &&& sp matches SpecCommentsResult::Parsed { vendor, entries } && c.vendor@
                        == vendor && c.kv() == entries
                    &&& c.wf()
                },
                Err(e) => sp matches SpecCommentsResult::Failed { message } && e@ == message,
            }
        }),
{
    let ghost d = data@;
    let mut parser = crate::pages::OggParser::new(data);
    match parser.next() {
        Some(_) => {},
        None => {
            return Err("No Ogg pages found".to_owned());
        },
    }
    let mut acc: Vec<u8> = Vec::new();
    proof {
        assert(acc@ =~= Seq::<u8>::empty());
    }
    loop
        invariant
            d == data@,
            parser.data@ == d,
            parser.pos <= d.len(),
            can_parse_page(d, 0),
            spec_get_opus_comments(d) == (match spec_comment_packet_from(
                d,
                parser.pos as int,
                acc@,
            ) {
                None => SpecCommentsResult::Failed { message: "Incomplete comment header"@ },
                Some(p) => spec_parse_comments(p),
            }),
        decreases d.len() - parser.pos,
    {
        let ghost ps = parser.pos as int;
        let page = match parser.next() {
            Some(p) => p,
            None => {
                return Err("Incomplete comment header".to_owned());
            },
        };
        let ghost pseg = spec_page_segments(d, ps);
        proof {
            crate::pages::lemma_lace_total_nonneg(d, ps + 27, page_nsegs(d, ps));
            assert(ps < page_end(d, ps) <= d.len());
        }
        let ghost acc_start = acc@;
        let mut j: usize = 0;
        proof {
            assert(pseg.skip(0) =~= pseg);
            assert(pseg.take(0) =~= Seq::<(u8, Seq<u8>)>::empty());
            assert(acc@ =~= acc_start + spec_flat(pseg.take(0)));
        }
        while j < page.segments.len()
            invariant
                d == data@,
                0 <= j <= page.segments@.len(),
                page.segments@.len() == pseg.len(),
                pseg == spec_page_segments(d, ps),
                can_parse_page(d, ps),
                ps < page_end(d, ps) <= d.len(),
                spec_get_opus_comments(d) == (match spec_comment_packet_from(d, ps, acc_start) {
                    None => SpecCommentsResult::Failed { message: "Incomplete comment header"@ },
                    Some(p) => spec_parse_comments(p),
                }),
                crate::pages::is_page_at(d, ps, page),
                spec_first_packet(pseg.skip(j as int), acc@) == spec_first_packet(
                    pseg,
                    acc_start,
                ),
                acc@ == acc_start + spec_flat(pseg.take(j as int)),
            decreases page.segments@.len() - j,
        {
            let ghost acc_before = acc@;
            proof {
                assert(page.segments@[j as int].data@ == pseg[j as int].1);
                assert(page.segments@[j as int].size == pseg[j as int].0);
                assert(pseg.skip(j as int)[0] == pseg[j as int]);
                assert(pseg.skip(j as int).drop_first() =~= pseg.skip(j + 1));
            }
            acc.extend_from_slice(page.segments[j].data.as_slice());
            proof {
                assert(acc@ =~= acc_before + pseg[j as int].1);
                lemma_flat_push(pseg.take(j as int), pseg[j as int]);
                assert(pseg.take(j + 1) =~= pseg.take(j as int).push(pseg[j as int]));
                assert(acc@ =~= acc_start + spec_flat(pseg.take(j + 1)));
            }
            if page.segments[j].size < 255 {
                proof {
                    assert(spec_first_packet(pseg, acc_start) == Some(acc@));
                    assert(spec_comment_packet_from(d, ps, acc_start) == Some(acc@));
                }
                return parse_opus_comment_header(acc.as_slice());
            }
            j += 1;
        }
        proof {
            assert(pseg.skip(pseg.len() as int) =~= Seq::<(u8, Seq<u8>)>::empty());
            assert(spec_first_packet(pseg, acc_start) is None);
            assert(pseg.take(pseg.len() as int) =~= pseg);
            assert(acc@ =~= acc_start + spec_flat(pseg));
            assert(spec_comment_packet_from(d, ps, acc_start) == spec_comment_packet_from(
                d,
                page_end(d, ps),
                acc@,
            ));
        }
    }
}

} // verus!
