//! A minimal EXIF reader: the TIFF block of a JPEG APP1 segment, of which
//! IFD0 is read for a handful of ASCII tags.

use vstd::prelude::*;
use vstd::slice::slice_subrange;
use crate::text::{string_of, trim, trim_bounds};

verus! {

// ---------------------------------------------------------------------------
// The map of tag names to values
// ---------------------------------------------------------------------------

/// The map of names to values that a list of distinct-keyed pairs stands for.
pub open spec fn pairs_map(s: Seq<(String, String)>) -> Map<Seq<char>, Seq<char>>
    decreases s.len(),
{
    if s.len() == 0 {
        Map::empty()
    } else {
        pairs_map(s.drop_last()).insert(s.last().0@, s.last().1@)
    }
}

pub open spec fn keys_distinct(s: Seq<(String, String)>) -> bool {
    forall|i: int, j: int| 0 <= i < j < s.len() ==> s[i].0@ != s[j].0@
}

proof fn lemma_pairs_map_lookup(s: Seq<(String, String)>)
    requires
        keys_distinct(s),
    ensures
        forall|k: Seq<char>|
            #![trigger pairs_map(s).contains_key(k)]
            pairs_map(s).contains_key(k) <==> exists|i: int| 0 <= i < s.len() && s[i].0@ == k,
        forall|i: int| 0 <= i < s.len() ==> #[trigger] pairs_map(s)[s[i].0@] == s[i].1@,
    decreases s.len(),
{
    if s.len() > 0 {
        let t = s.drop_last();
        let lk = s.last().0@;
        assert(keys_distinct(t));
        lemma_pairs_map_lookup(t);
        assert(pairs_map(s) == pairs_map(t).insert(lk, s.last().1@));
        assert forall|k: Seq<char>| #![trigger pairs_map(s).contains_key(k)]
            pairs_map(s).contains_key(k) <==> exists|i: int| 0 <= i < s.len() && s[i].0@ == k by {
            if pairs_map(s).contains_key(k) {
                if k == lk {
                    assert(s[s.len() - 1].0@ == k);
                } else {
                    assert(pairs_map(t).contains_key(k));
                    let i = choose|i: int| 0 <= i < t.len() && t[i].0@ == k;
                    assert(s[i].0@ == k);
                }
            }
            if exists|i: int| 0 <= i < s.len() && s[i].0@ == k {
                let i = choose|i: int| 0 <= i < s.len() && s[i].0@ == k;
                if i < t.len() {
                    assert(t[i].0@ == k);
                    assert(pairs_map(t).contains_key(k));
                }
            }
        }
        assert forall|i: int| 0 <= i < s.len() implies #[trigger] pairs_map(s)[s[i].0@] == s[i].1@ by {
            if i < t.len() {
                assert(t[i] == s[i]);
                assert(s[i].0@ != lk);
                assert(pairs_map(t)[t[i].0@] == t[i].1@);
            }
        }
    }
}

proof fn lemma_pairs_map_update(s: Seq<(String, String)>, j: int, p: (String, String))
    requires
        keys_distinct(s),
        0 <= j < s.len(),
        s[j].0@ == p.0@,
    ensures
        pairs_map(s.update(j, p)) == pairs_map(s).insert(p.0@, p.1@),
        keys_distinct(s.update(j, p)),
    decreases s.len(),
{
    let u = s.update(j, p);
    let t = s.drop_last();
    if j == s.len() - 1 {
        assert(u.drop_last() =~= t);
        assert(pairs_map(u) =~= pairs_map(s).insert(p.0@, p.1@));
    } else {
        assert(u.drop_last() =~= t.update(j, p));
        lemma_pairs_map_update(t, j, p);
        assert(s.last().0@ != p.0@);
        assert(pairs_map(u) =~= pairs_map(s).insert(p.0@, p.1@));
    }
    assert forall|a: int, b: int| 0 <= a < b < u.len() implies u[a].0@ != u[b].0@ by {
        assert(s[a].0@ != s[b].0@);
    }
}

/// Tag names mapped to their values, each name at most once.
#[derive(Debug)]
pub struct ExifMap {
    entries: Vec<(String, String)>,
}

impl ExifMap {
    #[verifier::type_invariant]
    spec fn wf(self) -> bool {
        keys_distinct(self.entries@)
    }

    /// The names and values held.
    pub closed spec fn view(&self) -> Map<Seq<char>, Seq<char>> {
        pairs_map(self.entries@)
    }

    /// The empty map.
    pub fn new() -> (r: ExifMap)
        ensures
            r.view() == Map::<Seq<char>, Seq<char>>::empty(),
    {
        ExifMap { entries: Vec::new() }
    }

    /// Sets `key` to `value`, replacing the value it had.
    pub fn insert(&mut self, key: String, value: String)
        ensures
            final(self).view() == old(self).view().insert(key@, value@),
    {
        proof {
            use_type_invariant(&*self);
        }
        let mut i: usize = 0;
        while i < self.entries.len()
            invariant
                i <= self.entries@.len(),
                self.entries@ == old(self).entries@,
                keys_distinct(self.entries@),
                forall|j: int| 0 <= j < i ==> self.entries@[j].0@ != key@,
            decreases self.entries@.len() - i,
        {
            if self.entries[i].0 == key {
                let ghost old_entries = self.entries@;
                proof {
                    lemma_pairs_map_update(old_entries, i as int, (key, value));
                }
                let mut entries = Vec::new();
                std::mem::swap(&mut entries, &mut self.entries);
                entries.set(i, (key, value));
                self.entries = entries;
                return;
            }
            i += 1;
        }
        let ghost old_entries = self.entries@;
        let mut entries = Vec::new();
        std::mem::swap(&mut entries, &mut self.entries);
        entries.push((key, value));
        proof {
            assert(entries@.drop_last() =~= old_entries);
            assert forall|a: int, b: int| 0 <= a < b < entries@.len() implies entries@[a].0@
                != entries@[b].0@ by {
                if b < old_entries.len() {
                    assert(old_entries[a].0@ != old_entries[b].0@);
                } else {
                    assert(entries@[a] == old_entries[a]);
                }
            }
        }
        self.entries = entries;
    }

    /// The value of `key`, if it is held.
    pub fn get(&self, key: &str) -> (r: Option<&String>)
        ensures
            match r {
                Some(v) => self.view().contains_key(key@) && self.view()[key@] == v@,
                None => !self.view().contains_key(key@),
            },
    {
        proof {
            use_type_invariant(self);
            lemma_pairs_map_lookup(self.entries@);
        }
        let mut i: usize = 0;
        while i < self.entries.len()
            invariant
                i <= self.entries@.len(),
                keys_distinct(self.entries@),
                forall|j: int| 0 <= j < i ==> self.entries@[j].0@ != key@,
            decreases self.entries@.len() - i,
        {
            if crate::text::str_eq(self.entries[i].0.as_str(), key) {
                proof {
                    lemma_pairs_map_lookup(self.entries@);
                    assert(pairs_map(self.entries@)[self.entries@[i as int].0@]
                        == self.entries@[i as int].1@);
                    assert(pairs_map(self.entries@).contains_key(self.entries@[i as int].0@));
                }
                return Some(&self.entries[i].1);
            }
            i += 1;
        }
        proof {
            if pairs_map(self.entries@).contains_key(key@) {
                let j = choose|j: int| 0 <= j < self.entries@.len() && self.entries@[j].0@ == key@;
                assert(self.entries@[j].0@ != key@);
            }
        }
        None
    }

    /// The names and values held, as pairs.
    pub fn to_pairs(&self) -> (r: Vec<(String, String)>)
        ensures
            keys_distinct(r@),
            pairs_map(r@) == self.view(),
    {
        proof {
            use_type_invariant(self);
        }
        let mut r: Vec<(String, String)> = Vec::new();
        let mut i: usize = 0;
        while i < self.entries.len()
            invariant
                i <= self.entries@.len(),
                keys_distinct(self.entries@),
                r@.len() == i,
                forall|j: int| 0 <= j < i ==> (#[trigger] r@[j]).0@ == self.entries@[j].0@ && r@[j].1@
                    == self.entries@[j].1@,
                pairs_map(r@) == pairs_map(self.entries@.take(i as int)),
            decreases self.entries@.len() - i,
        {
            let k = self.entries[i].0.clone();
            let v = self.entries[i].1.clone();
            let ghost before = r@;
            r.push((k, v));
            proof {
                assert(r@.drop_last() =~= before);
                assert(self.entries@.take(i + 1).drop_last() =~= self.entries@.take(i as int));
            }
            i += 1;
        }
        proof {
            assert(self.entries@.take(i as int) =~= self.entries@);
            assert forall|a: int, b: int| 0 <= a < b < r@.len() implies r@[a].0@ != r@[b].0@ by {
                assert(self.entries@[a].0@ != self.entries@[b].0@);
            }
        }
        r
    }
}

} // verus!

verus! {

// ---------------------------------------------------------------------------
// The TIFF block
// ---------------------------------------------------------------------------

/// The 16-bit number at `p`, in the block's byte order.
pub open spec fn exif_u16(d: Seq<u8>, p: int, le: bool) -> int {
    if le {
        d[p] + d[p + 1] * 256
    } else {
        d[p] * 256 + d[p + 1]
    }
}

/// The 32-bit number at `p`, in the block's byte order.
pub open spec fn exif_u32(d: Seq<u8>, p: int, le: bool) -> int {
    if le {
        d[p] + d[p + 1] * 256 + d[p + 2] * 65536 + d[p + 3] * 16777216
    } else {
        d[p] * 16777216 + d[p + 1] * 65536 + d[p + 2] * 256 + d[p + 3]
    }
}

/// The names of the tags that are read: Make, Model, Software, DateTime, Copyright.
pub open spec fn exif_tag_name(tag: int) -> Option<Seq<char>> {
    if tag == 0x010f {
        Some("Make"@)
    } else if tag == 0x0110 {
        Some("Model"@)
    } else if tag == 0x0131 {
        Some("Software"@)
    } else if tag == 0x0132 {
        Some("DateTime"@)
    } else if tag == 0x8298 {
        Some("Copyright"@)
    } else {
        None
    }
}

/// `s` up to, not including, its first zero byte.
pub open spec fn until_nul(s: Seq<u8>) -> Seq<u8>
    decreases s.len(),
{
    if s.len() == 0 || s[0] == 0 {
        Seq::empty()
    } else {
        seq![s[0]] + until_nul(s.drop_first())
    }
}

/// Bytes read as characters, one byte to one character (Latin-1).
pub open spec fn latin1(s: Seq<u8>) -> Seq<char> {
    s.map_values(|b: u8| b as char)
}

/// The text of a tag value: the bytes from `pos` to the first zero byte, as
/// characters, trimmed.
pub open spec fn exif_text(d: Seq<u8>, pos: int) -> Seq<char> {
    trim(latin1(until_nul(d.skip(pos))))
}

/// The map after the IFD0 entry at `entry` has been read into `m`.
pub open spec fn exif_entry(d: Seq<u8>, le: bool, entry: int, m: Map<Seq<char>, Seq<char>>) -> Map<
    Seq<char>,
    Seq<char>,
> {
    match exif_tag_name(exif_u16(d, entry, le)) {
        Some(name) => {
            let at = exif_u32(d, entry + 8, le);
            if at + 8 < d.len() {
                m.insert(name, exif_text(d, at))
            } else {
                m
            }
        },
        None => m,
    }
}

/// The map after the entries `i..count` of the IFD at `base` have been read
/// into `m`, stopping at the first entry that does not fit in the block.
pub open spec fn exif_scan(
    d: Seq<u8>,
    le: bool,
    base: int,
    count: int,
    i: int,
    m: Map<Seq<char>, Seq<char>>,
) -> Map<Seq<char>, Seq<char>>
    decreases count - i,
{
    if i >= count || base + 2 + 12 * i + 12 > d.len() {
        m
    } else {
        exif_scan(d, le, base, count, i + 1, exif_entry(d, le, base + 2 + 12 * i, m))
    }
}

/// Whether the block is little-endian (`II`).
pub open spec fn exif_little_endian(d: Seq<u8>) -> bool {
    d[0] == 0x49
}

/// Where IFD0 starts.
pub open spec fn exif_ifd0(d: Seq<u8>) -> int {
    exif_u32(d, 4, exif_little_endian(d))
}

/// The tags that a TIFF block holds in IFD0: empty when the block is shorter
/// than its header or IFD0 lies outside it.
pub open spec fn exif_fields(d: Seq<u8>) -> Map<Seq<char>, Seq<char>> {
    if d.len() < 8 || exif_ifd0(d) >= d.len() {
        Map::empty()
    } else {
        let le = exif_little_endian(d);
        exif_scan(d, le, exif_ifd0(d), exif_u16(d, exif_ifd0(d), le), 0, Map::empty())
    }
}

/// The blocks on which reading faults: IFD0 starts on the last byte, so that
/// its entry count cannot be read.
pub open spec fn exif_block_faults(d: Seq<u8>) -> bool {
    d.len() >= 8 && exif_ifd0(d) < d.len() && exif_ifd0(d) + 2 > d.len()
}

fn read_u16(d: &[u8], p: usize, le: bool) -> (r: u16)
    requires
        p + 2 <= d@.len(),
    ensures
        r == exif_u16(d@, p as int, le),
{
    let a = d[p] as u16;
    let b = d[p + 1] as u16;
    if le {
        a + b * 256
    } else {
        a * 256 + b
    }
}

fn read_u32(d: &[u8], p: usize, le: bool) -> (r: u32)
    requires
        p + 4 <= d@.len(),
    ensures
        r == exif_u32(d@, p as int, le),
{
    let a = d[p] as u32;
    let b = d[p + 1] as u32;
    let c = d[p + 2] as u32;
    let e = d[p + 3] as u32;
    if le {
        a + b * 256 + c * 65536 + e * 16777216
    } else {
        a * 16777216 + b * 65536 + c * 256 + e
    }
}

fn tag_name(tag: u16) -> (r: Option<&'static str>)
    ensures
        match r {
            Some(s) => exif_tag_name(tag as int) == Some(s@),
            None => exif_tag_name(tag as int) is None,
        },
{
    if tag == 0x010f {
        Some("Make")
    } else if tag == 0x0110 {
        Some("Model")
    } else if tag == 0x0131 {
        Some("Software")
    } else if tag == 0x0132 {
        Some("DateTime")
    } else if tag == 0x8298 {
        Some("Copyright")
    } else {
        None
    }
}

proof fn lemma_until_nul(s: Seq<u8>, k: int)
    requires
        0 <= k <= s.len(),
        k == s.len() || s[k] == 0,
        forall|j: int| 0 <= j < k ==> s[j] != 0,
    ensures
        until_nul(s) == s.take(k),
    decreases k,
{
    if k == 0 {
        assert(s.take(0) =~= Seq::<u8>::empty());
    } else {
        let t = s.drop_first();
        assert forall|j: int| 0 <= j < k - 1 implies t[j] != 0 by {
            assert(t[j] == s[j + 1]);
        }
        lemma_until_nul(t, k - 1);
        assert(seq![s[0]] + t.take(k - 1) =~= s.take(k));
    }
}

/// The text of the value at `pos`.
fn text_at(d: &[u8], pos: usize) -> (r: String)
    requires
        pos <= d@.len(),
    ensures
        r@ == exif_text(d@, pos as int),
{
    let n = d.len();
    let mut j = pos;
    let mut cs: Vec<char> = Vec::new();
    while j < n && d[j] != 0
        invariant
            pos <= j <= n == d@.len(),
            forall|t: int| pos <= t < j ==> d@[t] != 0,
            cs@ == latin1(d@.subrange(pos as int, j as int)),
        decreases n - j,
    {
        cs.push(d[j] as char);
        assert(latin1(d@.subrange(pos as int, j + 1)) =~= latin1(d@.subrange(pos as int, j as int)).push(
            d@[j as int] as char,
        ));
        j += 1;
    }
    proof {
        let s = d@.skip(pos as int);
        assert forall|t: int| 0 <= t < j - pos implies s[t] != 0 by {
            assert(s[t] == d@[t + pos]);
        }
        lemma_until_nul(s, j - pos);
        assert(s.take(j - pos) =~= d@.subrange(pos as int, j as int));
    }
    let (a, b) = trim_bounds(cs.as_slice(), 0, cs.len());
    assert(cs@.subrange(0, cs@.len() as int) =~= cs@);
    string_of(cs.as_slice(), a, b)
}

/// Reads IFD0 of a TIFF block (the bytes after `Exif\0\0`) for the tags Make,
/// Model, Software, DateTime and Copyright, taking each value as the bytes at
/// its offset up to the first zero byte, one character per byte, trimmed.
/// Entries that run past the block end the reading; values whose offset lies
/// within 8 bytes of the end are skipped.
pub fn parse_exif_minimal(data: &[u8]) -> (r: ExifMap)
    requires
        !exif_block_faults(data@),
    ensures
        r.view() == exif_fields(data@),
{
    let mut map = ExifMap::new();
    let n = data.len();
    if n < 8 {
        return map;
    }
    let le = data[0] == 0x49;
    let off = read_u32(data, 4, le) as usize;
    if off >= n {
        return map;
    }
    let count = read_u16(data, off, le) as usize;
    let ghost d = data@;
    let mut i: usize = 0;
    while i < count && i * 12 + 12 <= n - off - 2
        invariant
            d == data@,
            n == d.len(),
            n >= 8,
            le == exif_little_endian(d),
            off == exif_ifd0(d),
            off + 2 <= n,
            count == exif_u16(d, off as int, le),
            count <= 0xffff,
            i <= count,
            exif_fields(d) == exif_scan(d, le, off as int, count as int, i as int, map.view()),
        decreases count - i,
    {
        let entry = off + 2 + i * 12;
        let tag = read_u16(data, entry, le);
        match tag_name(tag) {
            Some(name) => {
                let at = read_u32(data, entry + 8, le) as usize;
                if at < n - 8 {
                    let value = text_at(data, at);
                    let mut key = String::new();
                    key.append(name);
                    map.insert(key, value);
                }
            },
            None => {},
        }
        i += 1;
    }
    map
}

} // verus!

verus! {

// ---------------------------------------------------------------------------
// The JPEG segment chain
// ---------------------------------------------------------------------------

/// Where the EXIF block of a JPEG lies, as the segment chain is walked.
pub enum ExifSegment {
    /// No `APP1` segment signed `Exif\0\0` before the image data.
    Missing,
    /// The block spans `[start, end)`.
    Found { start: int, end: int },
    /// The chain is cut where the walk must read: an `APP1` marker too close to
    /// the end to hold the signature, or a signed segment whose length is under
    /// 8 or runs past the end.
    Malformed,
}

/// The six bytes `Exif\0\0` that open an EXIF `APP1` segment.
pub open spec fn exif_signature() -> Seq<u8> {
    seq![0x45u8, 0x78u8, 0x69u8, 0x66u8, 0x00u8, 0x00u8]
}

/// The walk along the segments of `b` from the marker at `i`.
pub open spec fn exif_segment_from(b: Seq<u8>, i: int) -> ExifSegment
    decreases (if i < b.len() { b.len() - i } else { 0 }),
{
    if i < 0 || i + 4 >= b.len() || b[i] != 0xff {
        ExifSegment::Missing
    } else {
        let marker = b[i + 1];
        let seg_len = b[i + 2] * 256 + b[i + 3];
        if marker == 0xe1 && i + 10 > b.len() {
            ExifSegment::Malformed
        } else if marker == 0xe1 && b.subrange(i + 4, i + 10) == exif_signature() {
            if seg_len < 8 || i + 2 + seg_len > b.len() {
                ExifSegment::Malformed
            } else {
                ExifSegment::Found { start: i + 10, end: i + 2 + seg_len }
            }
        } else if marker == 0xda {
            ExifSegment::Missing
        } else {
            exif_segment_from(b, i + 2 + seg_len)
        }
    }
}

/// Where the EXIF block of the file `b` lies: nowhere unless `b` is at least
/// 14 bytes long and starts with the JPEG start-of-image marker.
pub open spec fn exif_segment(b: Seq<u8>) -> ExifSegment {
    if b.len() < 14 || b[0] != 0xff || b[1] != 0xd8 {
        ExifSegment::Missing
    } else {
        exif_segment_from(b, 2)
    }
}

/// The files on which reading the EXIF block faults.
pub open spec fn jpeg_exif_faults(b: Seq<u8>) -> bool {
    match exif_segment(b) {
        ExifSegment::Missing => false,
        ExifSegment::Found { start, end } => exif_block_faults(b.subrange(start, end)),
        ExifSegment::Malformed => true,
    }
}

/// The EXIF tags of the file `b`, where it holds an EXIF block.
pub open spec fn jpeg_exif(b: Seq<u8>) -> Option<Map<Seq<char>, Seq<char>>> {
    match exif_segment(b) {
        ExifSegment::Found { start, end } => Some(exif_fields(b.subrange(start, end))),
        _ => None,
    }
}

/// Whether reading the EXIF block of `bytes` faults (see `read_basic_exif`).
pub fn exif_read_faults(bytes: &[u8]) -> (r: bool)
    ensures
        r == jpeg_exif_faults(bytes@),
{
    let n = bytes.len();
    if n < 14 || bytes[0] != 0xff || bytes[1] != 0xd8 {
        return false;
    }
    match find_exif_segment(bytes) {
        SegmentAt::Missing => false,
        SegmentAt::Found(start, end) => {
            let block = slice_subrange(bytes, start, end);
            block_faults(block)
        },
        SegmentAt::Malformed => true,
    }
}

fn block_faults(d: &[u8]) -> (r: bool)
    ensures
        r == exif_block_faults(d@),
{
    let n = d.len();
    if n < 8 {
        return false;
    }
    let le = d[0] == 0x49;
    let off = read_u32(d, 4, le) as usize;
    off < n && n - off < 2
}

enum SegmentAt {
    Missing,
    Found(usize, usize),
    Malformed,
}

/// Walks the segment chain of a file that starts with the JPEG marker.
fn find_exif_segment(bytes: &[u8]) -> (r: SegmentAt)
    requires
        bytes@.len() >= 14,
        bytes@[0] == 0xff,
        bytes@[1] == 0xd8,
    ensures
        match r {
            SegmentAt::Missing => exif_segment(bytes@) is Missing,
            SegmentAt::Found(s, e) => exif_segment(bytes@) == (ExifSegment::Found {
                start: s as int,
                end: e as int,
            }) && s <= e <= bytes@.len(),
            SegmentAt::Malformed => exif_segment(bytes@) is Malformed,
        },
{
    let n = bytes.len();
    let ghost b = bytes@;
    let mut i: usize = 2;
    while i < n - 4
        invariant
            b == bytes@,
            n == b.len(),
            n >= 14,
            2 <= i,
            exif_segment(b) == exif_segment_from(b, i as int),
        decreases n - i,
    {
        if bytes[i] != 0xff {
            return SegmentAt::Missing;
        }
        let marker = bytes[i + 1];
        let seg_len = (bytes[i + 2] as usize) * 256 + (bytes[i + 3] as usize);
        if marker == 0xe1 {
            if n - i < 10 {
                return SegmentAt::Malformed;
            }
            let signed = bytes[i + 4] == 0x45 && bytes[i + 5] == 0x78 && bytes[i + 6] == 0x69
                && bytes[i + 7] == 0x66 && bytes[i + 8] == 0 && bytes[i + 9] == 0;
            proof {
                if signed {
                    assert(b.subrange(i + 4, i + 10) =~= exif_signature());
                } else {
                    assert(b.subrange(i + 4, i + 10) != exif_signature()) by {
                        if b.subrange(i + 4, i + 10) == exif_signature() {
                            assert(b.subrange(i + 4, i + 10)[0] == b[i + 4]);
                            assert(b.subrange(i + 4, i + 10)[1] == b[i + 5]);
                            assert(b.subrange(i + 4, i + 10)[2] == b[i + 6]);
                            assert(b.subrange(i + 4, i + 10)[3] == b[i + 7]);
                            assert(b.subrange(i + 4, i + 10)[4] == b[i + 8]);
                            assert(b.subrange(i + 4, i + 10)[5] == b[i + 9]);
                        }
                    }
                }
            }
            if signed {
                if seg_len < 8 || seg_len > n - i - 2 {
                    return SegmentAt::Malformed;
                }
                return SegmentAt::Found(i + 10, i + 2 + seg_len);
            }
        }
        if marker == 0xda {
            return SegmentAt::Missing;
        }
        if seg_len + 2 > n - i {
            assert(exif_segment_from(b, i + 2 + seg_len) is Missing);
            return SegmentAt::Missing;
        }
        i = i + 2 + seg_len;
    }
    SegmentAt::Missing
}

/// Reads the EXIF tags of a JPEG file's bytes: walks the segment chain from
/// the start-of-image marker to the first `APP1` segment signed `Exif\0\0` and
/// reads its block with `parse_exif_minimal`. `None` when the file is not a
/// JPEG, or the chain reaches the image data (`SOS`), a byte that is no marker,
/// or its end first.
pub fn read_basic_exif(bytes: &[u8]) -> (r: Option<ExifMap>)
    requires
        !jpeg_exif_faults(bytes@),
    ensures
        match jpeg_exif(bytes@) {
            Some(m) => r matches Some(x) && x.view() == m,
            None => r is None,
        },
{
    let n = bytes.len();
    if n < 14 || bytes[0] != 0xff || bytes[1] != 0xd8 {
        return None;
    }
    match find_exif_segment(bytes) {
        SegmentAt::Found(start, end) => {
            let block = slice_subrange(bytes, start, end);
            Some(parse_exif_minimal(block))
        },
        _ => None,
    }
}

} // verus!

verus! {

/// The names under which tags are reported.
pub open spec fn is_exif_tag_name(k: Seq<char>) -> bool {
    k == "Make"@ || k == "Model"@ || k == "Software"@ || k == "DateTime"@ || k == "Copyright"@
}

pub open spec fn names_known(m: Map<Seq<char>, Seq<char>>) -> bool {
    forall|k: Seq<char>| #[trigger] m.contains_key(k) ==> is_exif_tag_name(k)
}

proof fn lemma_scan_names_known(
    d: Seq<u8>,
    le: bool,
    base: int,
    count: int,
    i: int,
    m: Map<Seq<char>, Seq<char>>,
)
    requires
        names_known(m),
    ensures
        names_known(exif_scan(d, le, base, count, i, m)),
    decreases count - i,
{
    if !(i >= count || base + 2 + 12 * i + 12 > d.len()) {
        let m2 = exif_entry(d, le, base + 2 + 12 * i, m);
        assert(names_known(m2));
        lemma_scan_names_known(d, le, base, count, i + 1, m2);
    }
}

/// Only the five tags Make, Model, Software, DateTime and Copyright are ever reported.
pub proof fn law_exif_reports_known_tags(d: Seq<u8>)
    ensures
        forall|k: Seq<char>| #[trigger] exif_fields(d).contains_key(k) ==> is_exif_tag_name(k),
{
    if !(d.len() < 8 || exif_ifd0(d) >= d.len()) {
        let le = exif_little_endian(d);
        lemma_scan_names_known(d, le, exif_ifd0(d), exif_u16(d, exif_ifd0(d), le), 0, Map::empty());
    }
}

} // verus!

verus! {

/// Reading a map after setting `key` gives the value just set, and every
/// other key keeps its value: what `ExifMap::get` reads after `ExifMap::insert`.
pub proof fn law_exif_map_read_after_write(
    m: Map<Seq<char>, Seq<char>>,
    key: Seq<char>,
    value: Seq<char>,
    other: Seq<char>,
)
    requires
        other != key,
    ensures
        m.insert(key, value).contains_key(key),
        m.insert(key, value)[key] == value,
        m.insert(key, value).contains_key(other) == m.contains_key(other),
        m.contains_key(other) ==> m.insert(key, value)[other] == m[other],
{
}

/// The EXIF tag numbers and the names they are reported under: 0x010F
/// `Make`, 0x0110 `Model`, 0x0131 `Software`, 0x0132 `DateTime`, 0x8298
/// `Copyright`; no other tag is reported.
pub proof fn law_exif_tag_numbers(tag: int)
    ensures
        exif_tag_name(0x010f) == Some("Make"@),
        exif_tag_name(0x0110) == Some("Model"@),
        exif_tag_name(0x0131) == Some("Software"@),
        exif_tag_name(0x0132) == Some("DateTime"@),
        exif_tag_name(0x8298) == Some("Copyright"@),
        tag != 0x010f && tag != 0x0110 && tag != 0x0131 && tag != 0x0132 && tag != 0x8298
            ==> exif_tag_name(tag) is None,
{
}

/// A block whose IFD0 holds one entry, with its value inside the block,
/// reports exactly that entry, under the EXIF name of its tag: `Make`,
/// `Model`, `Software`, `DateTime` or `Copyright` for the tags 0x010F,
/// 0x0110, 0x0131, 0x0132, 0x8298, and nothing for any other tag.
pub proof fn law_exif_one_entry(d: Seq<u8>)
    requires
        d.len() >= 8,
        exif_ifd0(d) + 14 <= d.len(),
        exif_u16(d, exif_ifd0(d), exif_little_endian(d)) == 1,
        exif_u32(d, exif_ifd0(d) + 10, exif_little_endian(d)) + 8 < d.len(),
    ensures
        ({
            let le = exif_little_endian(d);
            let tag = exif_u16(d, exif_ifd0(d) + 2, le);
            let text = exif_text(d, exif_u32(d, exif_ifd0(d) + 10, le));
            &&& tag == 0x010f ==> exif_fields(d) == Map::<Seq<char>, Seq<char>>::empty().insert(
                "Make"@,
                text,
            )
            &&& tag == 0x0110 ==> exif_fields(d) == Map::<Seq<char>, Seq<char>>::empty().insert(
                "Model"@,
                text,
            )
            &&& tag == 0x0131 ==> exif_fields(d) == Map::<Seq<char>, Seq<char>>::empty().insert(
                "Software"@,
                text,
            )
            &&& tag == 0x0132 ==> exif_fields(d) == Map::<Seq<char>, Seq<char>>::empty().insert(
                "DateTime"@,
                text,
            )
            &&& tag == 0x8298 ==> exif_fields(d) == Map::<Seq<char>, Seq<char>>::empty().insert(
                "Copyright"@,
                text,
            )
            &&& (tag != 0x010f && tag != 0x0110 && tag != 0x0131 && tag != 0x0132 && tag != 0x8298)
                ==> exif_fields(d) == Map::<Seq<char>, Seq<char>>::empty()
        }),
{
    let le = exif_little_endian(d);
    let base = exif_ifd0(d);
    let m1 = exif_entry(d, le, base + 2, Map::empty());
    assert(exif_scan(d, le, base, 1, 1, m1) == m1);
    assert(exif_scan(d, le, base, 1, 0, Map::empty()) == m1);
}

} // verus!
