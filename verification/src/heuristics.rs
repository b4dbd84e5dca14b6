//! Byte-pattern search and the offset-correlation heuristic used to discover
//! structures inside a ROM image, plus the known-version fingerprint.

use vstd::prelude::*;

use crate::bintrinsics::{le_word_at, Slice32};

verus! {

// ---------------------------------------------------------------------------
// Byte-pattern search
// ---------------------------------------------------------------------------

/// `n` occurs in `h` starting at offset `k`.
pub open spec fn is_match_at(h: Seq<u8>, n: Seq<u8>, k: int) -> bool {
    &&& 0 <= k
    &&& k + n.len() <= h.len()
    &&& h.subrange(k, k + n.len() as int) == n
}

/// The offset of the first occurrence of `n` in `h` at or after offset `i`.
/// An empty needle is never found, by policy.
pub open spec fn first_match_from(h: Seq<u8>, n: Seq<u8>, i: int) -> Option<int>
    decreases h.len() - i,
{
    if i < 0 || n.len() == 0 || i + n.len() > h.len() {
        None
    } else if h.subrange(i, i + n.len() as int) == n {
        Some(i)
    } else {
        first_match_from(h, n, i + 1)
    }
}

/// What the byte-pattern search returns: the offset of the first occurrence
/// of `n` in `h`, where an empty needle or an empty haystack is never found.
pub open spec fn find_spec(h: Seq<u8>, n: Seq<u8>) -> Option<int> {
    first_match_from(h, n, 0)
}

/// An empty needle or an empty haystack is never found.
pub proof fn lemma_find_spec_empty(h: Seq<u8>, n: Seq<u8>)
    requires
        n.len() == 0 || h.len() == 0,
    ensures
        find_spec(h, n) is None,
{
}

proof fn lemma_first_match_from_is_match(h: Seq<u8>, n: Seq<u8>, i: int, k: int)
    requires
        first_match_from(h, n, i) == Some(k),
    ensures
        is_match_at(h, n, k),
        i <= k,
        forall|j: int| i <= j < k ==> !is_match_at(h, n, j),
    decreases h.len() - i,
{
    if !(i < 0 || n.len() == 0 || i + n.len() > h.len()) && h.subrange(i, i + n.len() as int)
        != n {
        lemma_first_match_from_is_match(h, n, i + 1, k);
    }
}

/// A found offset is a real occurrence, and the first one: the needle occurs
/// there and at no smaller offset.
pub proof fn lemma_find_spec_first_match(h: Seq<u8>, n: Seq<u8>, k: int)
    requires
        find_spec(h, n) == Some(k),
    ensures
        is_match_at(h, n, k),
        forall|j: int| 0 <= j < k ==> !is_match_at(h, n, j),
{
    lemma_first_match_from_is_match(h, n, 0, k);
}

/// When the search of a non-empty needle reports no occurrence, there is none.
pub proof fn lemma_find_spec_none(h: Seq<u8>, n: Seq<u8>)
    requires
        find_spec(h, n) is None,
        n.len() > 0,
    ensures
        forall|j: int| !is_match_at(h, n, j),
{
    lemma_first_match_from_none(h, n, 0);
    assert forall|j: int| !is_match_at(h, n, j) by {
        if j >= 0 {
            assert(!is_match_at(h, n, j));
        }
    }
}

proof fn lemma_first_match_from_none(h: Seq<u8>, n: Seq<u8>, i: int)
    requires
        first_match_from(h, n, i) is None,
        n.len() > 0,
        i >= 0,
    ensures
        forall|j: int| j >= i ==> !is_match_at(h, n, j),
    decreases h.len() - i,
{
    if i + n.len() > h.len() {
        // every j >= i is also out of range
    } else {
        lemma_first_match_from_none(h, n, i + 1);
    }
}

// ---------------------------------------------------------------------------
// Offset-correlation heuristic
// ---------------------------------------------------------------------------

/// The word at offset `p` of `h` is a displacement that, added to the field's
/// own offset less the fixed `adjust`, resolves to `target`.
pub open spec fn is_disp_match(h: Seq<u8>, target: int, adjust: int, p: int) -> bool {
    &&& p >= adjust
    &&& (p - adjust) + le_word_at(h, p) == target
}

/// Walks word positions backward from `p` (stepping 4 bytes down) looking for
/// a displacement that resolves to `target`; the closest-preceding match wins.
pub open spec fn scan_disp(h: Seq<u8>, target: int, adjust: int, p: int) -> Option<int>
    decreases p + 4,
{
    if p < 0 {
        None
    } else if is_disp_match(h, target, adjust, p) {
        Some(p - adjust)
    } else {
        scan_disp(h, target, adjust, p - 4)
    }
}

/// What the offset-correlation heuristic returns: the needle is located, and
/// the last complete word before it starts a backward scan for a displacement
/// field resolving to the needle's offset.
pub open spec fn find_offset_to_spec(h: Seq<u8>, n: Seq<u8>, adjust: int) -> Option<int> {
    if h.len() < 4 {
        None
    } else {
        match find_spec(h, n) {
            None => None,
            Some(target) => {
                let words_end = target - target % 4;
                if words_end < 4 {
                    None
                } else {
                    scan_disp(h, target, adjust, words_end - 4)
                }
            },
        }
    }
}

proof fn lemma_scan_disp_result_range(h: Seq<u8>, target: int, adjust: int, p: int)
    requires
        scan_disp(h, target, adjust, p) is Some,
    ensures
        0 <= scan_disp(h, target, adjust, p)->Some_0 <= p - adjust,
    decreases p + 4,
{
    if p >= 0 && !is_disp_match(h, target, adjust, p) {
        lemma_scan_disp_result_range(h, target, adjust, p - 4);
    }
}

/// A located displacement field lies strictly inside the image, before the
/// needle's first occurrence.
pub proof fn lemma_find_offset_to_spec_range(h: Seq<u8>, n: Seq<u8>, adjust: int)
    requires
        find_offset_to_spec(h, n, adjust) is Some,
        adjust >= 0,
    ensures
        0 <= find_offset_to_spec(h, n, adjust)->Some_0 < h.len(),
{
    let target = find_spec(h, n)->Some_0;
    lemma_find_spec_first_match(h, n, target);
    let w = target - target % 4;
    lemma_scan_disp_result_range(h, target, adjust, w - 4);
}

proof fn lemma_scan_disp_below_adjust(h: Seq<u8>, target: int, adjust: int, p: int)
    requires
        p < adjust,
    ensures
        scan_disp(h, target, adjust, p) is None,
    decreases p + 4,
{
    if p >= 0 {
        lemma_scan_disp_below_adjust(h, target, adjust, p - 4);
    }
}

proof fn lemma_scan_disp_reaches(h: Seq<u8>, target: int, adjust: int, p: int, q: int)
    requires
        0 <= p <= q,
        (q - p) % 4 == 0,
        is_disp_match(h, target, adjust, p),
        forall|r: int|
            p < r <= q && (r - p) % 4 == 0 ==> !is_disp_match(h, target, adjust, r),
    ensures
        scan_disp(h, target, adjust, q) == Some(p - adjust),
    decreases q - p,
{
    if q != p {
        assert(q - p >= 4) by {
            assert(q - p == 4 * ((q - p) / 4));
        }
        assert(!is_disp_match(h, target, adjust, q));
        assert(scan_disp(h, target, adjust, q) == scan_disp(h, target, adjust, q - 4));
        lemma_scan_disp_reaches(h, target, adjust, p, q - 4);
    }
}

/// Law: the heuristic locates an encoded displacement field. If the needle's
/// first occurrence in `h` starts at `target`, the complete word at offset `p`
/// before it holds the displacement `target - (p - adjust)`, and no complete
/// word between `p` and the needle resolves to `target` the same way, then
/// the heuristic returns `p - adjust`.
pub proof fn lemma_find_offset_to_spec_locates(
    h: Seq<u8>,
    n: Seq<u8>,
    adjust: int,
    target: int,
    p: int,
)
    requires
        find_spec(h, n) == Some(target),
        h.len() >= 4,
        0 <= p,
        p % 4 == 0,
        p + 4 <= target - target % 4,
        p >= adjust,
        le_word_at(h, p) == target - (p - adjust),
        forall|q: int|
            p < q <= target - target % 4 - 4 && q % 4 == 0 ==> !is_disp_match(
                h,
                target,
                adjust,
                q,
            ),
    ensures
        find_offset_to_spec(h, n, adjust) == Some(p - adjust),
{
    let w = target - target % 4;
    assert(is_disp_match(h, target, adjust, p));
    assert forall|r: int|
        p < r <= w - 4 && (r - p) % 4 == 0 implies !is_disp_match(h, target, adjust, r) by {
        assert(r % 4 == 0) by {
            assert(r == (r - p) + p);
        }
    }
    assert((w - 4 - p) % 4 == 0) by {
        assert(w % 4 == 0);
    }
    lemma_scan_disp_reaches(h, target, adjust, p, w - 4);
}

// ---------------------------------------------------------------------------
// Word cursor
// ---------------------------------------------------------------------------

/// A cursor over the complete 4-byte words of a byte view, moving one word at
/// a time. Positions outside the view are representable; reading at them just
/// yields nothing.
pub struct WordCursor<'a> {
    bytes: Slice32<'a>,
    cursor_rel: u32,
}

impl<'a> WordCursor<'a> {
    /// The words the cursor ranges over: the given bytes truncated down to a
    /// whole number of 4-byte words.
    pub closed spec fn words(&self) -> Seq<u8> {
        self.bytes@
    }

    /// The cursor's current byte offset within [`Self::words`].
    pub closed spec fn cursor(&self) -> u32 {
        self.cursor_rel
    }

    /// Truncates `bytes` down to a whole number of words.
    fn words_only(bytes: &Slice32<'a>) -> (r: Slice32<'a>)
        ensures
            r@ == bytes@.subrange(0, bytes@.len() - bytes@.len() % 4),
    {
        let len = bytes.len();
        bytes.subslice(0, len - len % 4).unwrap()
    }

    /// Positions a cursor at the first word of `bytes`.
    pub fn new_start(bytes: &Slice32<'a>) -> (r: WordCursor<'a>)
        ensures
            r.words() == bytes@.subrange(0, bytes@.len() - bytes@.len() % 4),
            r.cursor() == 0,
    {
        WordCursor { bytes: Self::words_only(bytes), cursor_rel: 0 }
    }

    /// Positions a cursor at the last complete word of `bytes` (or at offset 0
    /// if there is none).
    pub fn new_end(bytes: &Slice32<'a>) -> (r: WordCursor<'a>)
        ensures
            r.words() == bytes@.subrange(0, bytes@.len() - bytes@.len() % 4),
            r.cursor() == if r.words().len() >= 4 {
                r.words().len() - 4
            } else {
                0
            },
    {
        let words = Self::words_only(bytes);
        let len = words.len();
        let start = if len >= 4 {
            len - 4
        } else {
            0
        };
        WordCursor { bytes: words, cursor_rel: start }
    }

    /// Reads the word under the cursor, if the cursor is in range.
    pub fn current(&self) -> (r: Option<u32>)
        ensures
            self.cursor() + 4 <= self.words().len() ==> (r matches Some(w) && w == le_word_at(
                self.words(),
                self.cursor() as int,
            )),
            self.cursor() + 4 > self.words().len() ==> r is None,
    {
        self.bytes.read_word(self.cursor_rel)
    }

    /// Moves the cursor one word forward; the offset saturates, so a cursor
    /// pushed past the end stays out of range.
    pub fn move_next(&mut self)
        ensures
            final(self).words() == old(self).words(),
            final(self).cursor() == if old(self).cursor() <= u32::MAX - 4 {
                old(self).cursor() + 4
            } else {
                u32::MAX as int
            },
    {
        self.cursor_rel = if self.cursor_rel <= u32::MAX - 4 {
            self.cursor_rel + 4
        } else {
            u32::MAX
        };
    }

    /// Moves the cursor one word backward; the offset wraps around, so a
    /// cursor moved before offset 0 goes out of range.
    pub fn move_prev(&mut self)
        ensures
            final(self).words() == old(self).words(),
            final(self).cursor() == if old(self).cursor() >= 4 {
                old(self).cursor() - 4
            } else {
                old(self).cursor() + 0xffff_fffc
            },
    {
        self.cursor_rel = if self.cursor_rel >= 4 {
            self.cursor_rel - 4
        } else {
            self.cursor_rel + 0xffff_fffc
        };
    }

    /// Returns the cursor's current byte offset.
    pub fn pos(&self) -> (r: u32)
        ensures
            r == self.cursor(),
    {
        self.cursor_rel
    }
}

// ---------------------------------------------------------------------------
// Known-version fingerprint
// ---------------------------------------------------------------------------

/// The standard CRC-32 checksum (polynomial 0x04C11DB7, reflected) of a byte
/// sequence, as the outside checksum routine computes it.
pub uninterp spec fn crc32_of(data: Seq<u8>) -> u32;

/// Relies on crc_any::CRCu32: `crc32()` constructs the standard CRC-32
/// (polynomial 0x04C11DB7 reflected, init and final xor 0xFFFFFFFF), and
/// `digest` over the whole buffer followed by `get_crc` yields its checksum,
/// a function of the digested bytes alone.
#[verifier::external_body]
fn crc32_checksum(data: &[u8]) -> (r: u32)
    ensures
        r == crc32_of(data@),
{
    let mut hasher = crc_any::CRCu32::crc32();
    hasher.digest(data);
    hasher.get_crc()
}

/// The fingerprint test: the catalogued internal-name bytes appear exactly at
/// their catalogued position, and the whole image's CRC-32 is the catalogued
/// checksum.
pub open spec fn fingerprint_matches(name: Seq<u8>, pos: int, expected_crc: u32, rom: Seq<u8>) -> bool {
    &&& pos + name.len() <= 0xffff_ffff
    &&& pos + name.len() <= rom.len()
    &&& rom.subrange(pos, pos + name.len() as int) == name
    &&& crc32_of(rom) == expected_crc
}

/// A catalog entry identifying one known OS build: a human-readable name, the
/// exact internal-name bytes, the offset where they must appear, and the
/// expected whole-image CRC-32.
pub struct KnownRiscOsVersion {
    name_high_level: &'static str,
    name_internal: &'static [u8],
    name_internal_pos: u32,
    crc32: u32,
}

impl KnownRiscOsVersion {
    #[verifier::type_invariant]
    spec fn name_fits(self) -> bool {
        self.name_internal@.len() <= 0xffff_ffff
    }

    /// The entry's human-readable name.
    pub closed spec fn spec_name(&self) -> Seq<char> {
        self.name_high_level@
    }

    /// The internal-name bytes the image must contain.
    pub closed spec fn internal_name(&self) -> Seq<u8> {
        self.name_internal@
    }

    /// The offset at which the internal name must appear.
    pub closed spec fn internal_name_pos(&self) -> u32 {
        self.name_internal_pos
    }

    /// The expected whole-image checksum.
    pub closed spec fn expected_crc(&self) -> u32 {
        self.crc32
    }

    /// Builds a catalog entry.
    pub fn new(
        name_high_level: &'static str,
        name_internal: &'static [u8],
        name_internal_pos: u32,
        crc32: u32,
    ) -> (r: KnownRiscOsVersion)
        requires
            name_internal@.len() <= 0xffff_ffff,
        ensures
            r.spec_name() == name_high_level@,
            r.internal_name() == name_internal@,
            r.internal_name_pos() == name_internal_pos,
            r.expected_crc() == crc32,
    {
        KnownRiscOsVersion { name_high_level, name_internal, name_internal_pos, crc32 }
    }

    /// Returns the entry's human-readable name.
    pub fn name(&self) -> (r: &'static str)
        ensures
            r@ == self.spec_name(),
    {
        self.name_high_level
    }

    /// Tests whether `rom_data` is this catalogued image: its internal-name
    /// bytes appear at the catalogued position and the whole-image CRC-32
    /// matches.
    pub fn matches(&self, rom_data: &[u8]) -> (r: bool)
        ensures
            r == fingerprint_matches(
                self.internal_name(),
                self.internal_name_pos() as int,
                self.expected_crc(),
                rom_data@,
            ),
    {
        proof {
            use_type_invariant(self);
        }
        let name_len = self.name_internal.len();
        let end64 = self.name_internal_pos as u64 + name_len as u64;
        if end64 > 0xffff_ffff {
            return false;
        }
        if end64 > rom_data.len() as u64 {
            return false;
        }
        let pos = self.name_internal_pos as usize;
        let mut i: usize = 0;
        while i < name_len
            invariant
                name_len == self.internal_name().len(),
                pos == self.internal_name_pos(),
                pos + name_len <= rom_data@.len(),
                pos + name_len <= 0xffff_ffff,
                0 <= i <= name_len,
                forall|q: int| 0 <= q < i ==> rom_data@[pos + q] == self.internal_name()[q],
            decreases name_len - i,
        {
            if rom_data[pos + i] != self.name_internal[i] {
                proof {
                    let sr = rom_data@.subrange(pos as int, pos + name_len as int);
                    assert(sr[i as int] == rom_data@[pos + i]);
                }
                return false;
            }
            i = i + 1;
        }
        proof {
            assert(rom_data@.subrange(pos as int, pos + name_len as int) =~= self.internal_name());
        }
        crc32_checksum(rom_data) == self.crc32
    }
}

// ---------------------------------------------------------------------------
// The heuristics interface over a byte view
// ---------------------------------------------------------------------------

/// Conversion of the spec-level search results to the exec return type.
pub open spec fn opt_as_u32(o: Option<int>) -> Option<u32> {
    match o {
        None => None,
        Some(k) => Some(k as u32),
    }
}

/// Searches over a byte view that discover offsets inside a ROM image.
pub trait RomHeuristics {
    /// The bytes being searched.
    spec fn search_bytes(&self) -> Seq<u8>;

    /// Finds the first occurrence of `needle` in `self`, returning its
    /// 0-based offset; an empty needle or an empty haystack is never found.
    fn find(&self, needle: &Slice32) -> (r: Option<u32>)
        ensures
            r == opt_as_u32(find_spec(self.search_bytes(), needle@)),
    ;

    /// Locates the offset of a relative-displacement field: finds `needle`,
    /// then walks complete words backward from just before it until the word's
    /// value, added to the word's offset less the fixed `offset` adjustment,
    /// resolves to the needle's offset; returns the word's offset less the
    /// adjustment.
    fn find_offset_to(&self, needle: &Slice32, offset: u32) -> (r: Option<u32>)
        ensures
            r == opt_as_u32(find_offset_to_spec(self.search_bytes(), needle@, offset as int)),
    ;
}

/// Compares the bytes of `haystack` starting at `at` against all of `needle`.
fn matches_at(haystack: &Slice32, needle: &Slice32, at: u32) -> (r: bool)
    requires
        at + needle@.len() <= haystack@.len(),
    ensures
        r == is_match_at(haystack@, needle@, at as int),
{
    let hlen = haystack.len();
    let nlen = needle.len();
    let mut j: u32 = 0;
    while j < nlen
        invariant
            hlen == haystack@.len(),
            at + needle@.len() <= haystack@.len(),
            nlen == needle@.len(),
            0 <= j <= nlen,
            forall|q: int| 0 <= q < j ==> haystack@[at + q] == needle@[q],
        decreases nlen - j,
    {
        let hb = haystack.read_byte(at + j).unwrap();
        let nb = needle.read_byte(j).unwrap();
        if hb != nb {
            proof {
                let sr = haystack@.subrange(at as int, at + needle@.len() as int);
                assert(sr[j as int] == haystack@[at + j]);
            }
            return false;
        }
        j = j + 1;
    }
    proof {
        assert(haystack@.subrange(at as int, at + needle@.len() as int) =~= needle@);
    }
    true
}

impl<'a> RomHeuristics for Slice32<'a> {
    open spec fn search_bytes(&self) -> Seq<u8> {
        self@
    }

    fn find(&self, needle: &Slice32) -> (r: Option<u32>) {
        let hlen = self.len();
        let nlen = needle.len();
        if hlen == 0 || nlen == 0 || nlen > hlen {
            return None;
        }
        let mut i: u32 = 0;
        while i <= hlen - nlen
            invariant
                hlen == self@.len(),
                nlen == needle@.len(),
                0 < nlen <= hlen,
                i <= hlen - nlen + 1,
                find_spec(self@, needle@) == first_match_from(self@, needle@, i as int),
            decreases hlen - nlen - i + 1,
        {
            if matches_at(self, needle, i) {
                proof {
                    assert(first_match_from(self@, needle@, i as int) == Some(i as int));
                }
                return Some(i);
            }
            proof {
                assert(first_match_from(self@, needle@, i as int) == first_match_from(
                    self@,
                    needle@,
                    i + 1,
                ));
            }
            i = i + 1;
        }
        proof {
            assert(first_match_from(self@, needle@, i as int) is None);
        }
        None
    }

    fn find_offset_to(&self, needle: &Slice32, offset: u32) -> (r: Option<u32>) {
        let hlen = self.len();
        if hlen < 4 {
            return None;
        }
        let target = match self.find(needle) {
            Some(t) => t,
            None => {
                return None;
            },
        };
        proof {
            let k = find_spec(self@, needle@)->Some_0;
            lemma_find_spec_first_match(self@, needle@, k);
            assert(k == target as int);
        }
        let words_end = target - target % 4;
        if words_end < 4 {
            return None;
        }
        let mut p: u32 = words_end - 4;
        proof {
            assert(find_offset_to_spec(self@, needle@, offset as int) == scan_disp(
                self@,
                target as int,
                offset as int,
                p as int,
            ));
        }
        loop
            invariant
                hlen == self@.len(),
                target + needle@.len() <= hlen,
                needle@.len() > 0,
                words_end == target - target % 4,
                4 <= words_end <= hlen,
                p % 4 == 0,
                p + 4 <= words_end,
                find_offset_to_spec(self@, needle@, offset as int) == scan_disp(
                    self@,
                    target as int,
                    offset as int,
                    p as int,
                ),
            decreases p,
        {
            let v = self.read_word(p).unwrap();
            if p >= offset {
                let possible_start = p - offset;
                if v <= target && target - v == possible_start {
                    proof {
                        assert(is_disp_match(self@, target as int, offset as int, p as int));
                    }
                    return Some(possible_start);
                }
            } else {
                proof {
                    lemma_scan_disp_below_adjust(self@, target as int, offset as int, p as int);
                }
                return None;
            }
            proof {
                assert(!is_disp_match(self@, target as int, offset as int, p as int));
                assert(scan_disp(self@, target as int, offset as int, p as int) == scan_disp(
                    self@,
                    target as int,
                    offset as int,
                    p - 4,
                ));
            }
            if p < 4 {
                proof {
                    assert(scan_disp(self@, target as int, offset as int, p - 4) is None);
                }
                return None;
            }
            p = p - 4;
        }
    }
}

} // verus!
