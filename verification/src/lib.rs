//! Data extraction from an Acorn-era RISC OS ROM image.
//!
//! The image is treated as an indexed byte array: a bounds-checked view
//! ([`Slice32`]) supports fallible byte/word reads and slicing, a search and a
//! displacement heuristic ([`RomHeuristics`]) locate the kernel and the module
//! chain, and a chain walker ([`ModuleChain`]) yields the built-in modules one
//! by one. The starting point for loading and interpreting a ROM image is the
//! [`Rom`] struct.

pub mod bintrinsics;
pub mod heuristics;

pub use bintrinsics::Slice32;
pub use heuristics::KnownRiscOsVersion;
pub use heuristics::RomHeuristics;

use vstd::prelude::*;

use bintrinsics::first_zero_from;
use bintrinsics::le_word_at;
use heuristics::find_offset_to_spec;
use heuristics::find_spec;
use heuristics::opt_as_u32;

verus! {

/// Relies on std::io::Error as an opaque error value carried through
/// load failures; nothing is assumed about it.
#[verifier::external_type_specification]
#[verifier::external_body]
pub struct ExIoError(std::io::Error);

/// Reasons why loading a ROM image file is refused.
#[derive(Debug)]
pub enum RomLoadError {
    /// The underlying device failed on an I/O operation.
    Io(std::io::Error),
    /// The ROM is an invalid size.
    RomInvalidSize,
}

/// Reasons why a loaded ROM image cannot be understood.
#[derive(Debug, PartialEq, Eq, Structural)]
pub enum RomDecodeError {
    /// UtilityModule, the start of the ROM module chain, was not found.
    UtilityModuleNotFound,
    /// The module chain is broken, suggesting the ROM image is corrupted.
    ModuleChainBroken,
    /// A C-string was not terminated.
    UnterminatedCstr,
}

/// A memoized offset lookup: not yet attempted, resolved to an offset, or
/// confirmed absent. The third state distinguishes "we looked and found
/// nothing" from "we have not looked yet", so a confirmed failure is never
/// searched again.
#[derive(Clone, Copy, Debug, PartialEq, Eq, Structural)]
enum CachedOffset {
    Unresolved,
    Resolved(u32),
    Absent,
}

/// The 12 MiB ceiling of the Archimedes memory map: the size limit for a ROM
/// image.
pub const ROM_LIMIT: u32 = 0xc0_0000;

/// The anchor string marking the kernel: `MODULE#` followed by a zero byte.
pub open spec fn kernel_anchor() -> Seq<u8> {
    seq![0x4du8, 0x4fu8, 0x44u8, 0x55u8, 0x4cu8, 0x45u8, 0x23u8, 0x00u8]
}

/// The anchor string marking the module chain: `UtilityModule` followed by a
/// zero byte.
pub open spec fn chain_anchor() -> Seq<u8> {
    seq![
        0x55u8,
        0x74u8,
        0x69u8,
        0x6cu8,
        0x69u8,
        0x74u8,
        0x79u8,
        0x4du8,
        0x6fu8,
        0x64u8,
        0x75u8,
        0x6cu8,
        0x65u8,
        0x00u8,
    ]
}

/// Where the kernel starts in image `h`: 8 bytes past the first occurrence of
/// the kernel anchor, provided that stays strictly within the image.
pub open spec fn kernel_start_spec(h: Seq<u8>) -> Option<int> {
    match find_spec(h, kernel_anchor()) {
        Some(t) => if t + 8 < h.len() {
            Some(t + 8)
        } else {
            None
        },
        None => None,
    }
}

/// Where the module chain's first length-prefix word starts in image `h`: the
/// offset-correlation heuristic run with the chain anchor and adjustment 0x10,
/// backed up 4 bytes to the length word; a result at offset 0 counts as
/// absent.
pub open spec fn module_chain_start_spec(h: Seq<u8>) -> Option<int> {
    match find_offset_to_spec(h, chain_anchor(), 0x10) {
        Some(q) => if q >= 5 {
            Some(q - 4)
        } else {
            None
        },
        None => None,
    }
}

spec fn cache_ok(c: CachedOffset, target: Option<int>) -> bool {
    match c {
        CachedOffset::Unresolved => true,
        CachedOffset::Resolved(v) => target == Some(v as int) && v > 0,
        CachedOffset::Absent => target is None,
    }
}

/// A wrapper round a RISC OS ROM image.
///
/// A RISC OS ROM image is considered to have the following parts:
///
/// - Entry point and bootloader;
/// - Kernel;
/// - Chain (linked list) of built-in modules, starting with `UtilityModule`;
/// - Padding (and unknown trailing data in the last 12 bytes).
///
/// The image bytes never change once loaded; the kernel and module-chain
/// offsets are computed on demand and memoized.
pub struct Rom {
    data: Vec<u8>,
    kernel_start: CachedOffset,
    module_chain_start: CachedOffset,
}

impl View for Rom {
    type V = Seq<u8>;

    closed spec fn view(&self) -> Seq<u8> {
        self.data@
    }
}

impl Rom {
    #[verifier::type_invariant]
    spec fn inv(self) -> bool {
        &&& self.data@.len() <= ROM_LIMIT
        &&& self.data@.len() % 4 == 0
        &&& cache_ok(self.kernel_start, kernel_start_spec(self.data@))
        &&& cache_ok(self.module_chain_start, module_chain_start_spec(self.data@))
    }

    /// Whether `len` is an acceptable ROM image size: a multiple of 4 bytes,
    /// no larger than the ceiling.
    pub open spec fn spec_size_ok(len: nat) -> bool {
        len <= ROM_LIMIT && len % 4 == 0
    }

    /// Tests the ROM size constraint. A caller loading from a file checks the
    /// file's length with this before reading any bytes.
    pub fn size_ok(len: u64) -> (r: bool)
        ensures
            r == Self::spec_size_ok(len as nat),
    {
        len <= ROM_LIMIT as u64 && len % 4 == 0
    }

    /// Creates a `Rom` from some existing memory allocation containing a ROM
    /// image.
    pub fn from_mem(mem: Vec<u8>) -> (r: Result<Rom, RomLoadError>)
        ensures
            Self::spec_size_ok(mem@.len()) ==> (r matches Ok(rom) && rom@ == mem@),
            !Self::spec_size_ok(mem@.len()) ==> r matches Err(RomLoadError::RomInvalidSize),
    {
        if mem.len() > ROM_LIMIT as usize || mem.len() % 4 != 0 {
            return Err(RomLoadError::RomInvalidSize);
        }
        Ok(
            Rom {
                data: mem,
                kernel_start: CachedOffset::Unresolved,
                module_chain_start: CachedOffset::Unresolved,
            },
        )
    }

    /// Returns a bounds-checked view of the ROM image.
    pub fn as_slice32(&self) -> (r: Slice32)
        ensures
            r@ == self@,
    {
        proof {
            use_type_invariant(self);
        }
        Slice32::new(self.data.as_slice()).unwrap()
    }

    /// Returns the raw bytes of the ROM image.
    pub fn as_slice(&self) -> (r: &[u8])
        ensures
            r@ == self@,
    {
        self.data.as_slice()
    }

    /// Returns the offset of the kernel in the ROM image, or `None` if it
    /// wasn't found. The answer is memoized: once resolved or confirmed
    /// absent, later calls are answered from the cache.
    pub fn kernel_start(&mut self) -> (r: Option<u32>)
        ensures
            final(self)@ == old(self)@,
            r == opt_as_u32(kernel_start_spec(old(self)@)),
    {
        proof {
            use_type_invariant(&*self);
        }
        match self.kernel_start {
            CachedOffset::Resolved(v) => Some(v),
            CachedOffset::Absent => None,
            CachedOffset::Unresolved => {
                let rom = self.as_slice32();
                let len = rom.len();
                let anchor = kernel_anchor_bytes();
                let needle = Slice32::new(anchor.as_slice()).unwrap();
                let result = match rom.find(&needle) {
                    Some(p) => {
                        proof {
                            let k = find_spec(self@, kernel_anchor())->Some_0;
                            heuristics::lemma_find_spec_first_match(self@, kernel_anchor(), k);
                        }
                        if p + 8 < len {
                            Some(p + 8)
                        } else {
                            None
                        }
                    },
                    None => None,
                };
                self.kernel_start = match result {
                    Some(v) => CachedOffset::Resolved(v),
                    None => CachedOffset::Absent,
                };
                result
            },
        }
    }

    /// Returns the offset of the entry into the module chain (its first
    /// length-prefix word), or `None` if `UtilityModule` wasn't found. The
    /// answer is memoized like [`Self::kernel_start`].
    pub fn module_chain_start(&mut self) -> (r: Option<u32>)
        ensures
            final(self)@ == old(self)@,
            r == opt_as_u32(module_chain_start_spec(old(self)@)),
    {
        proof {
            use_type_invariant(&*self);
        }
        match self.module_chain_start {
            CachedOffset::Resolved(v) => Some(v),
            CachedOffset::Absent => None,
            CachedOffset::Unresolved => {
                let rom = self.as_slice32();
                let anchor = chain_anchor_bytes();
                let needle = Slice32::new(anchor.as_slice()).unwrap();
                let result = match rom.find_offset_to(&needle, 0x10) {
                    Some(q) => {
                        proof {
                            heuristics::lemma_find_offset_to_spec_range(self@, chain_anchor(), 0x10);
                        }
                        if q >= 5 {
                            Some(q - 4)
                        } else {
                            None
                        }
                    },
                    None => None,
                };
                self.module_chain_start = match result {
                    Some(v) => CachedOffset::Resolved(v),
                    None => CachedOffset::Absent,
                };
                result
            },
        }
    }

    /// Returns a walker over all modules in the ROM chain, seeded at the
    /// resolved chain start (or already exhausted when there is none).
    pub fn module_chain(&mut self) -> (r: ModuleChain)
        ensures
            final(self)@ == old(self)@,
            r.rom_bytes() == old(self)@,
            r.position() == match module_chain_start_spec(old(self)@) {
                Some(q) => q as u32,
                None => u32::MAX,
            },
    {
        let start = self.module_chain_start();
        ModuleChain::new(self.as_slice32(), start)
    }
}

fn kernel_anchor_bytes() -> (r: Vec<u8>)
    ensures
        r@ == kernel_anchor(),
{
    let mut v: Vec<u8> = Vec::new();
    v.push(0x4d);
    v.push(0x4f);
    v.push(0x44);
    v.push(0x55);
    v.push(0x4c);
    v.push(0x45);
    v.push(0x23);
    v.push(0x00);
    proof {
        assert(v@ =~= kernel_anchor());
    }
    v
}

fn chain_anchor_bytes() -> (r: Vec<u8>)
    ensures
        r@ == chain_anchor(),
{
    let mut v: Vec<u8> = Vec::new();
    v.push(0x55);
    v.push(0x74);
    v.push(0x69);
    v.push(0x6c);
    v.push(0x69);
    v.push(0x74);
    v.push(0x79);
    v.push(0x4d);
    v.push(0x6f);
    v.push(0x64);
    v.push(0x75);
    v.push(0x6c);
    v.push(0x65);
    v.push(0x00);
    proof {
        assert(v@ =~= chain_anchor());
    }
    v
}

/// Whether one step of the chain walk at cursor `pos` of image `h` yields a
/// module record: the length word is readable, covers at least its own 4-byte
/// header, and the whole record stays within the image.
pub open spec fn chain_yields(h: Seq<u8>, pos: u32) -> bool {
    &&& pos + 4 <= h.len()
    &&& le_word_at(h, pos as int) >= 4
    &&& pos + le_word_at(h, pos as int) <= h.len()
}

/// The cursor after one step of the chain walk from `pos` on image `h`: the
/// cursor advances by the length word, or goes out of range (`u32::MAX`) on a
/// terminator or when the advance would leave the image.
pub open spec fn chain_advance(h: Seq<u8>, pos: u32) -> u32 {
    if pos + 4 > h.len() {
        pos
    } else if le_word_at(h, pos as int) == 0 {
        u32::MAX
    } else if pos + le_word_at(h, pos as int) < h.len() {
        (pos + le_word_at(h, pos as int)) as u32
    } else {
        u32::MAX
    }
}

/// An iterator-style walker over each module in the ROM image. It is finite,
/// forward-only and not restartable; a fresh traversal requires a new walker.
pub struct ModuleChain<'a> {
    rom: Slice32<'a>,
    pos: u32,
}

impl<'a> ModuleChain<'a> {
    /// The ROM bytes the walker traverses.
    pub closed spec fn rom_bytes(&self) -> Seq<u8> {
        self.rom@
    }

    /// The cursor: the absolute offset of the next length-prefix word, or
    /// `u32::MAX` once exhausted.
    pub closed spec fn position(&self) -> u32 {
        self.pos
    }

    fn new(rom: Slice32<'a>, start: Option<u32>) -> (r: ModuleChain<'a>)
        ensures
            r.rom_bytes() == rom@,
            r.position() == match start {
                Some(v) => v,
                None => u32::MAX,
            },
    {
        ModuleChain {
            rom,
            pos: match start {
                Some(v) => v,
                None => u32::MAX,
            },
        }
    }

    /// Steps over the module record under the cursor and yields its view.
    /// Yields nothing when the length word is unreadable (the chain left the
    /// image), when it is zero (the chain terminator), or when the record's
    /// range does not fit (a truncated final record silently ends the
    /// enumeration).
    pub fn next(&mut self) -> (r: Option<Module<'a>>)
        ensures
            final(self).rom_bytes() == old(self).rom_bytes(),
            final(self).position() == chain_advance(old(self).rom_bytes(), old(self).position()),
            r is Some <==> chain_yields(old(self).rom_bytes(), old(self).position()),
            r matches Some(m) ==> {
                let h = old(self).rom_bytes();
                let pos = old(self).position();
                &&& m@ == h.subrange(pos + 4, pos + le_word_at(h, pos as int))
                &&& m.module_offset() == pos + 4
            },
    {
        let rom_len = self.rom.len();
        let pos = self.pos;
        let module_len = match self.rom.read_word(pos) {
            Some(l) => l,
            None => {
                return None;
            },
        };
        if module_len == 0 {
            self.pos = u32::MAX;
            return None;
        }
        self.pos = if module_len <= u32::MAX - pos && pos + module_len < rom_len {
            pos + module_len
        } else {
            u32::MAX
        };
        // the length word includes itself and the 4-byte header it sits atop
        let module_start = pos + 4;
        let end = if module_len <= u32::MAX - pos {
            pos + module_len
        } else {
            u32::MAX
        };
        match self.rom.subslice(module_start, end) {
            Some(bytes) => Some(Module { bytes, offset: module_start }),
            None => None,
        }
    }
}

/// What [`Module::title`] extracts from a module's bytes `b`: `b` holds a
/// 32-bit offset at byte 0x10, relative to the module's own start; the title
/// is the C-string found there, up to (excluding) its zero terminator.
pub open spec fn title_spec(b: Seq<u8>) -> Option<Seq<u8>> {
    if b.len() < 0x14 {
        None
    } else {
        let o = le_word_at(b, 0x10);
        if o > b.len() {
            None
        } else {
            match first_zero_from(b, o) {
                Some(z) => Some(b.subrange(o, z)),
                None => None,
            }
        }
    }
}

/// Metadata for a single module in the ROM image: a view over its bytes, and
/// the absolute offset of those bytes. Its view is the module's byte content.
pub struct Module<'a> {
    bytes: Slice32<'a>,
    offset: u32,
}

impl<'a> View for Module<'a> {
    type V = Seq<u8>;

    closed spec fn view(&self) -> Seq<u8> {
        self.bytes@
    }
}

impl<'a> Module<'a> {
    /// The absolute offset of the module's bytes within the ROM image.
    pub closed spec fn module_offset(&self) -> u32 {
        self.offset
    }

    /// Returns a view over the C-string of this module's title.
    ///
    /// Both a missing terminator and an out-of-range title offset collapse
    /// into [`RomDecodeError::UnterminatedCstr`].
    pub fn title(&self) -> (r: Result<Slice32<'a>, RomDecodeError>)
        ensures
            title_spec(self@) matches Some(t) ==> (r matches Ok(s) && s@ == t),
            title_spec(self@) is None ==> r == Err::<Slice32<'a>, RomDecodeError>(
                RomDecodeError::UnterminatedCstr,
            ),
    {
        let o = match self.bytes.read_word(0x10) {
            Some(o) => o,
            None => {
                return Err(RomDecodeError::UnterminatedCstr);
            },
        };
        let shifted = match self.bytes.subslice_from(o) {
            Some(s) => s,
            None => {
                return Err(RomDecodeError::UnterminatedCstr);
            },
        };
        proof {
            lemma_first_zero_shift(self@, o as int, 0);
        }
        match shifted.cstr() {
            Some(t) => {
                proof {
                    let z = first_zero_from(self@, o as int)->Some_0;
                    bintrinsics::lemma_first_zero_from_range(self@, o as int, z);
                    assert(self@.subrange(o as int, self@.len() as int).subrange(0, z - o)
                        =~= self@.subrange(o as int, z));
                }
                Ok(t)
            },
            None => Err(RomDecodeError::UnterminatedCstr),
        }
    }

    /// Returns a view over the entire module contents.
    pub fn data(&self) -> (r: Slice32<'a>)
        ensures
            r@ == self@,
    {
        self.bytes
    }

    /// Returns the offset of this module within the ROM image.
    pub fn offset(&self) -> (r: u32)
        ensures
            r == self.module_offset(),
    {
        self.offset
    }
}

proof fn lemma_first_zero_shift(b: Seq<u8>, o: int, i: int)
    requires
        0 <= o <= b.len(),
        0 <= i,
    ensures
        first_zero_from(b.subrange(o, b.len() as int), i) == match first_zero_from(b, o + i) {
            Some(z) => Some(z - o),
            None => None::<int>,
        },
    decreases b.len() - o - i,
{
    if o + i < b.len() && b[o + i] != 0 {
        lemma_first_zero_shift(b, o, i + 1);
    }
}

} // verus!
