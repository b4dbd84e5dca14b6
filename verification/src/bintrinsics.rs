//! A bounds-checked, length-capped view over a byte buffer.

use vstd::prelude::*;

verus! {

/// Upper bound on the length of a [`Slice32`], `i32::MAX` bytes.
pub const SIZE_LIMIT: u32 = 0x7fff_ffff;

/// The little-endian unsigned 32-bit value stored in the four bytes of `s`
/// starting at index `i`.
pub open spec fn le_word_at(s: Seq<u8>, i: int) -> int
    recommends
        0 <= i,
        i + 4 <= s.len(),
{
    s[i] + s[i + 1] * 0x100 + s[i + 2] * 0x1_0000 + s[i + 3] * 0x100_0000
}

/// The index of the first zero byte of `s` at or after index `i`, if any.
pub open spec fn first_zero_from(s: Seq<u8>, i: int) -> Option<int>
    decreases s.len() - i,
{
    if i < 0 || i >= s.len() {
        None
    } else if s[i] == 0 {
        Some(i)
    } else {
        first_zero_from(s, i + 1)
    }
}

/// A thin wrapper around a byte slice, providing fallible, copying, 32-bit
/// access operations. The underlying slice is no larger than `i32::MAX` bytes,
/// so every valid offset fits comfortably in a `u32`.
#[derive(Clone, Copy)]
pub struct Slice32<'a> {
    bytes: &'a [u8],
}

impl<'a> View for Slice32<'a> {
    type V = Seq<u8>;

    closed spec fn view(&self) -> Seq<u8> {
        self.bytes@
    }
}

/// A found first zero is in range, is a zero, and is the first one.
pub proof fn lemma_first_zero_from_range(s: Seq<u8>, i: int, z: int)
    requires
        first_zero_from(s, i) == Some(z),
    ensures
        i <= z < s.len(),
        s[z] == 0,
        forall|j: int| i <= j < z ==> s[j] != 0,
    decreases s.len() - i,
{
    if !(i < 0 || i >= s.len()) && s[i] != 0 {
        lemma_first_zero_from_range(s, i + 1, z);
    }
}

impl<'a> Slice32<'a> {
    #[verifier::type_invariant]
    spec fn size_capped(self) -> bool {
        self.bytes@.len() <= SIZE_LIMIT
    }

    /// Constructs a new `Slice32`, if the slice's length is within range.
    pub fn new(src: &'a [u8]) -> (r: Option<Slice32<'a>>)
        ensures
            src@.len() <= SIZE_LIMIT ==> (r matches Some(s) && s@ == src@),
            src@.len() > SIZE_LIMIT ==> r is None,
    {
        if src.len() <= SIZE_LIMIT as usize {
            Some(Slice32 { bytes: src })
        } else {
            None
        }
    }

    /// Returns the length of the slice, which never exceeds [`SIZE_LIMIT`].
    pub fn len(&self) -> (r: u32)
        ensures
            r == self@.len(),
            r <= SIZE_LIMIT,
    {
        proof {
            use_type_invariant(self);
        }
        self.bytes.len() as u32
    }

    /// Returns `true` if `self` is an empty slice.
    pub fn is_empty(&self) -> (r: bool)
        ensures
            r == (self@.len() == 0),
    {
        self.bytes.is_empty()
    }

    /// Reads a byte at the given index.
    pub fn read_byte(&self, idx: u32) -> (r: Option<u8>)
        ensures
            idx < self@.len() ==> r == Some(self@[idx as int]),
            idx >= self@.len() ==> r is None,
    {
        proof {
            use_type_invariant(self);
        }
        if idx < self.bytes.len() as u32 {
            Some(self.bytes[idx as usize])
        } else {
            None
        }
    }

    /// Reads the word at the given index as a little-endian unsigned 32-bit
    /// integer. This read does _not_ need to be 4-byte aligned.
    pub fn read_word(&self, idx: u32) -> (r: Option<u32>)
        ensures
            idx + 4 <= self@.len() ==> (r matches Some(w) && w == le_word_at(self@, idx as int)),
            idx + 4 > self@.len() ==> r is None,
    {
        proof {
            use_type_invariant(self);
        }
        if idx <= SIZE_LIMIT - 4 && idx + 4 <= self.bytes.len() as u32 {
            let b0 = self.bytes[idx as usize] as u32;
            let b1 = self.bytes[(idx + 1) as usize] as u32;
            let b2 = self.bytes[(idx + 2) as usize] as u32;
            let b3 = self.bytes[(idx + 3) as usize] as u32;
            Some(b0 + b1 * 0x100 + b2 * 0x1_0000 + b3 * 0x100_0000)
        } else {
            None
        }
    }

    /// Subslices `self` to the range `[start, end)`.
    ///
    /// Returns `None` if the requested range is not in range.
    pub fn subslice(&self, start: u32, end: u32) -> (r: Option<Slice32<'a>>)
        ensures
            start <= end && end <= self@.len() ==> (r matches Some(s) && s@ == self@.subrange(
                start as int,
                end as int,
            )),
            !(start <= end && end <= self@.len()) ==> r is None,
    {
        proof {
            use_type_invariant(self);
        }
        if start <= end && end <= self.bytes.len() as u32 {
            Some(Slice32 { bytes: vstd::slice::slice_subrange(self.bytes, start as usize, end as usize) })
        } else {
            None
        }
    }

    /// Subslices `self` by removing `new_start` bytes from the front.
    pub fn subslice_from(&self, new_start: u32) -> (r: Option<Slice32<'a>>)
        ensures
            new_start <= self@.len() ==> (r matches Some(s) && s@ == self@.subrange(
                new_start as int,
                self@.len() as int,
            )),
            new_start > self@.len() ==> r is None,
    {
        let end = self.len();
        self.subslice(new_start, end)
    }

    /// Returns the first byte in the slice, if it isn't empty.
    pub fn first(&self) -> (r: Option<u8>)
        ensures
            self@.len() > 0 ==> r == Some(self@[0]),
            self@.len() == 0 ==> r is None,
    {
        self.read_byte(0)
    }

    /// Splits the slice at the first byte.
    pub fn split_first(&self) -> (r: Option<(u8, Slice32<'a>)>)
        ensures
            self@.len() > 0 ==> (r matches Some((f, rem)) && f == self@[0] && rem@
                == self@.subrange(1, self@.len() as int)),
            self@.len() == 0 ==> r is None,
    {
        match self.first() {
            Some(f) => {
                let end = self.len();
                match self.subslice(1, end) {
                    Some(rem) => Some((f, rem)),
                    None => None,
                }
            },
            None => None,
        }
    }

    /// Interprets the start of `self` as the first byte of a C-string and
    /// returns the view up to (excluding) the zero terminator.
    ///
    /// Returns `None` if no terminator is found before the view ends.
    pub fn cstr(&self) -> (r: Option<Slice32<'a>>)
        ensures
            first_zero_from(self@, 0) matches Some(n) ==> (r matches Some(s) && s@
                == self@.subrange(0, n)),
            first_zero_from(self@, 0) is None ==> r is None,
    {
        proof {
            use_type_invariant(self);
        }
        let mut n: u32 = 0;
        loop
            invariant
                self.size_capped(),
                n <= self@.len(),
                first_zero_from(self@, 0) == first_zero_from(self@, n as int),
            decreases self@.len() - n,
        {
            match self.read_byte(n) {
                None => {
                    return None;
                },
                Some(b) => {
                    if b == 0 {
                        return self.subslice(0, n);
                    }
                },
            }
            n = n + 1;
        }
    }

    /// Returns the underlying bytes of the view.
    pub fn as_slice(&self) -> (r: &'a [u8])
        ensures
            r@ == self@,
    {
        self.bytes
    }
}

} // verus!
