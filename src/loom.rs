//! The loom and the address resolver: the one place where a reference taken
//! from a tagged word becomes a position in the arena.
use vstd::prelude::*;

verus! {

/// Clears the two tag bits of a word, leaving its loom reference.
pub const NOUN_ADDR_MASK: u32 = 0x3fff_ffff;

/// Loom reference of a tagged word: the word with its two tag bits cleared.
///
/// References count 32-bit words from the arena base, so the box of a noun
/// starts at byte address `base + 4 * ref_of(noun)`.
pub open spec fn ref_of(noun: u32) -> nat {
    (noun & NOUN_ADDR_MASK) as nat
}

/// Resolves a noun's reference to the index, in words from the arena base, of
/// the first word of its box.
pub fn loom_addr(noun: u32) -> (r: usize)
    ensures
        r as nat == ref_of(noun),
        r < 0x4000_0000,
{
    assert(noun & 0x3fff_ffff < 0x4000_0000) by (bit_vector);
    (noun & NOUN_ADDR_MASK) as usize
}

/// Absolute byte address of a noun's box, for an arena that starts at byte
/// address `base`.
pub fn loom_byte_addr(base: u64, noun: u32) -> (r: u64)
    requires
        base + 4 * 0x4000_0000 <= u64::MAX,
    ensures
        r == base + 4 * ref_of(noun),
{
    let i = loom_addr(noun);
    base + 4 * (i as u64)
}

/// The loom: the arena's words, from its base on.
pub struct Loom<'a> {
    pub words: &'a [u32],
}

impl<'a> Loom<'a> {
    pub fn new(words: &'a [u32]) -> (r: Loom<'a>)
        ensures
            r.words@ == words@,
    {
        Loom { words }
    }

    /// Whether the `k` words of the box that `noun` refers to lie in the loom.
    pub open spec fn box_fits(&self, noun: u32, k: nat) -> bool {
        ref_of(noun) + k <= self.words@.len()
    }

    /// Word `k` of the box that `noun` refers to.
    pub open spec fn box_word(&self, noun: u32, k: nat) -> u32 {
        self.words@[ref_of(noun) + k as int]
    }

    /// Reads word `k` of the box that `noun` refers to, if it lies in the loom.
    pub fn read(&self, noun: u32, k: usize) -> (r: Option<u32>)
        requires
            k < 0x1_0000_0000,
        ensures
            r == (if self.box_fits(noun, k as nat + 1) {
                Some(self.box_word(noun, k as nat))
            } else {
                None::<u32>
            }),
    {
        let i = loom_addr(noun);
        if k < self.words.len() && i < self.words.len() - k {
            Some(self.words[i + k])
        } else {
            None
        }
    }
}

} // verus!
