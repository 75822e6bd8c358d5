//! Tagged words: telling direct atoms, indirect atoms and cells apart, reading
//! a cell's box, and walking a noun along an axis.
use vstd::prelude::*;
use crate::loom::{Loom, loom_addr, ref_of};

verus! {

/// Bit 31 clear: a direct atom, whose value is the word itself.
pub open spec fn is_direct_word(w: u32) -> bool {
    w < 0x8000_0000
}

/// Tag `10`: a reference to a boxed atom.
pub open spec fn is_indirect_word(w: u32) -> bool {
    0x8000_0000 <= w < 0xc000_0000
}

/// Tag `11`: a reference to a boxed cell.
pub open spec fn is_cell_word(w: u32) -> bool {
    0xc000_0000 <= w
}

pub proof fn lemma_tag_bits(w: u32)
    ensures
        (w >> 31 == 0) == is_direct_word(w),
        (w >> 30 == 3) == is_cell_word(w),
        (w >> 30 == 2) == is_indirect_word(w),
{
    assert((w >> 31 == 0) == (w < 0x8000_0000)) by (bit_vector);
    assert((w >> 30 == 3) == (0xc000_0000 <= w)) by (bit_vector);
    assert((w >> 30 == 2) == (0x8000_0000 <= w && w < 0xc000_0000)) by (bit_vector);
}

/// A noun as it is stored: one tagged word.
#[derive(Clone, Copy, PartialEq, Eq, Structural, Debug)]
pub struct LoomNoun(pub u32);

/// A word known to be an atom, direct or indirect.
#[derive(Clone, Copy, PartialEq, Eq, Structural, Debug)]
pub struct Atom(u32);

/// The contents of a cell's box: its identity hash, head and tail.
#[derive(Clone, Copy, PartialEq, Eq, Structural, Debug)]
pub struct Cell {
    pub mug: u32,
    pub hed: LoomNoun,
    pub tel: LoomNoun,
}

/// What a tagged word denotes: a direct atom with its value, or an indirect
/// atom or a cell with its loom reference.
#[derive(Clone, Copy, PartialEq, Eq, Structural, Debug)]
pub enum Noun {
    Direct(u32),
    Indirect(u32),
    Cell(u32),
}

pub open spec fn classify_spec(w: u32) -> Noun {
    if is_direct_word(w) {
        Noun::Direct(w)
    } else if is_indirect_word(w) {
        Noun::Indirect(ref_of(w) as u32)
    } else {
        Noun::Cell(ref_of(w) as u32)
    }
}

/// Number of data words that an indirect atom of `len` bytes occupies.
pub open spec fn data_words(len: nat) -> nat {
    (len + 3) / 4
}

/// Byte length of the indirect atom that `w` refers to: word 1 of its box.
pub open spec fn buffer_len(loom: Loom, w: u32) -> nat {
    loom.box_word(w, 1) as nat
}

/// Whether `w` is an indirect atom whose box (identity hash, byte length, then
/// the bytes packed least significant first into words) lies in the loom.
pub open spec fn buffer_fits(loom: Loom, w: u32) -> bool {
    &&& is_indirect_word(w)
    &&& loom.box_fits(w, 2)
    &&& loom.box_fits(w, 2 + data_words(buffer_len(loom, w)))
}

/// Byte `k` of an indirect atom's buffer.
pub open spec fn buffer_byte(loom: Loom, w: u32, k: nat) -> u8 {
    ((loom.box_word(w, 2 + k / 4) >> (8 * (k % 4)) as u32) & 0xff) as u8
}

/// The bytes of an indirect atom's buffer, least significant first.
pub open spec fn buffer_spec(loom: Loom, w: u32) -> Seq<u8> {
    Seq::new(buffer_len(loom, w), |k: int| buffer_byte(loom, w, k as nat))
}

/// Whether the loom holds all that `w` refers to at its top level: nothing for
/// a direct atom, the whole buffer of an indirect atom, the box of a cell.
pub open spec fn noun_fits(loom: Loom, w: u32) -> bool {
    if is_direct_word(w) {
        true
    } else if is_indirect_word(w) {
        buffer_fits(loom, w)
    } else {
        loom.box_fits(w, 3)
    }
}

/// The cell that `w` denotes in `loom`, if `w` is a cell whose box lies in the
/// loom.
pub open spec fn cell_spec(loom: Loom, w: u32) -> Option<Cell> {
    if is_cell_word(w) && loom.box_fits(w, 3) {
        Some(
            Cell {
                mug: loom.box_word(w, 0),
                hed: LoomNoun(loom.box_word(w, 1)),
                tel: LoomNoun(loom.box_word(w, 2)),
            },
        )
    } else {
        None
    }
}

/// The sub-noun of `root` at `axis`: axis 1 is `root`, and axis `2a` and
/// `2a + 1` are the head and tail of the cell at axis `a`.
pub open spec fn axis_spec(loom: Loom, root: u32, axis: nat) -> Option<u32>
    decreases axis,
{
    if axis <= 1 {
        Some(root)
    } else {
        match axis_spec(loom, root, axis / 2) {
            Some(p) => match cell_spec(loom, p) {
                Some(c) => Some(
                    if axis % 2 == 0 {
                        c.hed.0
                    } else {
                        c.tel.0
                    },
                ),
                None => None,
            },
            None => None,
        }
    }
}

proof fn lemma_shift_step(x: u32, j: u32)
    requires
        j < 31,
    ensures
        (x >> j) / 2 == x >> ((j + 1) as u32),
        ((x >> j) % 2 == 1) == (x & (1u32 << j) != 0),
{
    assert((x >> j) / 2 == x >> ((j + 1) as u32)) by (bit_vector)
        requires
            j < 31,
    ;
    assert(((x >> j) % 2 == 1) == (x & (1u32 << j) != 0)) by (bit_vector)
        requires
            j < 31,
    ;
}

/// A walk that has run off the tree stays off it: once the path to an axis's
/// ancestor fails, the path to the axis fails too.
proof fn lemma_axis_off_tree(loom: Loom, root: u32, axis: u32, k: u32)
    requires
        k < 32,
        axis_spec(loom, root, (axis >> k) as nat) is None,
    ensures
        axis_spec(loom, root, axis as nat) is None,
    decreases k,
{
    if k == 0 {
        assert(axis >> 0u32 == axis) by (bit_vector);
    } else {
        let j = (k - 1) as u32;
        lemma_shift_step(axis, j);
        assert(axis_spec(loom, root, (axis >> j) as nat) is None);
        lemma_axis_off_tree(loom, root, axis, j);
    }
}

impl Atom {
    #[verifier::type_invariant]
    spec fn inv(self) -> bool {
        !is_cell_word(self.0)
    }

    /// The tagged word of this atom.
    pub closed spec fn word(self) -> u32 {
        self.0
    }

    pub fn as_noun(&self) -> (r: LoomNoun)
        ensures
            r.0 == self.word(),
            !is_cell_word(r.0),
    {
        proof {
            use_type_invariant(self);
        }
        LoomNoun(self.0)
    }

    /// The buffer of an indirect atom, least significant byte first, if it
    /// lies in the loom.
    pub fn to_slice(&self, loom: &Loom) -> (r: Option<Vec<u8>>)
        ensures
            r.is_some() == buffer_fits(*loom, self.word()),
            r matches Some(v) ==> v@ == buffer_spec(*loom, self.word()),
    {
        let n = LoomNoun(self.0);
        if !n.fits(loom) || n.is_direct() {
            return None;
        }
        proof {
            use_type_invariant(self);
        }
        let len: u32 = match loom.read(self.0, 1) {
            Some(l) => l,
            None => {
                return None;
            },
        };
        let start: usize = loom_addr(self.0) + 2;
        let wl: usize = loom.words.len();
        let mut v: Vec<u8> = Vec::new();
        let mut k: u32 = 0;
        while k < len
            invariant
                buffer_fits(*loom, self.0),
                len as nat == buffer_len(*loom, self.0),
                start as nat == crate::loom::ref_of(self.0) + 2,
                k <= len,
                wl == loom.words@.len(),
                v@ =~= buffer_spec(*loom, self.0).subrange(0, k as int),
            decreases len - k,
        {
            proof {
                assert(k / 4 < data_words(len as nat));
                assert(start + k / 4 < loom.words@.len());
            }
            let word: u32 = loom.words[start + (k / 4) as usize];
            let m: u32 = (word >> (8 * (k % 4))) & 0xff;
            assert(m < 256) by (bit_vector)
                requires
                    m == (word >> (8 * (k % 4))) & 0xff,
            ;
            let b: u8 = m as u8;
            v.push(b);
            k = k + 1;
        }
        Some(v)
    }

    /// The value of a direct atom.
    pub fn as_direct(&self) -> (r: Option<u32>)
        ensures
            r == (if is_direct_word(self.word()) {
                Some(self.word())
            } else {
                None::<u32>
            }),
    {
        proof {
            lemma_tag_bits(self.0);
        }
        if self.0 >> 31 == 0 {
            Some(self.0)
        } else {
            None
        }
    }
}

impl LoomNoun {
    pub fn is_direct(self) -> (r: bool)
        ensures
            r == is_direct_word(self.0),
    {
        proof {
            lemma_tag_bits(self.0);
        }
        self.0 >> 31 == 0
    }

    pub fn is_atom(self) -> (r: bool)
        ensures
            r == !is_cell_word(self.0),
    {
        proof {
            lemma_tag_bits(self.0);
        }
        self.is_direct() || self.0 >> 30 == 2
    }

    pub fn classify(self) -> (r: Noun)
        ensures
            r == classify_spec(self.0),
    {
        proof {
            lemma_tag_bits(self.0);
        }
        if self.0 >> 31 == 0 {
            Noun::Direct(self.0)
        } else if self.0 >> 30 == 2 {
            Noun::Indirect(loom_addr(self.0) as u32)
        } else {
            Noun::Cell(loom_addr(self.0) as u32)
        }
    }

    /// Whether the loom holds what this noun refers to at its top level.
    pub fn fits(&self, loom: &Loom) -> (r: bool)
        ensures
            r == noun_fits(*loom, self.0),
    {
        proof {
            lemma_tag_bits(self.0);
        }
        if self.0 >> 31 == 0 {
            true
        } else if self.0 >> 30 == 2 {
            match loom.read(self.0, 1) {
                Some(len) => {
                    let nw: u64 = (len as u64 + 3) / 4;
                    let i: u64 = loom_addr(self.0) as u64;
                    (loom.words.len() as u64) >= i + 2 && (loom.words.len() as u64) - (i + 2) >= nw
                },
                None => false,
            }
        } else {
            loom.read(self.0, 2).is_some()
        }
    }

    /// This noun as an atom, unless it is a cell.
    pub fn as_atom(&self) -> (r: Option<Atom>)
        ensures
            r.is_some() == !is_cell_word(self.0),
            r matches Some(a) ==> a.word() == self.0,
    {
        proof {
            lemma_tag_bits(self.0);
        }
        if self.0 >> 30 != 3 {
            Some(Atom(self.0))
        } else {
            None
        }
    }

    /// Reads this noun's cell from the loom, unless it is an atom or its box
    /// lies outside the loom.
    pub fn as_cell(&self, loom: &Loom) -> (r: Option<Cell>)
        ensures
            r == cell_spec(*loom, self.0),
    {
        proof {
            lemma_tag_bits(self.0);
        }
        if self.0 >> 30 == 3 {
            match (loom.read(self.0, 0), loom.read(self.0, 1), loom.read(self.0, 2)) {
                (Some(mug), Some(hed), Some(tel)) => Some(
                    Cell { mug, hed: LoomNoun(hed), tel: LoomNoun(tel) },
                ),
                _ => None,
            }
        } else {
            None
        }
    }
    /// The sub-noun at `axis`, if every cell on the path to it lies in the
    /// loom; `None` where the path runs into an atom.
    pub fn axis(&self, loom: &Loom, axis: u32) -> (r: Option<LoomNoun>)
        requires
            axis > 0,
        ensures
            r == (match axis_spec(*loom, self.0, axis as nat) {
                Some(w) => Some(LoomNoun(w)),
                None => None::<LoomNoun>,
            }),
    {
        if axis == 1 {
            return Some(*self);
        }
        let lz: u32 = axis.leading_zeros();
        proof {
            broadcast use vstd::std_specs::bits::axiom_u32_leading_zeros;
            assert(lz < 32);
            let t = (31 - lz) as u32;
            assert((axis >> t) & 1u32 != 0u32);
            assert(axis >> ((32 - lz) as u32) == 0);
            assert(t < 32 && (axis >> t) & 1u32 != 0u32 && axis >> ((t + 1) as u32) == 0
                ==> axis >> t == 1) by (bit_vector);
        }
        // Below the most significant set bit, each bit from the top down picks
        // the head (0) or the tail (1).
        let msb: u32 = 32 - lz;
        let mut ret: u32 = self.0;
        let mut k: u32 = msb - 1;
        while k > 0
            invariant
                k < msb <= 32,
                axis >> k >= 1,
                axis_spec(*loom, self.0, (axis >> k) as nat) == Some(ret),
            decreases k,
        {
            k = k - 1;
            proof {
                lemma_shift_step(axis, k);
                let a = (axis >> k) as nat;
                assert(a / 2 == (axis >> ((k + 1) as u32)) as nat);
                assert(a >= 2);
                assert(axis_spec(*loom, self.0, a) == match axis_spec(*loom, self.0, a / 2) {
                    Some(p) => match cell_spec(*loom, p) {
                        Some(c) => Some(if a % 2 == 0 { c.hed.0 } else { c.tel.0 }),
                        None => None,
                    },
                    None => None,
                });
            }
            match LoomNoun(ret).as_cell(loom) {
                Some(c) => {
                    if axis & (1 << k) == 0 {
                        ret = c.hed.0;
                    } else {
                        ret = c.tel.0;
                    }
                },
                None => {
                    proof {
                        lemma_axis_off_tree(*loom, self.0, axis, k);
                    }
                    return None;
                },
            }
        }
        assert(axis >> 0u32 == axis) by (bit_vector);
        Some(LoomNoun(ret))
    }
}

} // verus!
