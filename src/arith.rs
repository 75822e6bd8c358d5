//! Atom values and addition: the direct fast path, the shared-zero short
//! circuit, and the general path through GMP.
use vstd::prelude::*;
use crate::loom::Loom;
use crate::noun::{
    Atom, LoomNoun, buffer_fits, buffer_spec, is_cell_word, is_direct_word, is_indirect_word,
    noun_fits,
};

verus! {

/// Value of bytes read most significant first.
pub open spec fn be_value(s: Seq<u8>) -> nat
    decreases s.len(),
{
    if s.len() == 0 {
        0
    } else {
        be_value(s.drop_last()) * 256 + s.last() as nat
    }
}

/// The bytes of `s` in the opposite order.
pub open spec fn rev(s: Seq<u8>) -> Seq<u8> {
    Seq::new(s.len(), |i: int| s[s.len() - 1 - i])
}

/// Value of bytes read least significant first.
pub open spec fn le_value(s: Seq<u8>) -> nat {
    be_value(rev(s))
}

/// The value of the atom word `w` in `loom`: the word itself when direct, the
/// value of its buffer when indirect.
pub open spec fn atom_value(loom: Loom, w: u32) -> nat {
    if is_direct_word(w) {
        w as nat
    } else {
        le_value(buffer_spec(loom, w))
    }
}

/// The least significant first encoding of a boxed value holds no high zero
/// byte.
pub open spec fn minimal_le(s: Seq<u8>) -> bool {
    s.len() > 0 && s.last() != 0
}

/// Reversing bytes twice gives them back, so reading a reversed buffer in one
/// order gives its value in the other.
pub proof fn lemma_rev_rev(s: Seq<u8>)
    ensures
        rev(rev(s)) == s,
        le_value(rev(s)) == be_value(s),
        be_value(rev(s)) == le_value(s),
{
    assert(rev(rev(s)) =~= s);
}

proof fn lemma_be_value_push(s: Seq<u8>, i: int)
    requires
        0 <= i < s.len(),
    ensures
        be_value(s.subrange(0, i + 1)) == be_value(s.subrange(0, i)) * 256 + s[i],
{
    assert(s.subrange(0, i + 1).drop_last() =~= s.subrange(0, i));
}

/// The bytes of `x`, most significant first.
fn be_bytes_u32(x: u32) -> (r: Vec<u8>)
    ensures
        be_value(r@) == x,
        r@.len() == 4,
        r@[0] == (x >> 24) as u8,
{
    let b0: u32 = x >> 24;
    let q1: u32 = x >> 16;
    let q2: u32 = x >> 8;
    assert(b0 == x / 0x100_0000 && q1 == x / 0x1_0000 && q2 == x / 0x100 && b0 < 256) by (bit_vector)
        requires
            b0 == x >> 24,
            q1 == x >> 16,
            q2 == x >> 8,
    ;
    let r = vec![b0 as u8, (q1 % 256) as u8, (q2 % 256) as u8, (x % 256) as u8];
    proof {
        let s = r@;
        let s1 = s.drop_last().drop_last().drop_last();
        assert(s1.len() == 1 && s1.last() == b0);
        assert(s1.drop_last() =~= Seq::<u8>::empty());
        assert(be_value(Seq::<u8>::empty()) == 0);
        assert(be_value(s1) == b0);
        assert(be_value(s.drop_last().drop_last()) == b0 * 256 + q1 % 256);
        assert(be_value(s.drop_last()) == (b0 * 256 + q1 % 256) * 256 + q2 % 256);
    }
    r
}

/// The bytes of `s` in the opposite order.
fn reversed(s: &[u8]) -> (r: Vec<u8>)
    ensures
        r@ == rev(s@),
{
    let n: usize = s.len();
    let mut r: Vec<u8> = Vec::new();
    let mut i: usize = 0;
    while i < n
        invariant
            n == s@.len(),
            i <= n,
            r@ =~= rev(s@).subrange(0, i as int),
        decreases n - i,
    {
        r.push(s[n - 1 - i]);
        i = i + 1;
    }
    assert(r@ =~= rev(s@));
    r
}

/// The value of bytes read most significant first, or 2^32 where it is
/// larger.
fn capped_be_value(s: &[u8]) -> (r: u64)
    ensures
        r == (if be_value(s@) < 0x1_0000_0000 {
            be_value(s@)
        } else {
            0x1_0000_0000
        }),
{
    let mut v: u64 = 0;
    let mut i: usize = 0;
    while i < s.len()
        invariant
            i <= s@.len(),
            v == (if be_value(s@.subrange(0, i as int)) < 0x1_0000_0000 {
                be_value(s@.subrange(0, i as int))
            } else {
                0x1_0000_0000
            }),
        decreases s@.len() - i,
    {
        proof {
            lemma_be_value_push(s@, i as int);
        }
        let w: u64 = v * 256 + s[i] as u64;
        v = if w < 0x1_0000_0000 {
            w
        } else {
            0x1_0000_0000
        };
        i = i + 1;
    }
    assert(s@.subrange(0, s@.len() as int) =~= s@);
    v
}

/// Relies on rust-gmp's `Mpz`: `From<&[u8]>` reads the bytes most significant
/// first, `+` adds, and `From<&Mpz> for Vec<u8>` writes the magnitude most
/// significant first in `mpz_sizeinbase(_, 2)` bits rounded up to bytes, so
/// with no high zero byte, and zero as one zero byte.
#[verifier::external_body]
fn mpz_add_bytes(a: &[u8], b: &[u8]) -> (r: Vec<u8>)
    ensures
        be_value(r@) == be_value(a@) + be_value(b@),
        r@.len() > 0,
        r@.len() > 1 ==> r@[0] != 0,
{
    let sum = gmp::mpz::Mpz::from(a) + gmp::mpz::Mpz::from(b);
    Vec::<u8>::from(&sum)
}

/// The outcome of an addition, for the runtime to carry out.
#[derive(Debug, PartialEq, Eq)]
pub enum Sum {
    /// The sum as a direct atom word.
    Direct(u32),
    /// An operand, returned as the sum: the caller takes one more reference
    /// to its box.
    Shared(Atom),
    /// A new boxed atom to allocate from these bytes, least significant first.
    Fresh(Vec<u8>),
}

/// The value that an outcome stands for.
pub open spec fn sum_value(loom: Loom, s: Sum) -> nat {
    match s {
        Sum::Direct(w) => w as nat,
        Sum::Shared(a) => atom_value(loom, a.word()),
        Sum::Fresh(v) => le_value(v@),
    }
}

/// The outcome is the minimal representation of `total`: a direct atom when it
/// fits in 31 bits, otherwise a new boxed atom with no high zero byte.
pub open spec fn represents(s: Sum, total: nat) -> bool {
    match s {
        Sum::Direct(w) => w as nat == total && total < 0x8000_0000,
        Sum::Shared(_) => false,
        Sum::Fresh(v) => le_value(v@) == total && 0x8000_0000 <= total && minimal_le(v@),
    }
}

/// What `a.add(b)` returns in `loom` for atom words `a` and `b`: the shared
/// operand exactly when a direct zero meets an indirect atom, otherwise the
/// minimal representation of the sum.
pub open spec fn is_sum(loom: Loom, a: u32, b: u32, r: Sum) -> bool {
    let total = atom_value(loom, a) + atom_value(loom, b);
    &&& sum_value(loom, r) == total
    &&& (a == 0 && is_indirect_word(b)) ==> (r matches Sum::Shared(x) && x.word() == b)
    &&& (b == 0 && is_indirect_word(a)) ==> (r matches Sum::Shared(x) && x.word() == a)
    &&& !(a == 0 && is_indirect_word(b)) && !(b == 0 && is_indirect_word(a)) ==> represents(
        r,
        total,
    )
}

/// The words whose reference count an outcome raises by one: a shared
/// operand's.
pub open spec fn gains(s: Sum) -> Seq<u32> {
    match s {
        Sum::Shared(a) => seq![a.word()],
        _ => Seq::empty(),
    }
}

/// Two direct atoms whose sum fits in 31 bits add to the direct atom of that
/// sum: nothing boxed is made or shared.
pub proof fn lemma_direct_sum(loom: Loom, a: u32, b: u32, r: Sum)
    requires
        is_direct_word(a),
        is_direct_word(b),
        a + b < 0x8000_0000,
        is_sum(loom, a, b, r),
    ensures
        r == Sum::Direct((a + b) as u32),
        gains(r) == Seq::<u32>::empty(),
{
}

/// Two direct atoms whose sum passes 31 bits add to a new boxed atom holding
/// exactly that sum, in its minimal form, which no direct atom could hold.
pub proof fn lemma_direct_overflow(loom: Loom, a: u32, b: u32, r: Sum)
    requires
        is_direct_word(a),
        is_direct_word(b),
        a + b >= 0x8000_0000,
        is_sum(loom, a, b, r),
    ensures
        r matches Sum::Fresh(v) && le_value(v@) == a + b && minimal_le(v@) && le_value(v@)
            >= 0x8000_0000,
{
}

/// A direct zero added to an indirect atom gives back that atom, with one more
/// reference to it and no new box.
pub proof fn lemma_zero_shares(loom: Loom, x: u32, r: Sum)
    requires
        is_indirect_word(x),
        is_sum(loom, 0, x, r) || is_sum(loom, x, 0, r),
    ensures
        r matches Sum::Shared(y) && y.word() == x,
        sum_value(loom, r) == atom_value(loom, x),
        gains(r) == seq![x],
{
}

/// Two boxed atoms add to the value of their sum, in its minimal form, with
/// no operand shared.
pub proof fn lemma_boxed_sum(loom: Loom, a: u32, b: u32, r: Sum)
    requires
        is_indirect_word(a),
        is_indirect_word(b),
        is_sum(loom, a, b, r),
    ensures
        sum_value(loom, r) == atom_value(loom, a) + atom_value(loom, b),
        represents(r, atom_value(loom, a) + atom_value(loom, b)),
        gains(r) == Seq::<u32>::empty(),
{
}

impl Atom {
    /// Bytes of this atom's value, most significant first.
    fn be_bytes(&self, loom: &Loom) -> (r: Vec<u8>)
        requires
            noun_fits(*loom, self.word()),
        ensures
            be_value(r@) == atom_value(*loom, self.word()),
    {
        let _ = self.as_noun();
        match self.as_direct() {
            Some(d) => be_bytes_u32(d),
            None => {
                let le = self.to_slice(loom).unwrap();
                proof {
                    lemma_rev_rev(le@);
                }
                reversed(le.as_slice())
            },
        }
    }

    /// Adds two atoms.
    ///
    /// Two direct atoms add without touching the loom; a sum past 31 bits
    /// becomes a new boxed atom. A direct zero added to an indirect atom gives
    /// back that atom, shared. Anything else adds through GMP, and a result
    /// that fits in 31 bits comes back direct.
    pub fn add(self, other: Atom, loom: &Loom) -> (r: Sum)
        requires
            noun_fits(*loom, self.word()),
            noun_fits(*loom, other.word()),
        ensures
            is_sum(*loom, self.word(), other.word(), r),
    {
        let sn = self.as_noun();
        let on = other.as_noun();
        match (self.as_direct(), other.as_direct()) {
            (Some(a), Some(b)) => {
                let sum: u32 = a + b;
                if sum < 0x8000_0000 {
                    Sum::Direct(sum)
                } else {
                    let be = be_bytes_u32(sum);
                    let le = reversed(be.as_slice());
                    proof {
                        lemma_rev_rev(be@);
                        let top: u8 = be@[0];
                        assert(top != 0) by (bit_vector)
                            requires
                                top == (sum >> 24) as u8,
                                sum >= 0x8000_0000,
                        ;
                        assert(rev(be@).last() == top);
                    }
                    Sum::Fresh(le)
                }
            },
            _ => {
                if sn.0 == 0 {
                    Sum::Shared(other)
                } else if on.0 == 0 {
                    Sum::Shared(self)
                } else {
                    let x = self.be_bytes(loom);
                    let y = other.be_bytes(loom);
                    let t = mpz_add_bytes(x.as_slice(), y.as_slice());
                    let v = capped_be_value(t.as_slice());
                    if v < 0x8000_0000 {
                        Sum::Direct(v as u32)
                    } else {
                        proof {
                            lemma_rev_rev(t@);
                            if t@.len() == 1 {
                                assert(t@.drop_last() =~= Seq::<u8>::empty());
                                assert(be_value(Seq::<u8>::empty()) == 0);
                                assert(be_value(t@) < 256);
                            }
                            assert(rev(t@).last() == t@[0]);
                        }
                        Sum::Fresh(reversed(t.as_slice()))
                    }
                }
            },
        }
    }
}

} // verus!
