//! Motes: short ASCII tags packed into a word, first character lowest.
use vstd::prelude::*;
use vstd::string::StringSliceAdditionalSpecFns;
use crate::arith::{be_value, le_value, rev};

verus! {

/// Why a text cannot be a mote.
#[derive(Clone, Copy, PartialEq, Eq, Structural, Debug)]
pub enum MoteError {
    /// More than four bytes.
    TooLong,
    /// A character outside 7-bit ASCII.
    NotAscii,
}

/// Whether every byte is 7-bit ASCII.
pub open spec fn all_ascii(s: Seq<u8>) -> bool {
    forall|i: int| 0 <= i < s.len() ==> s[i] < 128
}

/// What `expand_mote` gives for text with UTF-8 encoding `s`.
pub open spec fn mote_spec(s: Seq<u8>) -> Result<u32, MoteError> {
    if s.len() > 4 {
        Err(MoteError::TooLong)
    } else if !all_ascii(s) {
        Err(MoteError::NotAscii)
    } else {
        Ok(le_value(s) as u32)
    }
}

spec fn byte_bound(k: nat) -> nat
    decreases k,
{
    if k == 0 {
        1
    } else {
        256 * byte_bound((k - 1) as nat)
    }
}

proof fn lemma_byte_bound(k: nat)
    requires
        k <= 4,
    ensures
        byte_bound(k) <= 0x1_0000_0000,
        k < 4 ==> byte_bound(k) <= 0x100_0000,
{
    reveal_with_fuel(byte_bound, 5);
}

proof fn lemma_rev_suffix(s: Seq<u8>, i: int)
    requires
        0 < i <= s.len(),
    ensures
        be_value(rev(s.subrange(i - 1, s.len() as int))) == be_value(rev(
            s.subrange(i, s.len() as int),
        )) * 256 + s[i - 1],
{
    let a = rev(s.subrange(i - 1, s.len() as int));
    assert(a.drop_last() =~= rev(s.subrange(i, s.len() as int)));
}

/// Packs text of at most four ASCII characters into a word, the first
/// character in the lowest byte.
pub fn expand_mote(text: &str) -> (r: Result<u32, MoteError>)
    ensures
        r == mote_spec(text.spec_bytes()),
        r matches Ok(v) ==> v as nat == le_value(text.spec_bytes()),
{
    let b: &[u8] = text.as_bytes();
    let n: usize = b.len();
    if n > 4 {
        return Err(MoteError::TooLong);
    }
    let mut ret: u64 = 0;
    let mut bound: u64 = 1;
    let mut i: usize = n;
    assert(b@.subrange(n as int, n as int) =~= Seq::<u8>::empty());
    assert(rev(Seq::<u8>::empty()) =~= Seq::<u8>::empty());
    while i > 0
        invariant
            n == b@.len() <= 4,
            b@ == text.spec_bytes(),
            i <= n,
            bound == byte_bound((n - i) as nat),
            ret < bound,
            ret == le_value(b@.subrange(i as int, n as int)),
            forall|j: int| i <= j < n ==> b@[j] < 128,
        decreases i,
    {
        i = i - 1;
        if b[i] >= 128 {
            assert(!all_ascii(b@));
            return Err(MoteError::NotAscii);
        }
        proof {
            lemma_rev_suffix(b@, i + 1);
            lemma_byte_bound((n - i - 1) as nat);
        }
        ret = ret * 256 + b[i] as u64;
        bound = bound * 256;
        assert(bound == byte_bound((n - i) as nat));
    }
    assert(b@.subrange(0, n as int) =~= b@);
    proof {
        lemma_byte_bound(n as nat);
    }
    Ok(ret as u32)
}

} // verus!
