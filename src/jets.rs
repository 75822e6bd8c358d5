//! Jet entry points for addition, and the reference-count bridge they use.
use vstd::prelude::*;
use crate::arith::{is_sum, Sum};
use crate::loom::Loom;
use crate::noun::{axis_spec, is_cell_word, is_direct_word, noun_fits, Atom, LoomNoun};

verus! {

/// Axes of a gate's parts, by convention.
pub const U3X_BAT: u32 = 2;
pub const U3X_PAY: u32 = 3;
pub const U3X_SAM: u32 = 6;
pub const U3X_CON: u32 = 7;
pub const U3X_SAM_2: u32 = 12;
pub const U3X_SAM_3: u32 = 13;
pub const U3X_CON_2: u32 = 14;
pub const U3X_CON_3: u32 = 15;
pub const U3X_SAM_4: u32 = 24;
pub const U3X_SAM_5: u32 = 25;
pub const U3X_SAM_6: u32 = 26;
pub const U3X_SAM_7: u32 = 27;
pub const U3X_CON_SAM: u32 = 30;
pub const U3X_SAM_12: u32 = 52;
pub const U3X_SAM_13: u32 = 53;
pub const U3X_SAM_14: u32 = 54;
pub const U3X_SAM_15: u32 = 55;

/// The mote `exit`, which the runtime's bail takes for a shape mismatch.
pub const EXIT: u32 = 0x7469_7865;

/// Whether a noun has a reference count: direct atoms have none, so acquiring
/// or releasing one does nothing.
pub fn counted(n: LoomNoun) -> (r: bool)
    ensures
        r == !is_direct_word(n.0),
{
    !n.is_direct()
}

/// The words among `a` and `b`, in that order, whose reference count a
/// release drops.
pub open spec fn released(a: u32, b: u32) -> Seq<u32> {
    (if is_direct_word(a) {
        Seq::empty()
    } else {
        seq![a]
    }) + (if is_direct_word(b) {
        Seq::empty()
    } else {
        seq![b]
    })
}

/// The two operands of a gate, at the head and tail of its sample, when both
/// are atoms that the loom holds.
pub open spec fn sample_atoms(loom: Loom, cor: u32) -> Option<(u32, u32)> {
    match (axis_spec(loom, cor, U3X_SAM_2 as nat), axis_spec(loom, cor, U3X_SAM_3 as nat)) {
        (Some(a), Some(b)) => if !is_cell_word(a) && !is_cell_word(b) && noun_fits(loom, a)
            && noun_fits(loom, b) {
            Some((a, b))
        } else {
            None
        },
        _ => None,
    }
}

/// An addition whose operands the jet owned: the sum, and the operands whose
/// references the runtime must now release.
#[derive(Debug)]
pub struct Consumed {
    pub sum: Sum,
    pub release: Vec<u32>,
}

/// Adds two atoms.
pub fn u3qa_add(loom: &Loom, a: Atom, b: Atom) -> (r: Sum)
    requires
        noun_fits(*loom, a.word()),
        noun_fits(*loom, b.word()),
    ensures
        is_sum(*loom, a.word(), b.word(), r),
{
    a.add(b, loom)
}

/// Adds the head and tail of a gate's sample. Where either is missing, is a
/// cell, or lies outside the loom, gives `Err(EXIT)`: the runtime must bail.
pub fn u3wa_add(loom: &Loom, cor: LoomNoun) -> (r: Result<Sum, u32>)
    ensures
        r is Ok == sample_atoms(*loom, cor.0) is Some,
        r matches Ok(s) ==> is_sum(
            *loom,
            sample_atoms(*loom, cor.0).unwrap().0,
            sample_atoms(*loom, cor.0).unwrap().1,
            s,
        ),
        r matches Err(c) ==> c == EXIT,
{
    let x = match cor.axis(loom, U3X_SAM_2) {
        Some(n) => n,
        None => {
            return Err(EXIT);
        },
    };
    let y = match cor.axis(loom, U3X_SAM_3) {
        Some(n) => n,
        None => {
            return Err(EXIT);
        },
    };
    match (x.as_atom(), y.as_atom()) {
        (Some(a), Some(b)) => {
            if x.fits(loom) && y.fits(loom) {
                Ok(u3qa_add(loom, a, b))
            } else {
                Err(EXIT)
            }
        },
        _ => Err(EXIT),
    }
}

/// Adds two atoms whose references the jet owns, and lists the boxed ones for
/// release.
pub fn u3ka_add(loom: &Loom, a: Atom, b: Atom) -> (r: Consumed)
    requires
        noun_fits(*loom, a.word()),
        noun_fits(*loom, b.word()),
    ensures
        is_sum(*loom, a.word(), b.word(), r.sum),
        r.release@ == released(a.word(), b.word()),
{
    let sum = u3qa_add(loom, a, b);
    let mut release: Vec<u32> = Vec::new();
    let x = a.as_noun();
    let y = b.as_noun();
    if counted(x) {
        release.push(x.0);
    }
    if counted(y) {
        release.push(y.0);
    }
    assert(release@ =~= released(a.word(), b.word()));
    Consumed { sum, release }
}

} // verus!
