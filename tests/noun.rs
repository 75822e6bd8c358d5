use u3jets::loom::{loom_addr, loom_byte_addr, Loom};
use u3jets::noun::{Cell, LoomNoun, Noun};

const CELL: u32 = 0xc000_0000;
const INDIRECT: u32 = 0x8000_0000;

/// A loom holding `(B . C)` at reference 0 and `(A . (B . C))` at reference 3,
/// with A = 1, B = 2, C = 3.
fn tree_words() -> Vec<u32> {
    vec![0x11, 2, 3, 0x22, 1, CELL]
}

#[test]
fn classify_tags() {
    assert_eq!(LoomNoun(5).classify(), Noun::Direct(5));
    assert_eq!(LoomNoun(0x7fff_ffff).classify(), Noun::Direct(0x7fff_ffff));
    assert_eq!(LoomNoun(INDIRECT | 9).classify(), Noun::Indirect(9));
    assert_eq!(LoomNoun(CELL | 0x3fff_ffff).classify(), Noun::Cell(0x3fff_ffff));
}

#[test]
fn is_direct_and_is_atom() {
    assert!(LoomNoun(0).is_direct());
    assert!(LoomNoun(0).is_atom());
    assert!(!LoomNoun(INDIRECT).is_direct());
    assert!(LoomNoun(INDIRECT).is_atom());
    assert!(!LoomNoun(CELL).is_direct());
    assert!(!LoomNoun(CELL).is_atom());
}

#[test]
fn as_atom_refuses_cells_only() {
    assert_eq!(LoomNoun(42).as_atom().unwrap().as_noun(), LoomNoun(42));
    assert_eq!(LoomNoun(INDIRECT | 3).as_atom().unwrap().as_noun(), LoomNoun(INDIRECT | 3));
    assert!(LoomNoun(CELL | 3).as_atom().is_none());
}

#[test]
fn as_direct_only_for_direct_atoms() {
    assert_eq!(LoomNoun(42).as_atom().unwrap().as_direct(), Some(42));
    assert_eq!(LoomNoun(INDIRECT).as_atom().unwrap().as_direct(), None);
}

#[test]
fn as_cell_reads_the_box() {
    let words = tree_words();
    let loom = Loom::new(&words);
    let c = LoomNoun(CELL | 3).as_cell(&loom).unwrap();
    assert_eq!(c, Cell { mug: 0x22, hed: LoomNoun(1), tel: LoomNoun(CELL) });
    assert!(LoomNoun(7).as_cell(&loom).is_none());
    assert!(LoomNoun(INDIRECT | 3).as_cell(&loom).is_none());
    // A box past the end of the loom is not read.
    assert!(LoomNoun(CELL | 4).as_cell(&loom).is_none());
}

#[test]
fn classification_is_pure() {
    let words = tree_words();
    let loom = Loom::new(&words);
    for w in [0u32, 7, INDIRECT | 1, CELL, CELL | 3] {
        let n = LoomNoun(w);
        assert_eq!(n.classify(), n.classify());
        assert_eq!(n.as_atom(), n.as_atom());
        assert_eq!(n.as_cell(&loom), n.as_cell(&loom));
    }
    assert_eq!(words, tree_words());
}

#[test]
fn axis_walks_the_tree() {
    let words = tree_words();
    let loom = Loom::new(&words);
    let root = LoomNoun(CELL | 3);
    assert_eq!(root.axis(&loom, 1), Some(root));
    assert_eq!(root.axis(&loom, 2), Some(LoomNoun(1)));
    assert_eq!(root.axis(&loom, 3), Some(LoomNoun(CELL)));
    assert_eq!(root.axis(&loom, 6), Some(LoomNoun(2)));
    assert_eq!(root.axis(&loom, 7), Some(LoomNoun(3)));
}

#[test]
fn axis_off_the_tree() {
    let words = tree_words();
    let loom = Loom::new(&words);
    let a = LoomNoun(1);
    assert_eq!(a.axis(&loom, 1), Some(a));
    assert_eq!(a.axis(&loom, 2), None);
    let root = LoomNoun(CELL | 3);
    assert_eq!(root.axis(&loom, 4), None);
    assert_eq!(root.axis(&loom, 13), None);
    assert_eq!(root.axis(&loom, 0x8000_0000), None);
}

#[test]
fn loom_addresses() {
    assert_eq!(loom_addr(CELL | 5), 5);
    assert_eq!(loom_addr(INDIRECT | 0x3fff_ffff), 0x3fff_ffff);
    assert_eq!(loom_byte_addr(0x3600_0000, CELL | 5), 0x3600_0014);
}

#[test]
fn to_slice_reads_buffer_bytes() {
    // mug, byte length 5, then bytes 01 02 03 04 | 05
    let words = vec![0, 5, 0x0403_0201, 0x0000_0005];
    let loom = Loom::new(&words);
    let a = LoomNoun(INDIRECT).as_atom().unwrap();
    assert_eq!(a.to_slice(&loom), Some(vec![1, 2, 3, 4, 5]));
    assert_eq!(LoomNoun(9).as_atom().unwrap().to_slice(&loom), None);
    // length claims more bytes than the loom holds
    let short = vec![0, 9, 0x0403_0201, 0x0000_0005];
    assert_eq!(a.to_slice(&Loom::new(&short)), None);
    assert!(!LoomNoun(INDIRECT).fits(&Loom::new(&short)));
    assert!(LoomNoun(INDIRECT).fits(&loom));
}
