use u3jets::arith::Sum;
use u3jets::jets::{counted, u3ka_add, u3qa_add, u3wa_add, EXIT, U3X_SAM, U3X_SAM_2, U3X_SAM_3};
use u3jets::loom::Loom;
use u3jets::mote::{expand_mote, MoteError};
use u3jets::noun::LoomNoun;

const CELL: u32 = 0xc000_0000;
const INDIRECT: u32 = 0x8000_0000;

/// Appends a core `(battery . (sample . context))` whose sample is the cell
/// at reference 0, and returns its word.
fn core_with_sample(words: &mut Vec<u32>) -> LoomNoun {
    let r = words.len() as u32;
    words.extend_from_slice(&[0, CELL, 99]);
    words.extend_from_slice(&[0, 5, CELL | r]);
    LoomNoun(CELL | (r + 3))
}

#[test]
fn gate_adds_its_sample() {
    let mut words = vec![0, 3, 4];
    let cor = core_with_sample(&mut words);
    let loom = Loom::new(&words);
    assert_eq!(u3wa_add(&loom, cor), Ok(Sum::Direct(7)));
}

#[test]
fn gate_with_cell_in_sample_exits() {
    // sample ((1 . 2) . 3): the cell (1 . 2) is at reference 3
    let mut words = vec![0, CELL | 3, 3, 0, 1, 2];
    let cor = core_with_sample(&mut words);
    let loom = Loom::new(&words);
    assert_eq!(u3wa_add(&loom, cor), Err(EXIT));
}

#[test]
fn gate_without_sample_exits() {
    let words: Vec<u32> = vec![];
    let loom = Loom::new(&words);
    assert_eq!(u3wa_add(&loom, LoomNoun(3)), Err(EXIT));
}

#[test]
fn gate_with_unreadable_operand_exits() {
    // the sample head claims a boxed atom past the end of the loom
    let mut words = vec![0, INDIRECT | 100, 4];
    let cor = core_with_sample(&mut words);
    let loom = Loom::new(&words);
    assert_eq!(u3wa_add(&loom, cor), Err(EXIT));
}

#[test]
fn sample_axes() {
    assert_eq!(U3X_SAM, 6);
    assert_eq!((U3X_SAM_2, U3X_SAM_3), (12, 13));
}

#[test]
fn qa_add_direct() {
    let words: Vec<u32> = vec![];
    let loom = Loom::new(&words);
    let a = LoomNoun(40).as_atom().unwrap();
    let b = LoomNoun(2).as_atom().unwrap();
    assert_eq!(u3qa_add(&loom, a, b), Sum::Direct(42));
}

#[test]
fn ka_add_releases_boxed_operands() {
    let words = vec![0, 1, 9];
    let loom = Loom::new(&words);
    let x = LoomNoun(INDIRECT).as_atom().unwrap();
    let z = LoomNoun(0).as_atom().unwrap();
    let r = u3ka_add(&loom, z, x);
    assert_eq!(r.sum, Sum::Shared(x));
    assert_eq!(r.release, vec![INDIRECT]);
    let r = u3ka_add(&loom, x, x);
    assert_eq!(r.sum, Sum::Direct(18));
    assert_eq!(r.release, vec![INDIRECT, INDIRECT]);
    let r = u3ka_add(&loom, z, z);
    assert_eq!(r.sum, Sum::Direct(0));
    assert!(r.release.is_empty());
}

#[test]
fn counted_skips_direct_atoms() {
    assert!(!counted(LoomNoun(7)));
    assert!(counted(LoomNoun(INDIRECT)));
    assert!(counted(LoomNoun(CELL)));
}

#[test]
fn motes_pack_first_char_lowest() {
    assert_eq!(expand_mote("exit"), Ok(EXIT));
    assert_eq!(expand_mote("a"), Ok(0x61));
    assert_eq!(expand_mote(""), Ok(0));
    assert_eq!(expand_mote("fail"), Ok(0x6c69_6166));
}

#[test]
fn mote_errors() {
    assert_eq!(expand_mote("exits"), Err(MoteError::TooLong));
    assert_eq!(expand_mote("\u{e9}"), Err(MoteError::NotAscii));
    assert_eq!(expand_mote("ab\u{7f}"), Ok(0x7f_6261));
    assert_eq!(expand_mote("abc\u{e9}"), Err(MoteError::TooLong));
}
