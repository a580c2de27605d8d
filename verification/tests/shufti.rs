//! Skipping leading white space a block at a time.
use xrs::shufti::{
    FafExecutor, ShuftiConfig, ShuftiSSSE3, SimdAlgo, SimdExecutor, UExecutor, UauExecutor, UfExecutor,
    UmExecutor,
};

const BIG_INPUT: &[u8] = b" \t\n\r<root\r\n        attr=\"#value\"  > inner\tvalue </root > ";
const SHORT_INPUT: &[u8] = b" \t\n\r</root>";
const LONG_SEQ_INPUT: &[u8] = b"                                                              ";

pub struct WhitespaceShufti;

impl ShuftiConfig for WhitespaceShufti {
    fn low_tbl() -> [i8; 16] {
        [0x2, 0x0, 0x0, 0x0, 0x0, 0x0, 0x0, 0x0, 0x0, 0x1, 0x1, 0x0, 0x0, 0x1, 0x0, 0x0]
    }

    fn high_tbl() -> [i8; 16] {
        [0x1, 0x0, 0x2, 0x0, 0x0, 0x0, 0x0, 0x0, 0x0, 0x0, 0x0, 0x0, 0x0, 0x0, 0x0, 0x0]
    }

    fn fallback(c: u8) -> bool {
        matches!(c, b'\t' | b'\n' | b'\r' | b' ')
    }
}

fn ssse3_skipper() -> ShuftiSSSE3 {
    ShuftiSSSE3::from_data::<WhitespaceShufti>()
}

#[test]
fn uau_big() {
    let executor = UauExecutor(ssse3_skipper());
    assert_eq!(4, executor.find_index(BIG_INPUT));
}

#[test]
fn uf_big() {
    let executor = UfExecutor(ssse3_skipper());
    assert_eq!(4, executor.find_index(BIG_INPUT));
}

#[test]
fn u_big() {
    let executor = UExecutor(ssse3_skipper());
    assert_eq!(4, executor.find_index(BIG_INPUT));
}

#[test]
fn faf_big() {
    let executor = FafExecutor(ssse3_skipper());
    assert_eq!(4, executor.find_index(BIG_INPUT));
}

#[test]
fn uau_short() {
    let executor = UauExecutor(ssse3_skipper());
    assert_eq!(4, executor.find_index(SHORT_INPUT));
}

#[test]
fn uf_short() {
    let executor = UfExecutor(ssse3_skipper());
    assert_eq!(4, executor.find_index(SHORT_INPUT));
}

#[test]
fn u_short() {
    let executor = UExecutor(ssse3_skipper());
    assert_eq!(4, executor.find_index(SHORT_INPUT));
}

#[test]
fn faf_short() {
    let executor = FafExecutor(ssse3_skipper());
    assert_eq!(4, executor.find_index(SHORT_INPUT));
}

#[test]
fn uau_long() {
    let executor = UauExecutor(ssse3_skipper());
    assert_eq!(62, executor.find_index(LONG_SEQ_INPUT));
}

#[test]
fn uf_long() {
    let executor = UfExecutor(ssse3_skipper());
    assert_eq!(62, executor.find_index(LONG_SEQ_INPUT));
}

#[test]
fn u_long() {
    let executor = UExecutor(ssse3_skipper());
    assert_eq!(62, executor.find_index(LONG_SEQ_INPUT));
}

#[test]
fn faf_long() {
    let executor = FafExecutor(ssse3_skipper());
    assert_eq!(62, executor.find_index(LONG_SEQ_INPUT));
}

#[test]
fn um_walks_blocks_then_pads() {
    let executor = UmExecutor(ssse3_skipper());
    assert_eq!(4, executor.find_index(BIG_INPUT));
    assert_eq!(62, executor.find_index(LONG_SEQ_INPUT));
    assert_eq!(0, executor.find_index(b""));
    let mut input = vec![b' '; 40];
    input[35] = b'x';
    assert_eq!(35, executor.find_index(&input));
}

#[test]
fn block_and_fallback() {
    let s = ssse3_skipper();
    assert_eq!(s.block(*b"  \t\n\r  a        "), 7);
    assert_eq!(s.block([b' '; 16]), -1);
    // The high bit of a byte empties its low-table entry.
    assert_eq!(s.block([0x89; 16]), 0);
    assert_eq!(s.fallback_block(b"  x"), 2);
    assert_eq!(s.fallback_block(b" \r\n"), -1);
    assert_eq!(s.mini_block(b"  "), -1);
    assert_eq!(s.mini_block(b" a"), 1);
    assert_eq!(WhitespaceShufti::fallback_block(b"\t\tz"), 2);
}

#[test]
fn walks_over_the_middle_blocks() {
    let mut input = vec![b' '; 48];
    input[20] = b'x';
    assert_eq!(UauExecutor(ssse3_skipper()).find_index(&input), 20);
    assert_eq!(UExecutor(ssse3_skipper()).find_index(&input), 20);
    let mut input = vec![b' '; 64];
    input[32] = b'x';
    assert_eq!(UauExecutor(ssse3_skipper()).find_index(&input), 32);
    assert_eq!(UExecutor(ssse3_skipper()).find_index(&input), 32);
    // The blocks-then-bytes walk gives an index within the rest after the blocks.
    let mut input = vec![b' '; 20];
    input[18] = b'x';
    assert_eq!(UfExecutor(ssse3_skipper()).find_index(&input), 2);
    assert_eq!(FafExecutor(ssse3_skipper()).find_index(&input), 18);
}
