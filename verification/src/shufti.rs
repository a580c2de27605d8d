//! Skipping the leading bytes of a class, a block of sixteen bytes at a time: the shufti
//! class test of each block, written over byte arrays, and several ways of walking the
//! blocks of an input.
use vstd::array::ArrayAdditionalExecFns;
use vstd::prelude::*;

use crate::dom::chars::{byte_is_xml_whitespace, XmlByteExt};

verus! {

/// The number of bytes in a block.
pub const BLOCK_SIZE: usize = 16;

/// `r` is the length of the run of leading bytes of `s` that `f` accepts.
pub open spec fn is_run(s: Seq<u8>, f: spec_fn(u8) -> bool, r: int) -> bool {
    &&& 0 <= r <= s.len()
    &&& forall|i: int| 0 <= i < r ==> f(#[trigger] s[i])
    &&& r < s.len() ==> !f(s[r])
}

/// The result of a block step: the index of the first byte that `f` refuses, or -1 where
/// it accepts all.
pub open spec fn is_block_result(s: Seq<u8>, f: spec_fn(u8) -> bool, r: int) -> bool {
    if r < 0 {
        r == -1 && forall|i: int| 0 <= i < s.len() ==> f(#[trigger] s[i])
    } else {
        r < s.len() && is_run(s, f, r)
    }
}

/// The run of leading accepted bytes is unique.
pub proof fn lemma_run_unique(s: Seq<u8>, f: spec_fn(u8) -> bool, r1: int, r2: int)
    requires
        is_run(s, f, r1),
        is_run(s, f, r2),
    ensures
        r1 == r2,
{
    if r1 < r2 {
        assert(f(s[r1]));
    } else if r2 < r1 {
        assert(f(s[r2]));
    }
}

/// The tables of a byte class and its test byte by byte, for implementors.
pub trait ShuftiConfig {
    fn low_tbl() -> [i8; 16];

    fn high_tbl() -> [i8; 16];

    fn fallback(data: u8) -> bool;

    /// The number of leading bytes that `fallback` accepts.
    fn fallback_block(data: &[u8]) -> (r: usize)
        ensures
            r <= data@.len(),
        default_ensures
            r <= data@.len(),
            forall|i: int| 0 <= i < r ==> call_ensures(Self::fallback, (#[trigger] data@[i],), true),
            r < data@.len() ==> call_ensures(Self::fallback, (data@[r as int],), false),
    {
        let mut i: usize = 0;
        while i < data.len()
            invariant
                i <= data@.len(),
                forall|j: int| 0 <= j < i ==> call_ensures(Self::fallback, (#[trigger] data@[j],), true),
            decreases data@.len() - i,
        {
            if !Self::fallback(data[i]) {
                return i;
            }
            i = i + 1;
        }
        i
    }
}

/// A class test over blocks of sixteen bytes, with a test byte by byte for what is left.
pub trait SimdAlgo {
    /// The class that `block` tests.
    spec fn accepts(&self, b: u8) -> bool;

    /// The class that `fallback_block` tests.
    spec fn fallback_accepts(&self, b: u8) -> bool;

    /// The index of the first byte of the block outside the class, or -1.
    fn block(&self, data: [u8; 16]) -> (r: i32)
        ensures
            is_block_result(data@, |b: u8| self.accepts(b), r as int),
    ;

    /// The index of the first byte outside the byte-by-byte class, or -1.
    fn fallback_block(&self, data: &[u8]) -> (r: i32)
        requires
            data@.len() <= i32::MAX,
        ensures
            is_block_result(data@, |b: u8| self.fallback_accepts(b), r as int),
    ;

    /// `block` on fewer than sixteen bytes padded with zero bytes: the index of the first
    /// byte outside the class, or -1.
    fn mini_block(&self, data: &[u8]) -> (r: i32)
        requires
            data@.len() < 16,
        ensures
            is_block_result(data@, |b: u8| self.accepts(b), r as int),
    {
        let mut padded: [u8; 16] = [0u8; 16];
        let mut i: usize = 0;
        while i < data.len()
            invariant
                i <= data@.len() < 16,
                padded@.len() == 16,
                forall|j: int| 0 <= j < i ==> padded@[j] == data@[j],
            decreases data@.len() - i,
        {
            padded.set(i, data[i]);
            i = i + 1;
        }
        let index = self.block(padded);
        proof {
            let f = |b: u8| self.accepts(b);
            if index >= 0 && index < data@.len() {
                assert forall|j: int| 0 <= j < index implies f(#[trigger] data@[j]) by {
                    assert(f(padded@[j]));
                }
            }
            if index < 0 || index >= data@.len() {
                assert forall|j: int| 0 <= j < data@.len() implies f(#[trigger] data@[j]) by {
                    assert(f(padded@[j]));
                }
            }
        }
        if index >= data.len() as i32 {
            -1
        } else {
            index
        }
    }
}

/// The byte of a table at an index below sixteen.
pub open spec fn tbl(t: [i8; 16], i: int) -> i8 {
    t@[i]
}

/// The shufti test of a byte: the entry of the low table at its low nibble (none for a
/// byte with its high bit set) and the entry of the high table at its high nibble share
/// a bit.
pub open spec fn shufti_accepts(low: [i8; 16], high: [i8; 16], b: u8) -> bool {
    let lo: i8 = if b >= 0x80 { 0i8 } else { tbl(low, (b % 16) as int) };
    let hi: i8 = tbl(high, (b / 16) as int);
    lo & hi != 0
}

/// The shufti class test of blocks of sixteen bytes.
pub struct ShuftiSSSE3 {
    low_tbl: [i8; 16],
    high_tbl: [i8; 16],
}

impl ShuftiSSSE3 {
    pub closed spec fn low(&self) -> [i8; 16] {
        self.low_tbl
    }

    pub closed spec fn high(&self) -> [i8; 16] {
        self.high_tbl
    }

    pub fn new(low_tbl: [i8; 16], high_tbl: [i8; 16]) -> (r: Self)
        ensures
            r.low() == low_tbl,
            r.high() == high_tbl,
    {
        Self { low_tbl, high_tbl }
    }

    /// The test with the tables of a configuration.
    pub fn from_data<T: ShuftiConfig>() -> (r: Self)
        ensures
            call_ensures(T::low_tbl, (), r.low()),
            call_ensures(T::high_tbl, (), r.high()),
    {
        Self { low_tbl: T::low_tbl(), high_tbl: T::high_tbl() }
    }

    fn accepts_byte(&self, b: u8) -> (r: bool)
        ensures
            r == shufti_accepts(self.low_tbl, self.high_tbl, b),
    {
        let lo: i8 = if b >= 0x80 { 0i8 } else { self.low_tbl[(b % 16) as usize] };
        let hi: i8 = self.high_tbl[(b / 16) as usize];
        lo & hi != 0
    }
}

impl SimdAlgo for ShuftiSSSE3 {
    open spec fn accepts(&self, b: u8) -> bool {
        shufti_accepts(self.low(), self.high(), b)
    }

    open spec fn fallback_accepts(&self, b: u8) -> bool {
        byte_is_xml_whitespace(b)
    }

    fn block(&self, data: [u8; 16]) -> (r: i32) {
        let mut i: usize = 0;
        while i < 16
            invariant
                i <= 16,
                data@.len() == 16,
                forall|j: int| 0 <= j < i ==> shufti_accepts(self.low(), self.high(), #[trigger] data@[j]),
            decreases 16 - i,
        {
            if !self.accepts_byte(data[i]) {
                return i as i32;
            }
            i = i + 1;
        }
        -1
    }

    fn fallback_block(&self, data: &[u8]) -> (r: i32) {
        let mut len: usize = 0;
        while len < data.len()
            invariant
                len <= data@.len() <= i32::MAX,
                forall|j: int| 0 <= j < len ==> byte_is_xml_whitespace(#[trigger] data@[j]),
            decreases data@.len() - len,
        {
            if !data[len].is_xml_whitespace() {
                return len as i32;
            }
            len = len + 1;
        }
        -1
    }
}

/// Copies sixteen bytes of the input into a block.
fn load(data: &[u8], at: usize) -> (r: [u8; 16])
    requires
        at + 16 <= data@.len(),
    ensures
        r@ == data@.subrange(at as int, at + 16),
{
    let mut block: [u8; 16] = [0u8; 16];
    let n = data.len();
    let mut i: usize = 0;
    while i < 16
        invariant
            i <= 16,
            n == data@.len(),
            at + 16 <= data@.len(),
            block@.len() == 16,
            forall|j: int| 0 <= j < i ==> block@[j] == data@[at + j],
        decreases 16 - i,
    {
        block.set(i, data[at + i]);
        i = i + 1;
    }
    proof {
        assert(block@ =~= data@.subrange(at as int, at + 16));
    }
    block
}

/// Walks the blocks of an input to the first byte outside a class.
pub trait SimdExecutor {
    fn find_index(&self, data: &[u8]) -> (r: usize)
        requires
            data@.len() <= i32::MAX,
        ensures
            r <= data@.len(),
    ;
}

/// A block that starts at `at` is accepted whole, so the run goes on past it.
proof fn lemma_block_accepted(s: Seq<u8>, f: spec_fn(u8) -> bool, at: int)
    requires
        0 <= at,
        at + 16 <= s.len(),
        forall|i: int| 0 <= i < 16 ==> f(#[trigger] s.subrange(at, at + 16)[i]),
    ensures
        forall|i: int| at <= i < at + 16 ==> f(#[trigger] s[i]),
{
    assert forall|i: int| at <= i < at + 16 implies f(#[trigger] s[i]) by {
        assert(s.subrange(at, at + 16)[i - at] == s[i]);
    }
}

/// Unaligned-Aligned-Unaligned: the first block, then the whole blocks after it, then
/// the last sixteen bytes.
pub struct UauExecutor<T: SimdAlgo>(pub T);

impl<T: SimdAlgo> SimdExecutor for UauExecutor<T> {
    /// The length of the run of leading bytes in the class.
    fn find_index(&self, ptr: &[u8]) -> (r: usize)
        ensures
            is_run(ptr@, |b: u8| self.0.accepts(b), r as int),
    {
        let ghost f = |b: u8| self.0.accepts(b);
        if ptr.len() < BLOCK_SIZE {
            let len = self.0.mini_block(ptr);
            return if len >= 0 {
                len as usize
            } else {
                ptr.len()
            };
        }
        // the first block
        let first = self.0.block(load(ptr, 0));
        if first >= 0 {
            proof {
                assert forall|i: int| 0 <= i < first implies f(#[trigger] ptr@[i]) by {
                    assert(ptr@.subrange(0, 16)[i] == ptr@[i]);
                }
                assert(ptr@.subrange(0, 16)[first as int] == ptr@[first as int]);
            }
            return first as usize;
        }
        proof {
            lemma_block_accepted(ptr@, f, 0);
        }
        // the blocks after it
        let mut skipped: usize = BLOCK_SIZE;
        while ptr.len() - skipped >= BLOCK_SIZE
            invariant
                16 <= skipped <= ptr@.len(),
                f == (|b: u8| self.0.accepts(b)),
                forall|i: int| 0 <= i < skipped ==> f(#[trigger] ptr@[i]),
            decreases ptr@.len() - skipped,
        {
            let len = self.0.block(load(ptr, skipped));
            if len >= 0 {
                proof {
                    assert forall|i: int| 0 <= i < skipped + len implies f(#[trigger] ptr@[i]) by {
                        if i >= skipped {
                            assert(ptr@.subrange(skipped as int, skipped + 16)[i - skipped] == ptr@[i]);
                        }
                    }
                    assert(ptr@.subrange(skipped as int, skipped + 16)[len as int] == ptr@[skipped + len]);
                }
                return skipped + len as usize;
            }
            proof {
                lemma_block_accepted(ptr@, f, skipped as int);
            }
            skipped = skipped + BLOCK_SIZE;
        }
        // the last sixteen bytes
        let start = ptr.len() - BLOCK_SIZE;
        let last = self.0.block(load(ptr, start));
        if last >= 0 {
            proof {
                assert forall|i: int| 0 <= i < start + last implies f(#[trigger] ptr@[i]) by {
                    if i >= start {
                        assert(ptr@.subrange(start as int, start + 16)[i - start] == ptr@[i]);
                    }
                }
                assert(ptr@.subrange(start as int, start + 16)[last as int] == ptr@[start + last]);
            }
            start + last as usize
        } else {
            proof {
                lemma_block_accepted(ptr@, f, start as int);
            }
            ptr.len()
        }
    }
}

/// Unaligned-Miniblock: whole blocks from the start, then the rest padded.
pub struct UmExecutor<T: SimdAlgo>(pub T);

impl<T: SimdAlgo> SimdExecutor for UmExecutor<T> {
    /// The length of the run of leading bytes in the class.
    fn find_index(&self, ptr: &[u8]) -> (r: usize)
        ensures
            is_run(ptr@, |b: u8| self.0.accepts(b), r as int),
    {
        let ghost f = |b: u8| self.0.accepts(b);
        let mut skipped: usize = 0;
        while ptr.len() - skipped >= BLOCK_SIZE
            invariant
                skipped <= ptr@.len(),
                f == (|b: u8| self.0.accepts(b)),
                forall|i: int| 0 <= i < skipped ==> f(#[trigger] ptr@[i]),
            decreases ptr@.len() - skipped,
        {
            let len = self.0.block(load(ptr, skipped));
            if len >= 0 {
                proof {
                    assert forall|i: int| 0 <= i < skipped + len implies f(#[trigger] ptr@[i]) by {
                        if i >= skipped {
                            assert(ptr@.subrange(skipped as int, skipped + 16)[i - skipped] == ptr@[i]);
                        }
                    }
                    assert(ptr@.subrange(skipped as int, skipped + 16)[len as int] == ptr@[skipped + len]);
                }
                return skipped + len as usize;
            }
            proof {
                lemma_block_accepted(ptr@, f, skipped as int);
            }
            skipped = skipped + BLOCK_SIZE;
        }
        let rest = slice_from(ptr, skipped);
        let len = self.0.mini_block(rest);
        proof {
            assert forall|i: int| skipped <= i < ptr@.len() implies ptr@[i] == rest@[i - skipped] by {}
            if len >= 0 {
                assert forall|i: int| 0 <= i < skipped + len implies f(#[trigger] ptr@[i]) by {
                    if i >= skipped {
                        assert(f(rest@[i - skipped]));
                    }
                }
            } else {
                assert forall|i: int| 0 <= i < ptr@.len() implies f(#[trigger] ptr@[i]) by {
                    if i >= skipped {
                        assert(f(rest@[i - skipped]));
                    }
                }
            }
        }
        if len >= 0 {
            skipped + len as usize
        } else {
            ptr.len()
        }
    }
}

/// The bytes of a slice from an index on.
fn slice_from(data: &[u8], at: usize) -> (r: &[u8])
    requires
        at <= data@.len(),
    ensures
        r@ == data@.skip(at as int),
{
    let (_, rest) = data.split_at(at);
    proof {
        assert(rest@ =~= data@.skip(at as int));
    }
    rest
}

/// Unaligned-Fallback: whole blocks from the start, then the rest byte by byte.
pub struct UfExecutor<T: SimdAlgo>(pub T);

/// What the blocks-then-bytes walk finds: the first refused byte within the whole blocks;
/// else, where the byte-by-byte test refuses a byte of the rest, that byte's index within
/// the rest (not within the input); else the length.
pub open spec fn uf_result(s: Seq<u8>, f: spec_fn(u8) -> bool, g: spec_fn(u8) -> bool, r: int) -> bool {
    let full = (s.len() / 16 * 16) as int;
    if exists|i: int| 0 <= i < full && !f(#[trigger] s[i]) {
        is_run(s.take(full), f, r)
    } else if exists|i: int| full <= i < s.len() && !g(#[trigger] s[i]) {
        is_run(s.skip(full), g, r)
    } else {
        r == s.len()
    }
}

impl<T: SimdAlgo> SimdExecutor for UfExecutor<T> {
    /// The index where the walk stops.
    fn find_index(&self, ptr: &[u8]) -> (r: usize)
        ensures
            uf_result(ptr@, |b: u8| self.0.accepts(b), |b: u8| self.0.fallback_accepts(b), r as int),
    {
        let ghost f = |b: u8| self.0.accepts(b);
        let ghost g = |b: u8| self.0.fallback_accepts(b);
        let ghost full = (ptr@.len() / 16 * 16) as int;
        let mut skipped: usize = 0;
        while ptr.len() - skipped >= BLOCK_SIZE
            invariant
                skipped <= ptr@.len(),
                skipped % 16 == 0,
                full == (ptr@.len() / 16 * 16) as int,
                f == (|b: u8| self.0.accepts(b)),
                forall|i: int| 0 <= i < skipped ==> f(#[trigger] ptr@[i]),
            decreases ptr@.len() - skipped,
        {
            let len = self.0.block(load(ptr, skipped));
            if len >= 0 {
                proof {
                    assert(skipped + 16 <= full) by (nonlinear_arith)
                        requires
                            skipped + 16 <= ptr@.len(),
                            skipped % 16 == 0,
                            full == (ptr@.len() / 16 * 16) as int,
                    ;
                    assert forall|i: int| 0 <= i < skipped + len implies f(#[trigger] ptr@[i]) by {
                        if i >= skipped {
                            assert(ptr@.subrange(skipped as int, skipped + 16)[i - skipped] == ptr@[i]);
                        }
                    }
                    assert(ptr@.subrange(skipped as int, skipped + 16)[len as int] == ptr@[skipped + len]);
                    assert(!f(ptr@[skipped + len]));
                    assert(ptr@.take(full)[skipped + len] == ptr@[skipped + len]);
                    assert forall|i: int| 0 <= i < skipped + len implies f(#[trigger] ptr@.take(full)[i]) by {
                        assert(ptr@.take(full)[i] == ptr@[i]);
                    }
                }
                return skipped + len as usize;
            }
            proof {
                lemma_block_accepted(ptr@, f, skipped as int);
            }
            skipped = skipped + BLOCK_SIZE;
        }
        proof {
            assert(skipped == full) by (nonlinear_arith)
                requires
                    skipped <= ptr@.len(),
                    ptr@.len() < skipped + 16,
                    skipped % 16 == 0,
                    full == (ptr@.len() / 16 * 16) as int,
            ;
        }
        let rest = slice_from(ptr, skipped);
        let len = self.0.fallback_block(rest);
        proof {
            assert(!(exists|i: int| 0 <= i < full && !f(#[trigger] ptr@[i])));
            if len >= 0 {
                assert(!g(rest@[len as int]));
                assert(rest@[len as int] == ptr@[skipped + len]);
            } else {
                assert forall|i: int| full <= i < ptr@.len() implies g(#[trigger] ptr@[i]) by {
                    assert(g(rest@[i - skipped]));
                }
            }
        }
        if len >= 0 {
            len as usize
        } else {
            ptr.len()
        }
    }
}

/// Unaligned: whole blocks from the start, then the last sixteen bytes.
pub struct UExecutor<T: SimdAlgo>(pub T);

impl<T: SimdAlgo> SimdExecutor for UExecutor<T> {
    /// The length of the run of leading bytes in the class.
    fn find_index(&self, ptr: &[u8]) -> (r: usize)
        ensures
            is_run(ptr@, |b: u8| self.0.accepts(b), r as int),
    {
        let ghost f = |b: u8| self.0.accepts(b);
        if ptr.len() < BLOCK_SIZE {
            let len = self.0.mini_block(ptr);
            return if len >= 0 {
                len as usize
            } else {
                ptr.len()
            };
        }
        let mut skipped: usize = 0;
        while ptr.len() - BLOCK_SIZE >= skipped
            invariant
                16 <= ptr@.len(),
                skipped <= ptr@.len(),
                f == (|b: u8| self.0.accepts(b)),
                forall|i: int| 0 <= i < skipped ==> f(#[trigger] ptr@[i]),
            decreases ptr@.len() - skipped,
        {
            let len = self.0.block(load(ptr, skipped));
            if len >= 0 {
                proof {
                    assert forall|i: int| 0 <= i < skipped + len implies f(#[trigger] ptr@[i]) by {
                        if i >= skipped {
                            assert(ptr@.subrange(skipped as int, skipped + 16)[i - skipped] == ptr@[i]);
                        }
                    }
                    assert(ptr@.subrange(skipped as int, skipped + 16)[len as int] == ptr@[skipped + len]);
                }
                return skipped + len as usize;
            }
            proof {
                lemma_block_accepted(ptr@, f, skipped as int);
            }
            skipped = skipped + BLOCK_SIZE;
        }
        let start = ptr.len() - BLOCK_SIZE;
        let last = self.0.block(load(ptr, start));
        if last >= 0 {
            proof {
                assert forall|i: int| 0 <= i < start + last implies f(#[trigger] ptr@[i]) by {
                    if i >= start {
                        assert(ptr@.subrange(start as int, start + 16)[i - start] == ptr@[i]);
                    }
                }
                assert(ptr@.subrange(start as int, start + 16)[last as int] == ptr@[start + last]);
            }
            start + last as usize
        } else {
            proof {
                lemma_block_accepted(ptr@, f, start as int);
            }
            ptr.len()
        }
    }
}

/// Fallback-Aligned-Fallback: the input is taken as aligned, so whole blocks are tested
/// from its start and the rest byte by byte.
pub struct FafExecutor<T: SimdAlgo>(pub T);

/// What the aligned walk finds: the first refused byte within the whole blocks; else,
/// where the byte-by-byte test refuses a byte of the rest, that byte's index; else the
/// length.
pub open spec fn faf_result(s: Seq<u8>, f: spec_fn(u8) -> bool, g: spec_fn(u8) -> bool, r: int) -> bool {
    let full = (s.len() / 16 * 16) as int;
    if exists|i: int| 0 <= i < full && !f(#[trigger] s[i]) {
        is_run(s.take(full), f, r)
    } else {
        r >= full && is_run(s.skip(full), g, r - full)
    }
}

/// Where the byte-by-byte test is the block test, the aligned walk finds the run of
/// leading bytes in the class, as the walks that test every byte in blocks do.
pub proof fn lemma_faf_finds_run(s: Seq<u8>, f: spec_fn(u8) -> bool, g: spec_fn(u8) -> bool, r: int)
    requires
        forall|b: u8| #[trigger] f(b) == g(b),
        faf_result(s, f, g, r),
    ensures
        is_run(s, f, r),
{
    let full = (s.len() / 16 * 16) as int;
    assert(full <= s.len()) by (nonlinear_arith)
        requires
            full == (s.len() / 16 * 16) as int,
    ;
    if exists|i: int| 0 <= i < full && !f(#[trigger] s[i]) {
        let k = choose|i: int| 0 <= i < full && !f(#[trigger] s[i]);
        if r >= full {
            assert(f(s.take(full)[k]));
        }
        assert(s.take(full)[r] == s[r]);
        assert forall|i: int| 0 <= i < r implies f(#[trigger] s[i]) by {
            assert(f(s.take(full)[i]));
        }
    } else {
        assert forall|i: int| 0 <= i < r implies f(#[trigger] s[i]) by {
            if i >= full {
                assert(g(s.skip(full)[i - full]));
            }
        }
        if r < s.len() {
            assert(!g(s.skip(full)[r - full]));
        }
    }
}

impl<T: SimdAlgo> SimdExecutor for FafExecutor<T> {
    /// The index where the walk stops.
    fn find_index(&self, ptr: &[u8]) -> (r: usize)
        ensures
            faf_result(ptr@, |b: u8| self.0.accepts(b), |b: u8| self.0.fallback_accepts(b), r as int),
    {
        let ghost f = |b: u8| self.0.accepts(b);
        let ghost g = |b: u8| self.0.fallback_accepts(b);
        let ghost full = (ptr@.len() / 16 * 16) as int;
        let blocks = ptr.len() / BLOCK_SIZE;
        proof {
            assert(blocks * 16 <= ptr@.len()) by (nonlinear_arith)
                requires
                    blocks == ptr@.len() / 16,
            ;
        }
        let n = ptr.len();
        let mut block_idx: usize = 0;
        while block_idx < blocks
            invariant
                n == ptr@.len(),
                blocks == ptr@.len() / 16,
                block_idx <= blocks,
                full == blocks * 16,
                full <= ptr@.len(),
                f == (|b: u8| self.0.accepts(b)),
                forall|i: int| 0 <= i < block_idx * 16 ==> f(#[trigger] ptr@[i]),
            decreases blocks - block_idx,
        {
            proof {
                assert(block_idx * 16 + 16 <= blocks * 16) by (nonlinear_arith)
                    requires
                        block_idx < blocks,
                ;
            }
            let at = block_idx * BLOCK_SIZE;
            let len = self.0.block(load(ptr, at));
            if len >= 0 {
                proof {
                    assert forall|i: int| 0 <= i < at + len implies f(#[trigger] ptr@[i]) by {
                        if i >= at {
                            assert(ptr@.subrange(at as int, at + 16)[i - at] == ptr@[i]);
                        }
                    }
                    assert(ptr@.subrange(at as int, at + 16)[len as int] == ptr@[at + len]);
                    assert(ptr@.take(full)[at + len] == ptr@[at + len]);
                    assert forall|i: int| 0 <= i < at + len implies f(#[trigger] ptr@.take(full)[i]) by {
                        assert(ptr@.take(full)[i] == ptr@[i]);
                    }
                }
                return at + len as usize;
            }
            proof {
                lemma_block_accepted(ptr@, f, at as int);
            }
            block_idx = block_idx + 1;
        }
        let start = blocks * BLOCK_SIZE;
        let rest = slice_from(ptr, start);
        let len = self.0.fallback_block(rest);
        proof {
            assert(!(exists|i: int| 0 <= i < full && !f(#[trigger] ptr@[i])));
            assert(rest@ =~= ptr@.skip(full));
        }
        if len >= 0 {
            start + len as usize
        } else {
            ptr.len()
        }
    }
}

/// Where the blocks-then-bytes walk with the tables of a configuration stops.
fn find_index<D: ShuftiConfig>(data: &[u8]) -> (r: usize)
    requires
        data@.len() <= i32::MAX,
    ensures
        exists|s: ShuftiSSSE3|
            {
                &&& call_ensures(D::low_tbl, (), s.low())
                &&& call_ensures(D::high_tbl, (), s.high())
                &&& uf_result(data@, |b: u8| s.accepts(b), |b: u8| s.fallback_accepts(b), r as int)
            },
{
    UfExecutor(ShuftiSSSE3::from_data::<D>()).find_index(data)
}

} // verus!
