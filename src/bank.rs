//! The bank of accumulators that one stream of bytes fills, block by block.
use vstd::prelude::*;
use crate::accum::{Avg, Avg2};

verus! {

/// Bytes in one analysis block: three 16-bit stereo frames or two 24-bit ones.
pub const BLOCK: usize = 12;

/// Most blocks one bank can take: a 16-bit slot counts three samples per block
/// and its count is a `u32`.
pub const MAX_BLOCKS: u32 = 1431655765;

/// A byte read as a two's-complement signed value.
pub open spec fn as_is(b: u8) -> i8 {
    if b < 128 {
        b as i8
    } else {
        (b - 256) as i8
    }
}

/// A byte read with its top bit toggled, that is as an unsigned sample
/// shifted down by 128.
pub open spec fn toggled(b: u8) -> i8 {
    (b - 128) as i8
}

fn read_as_is(b: u8) -> (r: i8)
    ensures
        r == as_is(b),
{
    if b < 128 {
        b as i8
    } else {
        (b as i16 - 256) as i8
    }
}

fn read_toggled(b: u8) -> (r: i8)
    ensures
        r == toggled(b),
{
    (b as i16 - 128) as i8
}

/// Accumulators of the two byte positions of a 16-bit sample.
#[derive(Clone, Copy, Debug, PartialEq, Eq, Structural)]
pub struct Pair16 {
    pub b0: Avg,
    pub b1: Avg,
}

/// Stereo accumulators of the three byte positions of a 24-bit sample.
#[derive(Clone, Copy, Debug, PartialEq, Eq, Structural)]
pub struct Triple24 {
    pub b0: Avg2,
    pub b1: Avg2,
    pub b2: Avg2,
}

/// Every accumulator of one stream, under both readings of a byte. The middle
/// byte of the toggled 24-bit reading is never fed.
#[derive(Clone, Copy, Debug, PartialEq, Eq, Structural)]
pub struct Bank {
    pub as_is16: Pair16,
    pub toggled16: Pair16,
    pub as_is24: Triple24,
    pub toggled24: Triple24,
    pub blocks: u32,
}

pub open spec fn avg_wf(a: Avg, count: int) -> bool {
    a.wf() && a.count == count
}

pub open spec fn avg2_wf(a: Avg2, count: int) -> bool {
    a.wf() && a.l.count == count
}

pub open spec fn empty_avg() -> Avg {
    Avg { diffsum: 0, count: 0, last: 0, debug: false }
}

pub open spec fn empty_avg2() -> Avg2 {
    Avg2 { l: empty_avg(), r: empty_avg() }
}

pub open spec fn empty_pair16() -> Pair16 {
    Pair16 { b0: empty_avg(), b1: empty_avg() }
}

pub open spec fn empty_triple24() -> Triple24 {
    Triple24 { b0: empty_avg2(), b1: empty_avg2(), b2: empty_avg2() }
}

/// The bank of a stream with no whole block.
pub open spec fn empty_bank() -> Bank {
    Bank {
        as_is16: empty_pair16(),
        toggled16: empty_pair16(),
        as_is24: empty_triple24(),
        toggled24: empty_triple24(),
        blocks: 0,
    }
}

/// The 16-bit grid samples the first two bytes of each 4-byte frame.
pub open spec fn pair16_fed(p: Pair16, blk: Seq<u8>, toggle: bool) -> Pair16 {
    let rd = |b: u8| if toggle { toggled(b) } else { as_is(b) };
    Pair16 {
        b0: p.b0.added(rd(blk[0])).added(rd(blk[4])).added(rd(blk[8])),
        b1: p.b1.added(rd(blk[1])).added(rd(blk[5])).added(rd(blk[9])),
    }
}

/// Byte `k` of each 3-byte sample feeds slot `k`, left channel from the first
/// sample of a 6-byte frame and right from the second.
pub open spec fn avg2_fed(a: Avg2, blk: Seq<u8>, k: int, toggle: bool) -> Avg2 {
    let rd = |b: u8| if toggle { toggled(b) } else { as_is(b) };
    a.added(rd(blk[k]), rd(blk[k + 3])).added(rd(blk[k + 6]), rd(blk[k + 9]))
}

impl Bank {
    /// Every slot in use has counted `c16` or `c24` samples.
    pub open spec fn counts(&self, c16: int, c24: int) -> bool {
        &&& avg_wf(self.as_is16.b0, c16)
        &&& avg_wf(self.as_is16.b1, c16)
        &&& avg_wf(self.toggled16.b0, c16)
        &&& avg_wf(self.toggled16.b1, c16)
        &&& avg2_wf(self.as_is24.b0, c24)
        &&& avg2_wf(self.as_is24.b1, c24)
        &&& avg2_wf(self.as_is24.b2, c24)
        &&& avg2_wf(self.toggled24.b0, c24)
        &&& self.toggled24.b1 == empty_avg2()
        &&& avg2_wf(self.toggled24.b2, c24)
    }

    pub open spec fn wf(&self) -> bool {
        &&& self.blocks <= MAX_BLOCKS
        &&& self.counts(3 * self.blocks, 2 * self.blocks)
    }

    /// The bank after one more 12-byte block.
    #[verifier::opaque]
    pub open spec fn ingested(self, blk: Seq<u8>) -> Bank {
        Bank {
            as_is16: pair16_fed(self.as_is16, blk, false),
            toggled16: pair16_fed(self.toggled16, blk, true),
            as_is24: Triple24 {
                b0: avg2_fed(self.as_is24.b0, blk, 0, false),
                b1: avg2_fed(self.as_is24.b1, blk, 1, false),
                b2: avg2_fed(self.as_is24.b2, blk, 2, false),
            },
            toggled24: Triple24 {
                b0: avg2_fed(self.toggled24.b0, blk, 0, true),
                b1: self.toggled24.b1,
                b2: avg2_fed(self.toggled24.b2, blk, 2, true),
            },
            blocks: (self.blocks + 1) as u32,
        }
    }

    pub fn new() -> (r: Bank)
        ensures
            r == empty_bank(),
            r.wf(),
    {
        Bank {
            as_is16: Pair16 { b0: Avg::new(), b1: Avg::new() },
            toggled16: Pair16 { b0: Avg::new(), b1: Avg::new() },
            as_is24: Triple24 { b0: Avg2::new(), b1: Avg2::new(), b2: Avg2::new() },
            toggled24: Triple24 { b0: Avg2::new(), b1: Avg2::new(), b2: Avg2::new() },
            blocks: 0,
        }
    }

    fn feed_at(&mut self, data: &[u8], off: usize)
        requires
            old(self).wf(),
            old(self).blocks < MAX_BLOCKS,
            off + BLOCK <= data@.len(),
        ensures
            *final(self) == old(self).ingested(data@.subrange(off as int, off + BLOCK)),
            final(self).wf(),
            final(self).blocks == old(self).blocks + 1,
    {
        reveal(Bank::ingested);
        let ghost blk = data@.subrange(off as int, off + BLOCK);
        let mut i: usize = 0;
        while i < 3
            invariant
                0 <= i <= 3,
                off + BLOCK <= data.len(),
                blk == data@.subrange(off as int, off + BLOCK),
                old(self).wf(),
                old(self).blocks < MAX_BLOCKS,
                self.counts(3 * old(self).blocks + i, 2 * old(self).blocks),
                self.blocks == old(self).blocks,
                self.as_is24 == old(self).as_is24,
                self.toggled24 == old(self).toggled24,
                i == 0 ==> self.as_is16 == old(self).as_is16 && self.toggled16
                    == old(self).toggled16,
                i == 1 ==> self.as_is16 == (Pair16 {
                    b0: old(self).as_is16.b0.added(as_is(blk[0])),
                    b1: old(self).as_is16.b1.added(as_is(blk[1])),
                }) && self.toggled16 == (Pair16 {
                    b0: old(self).toggled16.b0.added(toggled(blk[0])),
                    b1: old(self).toggled16.b1.added(toggled(blk[1])),
                }),
                i == 2 ==> self.as_is16 == (Pair16 {
                    b0: old(self).as_is16.b0.added(as_is(blk[0])).added(as_is(blk[4])),
                    b1: old(self).as_is16.b1.added(as_is(blk[1])).added(as_is(blk[5])),
                }) && self.toggled16 == (Pair16 {
                    b0: old(self).toggled16.b0.added(toggled(blk[0])).added(toggled(blk[4])),
                    b1: old(self).toggled16.b1.added(toggled(blk[1])).added(toggled(blk[5])),
                }),
                i == 3 ==> self.as_is16 == pair16_fed(old(self).as_is16, blk, false)
                    && self.toggled16 == pair16_fed(old(self).toggled16, blk, true),
            decreases 3 - i,
        {
            let p = off + 4 * i;
            let x0 = data[p];
            let x1 = data[p + 1];
            assert(x0 == blk[4 * i as int] && x1 == blk[4 * i + 1]);
            self.as_is16.b0.add(read_as_is(x0));
            self.as_is16.b1.add(read_as_is(x1));
            self.toggled16.b0.add(read_toggled(x0));
            self.toggled16.b1.add(read_toggled(x1));
            i = i + 1;
        }
        let mut s: usize = 0;
        while s < 2
            invariant
                0 <= s <= 2,
                off + BLOCK <= data.len(),
                blk == data@.subrange(off as int, off + BLOCK),
                old(self).wf(),
                old(self).blocks < MAX_BLOCKS,
                self.blocks == old(self).blocks,
                self.as_is16 == pair16_fed(old(self).as_is16, blk, false),
                self.toggled16 == pair16_fed(old(self).toggled16, blk, true),
                self.counts(3 * old(self).blocks + 3, 2 * old(self).blocks + s),
                s == 0 ==> self.as_is24 == old(self).as_is24 && self.toggled24
                    == old(self).toggled24,
                s == 1 ==> self.as_is24 == (Triple24 {
                    b0: old(self).as_is24.b0.added(as_is(blk[0]), as_is(blk[3])),
                    b1: old(self).as_is24.b1.added(as_is(blk[1]), as_is(blk[4])),
                    b2: old(self).as_is24.b2.added(as_is(blk[2]), as_is(blk[5])),
                }) && self.toggled24.b0 == old(self).toggled24.b0.added(
                    toggled(blk[0]),
                    toggled(blk[3]),
                ) && self.toggled24.b2 == old(self).toggled24.b2.added(
                    toggled(blk[2]),
                    toggled(blk[5]),
                ),
                s == 2 ==> self.as_is24.b0 == avg2_fed(old(self).as_is24.b0, blk, 0, false)
                    && self.as_is24.b1 == avg2_fed(old(self).as_is24.b1, blk, 1, false)
                    && self.as_is24.b2 == avg2_fed(old(self).as_is24.b2, blk, 2, false)
                    && self.toggled24.b0 == avg2_fed(old(self).toggled24.b0, blk, 0, true)
                    && self.toggled24.b2 == avg2_fed(old(self).toggled24.b2, blk, 2, true),
            decreases 2 - s,
        {
            let p = off + 6 * s;
            let x0 = data[p];
            let x1 = data[p + 1];
            let x2 = data[p + 2];
            let y0 = data[p + 3];
            let y1 = data[p + 4];
            let y2 = data[p + 5];
            assert(x0 == blk[6 * s as int] && x1 == blk[6 * s + 1] && x2 == blk[6 * s + 2]);
            assert(y0 == blk[6 * s + 3] && y1 == blk[6 * s + 4] && y2 == blk[6 * s + 5]);
            self.as_is24.b0.add(read_as_is(x0), read_as_is(y0));
            self.as_is24.b1.add(read_as_is(x1), read_as_is(y1));
            self.as_is24.b2.add(read_as_is(x2), read_as_is(y2));
            self.toggled24.b0.add(read_toggled(x0), read_toggled(y0));
            self.toggled24.b2.add(read_toggled(x2), read_toggled(y2));
            s = s + 1;
        }
        self.blocks = self.blocks + 1;
    }

    /// Feeds one whole analysis block.
    pub fn ingest_block(&mut self, blk: &[u8])
        requires
            old(self).wf(),
            old(self).blocks < MAX_BLOCKS,
            blk@.len() == BLOCK,
        ensures
            *final(self) == old(self).ingested(blk@),
            final(self).wf(),
    {
        assert(blk@.subrange(0, BLOCK as int) =~= blk@);
        self.feed_at(blk, 0);
    }
}

/// The bank after the first `k` whole blocks of `s`.
pub open spec fn bank_after(s: Seq<u8>, k: nat) -> Bank
    decreases k,
{
    if k == 0 {
        empty_bank()
    } else {
        bank_after(s, (k - 1) as nat).ingested(s.subrange(12 * (k - 1), 12 * k as int))
    }
}

/// The bank of a whole stream: its whole blocks in order; a trailing partial
/// block is left out.
pub open spec fn bank_of(s: Seq<u8>) -> Bank {
    bank_after(s, s.len() / 12)
}

/// Feeds every whole block of `data`.
pub fn analyze(data: &[u8]) -> (r: Bank)
    requires
        data@.len() / 12 <= MAX_BLOCKS,
    ensures
        r == bank_of(data@),
        r.wf(),
{
    let n = data.len() / BLOCK;
    let mut bank = Bank::new();
    let mut i: usize = 0;
    while i < n
        invariant
            n == data.len() / 12,
            n <= MAX_BLOCKS,
            i <= n,
            bank.wf(),
            bank.blocks == i,
            bank == bank_after(data@, i as nat),
        decreases n - i,
    {
        assert(12 * i + 12 <= data.len()) by (nonlinear_arith)
            requires
                i < n,
                n == data.len() / 12,
        ;
        let ghost prev = bank;
        bank.feed_at(data, BLOCK * i);
        assert(bank_after(data@, (i + 1) as nat) == prev.ingested(
            data@.subrange(12 * i, 12 * i + 12),
        ));
        i = i + 1;
    }
    bank
}

} // verus!
