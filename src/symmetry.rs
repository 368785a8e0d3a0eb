//! Byte-order symmetry of the scores.
use vstd::prelude::*;
use crate::bank::{avg2_fed, bank_after, bank_of, pair16_fed, Bank, Pair16, Triple24};
use crate::score::results_of;

verus! {

/// The stream with the two bytes of every 16-bit sample exchanged; a last odd
/// byte stays where it is.
pub open spec fn swap16(s: Seq<u8>) -> Seq<u8> {
    Seq::new(
        s.len(),
        |i: int|
            if i % 2 == 0 && i + 1 < s.len() {
                s[i + 1]
            } else if i % 2 == 1 {
                s[i - 1]
            } else {
                s[i]
            },
    )
}

pub open spec fn swap_pair(p: Pair16) -> Pair16 {
    Pair16 { b0: p.b1, b1: p.b0 }
}

proof fn lemma_ingested16(b: Bank, blk: Seq<u8>)
    ensures
        b.ingested(blk).as_is16 == pair16_fed(b.as_is16, blk, false),
        b.ingested(blk).toggled16 == pair16_fed(b.toggled16, blk, true),
{
    reveal(Bank::ingested);
}

proof fn lemma_pair16_swapped(p: Pair16, blk: Seq<u8>, sblk: Seq<u8>, t: bool)
    requires
        blk.len() == 12,
        sblk.len() == 12,
        forall|j: int| 0 <= j < 12 && j % 2 == 0 ==> #[trigger] sblk[j] == blk[j + 1] && sblk[j + 1] == blk[j],
    ensures
        pair16_fed(swap_pair(p), sblk, t) == swap_pair(pair16_fed(p, blk, t)),
{
    assert(sblk[0] == blk[1] && sblk[1] == blk[0]);
    assert(sblk[4] == blk[5] && sblk[5] == blk[4]);
    assert(sblk[8] == blk[9] && sblk[9] == blk[8]);
}

proof fn lemma_block_swapped(s: Seq<u8>, lo: int)
    requires
        0 <= lo,
        lo + 12 <= s.len(),
        lo % 2 == 0,
    ensures
        forall|j: int|
            0 <= j < 12 && j % 2 == 0 ==> #[trigger] swap16(s).subrange(lo, lo + 12)[j]
                == s.subrange(lo, lo + 12)[j + 1] && swap16(s).subrange(lo, lo + 12)[j + 1]
                == s.subrange(lo, lo + 12)[j],
{
    assert forall|j: int| 0 <= j < 12 && j % 2 == 0 implies #[trigger] swap16(s).subrange(
        lo,
        lo + 12,
    )[j] == s.subrange(lo, lo + 12)[j + 1] && swap16(s).subrange(lo, lo + 12)[j + 1]
        == s.subrange(lo, lo + 12)[j] by {
        assert((lo + j) % 2 == 0);
        assert((lo + j + 1) % 2 == 1);
    }
}

proof fn lemma_swap16_bank(s: Seq<u8>, k: nat)
    requires
        12 * k <= s.len(),
    ensures
        bank_after(swap16(s), k).as_is16 == swap_pair(bank_after(s, k).as_is16),
        bank_after(swap16(s), k).toggled16 == swap_pair(bank_after(s, k).toggled16),
    decreases k,
{
    if k > 0 {
        lemma_swap16_bank(s, (k - 1) as nat);
        let lo = 12 * (k - 1);
        assert(lo % 2 == 0);
        let blk = s.subrange(lo, lo + 12);
        let sblk = swap16(s).subrange(lo, lo + 12);
        assert(12 * k as int == lo + 12);
        lemma_block_swapped(s, lo);
        let prev = bank_after(s, (k - 1) as nat);
        let sprev = bank_after(swap16(s), (k - 1) as nat);
        lemma_ingested16(prev, blk);
        lemma_ingested16(sprev, sblk);
        lemma_pair16_swapped(prev.as_is16, blk, sblk, false);
        lemma_pair16_swapped(prev.toggled16, blk, sblk, true);
    }
}

/// Exchanging the two bytes of every 16-bit sample exchanges the
/// little-endian and big-endian 16-bit scores, signed and unsigned alike.
pub proof fn lemma_swap16_exchanges_scores(s: Seq<u8>)
    ensures
        results_of(bank_of(swap16(s))).s16le == results_of(bank_of(s)).s16be,
        results_of(bank_of(swap16(s))).s16be == results_of(bank_of(s)).s16le,
        results_of(bank_of(swap16(s))).u16le == results_of(bank_of(s)).u16be,
        results_of(bank_of(swap16(s))).u16be == results_of(bank_of(s)).u16le,
{
    assert(s.len() / 12 * 12 <= s.len());
    lemma_swap16_bank(s, s.len() / 12);
}

/// The stream with the first and last bytes of every 24-bit sample
/// exchanged; a last partial sample stays as it is.
pub open spec fn swap24(s: Seq<u8>) -> Seq<u8> {
    Seq::new(
        s.len(),
        |i: int|
            if i % 3 == 0 && i + 2 < s.len() {
                s[i + 2]
            } else if i % 3 == 2 {
                s[i - 2]
            } else {
                s[i]
            },
    )
}

pub open spec fn swap_triple(t: Triple24) -> Triple24 {
    Triple24 { b0: t.b2, b1: t.b1, b2: t.b0 }
}

proof fn lemma_ingested24(b: Bank, blk: Seq<u8>)
    ensures
        b.ingested(blk).as_is24 == (Triple24 {
            b0: avg2_fed(b.as_is24.b0, blk, 0, false),
            b1: avg2_fed(b.as_is24.b1, blk, 1, false),
            b2: avg2_fed(b.as_is24.b2, blk, 2, false),
        }),
        b.ingested(blk).toggled24 == (Triple24 {
            b0: avg2_fed(b.toggled24.b0, blk, 0, true),
            b1: b.toggled24.b1,
            b2: avg2_fed(b.toggled24.b2, blk, 2, true),
        }),
{
    reveal(Bank::ingested);
}

proof fn lemma_block_swapped24(s: Seq<u8>, lo: int)
    requires
        0 <= lo,
        lo + 12 <= s.len(),
        lo % 3 == 0,
    ensures
        forall|j: int|
            0 <= j < 12 && j % 3 == 0 ==> #[trigger] swap24(s).subrange(lo, lo + 12)[j]
                == s.subrange(lo, lo + 12)[j + 2] && swap24(s).subrange(lo, lo + 12)[j + 2]
                == s.subrange(lo, lo + 12)[j] && swap24(s).subrange(lo, lo + 12)[j + 1]
                == s.subrange(lo, lo + 12)[j + 1],
{
    assert forall|j: int| 0 <= j < 12 && j % 3 == 0 implies #[trigger] swap24(s).subrange(
        lo,
        lo + 12,
    )[j] == s.subrange(lo, lo + 12)[j + 2] && swap24(s).subrange(lo, lo + 12)[j + 2]
        == s.subrange(lo, lo + 12)[j] && swap24(s).subrange(lo, lo + 12)[j + 1] == s.subrange(
        lo,
        lo + 12,
    )[j + 1] by {
        assert((lo + j) % 3 == 0);
        assert((lo + j + 1) % 3 == 1);
        assert((lo + j + 2) % 3 == 2);
    }
}

proof fn lemma_swap24_bank(s: Seq<u8>, k: nat)
    requires
        12 * k <= s.len(),
    ensures
        bank_after(swap24(s), k).as_is24 == swap_triple(bank_after(s, k).as_is24),
        bank_after(swap24(s), k).toggled24 == swap_triple(bank_after(s, k).toggled24),
    decreases k,
{
    if k > 0 {
        lemma_swap24_bank(s, (k - 1) as nat);
        let lo = 12 * (k - 1);
        assert(lo % 3 == 0);
        let blk = s.subrange(lo, lo + 12);
        let sblk = swap24(s).subrange(lo, lo + 12);
        assert(12 * k as int == lo + 12);
        lemma_block_swapped24(s, lo);
        assert(sblk[0] == blk[2] && sblk[2] == blk[0] && sblk[1] == blk[1]);
        assert(sblk[3] == blk[5] && sblk[5] == blk[3] && sblk[4] == blk[4]);
        assert(sblk[6] == blk[8] && sblk[8] == blk[6] && sblk[7] == blk[7]);
        assert(sblk[9] == blk[11] && sblk[11] == blk[9] && sblk[10] == blk[10]);
        let prev = bank_after(s, (k - 1) as nat);
        let sprev = bank_after(swap24(s), (k - 1) as nat);
        lemma_ingested24(prev, blk);
        lemma_ingested24(sprev, sblk);
    }
}

/// Exchanging the outer bytes of every 24-bit sample exchanges the
/// little-endian and big-endian 24-bit scores, signed and unsigned alike.
pub proof fn lemma_swap24_exchanges_scores(s: Seq<u8>)
    ensures
        results_of(bank_of(swap24(s))).s24le == results_of(bank_of(s)).s24be,
        results_of(bank_of(swap24(s))).s24be == results_of(bank_of(s)).s24le,
        results_of(bank_of(swap24(s))).u24le == results_of(bank_of(s)).u24be,
        results_of(bank_of(swap24(s))).u24be == results_of(bank_of(s)).u24le,
{
    assert(s.len() / 12 * 12 <= s.len());
    lemma_swap24_bank(s, s.len() / 12);
}

} // verus!
