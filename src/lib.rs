//! Detection of the sample format of headerless PCM audio from the statistics
//! of its raw bytes alone.
use vstd::prelude::*;

pub mod accum;
pub mod bank;
pub mod score;
pub mod symmetry;

use crate::bank::{analyze, bank_of, empty_bank, MAX_BLOCKS};
use crate::score::{
    accepts, hyp_type, pick, results, results_of, score_le, score_wf, verdict, verdict_ratio, zero_score,
    Inconclusive, PcmResults, PcmType, Score,
};

verus! {

/// The verdict on a stream: its whole 12-byte blocks analysed, the hypotheses
/// scored and ranked.
pub open spec fn detection(s: Seq<u8>, t: u64) -> Result<PcmType, Inconclusive> {
    verdict(results_of(bank_of(s)), t)
}

/// The verdict on a whole stream: its whole 12-byte blocks are analysed, the
/// eight hypotheses scored, and the best one given where it beats the
/// runner-up by at least `threshold` times.
pub fn detect(data: &[u8], threshold: u64) -> (r: Result<PcmType, Inconclusive>)
    requires
        data@.len() / 12 <= MAX_BLOCKS,
    ensures
        r == detection(data@, threshold),
{
    let bank = analyze(data);
    let res = results(&bank);
    res.guess_type_with(threshold)
}

/// Detection depends on the bytes alone: two runs on equal contents give the
/// same verdict.
pub proof fn lemma_detection_idempotent(a: Seq<u8>, b: Seq<u8>, t: u64)
    requires
        a == b,
    ensures
        detection(a, t) == detection(b, t),
{
}

proof fn lemma_pick_in_range(s: Seq<Score>, n: nat, skip: int)
    requires
        n <= s.len(),
    ensures
        pick(s, n, skip) == -1 || (0 <= pick(s, n, skip) < n && pick(s, n, skip) != skip),
        n >= 2 || (n == 1 && skip != 0) ==> pick(s, n, skip) >= 0,
    decreases n,
{
    if n > 0 {
        lemma_pick_in_range(s, (n - 1) as nat, skip);
    }
}

/// Where the best score is positive and exactly `tn / td` times the
/// runner-up, the best hypothesis is the verdict; where it is below `tn / td`
/// times the runner-up, there is no verdict.
pub proof fn lemma_threshold_boundary(r: PcmResults, tn: u64, td: u64)
    ensures
        ({
            let s = r.scores();
            let a = pick(s, 8, -1);
            let b = pick(s, 8, a);
            &&& (s[a].num > 0 && s[a].num * s[b].den * td == tn * (s[b].num * s[a].den))
                ==> verdict_ratio(r, tn, td) == Ok::<PcmType, Inconclusive>(hyp_type(a))
            &&& s[a].num * s[b].den * td < tn * (s[b].num * s[a].den) ==> verdict_ratio(
                r,
                tn,
                td,
            ) is Err
        }),
{
}

/// A stream shorter than one block has no verdict, and its two best scores
/// are both zero.
pub proof fn lemma_short_stream_inconclusive(s: Seq<u8>, t: u64)
    requires
        s.len() < 12,
    ensures
        detection(s, t) is Err,
        detection(s, t)->Err_0.best_score.num == 0,
        detection(s, t)->Err_0.second_score.num == 0,
{
    assert(bank_of(s) == empty_bank());
    let r = results_of(empty_bank());
    let sc = r.scores();
    assert(forall|i: int| 0 <= i < 8 ==> sc[i] == zero_score());
    lemma_pick_in_range(sc, 8, -1);
    let a = pick(sc, 8, -1);
    lemma_pick_in_range(sc, 8, a);
    assert(!accepts(sc[a], sc[pick(sc, 8, a)], t));
}

proof fn lemma_le_trans(a: Score, b: Score, c: Score)
    requires
        a.den > 0,
        b.den > 0,
        c.den > 0,
        score_le(a, b),
        score_le(b, c),
    ensures
        score_le(a, c),
{
    let (an, ad, bn, bd, cn, cd) = (
        a.num as int,
        a.den as int,
        b.num as int,
        b.den as int,
        c.num as int,
        c.den as int,
    );
    assert(an * bd * cd <= bn * ad * cd) by (nonlinear_arith)
        requires
            an * bd <= bn * ad,
            cd > 0,
    ;
    assert(bn * cd * ad <= cn * bd * ad) by (nonlinear_arith)
        requires
            bn * cd <= cn * bd,
            ad > 0,
    ;
    assert(an * cd <= cn * ad) by (nonlinear_arith)
        requires
            an * bd * cd <= bn * ad * cd,
            bn * cd * ad <= cn * bd * ad,
            bd > 0,
    ;
}

proof fn lemma_pick_is_greatest(s: Seq<Score>, n: nat, skip: int)
    requires
        n <= s.len(),
        forall|i: int| 0 <= i < s.len() ==> #[trigger] s[i].den > 0,
    ensures
        pick(s, n, skip) >= 0 ==> forall|j: int|
            0 <= j < n && j != skip ==> score_le(#[trigger] s[j], s[pick(s, n, skip)]),
        pick(s, n, skip) >= 0 ==> forall|j: int|
            0 <= j < pick(s, n, skip) && j != skip ==> !score_le(s[pick(s, n, skip)], #[trigger] s[j]),
    decreases n,
{
    lemma_pick_in_range(s, n, skip);
    if n > 0 {
        let q = n - 1;
        lemma_pick_is_greatest(s, q as nat, skip);
        lemma_pick_in_range(s, q as nat, skip);
        let p = pick(s, q as nat, skip);
        let r = pick(s, n, skip);
        if q != skip && p >= 0 && !score_le(s[q], s[p]) {
            assert forall|j: int| 0 <= j < n && j != skip implies score_le(#[trigger] s[j], s[r]) by {
                if j < q {
                    lemma_le_trans(s[j], s[p], s[q]);
                }
            }
            assert forall|j: int| 0 <= j < r && j != skip implies !score_le(s[r], #[trigger] s[j]) by {
                if score_le(s[r], s[j]) {
                    lemma_le_trans(s[r], s[j], s[p]);
                }
            }
        }
    }
}

/// The verdict ranks the hypotheses: the best score is at least every other,
/// the runner-up at least every score but the best, and of equal scores the
/// one earlier in hypothesis order ranks first.
pub proof fn lemma_verdict_ranks(r: PcmResults)
    requires
        r.wf(),
    ensures
        ({
            let s = r.scores();
            let a = pick(s, 8, -1);
            let b = pick(s, 8, a);
            &&& 0 <= a < 8 && 0 <= b < 8 && a != b
            &&& forall|j: int| 0 <= j < 8 ==> score_le(#[trigger] s[j], s[a])
            &&& forall|j: int| 0 <= j < 8 && j != a ==> score_le(#[trigger] s[j], s[b])
            &&& forall|j: int| 0 <= j < a ==> !score_le(s[a], #[trigger] s[j])
            &&& forall|j: int| 0 <= j < b && j != a ==> !score_le(s[b], #[trigger] s[j])
        }),
{
    let s = r.scores();
    assert forall|i: int| 0 <= i < s.len() implies #[trigger] s[i].den > 0 by {
        assert(score_wf(s[i]));
    }
    lemma_pick_in_range(s, 8, -1);
    let a = pick(s, 8, -1);
    lemma_pick_in_range(s, 8, a);
    lemma_pick_is_greatest(s, 8, -1);
    lemma_pick_is_greatest(s, 8, a);
}

} // verus!
