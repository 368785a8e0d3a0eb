//! Scores of the eight format hypotheses and the decision between them.
//!
//! Every slot of one grid counts the same number of samples, so a ratio of
//! difference averages equals the ratio of their sums. The scores of a
//! `PcmResults` are kept as exact fractions of sums, each equal to the
//! hypothesis's score over averages times the common factor `scale` (six times
//! the number of whole blocks). Being common to all eight, the factor leaves
//! their order and their ratios as they are; ranking on the scaled fractions
//! keeps every product within `u128`. Reported scores are divided by it.
use vstd::prelude::*;
use crate::accum::DIFFSUM_MAX;
use crate::bank::{Bank, MAX_BLOCKS};

verus! {

/// Default least ratio of the best score to the runner-up for a verdict.
pub const THRESHOLD: u64 = 4;

/// Largest numerator of a score built from difference sums.
pub const SCORE_NUM_MAX: u128 = 3598498598503209291151875;

/// A sample format.
#[derive(Clone, Copy, Debug, PartialEq, Eq, Structural)]
pub struct PcmType {
    pub signed: bool,
    pub bits24: bool,
    pub big_endian: bool,
}

/// A non-negative score `num / den`.
#[derive(Clone, Copy, Debug, PartialEq, Eq, Structural)]
pub struct Score {
    pub num: u128,
    pub den: u128,
}

/// The score of each hypothesis, times `scale`.
#[derive(Clone, Copy, Debug, PartialEq, Eq, Structural)]
pub struct PcmResults {
    pub s16le: Score,
    pub s16be: Score,
    pub u16le: Score,
    pub u16be: Score,
    pub s24le: Score,
    pub s24be: Score,
    pub u24le: Score,
    pub u24be: Score,
    pub scale: u128,
}

/// An undecided outcome: the two best hypotheses, best first, with their
/// scores over averages.
#[derive(Clone, Copy, Debug, PartialEq, Eq, Structural)]
pub struct Inconclusive {
    pub best: PcmType,
    pub best_score: Score,
    pub second: PcmType,
    pub second_score: Score,
}

pub open spec fn score_wf(s: Score) -> bool {
    0 < s.den <= DIFFSUM_MAX && s.num <= SCORE_NUM_MAX
}

pub open spec fn zero_score() -> Score {
    Score { num: 0, den: 1 }
}

/// `a <= b` as fractions.
pub open spec fn score_le(a: Score, b: Score) -> bool {
    a.num * b.den <= b.num * a.den
}

pub open spec fn min_score(a: Score, b: Score) -> Score {
    if score_le(a, b) {
        a
    } else {
        b
    }
}

/// `k * reference * opposite / candidate`, or zero where the candidate slot
/// saw no variation.
pub open spec fn hyp_score(k: int, reference: u64, opposite: u64, candidate: u64) -> Score {
    if candidate > 0 {
        Score { num: (k * reference * opposite) as u128, den: candidate as u128 }
    } else {
        zero_score()
    }
}

/// A 24-bit slot that saw no variation takes the middle byte's sum: content
/// of 16 bits padded with a zero byte.
pub open spec fn repaired(x: u64, mid: u64) -> u64 {
    if x == 0 {
        mid
    } else {
        x
    }
}

/// One channel's 24-bit score: middle byte against the candidate
/// most-significant byte, times that byte under the other reading.
pub open spec fn channel_score(mid: u64, same: u64, other: u64) -> Score {
    hyp_score(3, mid, repaired(other, mid), repaired(same, mid))
}

/// A scaled score divided by the common factor.
pub open spec fn shown(s: Score, scale: u128) -> Score {
    Score { num: s.num, den: (s.den * scale) as u128 }
}

/// Six times the number of blocks, or 1 where there is none and every score
/// is zero.
pub open spec fn scale_of(b: Bank) -> u128 {
    if b.blocks == 0 {
        1
    } else {
        (6 * b.blocks) as u128
    }
}

/// The scores of a bank, scaled.
pub open spec fn results_of(b: Bank) -> PcmResults {
    let a16 = b.as_is16;
    let t16 = b.toggled16;
    let a24 = b.as_is24;
    let t24 = b.toggled24;
    PcmResults {
        s16le: hyp_score(2, a16.b0.diffsum, t16.b1.diffsum, a16.b1.diffsum),
        s16be: hyp_score(2, a16.b1.diffsum, t16.b0.diffsum, a16.b0.diffsum),
        u16le: hyp_score(2, a16.b0.diffsum, a16.b1.diffsum, t16.b1.diffsum),
        u16be: hyp_score(2, a16.b1.diffsum, a16.b0.diffsum, t16.b0.diffsum),
        s24le: min_score(
            channel_score(a24.b1.l.diffsum, a24.b2.l.diffsum, t24.b2.l.diffsum),
            channel_score(a24.b1.r.diffsum, a24.b2.r.diffsum, t24.b2.r.diffsum),
        ),
        s24be: min_score(
            channel_score(a24.b1.l.diffsum, a24.b0.l.diffsum, t24.b0.l.diffsum),
            channel_score(a24.b1.r.diffsum, a24.b0.r.diffsum, t24.b0.r.diffsum),
        ),
        u24le: min_score(
            channel_score(a24.b1.l.diffsum, t24.b2.l.diffsum, a24.b2.l.diffsum),
            channel_score(a24.b1.r.diffsum, t24.b2.r.diffsum, a24.b2.r.diffsum),
        ),
        u24be: min_score(
            channel_score(a24.b1.l.diffsum, t24.b0.l.diffsum, a24.b0.l.diffsum),
            channel_score(a24.b1.r.diffsum, t24.b0.r.diffsum, a24.b0.r.diffsum),
        ),
        scale: scale_of(b),
    }
}

/// `(a / n) / (c / n) * (b / n)` for three sums over `n` samples each: a
/// score over difference averages, zero where the divisor average is not
/// positive.
pub open spec fn avg_score(a: u64, b: u64, c: u64, n: int) -> Score {
    if c > 0 {
        Score { num: (a * b) as u128, den: (c * n) as u128 }
    } else {
        zero_score()
    }
}

/// One channel's 24-bit score over averages, after the repair of a slot
/// whose average is not positive.
pub open spec fn channel_avg_score(mid: u64, same: u64, other: u64, n: int) -> Score {
    avg_score(mid, repaired(other, mid), repaired(same, mid), n)
}

/// Two fractions with the same value.
pub open spec fn same_value(x: Score, y: Score) -> bool {
    x.num * y.den == y.num * x.den
}

/// The eight scores over difference averages, in hypothesis order: a 16-bit
/// slot averages over `3 * blocks` samples, a 24-bit one over `2 * blocks`.
pub open spec fn avg_scores(b: Bank) -> Seq<Score> {
    let a16 = b.as_is16;
    let t16 = b.toggled16;
    let a24 = b.as_is24;
    let t24 = b.toggled24;
    let n16 = 3 * b.blocks;
    let n24 = 2 * b.blocks;
    seq![
        avg_score(a16.b0.diffsum, t16.b1.diffsum, a16.b1.diffsum, n16),
        avg_score(a16.b1.diffsum, t16.b0.diffsum, a16.b0.diffsum, n16),
        avg_score(a16.b0.diffsum, a16.b1.diffsum, t16.b1.diffsum, n16),
        avg_score(a16.b1.diffsum, a16.b0.diffsum, t16.b0.diffsum, n16),
        min_score(
            channel_avg_score(a24.b1.l.diffsum, a24.b2.l.diffsum, t24.b2.l.diffsum, n24),
            channel_avg_score(a24.b1.r.diffsum, a24.b2.r.diffsum, t24.b2.r.diffsum, n24),
        ),
        min_score(
            channel_avg_score(a24.b1.l.diffsum, a24.b0.l.diffsum, t24.b0.l.diffsum, n24),
            channel_avg_score(a24.b1.r.diffsum, a24.b0.r.diffsum, t24.b0.r.diffsum, n24),
        ),
        min_score(
            channel_avg_score(a24.b1.l.diffsum, t24.b2.l.diffsum, a24.b2.l.diffsum, n24),
            channel_avg_score(a24.b1.r.diffsum, t24.b2.r.diffsum, a24.b2.r.diffsum, n24),
        ),
        min_score(
            channel_avg_score(a24.b1.l.diffsum, t24.b0.l.diffsum, a24.b0.l.diffsum, n24),
            channel_avg_score(a24.b1.r.diffsum, t24.b0.r.diffsum, a24.b0.r.diffsum, n24),
        ),
    ]
}

proof fn lemma_scaled_value(k: int, a: u64, b: u64, c: u64, blocks: int)
    requires
        k == 2 || k == 3,
        1 <= blocks <= MAX_BLOCKS,
        a <= DIFFSUM_MAX,
        b <= DIFFSUM_MAX,
        c <= DIFFSUM_MAX,
    ensures
        same_value(
            shown(hyp_score(k, a, b, c), (6 * blocks) as u128),
            avg_score(a, b, c, 6 * blocks / k),
        ),
        shown(hyp_score(k, a, b, c), (6 * blocks) as u128).den > 0,
        avg_score(a, b, c, 6 * blocks / k).den > 0,
{
    let s = 6 * blocks;
    let n = s / k;
    assert(n * k == s);
    lemma_mul_bound(a as int, b as int, DIFFSUM_MAX as int, DIFFSUM_MAX as int);
    lemma_mul_bound(k, a * b, 3, DIFFSUM_MAX * DIFFSUM_MAX);
    assert(k * a * b == k * (a * b)) by (nonlinear_arith);
    if c > 0 {
        lemma_mul_bound(c as int, n, DIFFSUM_MAX as int, 6 * MAX_BLOCKS);
        lemma_mul_bound(c as int, s, DIFFSUM_MAX as int, 6 * MAX_BLOCKS);
        lemma_mul_bound(1, n, c as int, s);
        assert(c * n > 0 && c * s > 0) by (nonlinear_arith)
            requires
                c > 0,
                n > 0,
                s > 0,
        ;
        assert(k * (a * b) * (c * n) == (a * b) * (c * s)) by (nonlinear_arith)
            requires
                n * k == s,
        ;
        let x = shown(hyp_score(k, a, b, c), s as u128);
        let y = avg_score(a, b, c, n);
        assert(x.num == k * (a * b));
        assert(x.den == c * s);
        assert(y.num == a * b);
        assert(y.den == c * n);
    } else {
        lemma_mul_bound(1, s, 1, 6 * MAX_BLOCKS);
    }
}

proof fn lemma_le_same_value(x: Score, y: Score, xv: Score, yv: Score)
    requires
        x.den > 0,
        y.den > 0,
        xv.den > 0,
        yv.den > 0,
        same_value(x, xv),
        same_value(y, yv),
    ensures
        score_le(x, y) == score_le(xv, yv),
{
    let (xn, xd, yn, yd) = (x.num as int, x.den as int, y.num as int, y.den as int);
    let (un, ud, vn, vd) = (xv.num as int, xv.den as int, yv.num as int, yv.den as int);
    assert((xn * yd <= yn * xd) == (un * vd <= vn * ud)) by (nonlinear_arith)
        requires
            xn * ud == un * xd,
            yn * vd == vn * yd,
            xd > 0,
            yd > 0,
            ud > 0,
            vd > 0,
            xn >= 0,
            yn >= 0,
            un >= 0,
            vn >= 0,
    ;
}

proof fn lemma_min_scaled(x: Score, y: Score, s: u128, xv: Score, yv: Score)
    requires
        score_wf(x),
        score_wf(y),
        1 <= s <= 6 * MAX_BLOCKS,
        xv.den > 0,
        yv.den > 0,
        same_value(shown(x, s), xv),
        same_value(shown(y, s), yv),
    ensures
        same_value(shown(min_score(x, y), s), min_score(xv, yv)),
{
    lemma_mul_bound(x.den as int, s as int, DIFFSUM_MAX as int, 6 * MAX_BLOCKS);
    lemma_mul_bound(y.den as int, s as int, DIFFSUM_MAX as int, 6 * MAX_BLOCKS);
    let (xn, xd, yn, yd, si) = (x.num as int, x.den as int, y.num as int, y.den as int, s as int);
    assert(xd * si > 0 && yd * si > 0) by (nonlinear_arith)
        requires
            xd > 0,
            yd > 0,
            si > 0,
    ;
    assert((xn * yd <= yn * xd) == (xn * (yd * si) <= yn * (xd * si))) by (nonlinear_arith)
        requires
            si > 0,
    ;
    lemma_le_same_value(shown(x, s), shown(y, s), xv, yv);
}

proof fn lemma_channel_scaled(mid: u64, same: u64, other: u64, blocks: int)
    requires
        1 <= blocks <= MAX_BLOCKS,
        mid <= DIFFSUM_MAX,
        same <= DIFFSUM_MAX,
        other <= DIFFSUM_MAX,
    ensures
        same_value(
            shown(channel_score(mid, same, other), (6 * blocks) as u128),
            channel_avg_score(mid, same, other, 2 * blocks),
        ),
        channel_avg_score(mid, same, other, 2 * blocks).den > 0,
        score_wf(channel_score(mid, same, other)),
{
    lemma_scaled_value(3, mid, repaired(other, mid), repaired(same, mid), blocks);
    assert(6 * blocks / 3 == 2 * blocks);
    lemma_hyp_score_wf(3, mid, repaired(other, mid), repaired(same, mid));
}

proof fn lemma_hyp_score_wf(k: int, a: u64, b: u64, c: u64)
    requires
        1 <= k <= 3,
        a <= DIFFSUM_MAX,
        b <= DIFFSUM_MAX,
        c <= DIFFSUM_MAX,
    ensures
        score_wf(hyp_score(k, a, b, c)),
{
    lemma_mul_bound(a as int, b as int, DIFFSUM_MAX as int, DIFFSUM_MAX as int);
    lemma_mul_bound(k, a * b, 3, DIFFSUM_MAX * DIFFSUM_MAX);
    assert(k * a * b == k * (a * b)) by (nonlinear_arith);
}

proof fn lemma_min24(b: Bank, mids: (u64, u64), sames: (u64, u64), others: (u64, u64))
    requires
        1 <= b.blocks <= MAX_BLOCKS,
        mids.0 <= DIFFSUM_MAX && mids.1 <= DIFFSUM_MAX,
        sames.0 <= DIFFSUM_MAX && sames.1 <= DIFFSUM_MAX,
        others.0 <= DIFFSUM_MAX && others.1 <= DIFFSUM_MAX,
    ensures
        same_value(
            shown(
                min_score(
                    channel_score(mids.0, sames.0, others.0),
                    channel_score(mids.1, sames.1, others.1),
                ),
                scale_of(b),
            ),
            min_score(
                channel_avg_score(mids.0, sames.0, others.0, 2 * b.blocks),
                channel_avg_score(mids.1, sames.1, others.1, 2 * b.blocks),
            ),
        ),
{
    lemma_channel_scaled(mids.0, sames.0, others.0, b.blocks as int);
    lemma_channel_scaled(mids.1, sames.1, others.1, b.blocks as int);
    lemma_min_scaled(
        channel_score(mids.0, sames.0, others.0),
        channel_score(mids.1, sames.1, others.1),
        scale_of(b),
        channel_avg_score(mids.0, sames.0, others.0, 2 * b.blocks),
        channel_avg_score(mids.1, sames.1, others.1, 2 * b.blocks),
    );
}

/// Each scaled score divided by `scale` is the score over averages.
proof fn lemma_results_are_averages(b: Bank)
    requires
        b.wf(),
        b.blocks >= 1,
    ensures
        forall|i: int|
            0 <= i < 8 ==> same_value(
                #[trigger] shown(results_of(b).scores()[i], results_of(b).scale),
                avg_scores(b)[i],
            ),
{
    let a16 = b.as_is16;
    let t16 = b.toggled16;
    let a24 = b.as_is24;
    let t24 = b.toggled24;
    let n = b.blocks as int;
    assert(6 * n / 2 == 3 * n);
    lemma_scaled_value(2, a16.b0.diffsum, t16.b1.diffsum, a16.b1.diffsum, n);
    lemma_scaled_value(2, a16.b1.diffsum, t16.b0.diffsum, a16.b0.diffsum, n);
    lemma_scaled_value(2, a16.b0.diffsum, a16.b1.diffsum, t16.b1.diffsum, n);
    lemma_scaled_value(2, a16.b1.diffsum, a16.b0.diffsum, t16.b0.diffsum, n);
    let mids = (a24.b1.l.diffsum, a24.b1.r.diffsum);
    lemma_min24(b, mids, (a24.b2.l.diffsum, a24.b2.r.diffsum), (t24.b2.l.diffsum, t24.b2.r.diffsum));
    lemma_min24(b, mids, (a24.b0.l.diffsum, a24.b0.r.diffsum), (t24.b0.l.diffsum, t24.b0.r.diffsum));
    lemma_min24(b, mids, (t24.b2.l.diffsum, t24.b2.r.diffsum), (a24.b2.l.diffsum, a24.b2.r.diffsum));
    lemma_min24(b, mids, (t24.b0.l.diffsum, t24.b0.r.diffsum), (a24.b0.l.diffsum, a24.b0.r.diffsum));
    let r = results_of(b);
    let sc = r.scores();
    let av = avg_scores(b);
    assert(same_value(shown(sc[0], r.scale), av[0]));
    assert(same_value(shown(sc[1], r.scale), av[1]));
    assert(same_value(shown(sc[2], r.scale), av[2]));
    assert(same_value(shown(sc[3], r.scale), av[3]));
    assert(same_value(shown(sc[4], r.scale), av[4]));
    assert(same_value(shown(sc[5], r.scale), av[5]));
    assert(same_value(shown(sc[6], r.scale), av[6]));
    assert(same_value(shown(sc[7], r.scale), av[7]));
}

/// The format of the hypothesis at index `i` in the fixed order
/// s16le, s16be, u16le, u16be, s24le, s24be, u24le, u24be.
pub open spec fn hyp_type(i: int) -> PcmType {
    PcmType { signed: i % 4 < 2, bits24: i >= 4, big_endian: i % 2 == 1 }
}

/// Index of the first greatest score among the first `n`, leaving out
/// `skip`; -1 where none is left. This is where a stable sort by descending
/// score puts it.
pub open spec fn pick(s: Seq<Score>, n: nat, skip: int) -> int
    decreases n,
{
    if n == 0 {
        -1
    } else {
        let p = pick(s, (n - 1) as nat, skip);
        let j = n - 1;
        if j == skip {
            p
        } else if p < 0 || !score_le(s[j], s[p]) {
            j
        } else {
            p
        }
    }
}

/// Whether the best score is positive and at least `tn / td` times the
/// runner-up.
pub open spec fn accepts_ratio(top: Score, second: Score, tn: u64, td: u64) -> bool {
    top.num > 0 && top.num * second.den * td >= tn * (second.num * top.den)
}

/// Whether the best score is positive and at least `t` times the runner-up.
pub open spec fn accepts(top: Score, second: Score, t: u64) -> bool {
    accepts_ratio(top, second, t, 1)
}

/// The verdict on a set of scores with the whole-number threshold `t`.
pub open spec fn verdict(r: PcmResults, t: u64) -> Result<PcmType, Inconclusive> {
    verdict_ratio(r, t, 1)
}

/// The verdict on a set of scores: the best hypothesis where it beats the
/// runner-up by the threshold `tn / td`, else both of them.
pub open spec fn verdict_ratio(r: PcmResults, tn: u64, td: u64) -> Result<PcmType, Inconclusive> {
    let s = r.scores();
    let a = pick(s, 8, -1);
    let b = pick(s, 8, a);
    if accepts_ratio(s[a], s[b], tn, td) {
        Ok(hyp_type(a))
    } else {
        Err(
            Inconclusive {
                best: hyp_type(a),
                best_score: shown(s[a], r.scale),
                second: hyp_type(b),
                second_score: shown(s[b], r.scale),
            },
        )
    }
}

proof fn lemma_ratio_ge(l: int, r: int, tn: int, td: int, q: int, m: int, e: int, f: int)
    requires
        tn > 0,
        td > 0,
        l == tn * q + m,
        0 <= m < tn,
        m * td == tn * e + f,
        0 <= f < tn,
    ensures
        (l * td >= tn * r) == (q * td + e >= r),
{
    assert(l * td == tn * (q * td + e) + f) by (nonlinear_arith)
        requires
            l == tn * q + m,
            m * td == tn * e + f,
    ;
    let z = q * td + e - r;
    assert((tn * z + f >= 0) == (z >= 0)) by (nonlinear_arith)
        requires
            tn > 0,
            0 <= f < tn,
    ;
    assert(l * td - tn * r == tn * z + f) by (nonlinear_arith)
        requires
            l * td == tn * (q * td + e) + f,
            z == q * td + e - r,
    ;
}

/// `q * t > y` exactly when `q > y / t`.
proof fn lemma_mul_gt_div(q: int, t: int, y: int)
    requires
        t > 0,
        y >= 0,
        q >= 0,
    ensures
        (q * t > y) == (q > y / t),
{
    let d = y / t;
    let g = y % t;
    vstd::arithmetic::div_mod::lemma_fundamental_div_mod(y, t);
    vstd::arithmetic::div_mod::lemma_mod_bound(y, t);
    assert((q * t > y) == (q > d)) by (nonlinear_arith)
        requires
            y == t * d + g,
            0 <= g < t,
            t > 0,
    ;
}

proof fn lemma_mul_bound(a: int, b: int, am: int, bm: int)
    requires
        0 <= a <= am,
        0 <= b <= bm,
    ensures
        0 <= a * b <= am * bm,
{
    assert(0 <= a * b <= am * bm) by (nonlinear_arith)
        requires
            0 <= a <= am,
            0 <= b <= bm,
    ;
}

fn hyp_score_exec(k: u128, reference: u64, opposite: u64, candidate: u64) -> (r: Score)
    requires
        1 <= k <= 3,
        reference <= DIFFSUM_MAX,
        opposite <= DIFFSUM_MAX,
        candidate <= DIFFSUM_MAX,
    ensures
        r == hyp_score(k as int, reference, opposite, candidate),
        score_wf(r),
{
    if candidate > 0 {
        proof {
            lemma_mul_bound(reference as int, opposite as int, DIFFSUM_MAX as int, DIFFSUM_MAX as int);
            let p = reference * opposite;
            lemma_mul_bound(k as int, p, 3, DIFFSUM_MAX * DIFFSUM_MAX);
            assert(k * (reference * opposite) == k * reference * opposite) by (nonlinear_arith);
        }
        let p: u128 = reference as u128 * opposite as u128;
        Score { num: k * p, den: candidate as u128 }
    } else {
        Score { num: 0, den: 1 }
    }
}

proof fn lemma_cross_bound(a: Score, b: Score)
    requires
        score_wf(a),
        score_wf(b),
    ensures
        a.num * b.den <= SCORE_NUM_MAX * DIFFSUM_MAX,
        b.num * a.den <= SCORE_NUM_MAX * DIFFSUM_MAX,
{
    lemma_mul_bound(a.num as int, b.den as int, SCORE_NUM_MAX as int, DIFFSUM_MAX as int);
    lemma_mul_bound(b.num as int, a.den as int, SCORE_NUM_MAX as int, DIFFSUM_MAX as int);
}

fn le_exec(a: Score, b: Score) -> (r: bool)
    requires
        score_wf(a),
        score_wf(b),
    ensures
        r == score_le(a, b),
{
    proof {
        lemma_cross_bound(a, b);
    }
    a.num * b.den <= b.num * a.den
}

fn channel_exec(mid: u64, same: u64, other: u64) -> (r: Score)
    requires
        mid <= DIFFSUM_MAX,
        same <= DIFFSUM_MAX,
        other <= DIFFSUM_MAX,
    ensures
        r == channel_score(mid, same, other),
        score_wf(r),
{
    let o = if other == 0 {
        mid
    } else {
        other
    };
    let s = if same == 0 {
        mid
    } else {
        same
    };
    hyp_score_exec(3, mid, o, s)
}

fn min_exec(a: Score, b: Score) -> (r: Score)
    requires
        score_wf(a),
        score_wf(b),
    ensures
        r == min_score(a, b),
        score_wf(r),
{
    if le_exec(a, b) {
        a
    } else {
        b
    }
}

/// Scores every hypothesis from the bank's difference sums. Each score
/// divided by `scale` is the hypothesis's score over difference averages.
pub fn results(b: &Bank) -> (r: PcmResults)
    requires
        b.wf(),
    ensures
        r == results_of(*b),
        r.wf(),
        b.blocks >= 1 ==> r.scale == 6 * b.blocks && forall|i: int|
            0 <= i < 8 ==> same_value(#[trigger] shown(r.scores()[i], r.scale), avg_scores(*b)[i]),
        b.blocks == 0 ==> r.scale == 1 && forall|i: int|
            0 <= i < 8 ==> (#[trigger] r.scores()[i]).num == 0,
{
    proof {
        if b.blocks >= 1 {
            lemma_results_are_averages(*b);
        }
    }
    let scale: u128 = if b.blocks == 0 {
        1
    } else {
        6 * b.blocks as u128
    };
    let a16 = &b.as_is16;
    let t16 = &b.toggled16;
    let a24 = &b.as_is24;
    let t24 = &b.toggled24;
    PcmResults {
        s16le: hyp_score_exec(2, a16.b0.diffsum, t16.b1.diffsum, a16.b1.diffsum),
        s16be: hyp_score_exec(2, a16.b1.diffsum, t16.b0.diffsum, a16.b0.diffsum),
        u16le: hyp_score_exec(2, a16.b0.diffsum, a16.b1.diffsum, t16.b1.diffsum),
        u16be: hyp_score_exec(2, a16.b1.diffsum, a16.b0.diffsum, t16.b0.diffsum),
        s24le: min_exec(
            channel_exec(a24.b1.l.diffsum, a24.b2.l.diffsum, t24.b2.l.diffsum),
            channel_exec(a24.b1.r.diffsum, a24.b2.r.diffsum, t24.b2.r.diffsum),
        ),
        s24be: min_exec(
            channel_exec(a24.b1.l.diffsum, a24.b0.l.diffsum, t24.b0.l.diffsum),
            channel_exec(a24.b1.r.diffsum, a24.b0.r.diffsum, t24.b0.r.diffsum),
        ),
        u24le: min_exec(
            channel_exec(a24.b1.l.diffsum, t24.b2.l.diffsum, a24.b2.l.diffsum),
            channel_exec(a24.b1.r.diffsum, t24.b2.r.diffsum, a24.b2.r.diffsum),
        ),
        u24be: min_exec(
            channel_exec(a24.b1.l.diffsum, t24.b0.l.diffsum, a24.b0.l.diffsum),
            channel_exec(a24.b1.r.diffsum, t24.b0.r.diffsum, a24.b0.r.diffsum),
        ),
        scale,
    }
}

fn type_at(i: usize) -> (r: PcmType)
    requires
        i < 8,
    ensures
        r == hyp_type(i as int),
{
    PcmType { signed: i % 4 < 2, bits24: i >= 4, big_endian: i % 2 == 1 }
}

impl PcmResults {
    /// The scores in hypothesis order.
    pub open spec fn scores(self) -> Seq<Score> {
        seq![
            self.s16le,
            self.s16be,
            self.u16le,
            self.u16be,
            self.s24le,
            self.s24be,
            self.u24le,
            self.u24be,
        ]
    }

    pub open spec fn wf(self) -> bool {
        &&& forall|i: int| 0 <= i < 8 ==> #[trigger] score_wf(self.scores()[i])
        &&& 1 <= self.scale <= 6 * MAX_BLOCKS
    }

    fn score_at(&self, i: usize) -> (r: Score)
        requires
            i < 8,
        ensures
            r == self.scores()[i as int],
    {
        match i {
            0 => self.s16le,
            1 => self.s16be,
            2 => self.u16le,
            3 => self.u16be,
            4 => self.s24le,
            5 => self.s24be,
            6 => self.u24le,
            _ => self.u24be,
        }
    }

    /// Index of the first greatest score, leaving out `skip` (8 leaves out
    /// none).
    fn pick_exec(&self, skip: usize) -> (r: usize)
        requires
            self.wf(),
            skip <= 8,
        ensures
            r < 8,
            r != skip,
            r as int == pick(self.scores(), 8, if skip == 8 { -1 } else { skip as int }),
    {
        let ghost sk: int = if skip == 8 { -1 } else { skip as int };
        let mut best: usize = 8;
        let mut j: usize = 0;
        while j < 8
            invariant
                j <= 8,
                self.wf(),
                sk == (if skip == 8 { -1 } else { skip as int }),
                best == 8 <==> pick(self.scores(), j as nat, sk) == -1,
                best < 8 ==> best < j && best != skip && best as int == pick(
                    self.scores(),
                    j as nat,
                    sk,
                ),
                best <= 8,
                (j >= 1 && skip != 0) || j >= 2 ==> best < 8,
            decreases 8 - j,
        {
            if j != skip {
                let sj = self.score_at(j);
                if best == 8 {
                    best = j;
                } else {
                    let sb = self.score_at(best);
                    assert(score_wf(self.scores()[j as int]));
                    assert(score_wf(self.scores()[best as int]));
                    if !le_exec(sj, sb) {
                        best = j;
                    }
                }
            }
            j = j + 1;
        }
        best
    }

    /// Whether `l * td >= tn * r`, for `l` and `r` products of two scores.
    fn ratio_ge(l: u128, r: u128, tn: u64, td: u64) -> (ok: bool)
        requires
            td > 0,
            l <= SCORE_NUM_MAX * DIFFSUM_MAX,
            r <= SCORE_NUM_MAX * DIFFSUM_MAX,
        ensures
            ok == (l * td >= tn * r),
    {
        if tn == 0 {
            assert(l * td >= 0) by (nonlinear_arith)
                requires
                    l >= 0,
                    td > 0,
            ;
            return true;
        }
        let t: u128 = tn as u128;
        let q: u128 = l / t;
        let m: u128 = l % t;
        proof {
            vstd::arithmetic::div_mod::lemma_fundamental_div_mod(l as int, t as int);
            vstd::arithmetic::div_mod::lemma_mod_bound(l as int, t as int);
            lemma_mul_bound(m as int, td as int, u64::MAX as int, u64::MAX as int);
        }
        let md: u128 = m * (td as u128);
        let e: u128 = md / t;
        proof {
            vstd::arithmetic::div_mod::lemma_fundamental_div_mod(md as int, t as int);
            vstd::arithmetic::div_mod::lemma_mod_bound(md as int, t as int);
            lemma_ratio_ge(l as int, r as int, t as int, td as int, q as int, m as int, e as int, (md % t) as int);
            vstd::arithmetic::div_mod::lemma_div_is_ordered_by_denominator(l as int, 1, t as int);
            lemma_mul_bound(1, q as int, td as int, q as int);
        }
        if q >= r || e >= r {
            proof {
                assert(q * td >= q) by (nonlinear_arith)
                    requires
                        td >= 1,
                        q >= 0,
                ;
            }
            true
        } else {
            let x: u128 = r - e;
            let y: u128 = x - 1;
            proof {
                lemma_mul_gt_div(q as int, td as int, y as int);
            }
            q > y / (td as u128)
        }
    }

    /// The verdict with the least ratio `num / den` of best to runner-up.
    pub fn guess_type_ratio(&self, num: u64, den: u64) -> (r: Result<PcmType, Inconclusive>)
        requires
            self.wf(),
            den > 0,
        ensures
            r == verdict_ratio(*self, num, den),
    {
        let a = self.pick_exec(8);
        let b = self.pick_exec(a);
        let top = self.score_at(a);
        let second = self.score_at(b);
        assert(score_wf(self.scores()[a as int]));
        assert(score_wf(self.scores()[b as int]));
        proof {
            lemma_cross_bound(top, second);
        }
        let l: u128 = top.num * second.den;
        let rr: u128 = second.num * top.den;
        let ok = top.num != 0 && Self::ratio_ge(l, rr, num, den);
        assert(ok == accepts_ratio(top, second, num, den));
        if ok {
            Ok(type_at(a))
        } else {
            proof {
                lemma_mul_bound(top.den as int, self.scale as int, DIFFSUM_MAX as int, 6 * MAX_BLOCKS);
                lemma_mul_bound(second.den as int, self.scale as int, DIFFSUM_MAX as int, 6 * MAX_BLOCKS);
            }
            Err(
                Inconclusive {
                    best: type_at(a),
                    best_score: Score { num: top.num, den: top.den * self.scale },
                    second: type_at(b),
                    second_score: Score { num: second.num, den: second.den * self.scale },
                },
            )
        }
    }

    /// The verdict with the whole-number least ratio of best to runner-up.
    pub fn guess_type_with(&self, threshold: u64) -> (r: Result<PcmType, Inconclusive>)
        requires
            self.wf(),
        ensures
            r == verdict(*self, threshold),
    {
        self.guess_type_ratio(threshold, 1)
    }

    /// The verdict with the default threshold.
    pub fn guess_type(&self) -> (r: Result<PcmType, Inconclusive>)
        requires
            self.wf(),
        ensures
            r == verdict(*self, THRESHOLD),
    {
        self.guess_type_with(THRESHOLD)
    }
}

} // verus!
