use pcm_detect::accum::{Avg, Avg2};
use pcm_detect::bank::{analyze, Bank};
use pcm_detect::detect;
use pcm_detect::score::{results, PcmResults, PcmType, Score, THRESHOLD};

/// Stereo samples of a sine, channel 1 shifted in phase, encoded in the given
/// format. With `pad16`, 16-bit values are stored in the top two bytes of
/// 24-bit little-endian slots.
fn sine(frames: usize, freq: f64, amp: f64, ty: PcmType, pad16: bool) -> Vec<u8> {
    let bits: u32 = if ty.bits24 { 24 } else { 16 };
    let full = ((1i64 << (bits - 1)) - 1) as f64;
    let mut out = Vec::new();
    for n in 0..frames {
        for ch in 0..2 {
            let ph = 2.0 * std::f64::consts::PI * freq * n as f64 / 48000.0 + 0.3 * ch as f64;
            let mut v: i64 = if pad16 {
                ((amp * 32767.0 * ph.sin()).round() as i64) * 256
            } else {
                (amp * full * ph.sin()).round() as i64
            };
            if !ty.signed {
                v += 1i64 << (bits - 1);
            }
            v &= (1i64 << bits) - 1;
            let mut bs: Vec<u8> = (0..bits / 8).map(|i| ((v >> (8 * i)) & 255) as u8).collect();
            if ty.big_endian {
                bs.reverse();
            }
            out.extend_from_slice(&bs);
        }
    }
    out
}

fn ty(signed: bool, bits24: bool, big_endian: bool) -> PcmType {
    PcmType { signed, bits24, big_endian }
}

fn fixture(t: PcmType) -> Vec<u8> {
    sine(4800, 440.0, 0.1, t, false)
}

fn check_format(t: PcmType) {
    assert_eq!(detect(&fixture(t), THRESHOLD), Ok(t));
}

fn gt(a: Score, b: Score, k: u128) -> bool {
    a.num * b.den > k * b.num * a.den
}

fn all_scores(r: &PcmResults) -> [Score; 8] {
    [r.s16le, r.s16be, r.u16le, r.u16be, r.s24le, r.s24be, r.u24le, r.u24be]
}

fn zero() -> Score {
    Score { num: 0, den: 1 }
}

fn results_with(s16le: Score, s16be: Score) -> PcmResults {
    PcmResults {
        s16le,
        s16be,
        u16le: zero(),
        u16be: zero(),
        s24le: zero(),
        s24be: zero(),
        u24le: zero(),
        u24be: zero(),
        scale: 1,
    }
}

#[test]
fn s16le() {
    check_format(ty(true, false, false));
}

#[test]
fn s16be() {
    check_format(ty(true, false, true));
}

#[test]
fn u16le() {
    check_format(ty(false, false, false));
}

#[test]
fn u16be() {
    check_format(ty(false, false, true));
}

#[test]
fn s24le() {
    check_format(ty(true, true, false));
}

#[test]
fn s24be() {
    check_format(ty(true, true, true));
}

#[test]
fn u24le() {
    check_format(ty(false, true, false));
}

#[test]
fn u24be() {
    check_format(ty(false, true, true));
}

#[test]
fn several_tones_and_lengths_are_classified() {
    for frames in [2400usize, 9600] {
        for freq in [200.0, 1000.0] {
            for code in 0..8u32 {
                let t = ty(code & 4 == 0, code & 2 != 0, code & 1 != 0);
                assert_eq!(detect(&sine(frames, freq, 0.05, t, false), THRESHOLD), Ok(t));
            }
        }
    }
}

#[test]
fn detection_is_idempotent() {
    let data = fixture(ty(false, true, false));
    assert_eq!(detect(&data, THRESHOLD), detect(&data, THRESHOLD));
    let short = sine(300, 200.0, 0.5, ty(true, false, false), false);
    assert_eq!(detect(&short, THRESHOLD), detect(&short, THRESHOLD));
}

#[test]
fn s16le_1200_bytes_of_200_hz() {
    let data = sine(300, 200.0, 0.1, ty(true, false, false), false);
    assert_eq!(data.len(), 1200);
    let r = results(&analyze(&data));
    let all = all_scores(&r);
    for other in &all[1..] {
        assert!(gt(r.s16le, *other, 4));
    }
    assert_eq!(detect(&data, THRESHOLD), Ok(ty(true, false, false)));
}

#[test]
fn u24be_of_200_hz() {
    let data = sine(300, 200.0, 0.1, ty(false, true, true), false);
    assert_eq!(detect(&data, THRESHOLD), Ok(ty(false, true, true)));
}

#[test]
fn zero_padded_16_in_24_is_24_bit() {
    let data = sine(4800, 440.0, 0.1, ty(true, true, false), true);
    assert!(data.chunks(3).all(|c| c[0] == 0));
    assert_eq!(detect(&data, THRESHOLD), Ok(ty(true, true, false)));
}

#[test]
fn short_streams_are_inconclusive_with_zero_scores() {
    for len in 0..12usize {
        let data: Vec<u8> = (0..len).map(|i| (i * 37 + 5) as u8).collect();
        let e = detect(&data, THRESHOLD).unwrap_err();
        assert_eq!(e.best_score.num, 0);
        assert_eq!(e.second_score.num, 0);
    }
}

#[test]
fn trailing_partial_block_is_ignored() {
    let data = fixture(ty(true, false, false));
    let mut longer = data.clone();
    longer.extend_from_slice(&[200, 3, 77, 1, 9]);
    assert_eq!(analyze(&data), analyze(&longer));
}

fn swap_samples(data: &[u8], width: usize) -> Vec<u8> {
    data.chunks(width).flat_map(|c| c.iter().rev().copied()).collect()
}

#[test]
fn swapping_byte_order_flips_only_big_endian() {
    for code in [0u32, 2, 4, 6] {
        let t = ty(code & 4 == 0, code & 2 != 0, false);
        let data = fixture(t);
        let swapped = swap_samples(&data, if t.bits24 { 3 } else { 2 });
        assert_eq!(detect(&data, THRESHOLD), Ok(t));
        assert_eq!(detect(&swapped, THRESHOLD), Ok(ty(t.signed, t.bits24, true)));
    }
}

#[test]
fn ratio_exactly_at_threshold_is_accepted() {
    let r = results_with(Score { num: 8, den: 2 }, Score { num: 1, den: 1 });
    assert_eq!(r.guess_type(), Ok(ty(true, false, false)));
    let r = results_with(Score { num: 1, den: 1 }, Score { num: 12, den: 3 });
    assert_eq!(r.guess_type(), Ok(ty(true, false, true)));
}

#[test]
fn ratio_just_below_threshold_is_inconclusive() {
    let r = results_with(Score { num: 399999, den: 100000 }, Score { num: 1, den: 1 });
    let e = r.guess_type().unwrap_err();
    assert_eq!(e.best, ty(true, false, false));
    assert_eq!(e.best_score, Score { num: 399999, den: 100000 });
    assert_eq!(e.second, ty(true, false, true));
    assert_eq!(e.second_score, Score { num: 1, den: 1 });
}

#[test]
fn threshold_can_be_overridden() {
    let r = results_with(Score { num: 3, den: 1 }, Score { num: 1, den: 1 });
    assert!(r.guess_type().is_err());
    assert_eq!(r.guess_type_with(3), Ok(ty(true, false, false)));
    assert!(r.guess_type_with(4).is_err());
}

#[test]
fn equal_scores_keep_hypothesis_order() {
    let all_one = PcmResults {
        s16le: zero(),
        s16be: zero(),
        u16le: zero(),
        u16be: Score { num: 2, den: 1 },
        s24le: zero(),
        s24be: zero(),
        u24le: Score { num: 4, den: 2 },
        u24be: zero(),
        scale: 1,
    };
    let e = all_one.guess_type().unwrap_err();
    assert_eq!(e.best, ty(false, false, true));
    assert_eq!(e.second, ty(false, true, false));
}

#[test]
fn lone_positive_score_is_accepted() {
    let r = results_with(zero(), Score { num: 1, den: 7 });
    assert_eq!(r.guess_type(), Ok(ty(true, false, true)));
}

#[test]
fn avg_counts_first_sample_without_difference() {
    let mut a = Avg::new();
    assert!(!a.debug);
    a.add(5);
    assert_eq!((a.diffsum, a.count, a.last), (0, 1, 5));
    a.add(-3);
    a.add(127);
    a.add(-128);
    assert_eq!((a.diffsum, a.count, a.last), (8 + 130 + 255, 4, -128));
    assert!(Avg::_newd().debug);
}

#[test]
fn avg2_feeds_both_channels() {
    let mut a = Avg2::new();
    a.add(1, -1);
    a.add(4, 9);
    assert_eq!((a.l.diffsum, a.r.diffsum), (3, 10));
    assert_eq!((a.l.count, a.r.count), (2, 2));
    let d = Avg2::_newd();
    assert!(d.l.debug && d.r.debug);
}

#[test]
fn blocks_fill_the_expected_slots() {
    let mut data = vec![0u8; 12];
    data.extend(vec![2u8; 12]);
    let b = analyze(&data);
    assert_eq!(b.blocks, 2);
    assert_eq!(b.as_is16.b0.count, 6);
    assert_eq!(b.as_is16.b0.diffsum, 2);
    assert_eq!(b.toggled16.b1.diffsum, 2);
    assert_eq!(b.as_is24.b1.l.count, 4);
    assert_eq!(b.as_is24.b1.r.diffsum, 2);
    assert_eq!(b.toggled24.b1.l.count, 0);
    // 0x80 reads as -128 as it is and as 0 toggled; 0x7f as 127 and -1.
    let mut b2 = Bank::new();
    b2.ingest_block(&[0x80u8; 12]);
    b2.ingest_block(&[0x7fu8; 12]);
    assert_eq!(b2.as_is16.b0.diffsum, 255);
    assert_eq!(b2.toggled16.b0.diffsum, 1);
}

#[test]
fn streaming_matches_whole_analysis() {
    let data = fixture(ty(false, false, true));
    let mut b = Bank::new();
    for blk in data.chunks_exact(12) {
        b.ingest_block(blk);
    }
    assert_eq!(b, analyze(&data));
}

#[test]
fn scores_follow_the_formulas() {
    // Block one: all zero. Block two: bytes 0..12.
    let mut data = vec![0u8; 12];
    data.extend((0u8..12).collect::<Vec<u8>>());
    let r = results(&analyze(&data));
    // 16-bit slot sums: low byte 0,0,0,0,4,8 gives 8, high 0,0,0,1,5,9 gives 9;
    // toggled the same.
    assert_eq!(r.s16le, Score { num: 2 * 8 * 9, den: 9 });
    assert_eq!(r.s16be, Score { num: 2 * 9 * 8, den: 8 });
    // 24-bit slot sums, left: b0 0+6, b1 1+6, b2 2+6; right: b0 3+6, b1 4+6, b2 5+6.
    // s24le left 3*7*8/8 = 21, right 3*10*11/11 = 30: the smaller is kept.
    assert_eq!(r.s24le, Score { num: 3 * 7 * 8, den: 8 });
    assert_eq!(r.scale, 12);
}

fn value(s: Score) -> (u128, u128) {
    let mut a = s.num;
    let mut b = s.den;
    while b != 0 {
        let t = a % b;
        a = b;
        b = t;
    }
    (s.num / a, s.den / a)
}

#[test]
fn reported_scores_are_averages() {
    // One block 1,2,3,1,2,3,2,4,6,2,4,6. 16-bit low byte 1,2,6: average 5/3;
    // high byte 2,3,2: average 2/3, toggled the same: s16le = (5/3)/(2/3)*(2/3) = 5/3.
    let data = [1u8, 2, 3, 1, 2, 3, 2, 4, 6, 2, 4, 6];
    let r = results(&analyze(&data));
    assert_eq!(r.scale, 6);
    assert_eq!(value(Score { num: r.s16le.num, den: r.s16le.den * r.scale }), (5, 3));
    // 24-bit left: low 1,2 (1/2), middle 2,4 (1), high 3,6 (3/2): s24le = 1/(3/2)*(3/2) = 1.
    assert_eq!(value(Score { num: r.s24le.num, den: r.s24le.den * r.scale }), (1, 1));
    // s16le and u16le tie at 5/3: undecided, with the averages' values reported.
    let e = r.guess_type().unwrap_err();
    assert_eq!(e.best, ty(true, false, false));
    assert_eq!(e.second, ty(false, false, false));
    assert_eq!(value(e.best_score), (5, 3));
    assert_eq!(value(e.second_score), (5, 3));
}

#[test]
fn fractional_threshold_is_exact() {
    let r = results_with(Score { num: 5, den: 2 }, Score { num: 1, den: 1 });
    assert_eq!(r.guess_type_ratio(5, 2), Ok(ty(true, false, false)));
    assert_eq!(r.guess_type_ratio(10, 4), Ok(ty(true, false, false)));
    assert!(r.guess_type_ratio(2501, 1000).is_err());
    assert_eq!(r.guess_type_ratio(9, 2).unwrap_err().best_score, Score { num: 5, den: 2 });
    let r = results_with(Score { num: 9, den: 2 }, Score { num: 1, den: 1 });
    assert_eq!(r.guess_type_ratio(9, 2), Ok(ty(true, false, false)));
    assert!(r.guess_type_ratio(4500001, 1000000).is_err());
    assert_eq!(r.guess_type_ratio(0, 1), Ok(ty(true, false, false)));
}

#[test]
fn fractional_threshold_on_large_scores() {
    let data = fixture(ty(true, false, false));
    let r = results(&analyze(&data));
    assert_eq!(r.guess_type_ratio(4, 1), r.guess_type());
    assert_eq!(r.guess_type_ratio(9, 2), r.guess_type_with(4));
    assert!(r.guess_type_ratio(u64::MAX, 1).is_err());
}
