//! Reconstructed motion. Values are in hundredths.

use roboprotocol::interpolation::{
    default_interpolation_delay_us, Fraction, MotionBuffer, TimestampedSample,
};

fn sample(capture_us: u64, values: &[f32]) -> TimestampedSample {
    TimestampedSample {
        capture_us,
        values: values.iter().map(|v| (v * 100.0).round() as i32).collect(),
    }
}

fn at(buf: &MotionBuffer, query_us: u64, bound: u64) -> Option<Vec<f32>> {
    let values = buf.reconstruct_at(query_us, bound)?;
    Some(values.iter().map(|v| (v.num as f64 / v.den as f64 / 100.0) as f32).collect())
}

#[test]
fn interpolates_linearly_between_two_bracketing_samples() {
    let mut buf = MotionBuffer::new();
    buf.push(sample(0, &[0.0, 10.0]));
    buf.push(sample(1000, &[10.0, 20.0]));

    let mid = at(&buf, 500, 1000).unwrap();
    assert_eq!(mid, vec![5.0, 15.0], "halfway between the two samples in time");

    let quarter = at(&buf, 250, 1000).unwrap();
    assert_eq!(quarter, vec![2.5, 12.5]);
}

#[test]
fn query_before_first_sample_holds_the_first_sample() {
    let mut buf = MotionBuffer::new();
    buf.push(sample(1000, &[5.0]));
    buf.push(sample(2000, &[15.0]));

    assert_eq!(
        at(&buf, 0, 1000).unwrap(),
        vec![5.0],
        "must not extrapolate backward past the oldest sample"
    );
}

#[test]
fn query_past_newest_sample_extrapolates_within_bound() {
    let mut buf = MotionBuffer::new();
    buf.push(sample(0, &[0.0]));
    buf.push(sample(1000, &[10.0]));

    let extrapolated = at(&buf, 1200, 1000).unwrap();
    assert!((extrapolated[0] - 12.0).abs() < 1e-6);
}

#[test]
fn query_too_far_past_newest_sample_returns_none_for_decay_fallback() {
    let mut buf = MotionBuffer::new();
    buf.push(sample(0, &[0.0]));
    buf.push(sample(1000, &[10.0]));

    assert!(at(&buf, 5000, 1000).is_none(), "the sender has stopped producing samples");
}

#[test]
fn single_sample_holds_until_the_extrapolation_bound() {
    let mut buf = MotionBuffer::new();
    buf.push(sample(1000, &[7.0]));

    assert_eq!(at(&buf, 1000, 500).unwrap(), vec![7.0]);
    assert_eq!(
        at(&buf, 1400, 500).unwrap(),
        vec![7.0],
        "held within bound, no second sample to interpolate against"
    );
    assert!(at(&buf, 2000, 500).is_none());
}

#[test]
fn empty_buffer_has_nothing_to_reconstruct() {
    let buf = MotionBuffer::new();
    assert!(at(&buf, 1000, 1000).is_none());
}

#[test]
fn default_delay_scales_inversely_with_rate_like_the_decay_window() {
    assert_eq!(default_interpolation_delay_us(100), 15_000);
    assert_eq!(default_interpolation_delay_us(10), 150_000);
    assert_eq!(default_interpolation_delay_us(0), 0);
}

#[test]
fn extremes_do_not_overflow() {
    let mut buf = MotionBuffer::new();
    buf.push(TimestampedSample { capture_us: 0, values: vec![i32::MIN, 1] });
    buf.push(TimestampedSample { capture_us: 1, values: vec![i32::MAX] });
    let far = buf.reconstruct_at(u64::MAX, u64::MAX).unwrap();
    assert_eq!(far.len(), 1, "a field that one sample lacks is left out");
    assert_eq!(far[0], Fraction { num: i32::MIN as i128 + u32::MAX as i128 * u64::MAX as i128, den: 1 });
}

#[test]
fn samples_with_one_capture_time_make_no_line() {
    let mut buf = MotionBuffer::new();
    buf.push(sample(1000, &[1.0]));
    buf.push(sample(1000, &[2.0]));
    assert_eq!(at(&buf, 1500, 500), Some(vec![2.0]));
}

#[test]
fn a_point_between_two_whole_numbers_is_not_rounded() {
    let mut buf = MotionBuffer::new();
    buf.push(TimestampedSample { capture_us: 10, values: vec![1, -1] });
    buf.push(TimestampedSample { capture_us: 13, values: vec![2, -5] });
    let third = buf.reconstruct_at(11, 0).unwrap();
    assert_eq!(third, vec![Fraction { num: 4, den: 3 }, Fraction { num: -7, den: 3 }]);
    assert_eq!(buf.reconstruct_at(13, 0).unwrap()[1], Fraction { num: -15, den: 3 });
}
