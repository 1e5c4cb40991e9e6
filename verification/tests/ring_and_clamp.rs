use audio_core::fbits::{clamp_seek_bits, clamp_volume_bits, is_finite_bits};
use audio_core::ring::{SpectrumRing, BANDS_MAX, RING_CAP};

fn push_n(ring: &mut SpectrumRing, n: usize) {
    let mut i: usize = 0;
    while i < n {
        ring.push_frame((i as u64) * 1_000_000, vec![-23500i64, -40250i64]);
        i += 1;
    }
}

#[test]
fn delta_pull_returns_only_newer_ascending() {
    let mut ring = SpectrumRing::new();
    push_n(&mut ring, 20);
    let frames = ring.pull_since(5, 1000, BANDS_MAX);
    assert_eq!(frames.len(), 15);
    let mut prev: u64 = 5;
    for f in &frames {
        assert!(f.seq > prev);
        prev = f.seq;
    }
    assert_eq!(frames[0].seq, 6);
    assert_eq!(frames[14].seq, 20);
}

#[test]
fn repeated_pulls_never_repeat_a_frame() {
    let mut ring = SpectrumRing::new();
    push_n(&mut ring, 10);
    let first = ring.pull_since(0, 1000, BANDS_MAX);
    assert_eq!(first.len(), 10);
    let cursor = first.last().unwrap().seq;
    let again = ring.pull_since(cursor, 1000, BANDS_MAX);
    assert_eq!(again.len(), 0);
    push_n(&mut ring, 3);
    let more = ring.pull_since(cursor, 1000, BANDS_MAX);
    assert_eq!(more.len(), 3);
    for f in &more {
        for g in &first {
            assert!(f.seq != g.seq);
        }
    }
}

#[test]
fn full_history_pull_is_bounded_after_overflow() {
    let mut ring = SpectrumRing::new();
    push_n(&mut ring, RING_CAP + 88);
    assert_eq!(ring.len(), RING_CAP);
    let frames = ring.pull_since(0, 100000, BANDS_MAX);
    assert_eq!(frames.len(), RING_CAP);
    // The oldest frames were evicted and are unrecoverable.
    assert_eq!(frames[0].seq, 89);
    assert_eq!(frames[frames.len() - 1].seq, (RING_CAP + 88) as u64);
}

#[test]
fn pull_respects_frame_and_band_limits() {
    let mut ring = SpectrumRing::new();
    push_n(&mut ring, 8);
    let frames = ring.pull_since(0, 3, 1);
    assert_eq!(frames.len(), 3);
    assert_eq!(frames[0].bands, vec![-23500i64]);
    let none = ring.pull_since(0, 0, BANDS_MAX);
    assert_eq!(none.len(), 0);
    let none2 = ring.pull_since(0, 10, 0);
    assert_eq!(none2.len(), 0);
}

#[test]
fn clear_keeps_sequence_counter() {
    let mut ring = SpectrumRing::new();
    push_n(&mut ring, 5);
    ring.clear();
    assert_eq!(ring.len(), 0);
    push_n(&mut ring, 1);
    let frames = ring.pull_since(0, 10, BANDS_MAX);
    assert_eq!(frames.len(), 1);
    assert_eq!(frames[0].seq, 6);
}

#[test]
fn volume_clamp_matches_documented_values() {
    assert_eq!(clamp_volume_bits((-5.0f64).to_bits()), (0.0f64).to_bits());
    assert_eq!(clamp_volume_bits((10.0f64).to_bits()), (1.5f64).to_bits());
    assert_eq!(clamp_volume_bits(f64::NAN.to_bits()), (1.0f64).to_bits());
    assert_eq!(clamp_volume_bits(f64::INFINITY.to_bits()), (1.0f64).to_bits());
    assert_eq!(clamp_volume_bits((0.7f64).to_bits()), (0.7f64).to_bits());
    assert_eq!(clamp_volume_bits((1.5f64).to_bits()), (1.5f64).to_bits());
    assert_eq!(f64::from_bits(clamp_volume_bits((2.0f64).to_bits())), 1.5f64);
}

#[test]
fn seek_clamp_treats_negative_as_zero() {
    assert_eq!(clamp_seek_bits((-3.0f64).to_bits()), (0.0f64).to_bits());
    assert_eq!(clamp_seek_bits(f64::NAN.to_bits()), (0.0f64).to_bits());
    assert_eq!(clamp_seek_bits(f64::NEG_INFINITY.to_bits()), (0.0f64).to_bits());
    assert_eq!(clamp_seek_bits((2.5f64).to_bits()), (2.5f64).to_bits());
    assert_eq!(clamp_seek_bits((0.0f64).to_bits()), (0.0f64).to_bits());
}

#[test]
fn finite_bits_follows_ieee_classes() {
    assert!(is_finite_bits((3.25f64).to_bits()));
    assert!(is_finite_bits((-0.0f64).to_bits()));
    assert!(!is_finite_bits(f64::NAN.to_bits()));
    assert!(!is_finite_bits(f64::INFINITY.to_bits()));
}
