use mase::domain::synthesis::lfo::{LfoShape, LfoTarget};
use mase::domain::synthesis::wavetable::Wavetable;

fn bits(x: f64) -> u64 {
    x.to_bits()
}

#[test]
fn test_shape_from_f64() {
    assert_eq!(LfoShape::from_f64(bits(0.0)), LfoShape::Sine);
    assert_eq!(LfoShape::from_f64(bits(1.0)), LfoShape::Square);
    assert_eq!(LfoShape::from_f64(bits(2.0)), LfoShape::Triangle);
    assert_eq!(LfoShape::from_f64(bits(3.0)), LfoShape::Saw);
}

#[test]
fn test_target_from_f64() {
    assert_eq!(LfoTarget::from_f64(bits(0.0)), LfoTarget::Cutoff);
    assert_eq!(LfoTarget::from_f64(bits(1.0)), LfoTarget::Pitch);
    assert_eq!(LfoTarget::from_f64(bits(2.0)), LfoTarget::Volume);
}

#[test]
fn shape_follows_integer_part_like_a_cast() {
    for v in [-5.0, -0.9, 0.5, 1.0, 1.99, 2.0, 2.5, 3.0, 3.999, 4.0, 255.0, 1e9, f64::NAN, f64::INFINITY, f64::NEG_INFINITY] {
        let expected = match v as u8 {
            1 => LfoShape::Square,
            2 => LfoShape::Triangle,
            3 => LfoShape::Saw,
            _ => LfoShape::Sine,
        };
        assert_eq!(LfoShape::from_f64(bits(v)), expected, "value {}", v);
        let expected = match v as u8 {
            1 => LfoTarget::Pitch,
            2 => LfoTarget::Volume,
            _ => LfoTarget::Cutoff,
        };
        assert_eq!(LfoTarget::from_f64(bits(v)), expected, "value {}", v);
    }
}

#[test]
fn from_samples_preserves_values() {
    let samples: Vec<u64> = vec![0.0, 0.5, 1.0, 0.5, 0.0, -0.5, -1.0, -0.5]
        .into_iter()
        .map(f64::to_bits)
        .collect();
    let wt = Wavetable::from_samples(samples.clone());
    assert_eq!(wt.samples(), samples.as_slice());
}

#[test]
fn square_first_half_positive_second_half_negative() {
    let wt = Wavetable::square(8);
    assert!(wt.samples()[..4].iter().all(|&v| f64::from_bits(v) == 1.0));
    assert!(wt.samples()[4..].iter().all(|&v| f64::from_bits(v) == -1.0));
}

#[test]
fn square_of_odd_size() {
    let wt = Wavetable::square(5);
    let v: Vec<f64> = wt.samples().iter().map(|&b| f64::from_bits(b)).collect();
    assert_eq!(v, vec![1.0, 1.0, -1.0, -1.0, -1.0]);
    assert_eq!(Wavetable::DEFAULT_SIZE, 2048);
}
