use spk_writer::error::SpiceError;
use spk_writer::fraction::steps_to_skip;

fn hardware_stride(fraction: f32) -> usize {
    (1.0 / fraction) as usize
}

#[test]
fn unit_fraction_has_stride_one() {
    assert!(matches!(steps_to_skip(1.0f32.to_bits()), Ok(1)));
}

#[test]
fn half_has_stride_two() {
    assert!(matches!(steps_to_skip(0.5f32.to_bits()), Ok(2)));
}

#[test]
fn stride_truncates_the_quotient() {
    assert!(matches!(steps_to_skip(0.3f32.to_bits()), Ok(3)));
    assert!(matches!(steps_to_skip(0.4f32.to_bits()), Ok(2)));
    assert!(matches!(steps_to_skip(0.75f32.to_bits()), Ok(1)));
    assert!(matches!(steps_to_skip(0.999f32.to_bits()), Ok(1)));
}

#[test]
fn stride_follows_single_precision_rounding() {
    // 0.1 is stored slightly above one tenth, yet its quotient rounds to 10.
    assert!(matches!(steps_to_skip(0.1f32.to_bits()), Ok(10)));
    assert!(matches!(steps_to_skip(0.01f32.to_bits()), Ok(100)));
    // 0.001 is stored above one thousandth by enough for the quotient to stay below 1000.
    assert!(matches!(steps_to_skip(0.001f32.to_bits()), Ok(999)));
}

#[test]
fn stride_matches_hardware_division_on_a_sweep() {
    let mut bits: u32 = 1;
    while bits <= 0x3F80_0000 {
        let expected = hardware_stride(f32::from_bits(bits));
        match steps_to_skip(bits) {
            Ok(stride) => assert_eq!(stride, expected, "bits {bits:#x}"),
            Err(_) => panic!("bits {bits:#x} rejected"),
        }
        bits += 2039;
    }
}

#[test]
fn stride_matches_hardware_division_near_one() {
    let mut bits: u32 = 0x3F80_0000 - 200_000;
    while bits <= 0x3F80_0000 {
        let expected = hardware_stride(f32::from_bits(bits));
        assert!(matches!(steps_to_skip(bits), Ok(s) if s == expected));
        bits += 1;
    }
}

#[test]
fn stride_matches_hardware_division_at_binade_edges() {
    for exponent in 1u32..=127 {
        for mantissa in [0u32, 1, 2, 0x40_0000, 0x7F_FFFE, 0x7F_FFFF] {
            let bits = (exponent << 23) | mantissa;
            if bits > 0x3F80_0000 {
                continue;
            }
            let expected = hardware_stride(f32::from_bits(bits));
            assert!(matches!(steps_to_skip(bits), Ok(s) if s == expected), "bits {bits:#x}");
        }
    }
}

#[test]
fn tiny_fractions_saturate() {
    assert!(matches!(steps_to_skip(1), Ok(usize::MAX)));
    assert!(matches!(steps_to_skip(f32::MIN_POSITIVE.to_bits()), Ok(usize::MAX)));
    assert!(matches!(steps_to_skip(1e-30f32.to_bits()), Ok(usize::MAX)));
}

#[test]
fn fractions_outside_the_interval_are_rejected() {
    for fraction in [0.0f32, -0.0, -0.5, 1.0000001, 2.0, f32::INFINITY, f32::NEG_INFINITY, f32::NAN, -f32::NAN] {
        assert!(matches!(steps_to_skip(fraction.to_bits()), Err(SpiceError::InvalidFraction)));
    }
}
