use leptos_charts::gamma::{gamma_compression, invert_gamma_compression, LINEAR_ONE};

#[test]
fn linear_light_follows_the_transfer_function() {
    assert_eq!(invert_gamma_compression(0), 0);
    assert_eq!(invert_gamma_compression(255), LINEAR_ONE);
    for channel in 0..=255u8 {
        let encoded = channel as f64 / 255.0;
        let light = if encoded > 0.04045 {
            ((encoded + 0.055) / 1.055).powf(2.4)
        } else {
            encoded / 12.92
        };
        let expected = (light * LINEAR_ONE as f64).round() as i64;
        let got = invert_gamma_compression(channel) as i64;
        assert!((got - expected).abs() <= 1, "{}", channel);
    }
}

#[test]
fn compression_inverts_expansion() {
    for channel in 0..=255u8 {
        let light = invert_gamma_compression(channel) as i128;
        assert_eq!(gamma_compression(light), channel);
        if channel > 0 {
            assert_eq!(gamma_compression(light - 1), channel - 1);
        }
    }
}

#[test]
fn compression_saturates() {
    assert_eq!(gamma_compression(-1), 0);
    assert_eq!(gamma_compression(i128::MIN), 0);
    assert_eq!(gamma_compression(LINEAR_ONE as i128 + 1), 255);
    assert_eq!(gamma_compression(i128::MAX), 255);
    assert_eq!(gamma_compression(503_937_007), 188);
}
