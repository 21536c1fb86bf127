use stockroom::units::{Cents, Grams};

#[test]
fn money_display_zero() {
    assert_eq!(Cents::new(0).display(), "0.00");
}

#[test]
fn money_display_minor_padded() {
    assert_eq!(Cents::new(5).display(), "0.05");
}

#[test]
fn money_display_major_and_minor() {
    assert_eq!(Cents::new(299).display(), "2.99");
}

#[test]
fn money_display_round_major() {
    assert_eq!(Cents::new(100).display(), "1.00");
    assert_eq!(Cents::new(83500).display(), "835.00");
}

#[test]
fn money_display_large() {
    assert_eq!(Cents::new(4294967295).display(), "42949672.95");
}

#[test]
fn money_accessors() {
    assert_eq!(Cents::new(2299).as_u32(), 2299);
}

#[test]
fn weight_display_grams_band() {
    assert_eq!(Grams::new(0).display(), "0g");
    assert_eq!(Grams::new(10).display(), "10g");
    assert_eq!(Grams::new(56).display(), "56g");
}

#[test]
fn weight_display_ounce_band_lower_edge() {
    // 57 / 28.349523125 = 2.010..., which rounds up to 3
    assert_eq!(Grams::new(57).display(), "3oz");
}

#[test]
fn weight_display_ounce_band_upper_edge() {
    // 907 / 28.349523125 = 31.993..., which rounds up to 32
    assert_eq!(Grams::new(907).display(), "32oz");
}

#[test]
fn weight_display_pound_band_lower_edge() {
    // 908 / 453.59237 = 2.002..., which rounds up to 3
    assert_eq!(Grams::new(908).display(), "3lb");
}

#[test]
fn weight_display_pound_band() {
    // 12613 / 453.59237 = 27.807..., which rounds up to 28
    assert_eq!(Grams::new(12613).display(), "28lb");
}

#[test]
fn weight_accessors() {
    assert_eq!(Grams::new(81).as_u32(), 81);
}
