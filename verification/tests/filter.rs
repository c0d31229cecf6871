use vitsel::dsp::{ZdfSvf, FilterMode};
use vitsel::fixed::UNIT;

#[test]
fn off_mode_passes_input_through_unchanged() {
    let mut f = ZdfSvf::new(48000);
    f.set(1_600_000, UNIT, FilterMode::Off);
    assert_eq!(f.process(12345), 12345);
    assert_eq!(f.process(-777), -777);
    assert_eq!(f.ic1eq, 0);
    assert_eq!(f.ic2eq, 0);
}

#[test]
fn off_mode_is_passthrough_for_any_state() {
    // Run the filter in low-pass first so its registers are nonzero.
    let mut f = ZdfSvf::new(48000);
    f.set(1_600_000, UNIT, FilterMode::LP);
    for _ in 0..32 {
        f.process(UNIT);
    }
    let s1 = f.ic1eq;
    let s2 = f.ic2eq;
    assert!(s1 != 0 || s2 != 0);
    f.set(1_600_000, UNIT, FilterMode::Off);
    assert_eq!(f.process(424242), 424242);
    assert_eq!(f.ic1eq, s1);
    assert_eq!(f.ic2eq, s2);
}

#[test]
fn lowpass_with_cutoff_at_the_floor_mutes_the_input() {
    let mut f = ZdfSvf::new(48000);
    f.set(0, UNIT, FilterMode::LP);
    assert_eq!(f.process(UNIT), 0);
}

#[test]
fn lowpass_with_cutoff_at_nyquist_tracks_the_input() {
    let mut f = ZdfSvf::new(48000);
    f.set(1_000_000_000_000, UNIT, FilterMode::LP);
    let y = f.process(UNIT);
    assert_eq!(y, 1_014_935);
    assert!(y > 9 * UNIT / 10);
}

#[test]
fn warp_coefficient_matches_its_formula() {
    let mut f = ZdfSvf::new(48000);
    f.set(1_600_000, UNIT, FilterMode::LP);
    assert_eq!(f.g, 111_597);
}

#[test]
fn damping_is_clamped_into_its_stable_range() {
    let mut f = ZdfSvf::new(48000);
    f.set(1_600_000, 0, FilterMode::LP);
    assert_eq!(f.r, 10 * UNIT);
    f.set(1_600_000, UNIT, FilterMode::LP);
    assert_eq!(f.r, UNIT);
}
