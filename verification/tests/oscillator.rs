use vitsel::dsp::{PolyBlepOsc, Wave, fast_tanh};
use vitsel::fixed::UNIT;
use vitsel::voice::midi_note_to_freq_mhz;

#[test]
fn set_freq_computes_exact_increment() {
    let mut o = PolyBlepOsc::new(48000, Wave::Saw);
    o.set_freq(440_000);
    assert_eq!(o.incr, 39_370_533);
}

#[test]
fn zero_frequency_stalls_the_phase() {
    let mut o = PolyBlepOsc::new(48000, Wave::Saw);
    o.set_freq(0);
    assert_eq!(o.incr, 0);
    let p0 = o.phase;
    o.next_saw_blep();
    assert_eq!(o.phase, p0);
}

#[test]
fn phase_strictly_advances_and_stays_in_one_cycle() {
    let mut o = PolyBlepOsc::new(48000, Wave::Saw);
    o.set_freq(440_000);
    let mut prev = o.phase;
    for _ in 0..1000 {
        o.next_saw_blep();
        assert!(o.phase < 0x1_0000_0000);
        assert_ne!(o.phase, prev);
        prev = o.phase;
    }
}

#[test]
fn saw_output_stays_bandlimited_below_nyquist() {
    // High fundamental, still below half the sample rate.
    let mut o = PolyBlepOsc::new(48000, Wave::Saw);
    o.set_freq(12_543_854);
    for _ in 0..2000 {
        let y = o.next_saw_blep();
        assert!(-UNIT <= y && y <= UNIT);
    }
}

#[test]
fn square_output_stays_bandlimited_below_nyquist() {
    let mut o = PolyBlepOsc::new(48000, Wave::Square);
    o.set_freq(12_543_854);
    for _ in 0..2000 {
        let y = o.next_square_blep();
        assert!(-UNIT <= y && y <= UNIT);
    }
}

#[test]
fn sine_hits_exact_quarter_cycle_points() {
    let mut o = PolyBlepOsc::new(48000, Wave::Sine);
    o.phase = 0;
    assert_eq!(o.next_sine(), 0);
    o.phase = 0x4000_0000;
    assert_eq!(o.next_sine(), UNIT);
    o.phase = 0x8000_0000;
    assert_eq!(o.next_sine(), 0);
    o.phase = 0xC000_0000;
    assert_eq!(o.next_sine(), -UNIT);
}

#[test]
fn fast_tanh_is_odd_and_compresses() {
    assert_eq!(fast_tanh(0), 0);
    assert_eq!(fast_tanh(UNIT), 815_559);
    assert_eq!(fast_tanh(-UNIT), -815_559);
    // Never grows a sample.
    assert!(fast_tanh(3 * UNIT) <= 3 * UNIT);
}

#[test]
fn midi_note_frequencies_match_equal_temperament() {
    assert_eq!(midi_note_to_freq_mhz(69), 440_000);
    assert_eq!(midi_note_to_freq_mhz(81), 880_000);
    assert_eq!(midi_note_to_freq_mhz(57), 220_000);
    assert_eq!(midi_note_to_freq_mhz(60), 261_625);
    assert_eq!(midi_note_to_freq_mhz(0), 8_175);
    assert_eq!(midi_note_to_freq_mhz(127), 12_543_854);
}

#[test]
fn polyblep_correction_softens_the_saw_wrap() {
    // Right at the wrap the naive ramp would jump to -1; the
    // bandlimited saw lands near zero instead.
    let mut o = PolyBlepOsc::new(48000, Wave::Saw);
    o.set_freq(2_000_000);
    o.phase = 0;
    let y = o.next_saw_blep();
    let naive = -UNIT;
    assert!(y > naive + UNIT / 2);
}
