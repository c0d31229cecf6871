use vitsel::voice::{Adsr, EnvStage, Voice};
use vitsel::params::WaveType;
use vitsel::fixed::UNIT;

#[test]
fn attack_reaches_full_level_after_exactly_attack_samples() {
    // 1000 ms at 1024 Hz is exactly 1024 samples, which divides the
    // fixed-point unit evenly.
    let mut e = Adsr::new(1024);
    e.set_ms(1000, 1000, 734_003, 1000);
    e.note_on();
    for _ in 0..1023 {
        e.next();
        assert!(matches!(e.state, EnvStage::Attack));
        assert!(e.level < UNIT);
    }
    e.next();
    assert_eq!(e.level, UNIT);
    assert!(matches!(e.state, EnvStage::Decay));
}

#[test]
fn decay_settles_exactly_on_the_sustain_level() {
    let mut e = Adsr::new(1024);
    e.set_ms(1000, 1000, 734_003, 1000);
    e.note_on();
    for _ in 0..2048 {
        e.next();
    }
    assert!(matches!(e.state, EnvStage::Sustain));
    assert_eq!(e.level, 734_003);
}

#[test]
fn release_reaches_idle_after_release_samples() {
    let mut e = Adsr::new(1024);
    e.set_ms(1000, 1000, 734_003, 1000);
    e.note_on();
    for _ in 0..2048 {
        e.next();
    }
    e.note_off();
    assert!(matches!(e.state, EnvStage::Release));
    for _ in 0..1024 {
        e.next();
    }
    assert!(matches!(e.state, EnvStage::Idle));
    assert_eq!(e.level, 0);
}

#[test]
fn note_off_from_idle_stays_idle() {
    let mut e = Adsr::new(1024);
    e.note_off();
    assert!(matches!(e.state, EnvStage::Idle));
}

#[test]
fn is_idle_tracks_the_idle_stage() {
    let mut e = Adsr::new(1024);
    assert!(e.is_idle());
    e.set_ms(1000, 1000, 734_003, 1000);
    e.note_on();
    e.next();
    assert!(!e.is_idle());
    e.note_off();
    for _ in 0..1024 {
        e.next();
    }
    assert!(e.is_idle());
    assert!(matches!(e.state, EnvStage::Idle));
}

#[test]
fn a_one_sample_attack_jumps_to_full_level() {
    let mut e = Adsr::new(1024);
    e.set_ms(0, 1000, 734_003, 1000);
    e.note_on();
    e.next();
    assert_eq!(e.level, UNIT);
    assert!(matches!(e.state, EnvStage::Decay));
}

#[test]
fn voice_start_sets_pitch_detune_and_phases() {
    let mut v = Voice::new(48000);
    v.start(3, 69, UNIT, WaveType::Saw, 0, 48000);
    assert!(v.active);
    assert_eq!(v.channel, 3);
    assert_eq!(v.note, 69);
    assert_eq!(v.freq, 440_000);
    assert_eq!(v.osc1.phase, 0);
    assert_eq!(v.osc2.phase, 0x8000_0000);
    assert_eq!(v.osc1.incr, 39_370_533);
    assert_eq!(v.osc2.incr, 39_370_533);
    assert!(matches!(v.env.state, EnvStage::Attack));
    assert!(!v.releasing);
}

#[test]
fn voice_start_detunes_the_second_oscillator_upward() {
    let mut v = Voice::new(48000);
    v.start(0, 69, UNIT, WaveType::Saw, 6, 48000);
    assert_eq!(v.osc1.incr, 39_370_533);
    assert!(v.osc2.incr > v.osc1.incr);
}

#[test]
fn voice_release_is_idempotent() {
    let mut v = Voice::new(48000);
    v.env.set_ms(10, 10, 524_288, 100);
    v.start(0, 60, UNIT, WaveType::Sine, 0, 48000);
    v.render(WaveType::Sine, 0, UNIT);
    v.release();
    assert!(v.releasing);
    assert!(matches!(v.env.state, EnvStage::Release));
    let level = v.env.level;
    v.release();
    assert!(v.releasing);
    assert_eq!(v.env.level, level);
}
