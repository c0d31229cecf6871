use vitsel::{Vitsel, NoteEvent};
use vitsel::params::{VitsParams, WaveType, FilterMode};
use vitsel::fixed::UNIT;
use vitsel::voice::Voice;

fn engine_with(wave: WaveType, mode: FilterMode, mod_gain: i64) -> Vitsel {
    let mut engine = Vitsel::default();
    engine.sample_rate = 48000;
    engine.params = VitsParams::with_values(
        UNIT,
        1,
        wave,
        524_288,
        6,
        1,
        20,
        UNIT,
        100,
        mode,
        18_000,
        0,
        0,
        mod_gain,
    );
    engine.reset();
    engine
}

fn first_nonzero(frames: &[vitsel::Frame]) -> Option<usize> {
    for (i, f) in frames.iter().enumerate() {
        if f.l != 0 {
            return Some(i);
        }
    }
    None
}

#[test]
fn a_sine_note_produces_audible_output() {
    let mut engine = engine_with(WaveType::Sine, FilterMode::Off, 0);
    let on = vec![NoteEvent::NoteOn { timing: 0, channel: 0, note: 69, velocity: UNIT, voice_id: None }];
    let (frames, _) = engine.process(&on, 200);
    let hit = first_nonzero(&frames);
    assert!(hit.is_some());
    for f in frames.iter() {
        assert!(f.l.abs() <= 2 * UNIT);
        assert_eq!(f.l, f.r);
    }
}

#[test]
fn saw_and_square_notes_produce_audible_output() {
    for wave in [WaveType::Saw, WaveType::Square] {
        let mut engine = engine_with(wave, FilterMode::Off, 0);
        let on = vec![NoteEvent::NoteOn { timing: 0, channel: 0, note: 57, velocity: UNIT, voice_id: None }];
        let (frames, _) = engine.process(&on, 200);
        assert!(first_nonzero(&frames).is_some());
        for f in frames.iter() {
            assert!(f.l.abs() <= 2 * UNIT);
        }
    }
}

#[test]
fn a_triangle_note_integrates_to_audible_output() {
    let mut engine = engine_with(WaveType::Triangle, FilterMode::Off, 0);
    let on = vec![NoteEvent::NoteOn { timing: 0, channel: 0, note: 45, velocity: UNIT, voice_id: None }];
    let (frames, _) = engine.process(&on, 400);
    assert!(first_nonzero(&frames).is_some());
    for f in frames.iter() {
        // The triangle is clamped at 1.2 and scaled by 0.8 before the
        // rest of the chain, so it stays inside one full scale.
        assert!(f.l.abs() <= UNIT);
    }
}

#[test]
fn lowpass_filtering_attenuates_a_bright_note() {
    let note = 108;
    let mut open_engine = engine_with(WaveType::Saw, FilterMode::Off, 0);
    let mut dark_engine = engine_with(WaveType::Saw, FilterMode::LowPass, 0);
    dark_engine.params.cutoff_hz = 20;
    let on = vec![NoteEvent::NoteOn { timing: 0, channel: 0, note, velocity: UNIT, voice_id: None }];
    let (bright, _) = open_engine.process(&on, 300);
    let (dark, _) = dark_engine.process(&on, 300);
    let mut bright_peak: i64 = 0;
    let mut dark_peak: i64 = 0;
    for f in bright.iter() {
        bright_peak = bright_peak.max(f.l.abs());
    }
    for f in dark.iter() {
        dark_peak = dark_peak.max(f.l.abs());
    }
    assert!(bright_peak > 0);
    assert!(dark_peak < bright_peak / 4);
}

#[test]
fn negative_gain_modulation_silences_a_voice() {
    let mut engine = engine_with(WaveType::Sine, FilterMode::Off, UNIT);
    let on = vec![NoteEvent::NoteOn { timing: 0, channel: 0, note: 69, velocity: UNIT, voice_id: Some(1) }];
    engine.process(&on, 1);
    // A full negative offset through a full-depth route drives the
    // resolved gain to the bottom of its range: zero.
    let m = vec![NoteEvent::PolyModulation {
        timing: 0,
        voice_id: 1,
        poly_modulation_id: 1,
        normalized_offset: -UNIT,
    }];
    let (frames, _) = engine.process(&m, 100);
    for f in frames.iter() {
        assert_eq!(f.l, 0);
    }
}

#[test]
fn an_inactive_voice_contributes_silence() {
    let mut v = Voice::new(48000);
    assert!(!v.active);
    // A silent pool renders a silent block.
    let mut engine = engine_with(WaveType::Saw, FilterMode::Off, 0);
    let (frames, terminated) = engine.process(&vec![], 32);
    assert_eq!(terminated.len(), 0);
    for f in frames.iter() {
        assert_eq!(f.l, 0);
        assert_eq!(f.r, 0);
    }
}
