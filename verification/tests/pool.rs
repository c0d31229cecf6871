use vitsel::{Vitsel, NoteEvent, mix_scale};
use vitsel::params::{VitsParams, WaveType, FilterMode};
use vitsel::fixed::UNIT;

fn quiet_engine(max_voices: u32, sr: u32) -> Vitsel {
    let mut engine = Vitsel::default();
    engine.sample_rate = sr;
    engine.params = VitsParams::with_values(
        UNIT,
        max_voices,
        WaveType::Sine,
        0,
        0,
        10,
        20,
        734_003,
        100,
        FilterMode::LowPass,
        1600,
        0,
        0,
        0,
    );
    engine.reset();
    engine
}

fn active_count(engine: &Vitsel) -> usize {
    let mut n: usize = 0;
    for v in engine.voices.iter() {
        if v.active {
            n += 1;
        }
    }
    n
}

fn note_on(timing: u32, note: u8) -> NoteEvent {
    NoteEvent::NoteOn { timing, channel: 0, note, velocity: UNIT, voice_id: None }
}

#[test]
fn default_engine_matches_the_factory_patch() {
    let engine = Vitsel::default();
    assert_eq!(engine.sample_rate, 44100);
    assert_eq!(engine.voices.len(), 32);
    assert_eq!(engine.params.max_voices, 32);
    assert_eq!(engine.frame_counter, 0);
    assert_eq!(active_count(&engine), 0);
}

#[test]
fn process_returns_one_frame_per_sample() {
    let mut engine = quiet_engine(4, 48000);
    let (frames, terminated) = engine.process(&vec![], 64);
    assert_eq!(frames.len(), 64);
    assert_eq!(terminated.len(), 0);
}

#[test]
fn a_full_pool_steals_exactly_one_voice() {
    let mut engine = quiet_engine(4, 48000);
    let (_, _) = engine.process(&vec![note_on(0, 60)], 1);
    assert_eq!(active_count(&engine), 1);
    let evs = vec![note_on(0, 61), note_on(0, 62), note_on(0, 63)];
    let (_, _) = engine.process(&evs, 1);
    assert_eq!(active_count(&engine), 4);
    // A fifth note with no free slot steals the oldest voice, which
    // sits in the lowest slot.
    let (_, _) = engine.process(&vec![note_on(0, 64)], 1);
    assert_eq!(active_count(&engine), 4);
    assert_eq!(engine.voices[0].note, 64);
    assert_eq!(engine.voices[1].note, 61);
}

#[test]
fn note_off_without_id_releases_every_matching_voice() {
    let mut engine = quiet_engine(4, 48000);
    let on = vec![
        NoteEvent::NoteOn { timing: 0, channel: 0, note: 60, velocity: UNIT, voice_id: Some(1) },
        NoteEvent::NoteOn { timing: 0, channel: 0, note: 60, velocity: UNIT, voice_id: Some(2) },
        NoteEvent::NoteOn { timing: 0, channel: 0, note: 62, velocity: UNIT, voice_id: Some(3) },
    ];
    engine.process(&on, 1);
    let off = vec![NoteEvent::NoteOff { timing: 0, channel: 0, note: 60, voice_id: None }];
    engine.process(&off, 1);
    let mut releasing: usize = 0;
    for v in engine.voices.iter() {
        if v.active && v.releasing {
            releasing += 1;
            assert_eq!(v.note, 60);
        }
    }
    assert_eq!(releasing, 2);
}

#[test]
fn note_off_with_id_releases_only_that_voice() {
    let mut engine = quiet_engine(4, 48000);
    let on = vec![
        NoteEvent::NoteOn { timing: 0, channel: 0, note: 60, velocity: UNIT, voice_id: Some(1) },
        NoteEvent::NoteOn { timing: 0, channel: 0, note: 60, velocity: UNIT, voice_id: Some(2) },
    ];
    engine.process(&on, 1);
    let off = vec![NoteEvent::NoteOff { timing: 0, channel: 0, note: 60, voice_id: Some(2) }];
    engine.process(&off, 1);
    let mut releasing: usize = 0;
    for v in engine.voices.iter() {
        if v.active && v.releasing {
            releasing += 1;
            assert_eq!(v.note_id, Some(2));
        }
    }
    assert_eq!(releasing, 1);
}

#[test]
fn note_off_on_wrong_channel_is_ignored() {
    let mut engine = quiet_engine(4, 48000);
    engine.process(&vec![note_on(0, 60)], 1);
    let off = vec![NoteEvent::NoteOff { timing: 0, channel: 1, note: 60, voice_id: None }];
    engine.process(&off, 1);
    assert!(!engine.voices[0].releasing);
}

#[test]
fn poly_modulation_targets_the_identified_voice() {
    let mut engine = quiet_engine(4, 48000);
    let on = vec![
        NoteEvent::NoteOn { timing: 0, channel: 0, note: 60, velocity: UNIT, voice_id: Some(7) },
        NoteEvent::NoteOn { timing: 0, channel: 0, note: 61, velocity: UNIT, voice_id: Some(8) },
    ];
    engine.process(&on, 1);
    let m = vec![
        NoteEvent::PolyModulation {
            timing: 0,
            voice_id: 7,
            poly_modulation_id: 1,
            normalized_offset: 524_288,
        },
        NoteEvent::PolyModulation {
            timing: 0,
            voice_id: 8,
            poly_modulation_id: 2,
            normalized_offset: -262_144,
        },
    ];
    engine.process(&m, 1);
    assert_eq!(engine.voices[0].poly_gain_norm, 524_288);
    assert_eq!(engine.voices[0].poly_cut_norm, 0);
    assert_eq!(engine.voices[1].poly_cut_norm, -262_144);
}

#[test]
fn unknown_poly_modulation_targets_are_ignored() {
    let mut engine = quiet_engine(4, 48000);
    let on = vec![
        NoteEvent::NoteOn { timing: 0, channel: 0, note: 60, velocity: UNIT, voice_id: Some(7) },
    ];
    engine.process(&on, 1);
    let m = vec![
        NoteEvent::PolyModulation {
            timing: 0,
            voice_id: 7,
            poly_modulation_id: 9,
            normalized_offset: 524_288,
        },
    ];
    engine.process(&m, 1);
    assert_eq!(engine.voices[0].poly_gain_norm, 0);
    assert_eq!(engine.voices[0].poly_cut_norm, 0);
}

#[test]
fn attack_then_sustain_end_to_end_at_forty_eight_kilohertz() {
    // Capacity one, A4 at full velocity: the very first sample leaves
    // the envelope rising in Attack; once the attack (480 samples,
    // plus one for fixed-point rounding) and the decay have run, the
    // envelope sits exactly on the configured sustain level.
    let mut engine = quiet_engine(1, 48000);
    let on = vec![NoteEvent::NoteOn { timing: 0, channel: 0, note: 69, velocity: UNIT, voice_id: None }];
    engine.process(&on, 1);
    assert!(engine.voices[0].active);
    assert_eq!(engine.voices[0].freq, 440_000);
    assert!(matches!(engine.voices[0].env.state, vitsel::voice::EnvStage::Attack));
    assert!(engine.voices[0].env.level > 0);
    engine.process(&vec![], 769);
    assert!(matches!(engine.voices[0].env.state, vitsel::voice::EnvStage::Sustain));
    assert_eq!(engine.voices[0].env.level, 734_003);
}

#[test]
fn shrinking_the_pool_silences_the_truncated_voices() {
    let mut engine = quiet_engine(8, 48000);
    let on = vec![
        note_on(0, 60),
        note_on(0, 61),
        note_on(0, 62),
        note_on(0, 63),
        note_on(0, 64),
        note_on(0, 65),
    ];
    engine.process(&on, 1);
    assert_eq!(active_count(&engine), 6);
    engine.params.max_voices = 4;
    engine.process(&vec![], 1);
    assert_eq!(engine.voices.len(), 4);
    assert_eq!(active_count(&engine), 4);
}

#[test]
fn growing_the_pool_appends_silent_voices() {
    let mut engine = quiet_engine(2, 48000);
    engine.process(&vec![note_on(0, 60), note_on(0, 61)], 1);
    assert_eq!(active_count(&engine), 2);
    engine.params.max_voices = 6;
    engine.process(&vec![], 1);
    assert_eq!(engine.voices.len(), 6);
    assert_eq!(active_count(&engine), 2);
}

#[test]
fn released_voice_emits_exactly_one_termination_event() {
    let mut engine = quiet_engine(1, 48000);
    let on = vec![NoteEvent::NoteOn { timing: 0, channel: 0, note: 60, velocity: UNIT, voice_id: Some(5) }];
    engine.process(&on, 1);
    let off = vec![NoteEvent::NoteOff { timing: 0, channel: 0, note: 60, voice_id: None }];
    let (_, terminated) = engine.process(&off, 100);
    assert_eq!(terminated.len(), 1);
    match terminated[0] {
        NoteEvent::VoiceTerminated { voice_id, channel, note, .. } => {
            assert_eq!(voice_id, Some(5));
            assert_eq!(channel, 0);
            assert_eq!(note, 60);
        },
        _ => panic!("expected a termination event"),
    }
    assert_eq!(active_count(&engine), 0);
}

#[test]
fn loudness_compensation_is_exact_on_square_pool_sizes() {
    assert_eq!(mix_scale(1), UNIT);
    assert_eq!(mix_scale(4), UNIT / 2);
    assert_eq!(mix_scale(16), UNIT / 4);
    assert_eq!(mix_scale(64), UNIT / 8);
    assert_eq!(mix_scale(2), 741_455);
}

#[test]
fn events_scheduled_later_in_the_block_wait_their_turn() {
    let mut engine = quiet_engine(2, 48000);
    let on = vec![note_on(3, 60)];
    engine.process(&on, 8);
    // The note starts at sample three; by the end of the block it has
    // run five envelope steps.
    assert!(engine.voices[0].active);
    assert_eq!(engine.voices[0].env.level, 5 * (UNIT / 480));
}

#[test]
fn presets_cover_the_factory_patches() {
    let presets = vitsel::presets::factory_presets();
    assert_eq!(presets.len(), 3);
    assert_eq!(presets[0].name, "Init");
    assert_eq!(presets[1].name, "Soft Saw Pad");
    assert_eq!(presets[2].name, "Pluck");
    assert_eq!(presets[0].values.max_voices, 32);
    assert_eq!(presets[1].values.cutoff_hz, 1200);
    assert_eq!(presets[2].values.sustain, 0);
    assert!(presets[2].values.wave == vitsel::params::WaveType::Square);
}

#[test]
fn with_values_clamps_every_parameter_into_range() {
    let p = VitsParams::with_values(
        10 * UNIT,
        0,
        WaveType::Saw,
        -5,
        100,
        1_000_000,
        0,
        2 * UNIT,
        0,
        FilterMode::HighPass,
        5,
        -1,
        3 * UNIT,
        -3 * UNIT,
    );
    assert_eq!(p.gain, 2 * UNIT);
    assert_eq!(p.max_voices, 1);
    assert_eq!(p.osc_mix, 0);
    assert_eq!(p.detune, 50);
    assert_eq!(p.attack_ms, 2000);
    assert_eq!(p.decay_ms, 1);
    assert_eq!(p.sustain, UNIT);
    assert_eq!(p.release_ms, 1);
    assert_eq!(p.cutoff_hz, 20);
    assert_eq!(p.resonance, 0);
    assert_eq!(p.mod_cutoff, UNIT);
    assert_eq!(p.mod_gain, -UNIT);
}

#[test]
fn the_largest_pool_accepts_a_full_chord() {
    let mut engine = quiet_engine(64, 48000);
    let mut on: Vec<NoteEvent> = Vec::new();
    for k in 0..64u8 {
        on.push(note_on(0, 30 + k));
    }
    engine.process(&on, 4);
    assert_eq!(engine.voices.len(), 64);
    assert_eq!(active_count(&engine), 64);
}
