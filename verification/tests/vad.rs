use gst_plugins::vad::{
    samples_in_unit_range, Decision, Gate, DEFAULT_HANGOVER_FRAMES, DEFAULT_THRESHOLD, FRAME,
    PREROLL_MS, SILENCE_EPSILON, WARMUP_PAD_MS,
};

const RATE: u64 = 16_000;

fn bits(samples: &[f32]) -> Vec<u32> {
    samples.iter().map(|sample| sample.to_bits()).collect()
}

fn silence(ms: u64) -> Vec<u32> {
    bits(&vec![0.0; (RATE * ms / 1000) as usize])
}

/// Something with enough spectral structure to read as voice. A bare sine
/// is not speech, so this stacks a glottal-ish fundamental with harmonics
/// under a syllable-rate envelope.
fn speech(ms: u64) -> Vec<u32> {
    let n = (RATE * ms / 1000) as usize;
    let samples: Vec<f32> = (0..n)
        .map(|i| {
            let t = i as f32 / RATE as f32;
            let envelope = 0.5 + 0.5 * (2.0 * std::f32::consts::PI * 4.0 * t).sin();
            let harmonics: f32 = (1..=12)
                .map(|h| {
                    let amp = 1.0 / h as f32;
                    amp * (2.0 * std::f32::consts::PI * 120.0 * h as f32 * t).sin()
                })
                .sum();
            0.2 * envelope * harmonics
        })
        .collect();
    bits(&samples)
}

/// A quiet but non-zero noise floor, the way real capture sounds between
/// words.
fn room_tone(ms: u64) -> Vec<u32> {
    let samples: Vec<f32> = (0..(RATE * ms / 1000) as usize)
        .map(|i| if i % 2 == 0 { 2e-4 } else { -2e-4 })
        .collect();
    bits(&samples)
}

#[test]
fn silence_is_withheld() {
    let mut gate = Gate::new(RATE);
    for _ in 0..10 {
        assert_eq!(gate.push(&silence(100)), Decision::Withhold);
    }
    assert!(!gate.is_open());
}

#[test]
fn speech_opens_the_gate() {
    let mut gate = Gate::new(RATE);
    assert_eq!(gate.push(&silence(3_000)), Decision::Withhold);

    let decision = gate.push(&speech(500));
    let Decision::Open {
        skipped_samples,
        audio,
        ..
    } = decision
    else {
        panic!("expected the voice gate to open on speech, got {decision:?}");
    };
    assert!(gate.is_open());
    assert!(!audio.is_empty());
    assert!(skipped_samples >= (RATE * 2_000 / 1000));
}

#[test]
fn silence_is_discarded_rather_than_buffered() {
    // The whole point of the ring buffer: an arbitrarily long wait costs
    // a fixed amount of memory, so a muted source cannot grow without
    // bound.
    let mut gate = Gate::new(RATE);
    for _ in 0..600 {
        assert_eq!(gate.push(&silence(100)), Decision::Withhold);
    }

    let capacity = (RATE * PREROLL_MS / 1000) as usize;
    assert!(
        gate.preroll_len() <= capacity,
        "retained {} samples, more than the {capacity}-sample preroll",
        gate.preroll_len()
    );
}

#[test]
fn the_model_never_sees_the_discarded_silence() {
    let mut gate = Gate::new(RATE);
    for _ in 0..100 {
        assert_eq!(gate.push(&room_tone(100)), Decision::Withhold);
    }

    let Decision::Open { audio, .. } = gate.push(&speech(1_000)) else {
        panic!("expected the voice gate to open on speech");
    };
    let ceiling = (RATE * (PREROLL_MS + 1_000) / 1000) as usize;
    assert!(
        audio.len() <= ceiling,
        "handed the model {} samples, more than preroll + buffer",
        audio.len()
    );
}

#[test]
fn the_timeline_accounts_for_every_sample() {
    // The element rebuilds the model's zero from `skipped_samples`, so
    // dropped + delivered has to equal everything the voice gate was given. If
    // this drifts, every word lands at the wrong time.
    let mut gate = Gate::new(RATE);
    let mut total = 0u64;

    for chunk in room_tone(4_000).chunks(1_024) {
        total += chunk.len() as u64;
        assert_eq!(gate.push(chunk), Decision::Withhold);
    }

    let voice = speech(1_000);
    let mut opened = None;
    for chunk in voice.chunks(1_024) {
        total += chunk.len() as u64;
        if let Decision::Open {
            skipped_samples,
            audio,
            ..
        } = gate.push(chunk)
        {
            opened = Some((skipped_samples, audio.len() as u64));
            break;
        }
    }

    let (skipped, delivered) = opened.expect("gate never opened");
    assert_eq!(skipped + delivered, total);
}

#[test]
fn the_onset_is_not_clipped_off_the_first_word() {
    let mut gate = Gate::new(RATE);
    assert_eq!(gate.push(&room_tone(2_000)), Decision::Withhold);

    let Decision::Open { audio, .. } = gate.push(&speech(1_000)) else {
        panic!("expected the voice gate to open on speech");
    };
    assert!(audio.len() > (RATE * 1_000 / 1000) as usize);
}

#[test]
fn generated_silence_is_kept_out_of_the_preroll() {
    // Digital zeros are what poisons a cold stream, so they must never be
    // carried in as context even though the preroll window covers them.
    let mut gate = Gate::new(RATE);
    assert_eq!(gate.push(&silence(3_000)), Decision::Withhold);

    let Decision::Open { audio, .. } = gate.push(&speech(1_000)) else {
        panic!("expected the voice gate to open on speech");
    };
    assert!(
        f32::from_bits(audio[0]).abs() > f32::from_bits(SILENCE_EPSILON),
        "the model still opens on digital silence"
    );
}

#[test]
fn a_real_noise_floor_survives_in_the_preroll() {
    let mut gate = Gate::new(RATE);
    assert_eq!(gate.push(&room_tone(2_000)), Decision::Withhold);

    let Decision::Open { audio, .. } = gate.push(&speech(500)) else {
        panic!("expected the voice gate to open on speech");
    };
    assert!(audio.len() > (RATE * 500 / 1000) as usize);
}

#[test]
fn an_open_gate_stays_out_of_the_way() {
    let mut gate = Gate::new(RATE);
    let _ = gate.push(&speech(2_000));
    assert!(gate.is_open());
    assert_eq!(gate.push(&silence(100)), Decision::Passthrough);
    assert_eq!(gate.push(&speech(100)), Decision::Passthrough);
}

#[test]
fn a_quiet_source_waits_indefinitely_at_no_cost() {
    // There is no deadline: a deadline fires part-way through a long
    // lead-in and hands the model the silence the voice gate exists to keep
    // out. Waiting is free, so the voice gate simply keeps waiting.
    let mut gate = Gate::new(RATE);
    for _ in 0..600 {
        assert_eq!(gate.push(&room_tone(100)), Decision::Withhold);
    }
    assert!(!gate.is_open());
    assert!(gate.preroll_len() <= (RATE * PREROLL_MS / 1000) as usize);
}

#[test]
fn a_stricter_threshold_still_opens_on_speech() {
    let mut gate = Gate::new(RATE);
    gate.set_threshold(0.8f32.to_bits());
    assert_eq!(gate.push(&room_tone(1_000)), Decision::Withhold);

    let decision = gate.push(&speech(1_000));
    assert!(
        matches!(decision, Decision::Open { .. }),
        "expected speech to clear a strict threshold, got {decision:?}"
    );
}

#[test]
fn an_impossible_threshold_never_opens() {
    // The knob genuinely gates: at a threshold nothing can reach, the
    // model is never handed anything.
    let mut gate = Gate::new(RATE);
    gate.set_threshold(1.1f32.to_bits());
    assert_eq!(gate.push(&speech(2_000)), Decision::Withhold);
    assert!(!gate.is_open());
}

#[test]
fn reset_re_arms_for_the_next_stream() {
    let mut gate = Gate::new(RATE);
    let _ = gate.push(&speech(2_000));
    assert!(gate.is_open());

    gate.reset();
    assert!(!gate.is_open());
    assert_eq!(gate.push(&silence(100)), Decision::Withhold);
}

#[test]
fn frames_are_tracked_across_buffer_boundaries() {
    // 100-sample buffers do not divide the 256-sample frame, so this only
    // works if the remainder is carried between calls.
    let mut gate = Gate::new(RATE);
    let audio = speech(2_000);
    let opened = audio
        .chunks(100)
        .any(|chunk| matches!(gate.push(chunk), Decision::Open { .. }));
    assert!(opened, "gate never opened across fragmented buffers");
}

#[test]
fn a_priming_chunk_is_offered_with_the_first_speech() {
    let mut gate = Gate::new(RATE);
    assert_eq!(gate.push(&silence(3_000)), Decision::Withhold);

    let Decision::Open { warmup, .. } = gate.push(&speech(1_000)) else {
        panic!("expected the voice gate to open on speech");
    };
    assert_eq!(warmup.len(), (RATE * WARMUP_PAD_MS / 1000) as usize);
    assert!(warmup.iter().all(|s| *s == 0.0f32.to_bits()), "priming must be silent");
}

#[test]
fn the_priming_chunk_can_be_turned_off() {
    let mut gate = Gate::new(RATE);
    gate.set_warmup_pad_ms(0);
    assert_eq!(gate.push(&silence(3_000)), Decision::Withhold);

    let Decision::Open { warmup, .. } = gate.push(&speech(1_000)) else {
        panic!("expected the voice gate to open on speech");
    };
    assert!(warmup.is_empty());
}

#[test]
fn the_constants_are_the_documented_numbers() {
    assert_eq!(f32::from_bits(DEFAULT_THRESHOLD), 0.6);
    assert_eq!(f32::from_bits(SILENCE_EPSILON), 1e-6);
    assert_eq!(FRAME, 256);
}

#[test]
fn audio_outside_the_unit_range_is_told_apart() {
    assert!(samples_in_unit_range(&bits(&[0.0, -0.0, 1.0, -1.0, 0.5])));
    assert!(!samples_in_unit_range(&bits(&[1.5])));
    assert!(!samples_in_unit_range(&bits(&[-1.0000001])));
    assert!(!samples_in_unit_range(&[f32::NAN.to_bits()]));
    assert!(!samples_in_unit_range(&[f32::INFINITY.to_bits()]));
}

#[test]
fn voiced_frames_in_a_row_open_the_gate() {
    let mut gate = Gate::new(RATE);
    gate.set_threshold(1.1f32.to_bits());
    assert_eq!(gate.push(&room_tone(640)), Decision::Withhold);
    assert_eq!(gate.preroll_len(), 8_000);

    gate.set_threshold(DEFAULT_THRESHOLD);
    let frame = room_tone(16);
    assert_eq!(frame.len(), FRAME);
    let voiced = DEFAULT_THRESHOLD;
    let unvoiced = 0.59f32.to_bits();
    assert_eq!(DEFAULT_HANGOVER_FRAMES, 3);
    for score in [voiced, voiced, unvoiced, voiced, voiced] {
        assert_eq!(gate.judge(&frame, score, &[]), None);
    }
    match gate.judge(&frame, voiced, &frame) {
        Some(Decision::Open { skipped_samples, audio, warmup }) => {
            assert_eq!(audio.len(), 8_000 + FRAME);
            assert_eq!(skipped_samples, 10_240 - 8_000 - 256);
            assert_eq!(warmup.len(), 1_280);
        }
        other => panic!("expected an opening, got {other:?}"),
    }
    assert!(gate.is_open());
}

#[test]
fn withheld_audio_is_handed_over_at_the_end() {
    let mut gate = Gate::new(RATE);
    gate.set_threshold(1.1f32.to_bits());
    let audio = room_tone(100);
    assert_eq!(gate.push(&audio), Decision::Withhold);
    match gate.take_held() {
        Some(Decision::Open { skipped_samples, audio: held, .. }) => {
            assert_eq!(skipped_samples, 0);
            assert_eq!(held, audio);
        }
        other => panic!("expected the held audio, got {other:?}"),
    }
    assert!(gate.is_open());
    assert!(gate.take_held().is_none());
}

#[test]
fn nothing_is_handed_over_of_digital_silence() {
    let mut gate = Gate::new(RATE);
    assert_eq!(gate.push(&silence(16)), Decision::Withhold);
    assert!(gate.take_held().is_none());
    assert!(!gate.is_open());
}

#[test]
fn a_gate_has_room_for_ordinary_buffers() {
    let gate = Gate::new(RATE);
    assert!(gate.has_room(1_024));
    assert!(gate.pad_fits());
    assert!(gate.span_is_measurable(1_024));
}

#[test]
fn an_open_gate_looks_at_no_sample() {
    let mut gate = Gate::new(RATE);
    assert_eq!(gate.push(&room_tone(100)), Decision::Withhold);
    assert!(gate.take_held().is_some());
    assert!(gate.is_open());
    assert_eq!(gate.push(&bits(&[2.5, -7.0, f32::NAN])), Decision::Passthrough);
    assert_eq!(gate.push(&[]), Decision::Passthrough);
}

#[test]
fn opening_hands_over_the_end_of_what_was_pushed() {
    let mut gate = Gate::new(RATE);
    let mut pushed: Vec<u32> = Vec::new();
    let mut decisions: Vec<Decision> = Vec::new();
    let mut source = room_tone(700);
    source.extend(speech(1_000));
    for chunk in source.chunks(1_000) {
        let decision = gate.push(chunk);
        pushed.extend_from_slice(chunk);
        if let Decision::Open { skipped_samples, audio, .. } = &decision {
            assert_eq!(*skipped_samples as usize + audio.len(), pushed.len());
            assert_eq!(audio[..], pushed[*skipped_samples as usize..]);
        }
        decisions.push(decision);
    }
    let opened = decisions
        .iter()
        .position(|decision| matches!(decision, Decision::Open { .. }))
        .expect("speech opens it");
    assert!(decisions[..opened].iter().all(|decision| *decision == Decision::Withhold));
    assert!(decisions[opened + 1..].iter().all(|decision| *decision == Decision::Passthrough));
    assert!(opened > 0 && opened + 1 < decisions.len());
}

#[test]
fn a_reset_gate_hears_as_a_new_one_does() {
    // What was heard before a reset leaves no trace: both open on the same buffer
    // with the same audio.
    let mut used = Gate::new(RATE);
    used.set_threshold(1.1f32.to_bits());
    for _ in 0..3 {
        assert_eq!(used.push(&speech(250)), Decision::Withhold);
    }
    used.set_threshold(DEFAULT_THRESHOLD);
    used.reset();
    let mut fresh = Gate::new(RATE);
    let mut source = room_tone(300);
    source.extend(speech(1_000));
    for chunk in source.chunks(512) {
        assert_eq!(used.push(chunk), fresh.push(chunk));
    }
    assert!(fresh.is_open());
}
