use hush::modems::{
    assemble_frame, generate_dpsk_frame, generate_frame, generate_mfsk_frame, payload_bits,
    plannable, preamble_template_for, symbols_to_bits, PreambleTone, Segment,
};
use hush::modes::{presets_map, DpskParams, MfskParams, ModeConfig};

fn mfsk(m: usize, repeats: u32) -> MfskParams {
    MfskParams { m, center: 7, spacing: 9, symbol_len_ms: 80, preamble_repeats: repeats }
}

fn dpsk(repeats: u32) -> DpskParams {
    DpskParams { center: 5, symbol_len_ms: 40, preamble_repeats: repeats }
}

fn tones(plan: &[Segment]) -> Vec<usize> {
    let mut found = Vec::new();
    for segment in plan {
        if let Segment::Tone(index) = segment {
            found.push(*index);
        }
    }
    found
}

fn phases(plan: &[Segment]) -> Vec<bool> {
    let mut found = Vec::new();
    for segment in plan {
        if let Segment::Phase(flip) = segment {
            found.push(*flip);
        }
    }
    found
}

#[test]
fn payload_keeps_only_bits() {
    assert_eq!(payload_bits("1a0 1\u{e9}0"), vec![true, false, true, false]);
    assert_eq!(payload_bits("xyz"), Vec::<bool>::new());
}

#[test]
fn mfsk_frame_of_four_tones() {
    let plan = generate_mfsk_frame(&mfsk(4, 2), "10110", 2);
    assert_eq!(
        plan,
        vec![
            Segment::Preamble,
            Segment::Preamble,
            Segment::Tone(2),
            Segment::Tone(3),
            Segment::Tone(0),
            Segment::Silence,
        ]
    );
}

#[test]
fn mfsk_last_symbol_is_padded() {
    assert_eq!(tones(&generate_mfsk_frame(&mfsk(8, 0), "1011", 3)), vec![5, 4]);
}

#[test]
fn mfsk_wraps_symbols_without_a_tone() {
    // Six tones round to three bits, so that the two highest symbols wrap.
    assert_eq!(tones(&generate_mfsk_frame(&mfsk(6, 0), "111110101", 3)), vec![1, 0, 5]);
}

#[test]
fn empty_payload_has_no_symbols() {
    assert_eq!(generate_mfsk_frame(&mfsk(1, 1), "none", 0), vec![Segment::Preamble, Segment::Silence]);
    assert_eq!(generate_dpsk_frame(&dpsk(0), ""), vec![Segment::Silence]);
}

#[test]
fn widest_symbols() {
    let ones = "1".repeat(64);
    assert_eq!(tones(&generate_mfsk_frame(&mfsk(usize::MAX, 0), &ones, 64)), vec![0]);
    let mixed = format!("{}0", "1".repeat(63));
    assert_eq!(tones(&generate_mfsk_frame(&mfsk(usize::MAX, 0), &mixed, 64)), vec![usize::MAX - 1]);
}

#[test]
fn dpsk_flips_accumulate() {
    let plan = generate_dpsk_frame(&dpsk(1), "1101");
    assert_eq!(
        plan,
        vec![
            Segment::Preamble,
            Segment::Phase(true),
            Segment::Phase(false),
            Segment::Phase(false),
            Segment::Phase(true),
            Segment::Silence,
        ]
    );
}

#[test]
fn mfsk_round_trip() {
    for (m, width) in [(2, 1), (4, 2), (16, 4), (64, 6), (70, 6)] {
        let payload = "101100111000";
        let symbols = tones(&generate_mfsk_frame(&mfsk(m, 3), payload, width));
        let text = symbols_to_bits(&symbols, width);
        assert!(text.starts_with(payload));
        assert!(text[payload.len()..].chars().all(|c| c == '0'));
        assert!(text.len() < payload.len() + width);
    }
}

#[test]
fn dpsk_round_trip() {
    let payload = "0110100111";
    let turned = phases(&generate_dpsk_frame(&dpsk(2), payload));
    let mut before = false;
    let mut text = String::new();
    for flip in turned {
        text.push(if flip != before { '1' } else { '0' });
        before = flip;
    }
    assert_eq!(text, payload);
}

#[test]
fn symbols_spell_their_bits() {
    assert_eq!(symbols_to_bits(&vec![5, 0, 6], 3), "101000110");
    assert_eq!(symbols_to_bits(&vec![9], 2), "01");
    assert_eq!(symbols_to_bits(&vec![1, 2], 0), "");
    assert_eq!(symbols_to_bits(&Vec::new(), 4), "");
}

#[test]
fn frames_of_both_modes() {
    let a = generate_frame(&ModeConfig::Mfsk(mfsk(4, 1)), "11", 2);
    assert_eq!(a, vec![Segment::Preamble, Segment::Tone(3), Segment::Silence]);
    let b = generate_frame(&ModeConfig::Dpsk(dpsk(1)), "11", 0);
    assert_eq!(b, vec![Segment::Preamble, Segment::Phase(true), Segment::Phase(false), Segment::Silence]);
}

#[test]
fn preamble_tones() {
    assert_eq!(
        preamble_template_for(&ModeConfig::Mfsk(mfsk(16, 4))),
        PreambleTone { center: 7, spacing: 9, steps: 15, symbol_len_ms: 80 }
    );
    assert_eq!(
        preamble_template_for(&ModeConfig::Dpsk(dpsk(4))),
        PreambleTone { center: 5, spacing: 0, steps: 0, symbol_len_ms: 40 }
    );
}

#[test]
fn assembled_frame() {
    let plan = generate_mfsk_frame(&mfsk(4, 2), "1101", 2);
    let frame = assemble_frame(&plan, &vec![1, 2], &vec![vec![30, 31], vec![40, 41]], 2);
    assert_eq!(frame, vec![1, 2, 1, 2, 30, 31, 40, 41, 0, 0]);
    assert_eq!(frame.len(), plan.len() * 2);
}

#[test]
fn bits_spell_the_payload() {
    let bits = payload_bits("a1-0b1");
    let symbols: Vec<usize> = bits.iter().map(|bit| usize::from(*bit)).collect();
    assert_eq!(symbols_to_bits(&symbols, 1), "101");
}

#[test]
fn presets_carry_whole_bits() {
    for (_, params) in presets_map() {
        assert!(params.m.is_power_of_two());
        let width = params.m.trailing_zeros() as usize;
        assert_eq!((params.m as f32).log2().round() as usize, width);
        let payload = "1101001";
        let symbols = tones(&generate_mfsk_frame(&params, payload, width));
        assert!(symbols_to_bits(&symbols, width).starts_with(payload));
    }
}

#[test]
fn plan_lengths() {
    assert_eq!(generate_mfsk_frame(&mfsk(4, 5), "10101", 2).len(), 5 + 3 + 1);
    assert_eq!(generate_dpsk_frame(&dpsk(5), "10101").len(), 5 + 5 + 1);
}

#[test]
fn some_frames_cannot_be_planned() {
    assert!(!plannable(&ModeConfig::Mfsk(mfsk(0, 1)), "", 1));
    assert!(!plannable(&ModeConfig::Mfsk(mfsk(1, 1)), "1", 0));
    assert!(plannable(&ModeConfig::Mfsk(mfsk(1, 1)), "x", 0));
    assert!(plannable(&ModeConfig::Mfsk(mfsk(4, 1)), "1", 2));
    assert!(plannable(&ModeConfig::Dpsk(dpsk(1)), "1", 0));
}
