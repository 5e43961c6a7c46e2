use hush::align::decode;
use hush::control::set_template;
use hush::modems::{assemble_frame, generate_mfsk_frame, Segment};
use hush::modes::{MfskParams, ModeConfig};
use hush::state::Shared;
use hush::worker::{react, Pass, Reaction, Reading, Worker};

const RATE: f32 = 8000.0;
const SYMBOL: usize = 40;
const LOWEST: f32 = 1200.0;
const SPACING: f32 = 200.0;

fn params() -> MfskParams {
    MfskParams {
        m: 4,
        center: 1500.0f32.to_bits(),
        spacing: SPACING.to_bits(),
        symbol_len_ms: 5,
        preamble_repeats: 3,
    }
}

fn tone(index: usize) -> Vec<u32> {
    let step = 2.0 * std::f32::consts::PI * (LOWEST + index as f32 * SPACING) / RATE;
    (0..SYMBOL).map(|n| (step * n as f32).sin().to_bits()).collect()
}

fn frame(payload: &str) -> Vec<u32> {
    let plan = generate_mfsk_frame(&params(), payload, 2);
    let mut symbols = Vec::new();
    for segment in &plan {
        if let Segment::Tone(index) = segment {
            symbols.push(tone(*index));
        }
    }
    assemble_frame(&plan, &tone(0), &symbols, SYMBOL)
}

fn correlation(window: &[u32], template: &[u32]) -> f32 {
    let (mut dot, mut left, mut right) = (0.0f32, 0.0f32, 0.0f32);
    for (a, b) in window.iter().zip(template) {
        let (a, b) = (f32::from_bits(*a), f32::from_bits(*b));
        dot += a * b;
        left += a * a;
        right += b * b;
    }
    dot / (left.sqrt() * right.sqrt()).max(1e-12)
}

fn energies(block: &[u32]) -> Vec<f32> {
    let turn = 2.0 * std::f32::consts::PI;
    let mut found = Vec::new();
    for index in 0..4 {
        let step = turn * (LOWEST + index as f32 * SPACING) / RATE;
        let (mut re, mut im) = (0.0f32, 0.0f32);
        for (n, sample) in block.iter().enumerate() {
            let hann = 0.5 * (1.0 - (turn * n as f32 / block.len() as f32).cos());
            let value = f32::from_bits(*sample) * hann;
            re += value * (step * n as f32).cos();
            im += value * (step * n as f32).sin();
        }
        found.push(re * re + im * im);
    }
    found
}

fn confidence(worker: &Worker, starts: &[usize]) -> Option<u32> {
    let (mut sum, mut blocks) = (0.0f32, 0);
    for start in starts {
        let found = energies(&worker.block(*start, SYMBOL));
        let total: f32 = found.iter().sum();
        if total > 0.0 {
            sum += found.iter().cloned().fold(0.0, f32::max) / total;
            blocks += 1;
        }
    }
    if blocks > 0 {
        Some((sum / blocks as f32).to_bits())
    } else {
        None
    }
}

fn read(worker: &Worker, reading: Reading) -> String {
    let mut search = reading.search;
    while let Some(starts) = search.next_blocks() {
        search.offer(confidence(worker, &starts));
    }
    let mut levels = Vec::new();
    for start in search.reading_blocks().unwrap() {
        let found = energies(&worker.block(start, SYMBOL));
        levels.push(found.iter().map(|e| e.to_bits()).collect::<Vec<u32>>());
    }
    decode(&levels, 2).bits
}

fn receive(air: &[u32], pass: usize) -> Vec<String> {
    let mut shared = Shared::new();
    shared.running = true;
    shared.sample_rate = 8000;
    shared.current_mode = Some(ModeConfig::Mfsk(params()));
    set_template(&mut shared, tone(0));
    let mut worker = Worker::new();
    let mut texts = Vec::new();
    let mut now = 0;
    for part in air.chunks(pass) {
        shared.rx.push_from(&part.to_vec(), 0);
        let heard = match worker.poll(&mut shared) {
            Pass::Heard(heard) => heard,
            Pass::Idle => panic!("the station runs"),
        };
        now += part.len() as u64 * 125_000;
        let found = worker.window().map(|window| correlation(&window, worker.preamble()));
        let matched = found.map(|c| c.abs().to_bits());
        let digest = worker.digest(&mut shared, &heard, 0, matched, now, SYMBOL);
        for reading in digest.readings {
            texts.push(read(&worker, reading));
        }
    }
    texts
}

fn air(quiet: usize, payload: &str) -> Vec<u32> {
    let mut samples = vec![0; quiet];
    samples.extend(frame(payload));
    samples
}

#[test]
fn sent_payload_is_received() {
    for quiet in [40, 43, 57, 200] {
        for pass in [1, 2, 4] {
            for payload in ["101100111000", "1101", "001101", "011011", "1111111100"] {
                let heard = receive(&air(quiet, payload), pass);
                assert_eq!(heard, vec![payload.to_string()], "{} {}", quiet, pass);
            }
        }
    }
}

#[test]
fn odd_payload_is_padded() {
    assert_eq!(receive(&air(50, "10111"), 4), vec!["101110".to_string()]);
}

#[test]
fn long_payload_is_received() {
    let payload = "10110111".repeat(100);
    let heard = receive(&air(60, &payload), 4);
    assert_eq!(heard[0], payload);
}

#[test]
fn frames_in_succession_are_received() {
    let mut samples = air(60, "101100");
    samples.extend(vec![0; 8000]);
    samples.extend(air(0, "110110"));
    samples.extend(vec![0x3f00_0000; 3]);
    assert_eq!(receive(&samples, 4), vec!["101100".to_string(), "110110".to_string()]);
}

#[test]
fn frames_without_silence_are_all_received() {
    let one = |payload: &str| {
        let mut samples = frame(payload);
        samples.truncate(samples.len() - SYMBOL);
        samples
    };
    let mut samples = vec![0; 60];
    samples.extend(one("110110"));
    for _ in 0..200 {
        samples.extend(tone(3));
    }
    samples.extend(air(0, "101011"));
    let heard = receive(&samples, 4);
    assert_eq!(heard.len(), 2);
    assert!(heard[0].starts_with("110110"));
    assert_eq!(heard[1], "101011");
}

#[test]
fn symbols_behind_the_preamble_are_those_sent() {
    let mut shared = Shared::new();
    shared.running = true;
    let mut worker = Worker::new();
    let sent = frame("101100");
    assert_eq!(sent.len(), 7 * SYMBOL);
    shared.rx.push_from(&sent[..3 * SYMBOL - 6].to_vec(), 0);
    let _ = worker.poll(&mut shared);
    worker.heed(Reaction::Read(params(), 8000), SYMBOL);
    shared.rx.push_from(&sent[3 * SYMBOL - 6..].to_vec(), 0);
    let _ = worker.poll(&mut shared);
    let mut readings = worker.due_readings();
    assert_eq!(readings.len(), 1);
    let mut search = readings.remove(0).search;
    for offset in 0..SYMBOL + 1 {
        search.offer(if offset == SYMBOL / 2 + 6 { Some(1.0f32.to_bits()) } else { None });
    }
    let starts = search.reading_blocks().unwrap();
    assert_eq!(starts, vec![3 * SYMBOL, 4 * SYMBOL, 5 * SYMBOL]);
    assert_eq!(worker.block(starts[0], SYMBOL), tone(2));
    assert_eq!(worker.block(starts[1], SYMBOL), tone(3));
    assert_eq!(worker.block(starts[2], SYMBOL), tone(0));
}

#[test]
fn only_the_first_match_is_a_report() {
    let mut shared = Shared::new();
    shared.current_mode = Some(ModeConfig::Mfsk(params()));
    let matched = Some(1.0f32.to_bits());
    assert_eq!(react(&mut shared, matched, 5), Reaction::Read(params(), shared.sample_rate));
    assert_eq!(react(&mut shared, matched, 6), Reaction::Repeated);
}
