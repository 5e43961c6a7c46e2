use hush::align::{
    block_starts, decode, strongest_tone, AlignSearch, Alignment, READ_SYMBOLS,
};
use hush::modes::{DpskParams, MfskParams, ModeConfig};
use hush::state::Shared;
use hush::worker::{note_loudness, react, Job, Pass, Reaction, Reading, Worker};

const STRONG: u32 = 0x3f40_0000; // 0.75

fn running() -> Shared {
    let mut shared = Shared::new();
    shared.running = true;
    shared
}

fn hear(worker: &mut Worker, shared: &mut Shared, samples: Vec<u32>) {
    shared.rx.push_from(&samples, 0);
    loop {
        match worker.poll(shared) {
            Pass::Heard(heard) if !heard.is_empty() => {}
            _ => break,
        }
    }
}

fn params() -> MfskParams {
    MfskParams { m: 4, center: 1, spacing: 2, symbol_len_ms: 80, preamble_repeats: 3 }
}

#[test]
fn idle_station_hears_nothing() {
    let mut shared = Shared::new();
    let mut worker = Worker::new();
    shared.rx.push_from(&vec![1, 2], 0);
    assert!(matches!(worker.poll(&mut shared), Pass::Idle));
    assert_eq!(worker.len(), 0);
    assert_eq!(shared.rx.take_up_to(5), vec![1, 2]);
}

#[test]
fn samples_are_heard_in_chunks() {
    let mut shared = running();
    let mut worker = Worker::new();
    let samples: Vec<u32> = (0..3000).collect();
    shared.rx.push_from(&samples, 0);
    match worker.poll(&mut shared) {
        Pass::Heard(heard) => assert_eq!(heard, samples[..2048].to_vec()),
        Pass::Idle => panic!("the station runs"),
    }
    match worker.poll(&mut shared) {
        Pass::Heard(heard) => assert_eq!(heard, samples[2048..].to_vec()),
        Pass::Idle => panic!("the station runs"),
    }
    assert_eq!(worker.block(2040, 20), samples[2040..2060].to_vec());
}

#[test]
fn window_is_the_latest_template() {
    let mut shared = running();
    let mut worker = Worker::new();
    hear(&mut worker, &mut shared, vec![1, 2]);
    assert_eq!(worker.window(), None);
    shared.preamble_template = Some(vec![9, 9, 9]);
    hear(&mut worker, &mut shared, Vec::new());
    assert_eq!(worker.window(), None);
    hear(&mut worker, &mut shared, vec![3, 4]);
    assert_eq!(worker.window(), Some(vec![2, 3, 4]));
}

#[test]
fn template_is_taken_over() {
    let mut shared = running();
    let mut worker = Worker::new();
    shared.preamble_template = Some(vec![1, 2]);
    hear(&mut worker, &mut shared, Vec::new());
    assert_eq!(*worker.preamble(), vec![1, 2]);
    shared.preamble_template = Some(vec![3, 4]);
    hear(&mut worker, &mut shared, Vec::new());
    assert_eq!(*worker.preamble(), vec![3, 4]);
    shared.preamble_template = Some(vec![5]);
    hear(&mut worker, &mut shared, Vec::new());
    assert_eq!(*worker.preamble(), vec![5]);
    shared.preamble_template = None;
    hear(&mut worker, &mut shared, Vec::new());
    assert_eq!(*worker.preamble(), vec![5]);
}

#[test]
fn loudness_is_that_of_what_was_heard() {
    let mut shared = running();
    note_loudness(&mut shared, &vec![1, 2], 77);
    assert_eq!(shared.last_rms, 77);
    note_loudness(&mut shared, &Vec::new(), 88);
    assert_eq!(shared.last_rms, 77);
    assert!(shared.running);
}

#[test]
fn six_templates_are_kept() {
    let mut shared = running();
    let mut worker = Worker::new();
    hear(&mut worker, &mut shared, (0..20).collect());
    worker.trim();
    assert_eq!(worker.len(), 20);
    shared.preamble_template = Some(vec![0, 0]);
    hear(&mut worker, &mut shared, Vec::new());
    worker.trim();
    assert_eq!(worker.len(), 12);
    assert_eq!(worker.block(0, 12), (8..20).collect::<Vec<u32>>());
    worker.trim();
    assert_eq!(worker.len(), 12);
}

#[test]
fn weak_correlations_are_ignored() {
    let mut shared = running();
    assert_eq!(react(&mut shared, Some(0.5f32.to_bits()), 1), Reaction::Nothing);
    assert_eq!(react(&mut shared, Some(f32::NAN.abs().to_bits()), 1), Reaction::Nothing);
    assert_eq!(react(&mut shared, None, 1), Reaction::Nothing);
    assert_eq!(shared.last_detection, None);
    assert_eq!(react(&mut shared, Some(0.500001f32.to_bits()), 1), Reaction::NoMode);
    assert_eq!(shared.last_detection, Some(1));
}

#[test]
fn reports_are_apart() {
    let mut shared = running();
    assert_eq!(react(&mut shared, Some(STRONG), 1000), Reaction::NoMode);
    assert_eq!(react(&mut shared, Some(STRONG), 800_001_000), Reaction::Repeated);
    assert_eq!(react(&mut shared, Some(STRONG), 0), Reaction::Repeated);
    assert_eq!(shared.last_detection, Some(1000));
    assert_eq!(react(&mut shared, Some(STRONG), 800_001_001), Reaction::NoMode);
    assert_eq!(shared.last_detection, Some(800_001_001));
}

#[test]
fn reaction_depends_on_the_mode() {
    let mut shared = running();
    shared.sample_rate = 8000;
    shared.current_mode = Some(ModeConfig::Mfsk(params()));
    assert_eq!(react(&mut shared, Some(STRONG), 1), Reaction::Read(params(), 8000));
    shared.last_detection = None;
    shared.current_mode =
        Some(ModeConfig::Dpsk(DpskParams { center: 1, symbol_len_ms: 2, preamble_repeats: 3 }));
    assert_eq!(react(&mut shared, Some(STRONG), 1), Reaction::OtherMode);
}

#[test]
fn whole_blocks() {
    assert_eq!(block_starts(10, 1, 3, 8), vec![1, 4, 7]);
    assert_eq!(block_starts(10, 2, 3, 8), vec![2, 5]);
    assert_eq!(block_starts(10, 1, 3, 2), vec![1, 4]);
    assert_eq!(block_starts(10, 11, 3, 8), Vec::<usize>::new());
    assert_eq!(block_starts(10, 8, 3, 8), Vec::<usize>::new());
    assert_eq!(block_starts(5000, 0, 1, READ_SYMBOLS).len(), 1025);
}

#[test]
fn search_goes_through_all_offsets() {
    let mut search = AlignSearch::new(40, 10, 5).unwrap();
    let mut seen = Vec::new();
    while let Some(starts) = search.next_blocks() {
        seen.push(starts);
        search.offer(Some(seen.len() as u32));
    }
    assert_eq!(seen.len(), 5);
    assert_eq!(seen[0], vec![8, 13, 18, 23, 28, 33]);
    assert_eq!(seen[2], vec![10, 15, 20, 25, 30, 35]);
    assert_eq!(seen[4], vec![12, 17, 22, 27, 32]);
    assert_eq!(search.best(), Alignment { offset: 2, confidence: Some(5) });
}

#[test]
fn search_stops_at_the_first_sample() {
    let search = AlignSearch::new(40, 1, 8).unwrap();
    assert_eq!(search.next_blocks(), Some(vec![0, 8, 16, 24, 32]));
}

#[test]
fn search_prefers_the_first_of_equals() {
    let mut search = AlignSearch::new(40, 10, 4).unwrap();
    for confidence in [None, Some(7), Some(f32::NAN.to_bits()), Some(9), Some(9)] {
        search.offer(confidence);
    }
    assert_eq!(search.next_blocks(), None);
    assert_eq!(search.best(), Alignment { offset: 1, confidence: Some(9) });
}

#[test]
fn pauses_between_passes() {
    assert_eq!(Pass::Idle.pause(), 100);
    assert_eq!(Pass::Heard(Vec::new()).pause(), 3);
    assert_eq!(Pass::Heard(vec![1]).pause(), 0);
}

fn read() -> Reaction {
    Reaction::Read(params(), 8000)
}

/// Where the symbols are looked for at the offset zero.
fn middle(reading: Reading) -> Vec<usize> {
    let mut search = reading.search;
    for _ in 0..reading.job.sym_len / 2 {
        search.offer(None);
    }
    search.next_blocks().unwrap()
}

#[test]
fn symbols_need_samples() {
    assert!(AlignSearch::new(40, 10, 0).is_none());
    let mut shared = running();
    let mut worker = Worker::new();
    worker.heed(read(), 0);
    hear(&mut worker, &mut shared, vec![0; 50]);
    assert!(worker.due_readings().is_empty());
}

#[test]
fn awaited_payload_is_kept() {
    let mut shared = running();
    let mut worker = Worker::new();
    shared.preamble_template = Some(vec![9; 4]);
    hear(&mut worker, &mut shared, (1..41).collect());
    worker.heed(read(), 4);
    hear(&mut worker, &mut shared, (41..46).collect());
    worker.trim();
    assert_eq!(worker.len(), 24);
    hear(&mut worker, &mut shared, (46..81).collect());
    worker.trim();
    assert_eq!(worker.len(), 42);
    assert_eq!(worker.block(0, 42), (39..81).collect::<Vec<u32>>());
    assert!(worker.due_readings().is_empty());
    hear(&mut worker, &mut shared, vec![0; 4]);
    worker.trim();
    let mut readings = worker.due_readings();
    assert_eq!(readings.len(), 1);
    assert_eq!(middle(readings.remove(0)), vec![2, 6, 10, 14, 18, 22, 26, 30]);
    worker.trim();
    assert_eq!(worker.len(), 24);
}

#[test]
fn payload_is_awaited_behind_the_preamble() {
    let mut shared = running();
    let mut worker = Worker::new();
    hear(&mut worker, &mut shared, vec![1; 7]);
    worker.heed(Reaction::Nothing, 10);
    worker.heed(Reaction::Repeated, 10);
    worker.heed(Reaction::OtherMode, 10);
    worker.heed(Reaction::NoMode, 10);
    worker.heed(read(), 10);
    hear(&mut worker, &mut shared, vec![1; 25]);
    worker.heed(Reaction::Nothing, 10);
    worker.heed(read(), 10);
    hear(&mut worker, &mut shared, vec![1; 1]);
    worker.heed(Reaction::Repeated, 10);
    hear(&mut worker, &mut shared, vec![1; 19]);
    hear(&mut worker, &mut shared, vec![0; 10]);
    let mut readings = worker.due_readings();
    assert_eq!(readings.len(), 1);
    assert_eq!(readings[0].job, Job { params: params(), sample_rate: 8000, sym_len: 10 });
    assert_eq!(middle(readings.remove(0)), vec![32, 42]);
    assert!(worker.due_readings().is_empty());
}

#[test]
fn every_report_is_read() {
    let mut shared = running();
    let mut worker = Worker::new();
    hear(&mut worker, &mut shared, vec![1; 10]);
    worker.heed(read(), 10);
    hear(&mut worker, &mut shared, vec![1; 40]);
    worker.heed(read(), 10);
    let other = MfskParams { m: 8, ..params() };
    worker.heed(Reaction::Read(other, 8000), 10);
    hear(&mut worker, &mut shared, vec![1; 20]);
    worker.heed(Reaction::Repeated, 10);
    assert!(worker.due_readings().is_empty());
    hear(&mut worker, &mut shared, vec![1; 20]);
    hear(&mut worker, &mut shared, vec![0; 10]);
    let readings = worker.due_readings();
    assert_eq!(readings.len(), 3);
    assert_eq!(readings[2].job.params, other);
    let places: Vec<Vec<usize>> = readings.into_iter().map(middle).collect();
    assert_eq!(places[0], vec![10, 20, 30, 40, 50, 60, 70, 80]);
    assert_eq!(places[1], vec![50, 60, 70, 80]);
    assert_eq!(places[2], vec![70, 80]);
}

#[test]
fn reading_waits_for_silence() {
    let mut shared = running();
    let mut worker = Worker::new();
    hear(&mut worker, &mut shared, vec![0; 10]);
    assert!(worker.due_readings().is_empty());
    worker.heed(read(), 5);
    hear(&mut worker, &mut shared, vec![1; 5]);
    assert!(worker.due_readings().is_empty());
    hear(&mut worker, &mut shared, vec![0, 0, 0, 0]);
    assert!(worker.due_readings().is_empty());
    hear(&mut worker, &mut shared, vec![(-0.0f32).to_bits()]);
    assert_eq!(worker.due_readings().len(), 1);
}

#[test]
fn silence_is_found_before_later_sound() {
    let mut shared = running();
    let mut worker = Worker::new();
    worker.heed(read(), 4);
    hear(&mut worker, &mut shared, vec![1, 1, 1, 1, 1, 1, 1, 0, 0, 0, 0, 0, 7, 7, 7, 7, 7, 7]);
    let mut readings = worker.due_readings();
    assert_eq!(readings.len(), 1);
    assert_eq!(middle(readings.remove(0)), vec![0, 4]);
}

#[test]
fn silence_over_many_passes_is_found() {
    let mut shared = running();
    let mut worker = Worker::new();
    worker.heed(read(), 4);
    for sample in [1, 1, 0, 0, 0, 1, 1, 0, 0, 0] {
        hear(&mut worker, &mut shared, vec![sample]);
        assert!(worker.due_readings().is_empty());
    }
    hear(&mut worker, &mut shared, vec![0]);
    let mut readings = worker.due_readings();
    assert_eq!(middle(readings.remove(0)), vec![0, 4]);
}

#[test]
fn reading_waits_for_no_more_than_can_be_read() {
    let mut shared = running();
    let mut worker = Worker::new();
    worker.heed(read(), 2);
    hear(&mut worker, &mut shared, vec![1; 2051]);
    assert!(worker.due_readings().is_empty());
    hear(&mut worker, &mut shared, vec![1]);
    assert_eq!(worker.due_readings().len(), 1);
}

#[test]
fn digest_concludes_a_pass() {
    let mut shared = running();
    let mut worker = Worker::new();
    shared.sample_rate = 8000;
    shared.current_mode = Some(ModeConfig::Mfsk(params()));
    hear(&mut worker, &mut shared, vec![1; 10]);
    let digest = worker.digest(&mut shared, &vec![1; 10], 55, Some(STRONG), 1, 5);
    assert_eq!(digest.reaction, read());
    assert!(digest.readings.is_empty());
    assert_eq!((shared.last_rms, shared.last_detection), (55, Some(1)));
    hear(&mut worker, &mut shared, vec![1, 1, 1, 1, 1, 0, 0, 0, 0, 0]);
    let digest = worker.digest(&mut shared, &Vec::new(), 66, None, 2, 5);
    assert_eq!(digest.reaction, Reaction::Nothing);
    assert_eq!(digest.readings.len(), 1);
    assert_eq!((shared.last_rms, shared.last_detection), (55, Some(1)));
}

fn told(len: usize, begin: usize, confidence: Option<f32>, offset: usize) -> AlignSearch {
    let mut search = AlignSearch::new(len, begin, 8).unwrap();
    for at in 0..9 {
        search.offer(if at == offset { confidence.map(f32::to_bits) } else { None });
    }
    search
}

#[test]
fn reading_needs_confidence() {
    assert_eq!(told(40, 10, None, 0).reading_blocks(), None);
    assert_eq!(told(40, 10, Some(0.11999), 7).reading_blocks(), None);
    assert_eq!(told(40, 10, Some(0.12), 7).reading_blocks(), Some(vec![13, 21, 29]));
    assert_eq!(told(40, 10, Some(0.9), 0).reading_blocks(), Some(vec![6, 14, 22, 30]));
    assert_eq!(told(40, 3, Some(0.9), 0).reading_blocks(), Some(vec![0, 8, 16, 24, 32]));
    assert_eq!(told(40, 39, Some(0.9), 8).reading_blocks(), Some(Vec::new()));
    let many = told(10_000, 0, Some(0.9), 4).reading_blocks().unwrap();
    assert_eq!(many.len(), READ_SYMBOLS);
}

#[test]
fn strongest_tone_is_read() {
    let bits = |energies: &[f32]| energies.iter().map(|e| e.to_bits()).collect::<Vec<u32>>();
    assert_eq!(strongest_tone(&bits(&[0.1, 3.5, 2.0])), 1);
    assert_eq!(strongest_tone(&bits(&[0.1, 3.5, 3.5])), 1);
    assert_eq!(strongest_tone(&bits(&[0.0, 0.0])), 0);
    assert_eq!(strongest_tone(&bits(&[1.0, f32::NAN, 2.0])), 2);
    assert_eq!(strongest_tone(&bits(&[1.0, f32::INFINITY, 2.0])), 1);
    assert_eq!(strongest_tone(&Vec::new()), 0);
    let message = decode(&vec![bits(&[0.1, 0.2, 0.3, 3.5]), bits(&[2.0, 1.0]), bits(&[0.0])], 2);
    assert_eq!(message.symbols, vec![3, 0, 0]);
    assert_eq!(message.bits, "110000");
}
