use hush::fifo::{Fifo, RING_CAP};
use hush::state::Shared;
use hush::upload::{Upload, UploadStep};

#[test]
fn samples_leave_in_order() {
    let mut fifo = Fifo::new(4);
    assert_eq!(fifo.pop(), None);
    assert_eq!(fifo.push_from(&vec![1, 2, 3], 0), 3);
    assert_eq!(fifo.pop(), Some(1));
    assert_eq!(fifo.push_from(&vec![9, 4, 5], 1), 2);
    assert_eq!(fifo.take_up_to(10), vec![2, 3, 4, 5]);
    assert_eq!(fifo.pop(), None);
}

#[test]
fn full_queue_takes_what_fits() {
    let mut fifo = Fifo::new(3);
    assert_eq!(fifo.push_from(&vec![1, 2, 3, 4, 5], 0), 3);
    assert_eq!(fifo.push_from(&vec![6], 0), 0);
    assert_eq!(fifo.take_up_to(2), vec![1, 2]);
    assert_eq!(fifo.push_from(&vec![1, 2, 3, 4, 5], 3), 2);
    assert_eq!(fifo.take_up_to(0), Vec::<u32>::new());
    assert_eq!(fifo.take_up_to(3), vec![3, 4, 5]);
}

#[test]
fn queue_wraps_around() {
    let mut fifo = Fifo::new(3);
    for round in 0..10u32 {
        assert_eq!(fifo.push_from(&vec![round, round + 100], 0), 2);
        assert_eq!(fifo.pop(), Some(round));
        assert_eq!(fifo.pop(), Some(round + 100));
    }
}

#[test]
fn queue_without_room() {
    let mut fifo = Fifo::new(0);
    assert_eq!(fifo.push_from(&vec![1], 0), 0);
    assert_eq!(fifo.pop(), None);
}

#[test]
fn upload_goes_in_pieces() {
    let mut fifo = Fifo::new(2);
    let mut upload = Upload::new(vec![1, 2, 3, 4, 5]);
    let mut sent = Vec::new();
    assert_eq!(upload.step(&mut fifo), UploadStep::Progress);
    assert_eq!(upload.pushed(), 2);
    assert_eq!(upload.step(&mut fifo), UploadStep::Stalled);
    sent.extend(fifo.take_up_to(1));
    assert_eq!(upload.step(&mut fifo), UploadStep::Progress);
    assert_eq!(upload.pushed(), 3);
    sent.extend(fifo.take_up_to(2));
    assert_eq!(upload.step(&mut fifo), UploadStep::Progress);
    assert_eq!(upload.step(&mut fifo), UploadStep::Finished);
    sent.extend(fifo.take_up_to(2));
    assert_eq!(sent, vec![1, 2, 3, 4, 5]);
    assert_eq!((upload.pushed(), upload.total()), (5, 5));
}

#[test]
fn empty_upload_is_finished() {
    let mut fifo = Fifo::new(2);
    let mut upload = Upload::new(Vec::new());
    assert_eq!(upload.step(&mut fifo), UploadStep::Finished);
    assert_eq!(upload.pushed(), 0);
}

#[test]
fn station_at_rest() {
    let mut shared = Shared::new();
    assert!(!shared.running);
    assert!(!shared.tx_enabled);
    assert_eq!(f32::from_bits(shared.tx_freq_hz), 600.0);
    assert_eq!(f32::from_bits(shared.last_rms), 0.0);
    assert_eq!(shared.sample_rate, 48000);
    assert!(shared.preamble_template.is_none());
    assert!(shared.current_mode.is_none());
    assert!(shared.last_detection.is_none());
    assert_eq!(shared.rx.pop(), None);
    assert_eq!(RING_CAP, 1 << 17);
    assert_eq!(shared.tx.push_from(&vec![3; RING_CAP + 5], 0), RING_CAP);
}
