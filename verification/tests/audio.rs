use hush::audio::{
    chunk_frames, fill_output, fill_tone, frame_sum, pick_config, wav_frames, wav_reading,
    wav_sums, OfferedConfig, StreamConfig, ToneGap, WavError, WavReading,
};
use hush::fifo::Fifo;

fn offer(channels: u16, single_precision: bool) -> OfferedConfig {
    OfferedConfig { channels, single_precision }
}

#[test]
fn default_configuration_wins() {
    let offered = vec![offer(6, true)];
    assert_eq!(pick_config(Some(2), &offered, 44100), Some(StreamConfig { channels: 2, sample_rate: 44100 }));
}

#[test]
fn first_usable_configuration() {
    let offered = vec![offer(6, false), offer(4, true), offer(1, true)];
    assert_eq!(pick_config(None, &offered, 8000), Some(StreamConfig { channels: 4, sample_rate: 8000 }));
    assert_eq!(pick_config(None, &vec![offer(2, false)], 8000), None);
    assert_eq!(pick_config(None, &Vec::new(), 8000), None);
}

#[test]
fn frames_of_several_channels() {
    assert_eq!(chunk_frames(&vec![1, 2, 3, 4, 5], 2), vec![vec![1, 2], vec![3, 4], vec![5]]);
    assert_eq!(chunk_frames(&vec![1, 2], 7), vec![vec![1, 2]]);
    assert_eq!(chunk_frames(&Vec::<u32>::new(), 3), Vec::<Vec<u32>>::new());
    assert_eq!(chunk_frames(&vec![1, 2], 1), vec![vec![1], vec![2]]);
}

#[test]
fn recordings_are_read_by_format() {
    assert_eq!(wav_reading(true, 32), WavReading::Single);
    assert_eq!(wav_reading(true, 16), WavReading::Whole);
    assert_eq!(wav_reading(false, 32), WavReading::Whole);
}

#[test]
fn recordings_come_in_frames() {
    let items = vec![Some(7u32), Some(8), Some(9)];
    assert_eq!(wav_frames(&items, 2), Ok(vec![vec![7, 8], vec![9]]));
    assert_eq!(wav_frames(&Vec::<Option<u32>>::new(), 2), Ok(Vec::new()));
}

#[test]
fn unreadable_recordings_fail() {
    assert_eq!(wav_frames(&vec![Some(7u32), None], 2), Err(WavError::Read));
    assert_eq!(wav_sums(&vec![None, Some(3)], 1), Err(WavError::Read));
}

#[test]
fn without_channels_nothing_is_read() {
    assert_eq!(wav_frames(&vec![Some(7u32), None], 0), Ok(Vec::new()));
    assert_eq!(wav_sums(&vec![None], 0), Ok(Vec::new()));
}

#[test]
fn whole_samples_are_summed() {
    let items = vec![Some(-3i16), Some(10), Some(32767)];
    assert_eq!(wav_sums(&items, 2), Ok(vec![(7, 2), (32767, 1)]));
    assert_eq!(frame_sum(&vec![i16::MIN; 65535]), -2147450880);
    assert_eq!(frame_sum(&Vec::new()), 0);
}

#[test]
fn queued_samples_fill_all_channels() {
    let mut fifo = Fifo::new(8);
    fifo.push_from(&vec![5, 6, 7], 0);
    let mut data = vec![1; 4];
    let gap = fill_output(&mut data, 2, &mut fifo, false);
    assert_eq!(data, vec![5, 5, 6, 6]);
    assert_eq!(gap.frames, 0);
    assert_eq!(fifo.pop(), Some(7));
}

#[test]
fn silence_follows_the_queue() {
    let mut fifo = Fifo::new(8);
    fifo.push_from(&vec![5], 0);
    let mut data = vec![1; 5];
    let gap = fill_output(&mut data, 2, &mut fifo, false);
    assert_eq!(data, vec![5, 5, 0, 0, 0]);
    assert_eq!(gap, ToneGap { from: 2, frames: 0 });
}

#[test]
fn idle_tone_follows_the_queue() {
    let mut fifo = Fifo::new(8);
    fifo.push_from(&vec![5], 0);
    let mut data = vec![1; 6];
    let gap = fill_output(&mut data, 2, &mut fifo, true);
    assert_eq!(gap, ToneGap { from: 2, frames: 2 });
    assert_eq!(data, vec![5, 5, 1, 1, 1, 1]);
    fill_tone(&mut data, 2, gap, &vec![8, 9]);
    assert_eq!(data, vec![5, 5, 8, 8, 9, 9]);
}

#[test]
fn full_buffer_leaves_no_room_for_the_tone() {
    let mut fifo = Fifo::new(8);
    fifo.push_from(&vec![5, 6], 0);
    let mut data = vec![1; 2];
    let gap = fill_output(&mut data, 1, &mut fifo, true);
    assert_eq!(gap, ToneGap { from: 2, frames: 0 });
    fill_tone(&mut data, 1, gap, &Vec::new());
    assert_eq!(data, vec![5, 6]);
}
