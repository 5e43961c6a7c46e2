//! Samples on their way between audio streams, recordings and queues.
//!
//! A sample is carried as the bit pattern of a single-precision number (IEEE 754
//! binary32); silence is the pattern zero.
use crate::fifo::Fifo;
use vstd::prelude::*;

verus! {

// ---------------------------------------------------------------------------
// Stream configurations
// ---------------------------------------------------------------------------

/// How a stream is opened.
#[derive(Clone, Copy, Debug, PartialEq, Eq, Structural)]
pub struct StreamConfig {
    /// How many channels it has.
    pub channels: u16,
    /// Frames per second.
    pub sample_rate: u32,
}

/// A configuration that a device offers.
#[derive(Clone, Copy, Debug, PartialEq, Eq, Structural)]
pub struct OfferedConfig {
    /// How many channels it has.
    pub channels: u16,
    /// Whether its samples are single-precision numbers.
    pub single_precision: bool,
}

/// The channels of the first offered configuration with single-precision
/// samples.
pub open spec fn first_usable(offered: Seq<OfferedConfig>) -> Option<u16>
    decreases offered.len(),
{
    if offered.len() == 0 {
        None
    } else if offered[0].single_precision {
        Some(offered[0].channels)
    } else {
        first_usable(offered.skip(1))
    }
}

/// The configuration to open: the channels of the device's default, or else of
/// the first usable one among those it offers, at the wanted rate.
pub open spec fn pick_config_spec(
    default_channels: Option<u16>,
    offered: Seq<OfferedConfig>,
    sample_rate: u32,
) -> Option<StreamConfig> {
    let channels = if default_channels is Some {
        default_channels
    } else {
        first_usable(offered)
    };
    match channels {
        Some(channels) => Some(StreamConfig { channels, sample_rate }),
        None => None,
    }
}

/// Chooses how to open a stream of a device, if it can be opened at all.
pub fn pick_config(
    default_channels: Option<u16>,
    offered: &Vec<OfferedConfig>,
    sample_rate: u32,
) -> (config: Option<StreamConfig>)
    ensures
        config == pick_config_spec(default_channels, offered@, sample_rate),
{
    if let Some(channels) = default_channels {
        return Some(StreamConfig { channels, sample_rate });
    }
    let mut i: usize = 0;
    assert(offered@.skip(0) =~= offered@);
    while i < offered.len()
        invariant
            i <= offered@.len(),
            default_channels is None,
            first_usable(offered@) == first_usable(offered@.skip(i as int)),
        decreases offered.len() - i,
    {
        if offered[i].single_precision {
            return Some(StreamConfig { channels: offered[i].channels, sample_rate });
        }
        assert(offered@.skip(i as int).skip(1) =~= offered@.skip(i + 1));
        i += 1;
    }
    None
}

// ---------------------------------------------------------------------------
// Frames of several channels
// ---------------------------------------------------------------------------

/// Where chunk `k` ends.
pub open spec fn chunk_end(len: nat, size: nat, k: int) -> int {
    if (k + 1) * size <= len {
        (k + 1) * size
    } else {
        len as int
    }
}

/// How many chunks there are.
pub open spec fn chunk_count(len: nat, size: nat) -> nat {
    ((len + size - 1) / size as int) as nat
}

/// The data cut into chunks of `size`, the last of which may be shorter.
pub open spec fn chunks<T>(data: Seq<T>, size: nat) -> Seq<Seq<T>> {
    Seq::new(
        chunk_count(data.len(), size),
        |k: int| data.subrange(k * size, chunk_end(data.len(), size, k)),
    )
}

/// The contents of a vector of vectors.
pub open spec fn contents<T>(rows: Seq<Vec<T>>) -> Seq<Seq<T>> {
    rows.map_values(|row: Vec<T>| row@)
}

/// Copies the data from `start` to before `end`.
fn copy_range<T: Copy>(data: &Vec<T>, start: usize, end: usize) -> (part: Vec<T>)
    requires
        start <= end <= data@.len(),
    ensures
        part@ == data@.subrange(start as int, end as int),
{
    let mut part: Vec<T> = Vec::new();
    let mut i: usize = start;
    while i < end
        invariant
            start <= i <= end <= data@.len(),
            part@ == data@.subrange(start as int, i as int),
        decreases end - i,
    {
        part.push(data[i]);
        i += 1;
        assert(part@ =~= data@.subrange(start as int, i as int));
    }
    assert(part@ =~= data@.subrange(start as int, end as int));
    part
}

/// Cuts interleaved samples into frames of `channels` each; what is left at the
/// end is a shorter frame.
pub fn chunk_frames<T: Copy>(data: &Vec<T>, channels: usize) -> (frames: Vec<Vec<T>>)
    requires
        channels > 0,
    ensures
        contents(frames@) == chunks(data@, channels as nat),
{
    let ghost size = channels as nat;
    let mut frames: Vec<Vec<T>> = Vec::new();
    let mut i: usize = 0;
    assert(0 * size == 0);
    while i < data.len()
        invariant
            channels > 0,
            size == channels,
            i <= data@.len(),
            i < data@.len() ==> i == frames@.len() * size,
            i == data@.len() ==> i <= frames@.len() * size && (frames@.len() > 0 ==> (frames@.len()
                - 1) * size < i),
            forall|k: int|
                0 <= k < frames@.len() ==> (#[trigger] frames@[k])@ == data@.subrange(
                    k * size,
                    chunk_end(data@.len(), size, k),
                ),
        decreases data.len() - i,
    {
        let end: usize = if data.len() - i <= channels {
            data.len()
        } else {
            i + channels
        };
        let frame = copy_range(data, i, end);
        proof {
            let k = frames@.len() as int;
            assert((k + 1) * size == k * size + size) by (nonlinear_arith);
            assert(end == chunk_end(data@.len(), size, k));
        }
        frames.push(frame);
        i = end;
    }
    proof {
        let count = frames@.len() as int;
        assert(count == chunk_count(data@.len(), size)) by {
            let len = data@.len();
            if count == 0 {
                assert((size - 1) / size as int == 0) by (nonlinear_arith)
                    requires
                        size > 0,
                ;
            } else {
                assert((len + size - 1) / size as int == count) by (nonlinear_arith)
                    requires
                        size > 0,
                        (count - 1) * size < len <= count * size,
                ;
            }
        }
        assert(contents(frames@) =~= chunks(data@, size));
    }
    frames
}

/// No sample is lost in the cutting: each is in the frame and at the place where
/// its position says.
pub proof fn law_chunks_cover<T>(data: Seq<T>, size: nat, i: int)
    requires
        size > 0,
        0 <= i < data.len(),
    ensures
        0 <= i / (size as int) < chunks(data, size).len(),
        i % (size as int) < chunks(data, size)[i / (size as int)].len() <= size,
        chunks(data, size)[i / (size as int)][i % (size as int)] == data[i],
{
    let s = size as int;
    let k = i / s;
    let len = data.len() as int;
    assert(0 <= k && k < (len + s - 1) / s && i == k * s + i % s && 0 <= i % s < s && (k + 1) * s
        == k * s + s) by (nonlinear_arith)
        requires
            s > 0,
            0 <= i < len,
            k == i / s,
    ;
}

// ---------------------------------------------------------------------------
// Recordings
// ---------------------------------------------------------------------------

/// A recording could not be read.
#[derive(Clone, Copy, Debug, PartialEq, Eq, Structural)]
pub enum WavError {
    /// A sample could not be read.
    Read,
}

/// How the samples of a recording are read.
#[derive(Clone, Copy, Debug, PartialEq, Eq, Structural)]
pub enum WavReading {
    /// As single-precision numbers.
    Single,
    /// As whole numbers of sixteen bits.
    Whole,
}

/// How the samples of a recording are read: as single-precision numbers where
/// they are, else as whole numbers.
pub fn wav_reading(float_format: bool, bits_per_sample: u16) -> (reading: WavReading)
    ensures
        reading == (if float_format && bits_per_sample == 32 {
            WavReading::Single
        } else {
            WavReading::Whole
        }),
{
    if float_format && bits_per_sample == 32 {
        WavReading::Single
    } else {
        WavReading::Whole
    }
}

/// Whether each sample could be read.
pub open spec fn all_read<T>(items: Seq<Option<T>>) -> bool {
    forall|i: int| 0 <= i < items.len() ==> (#[trigger] items[i]) is Some
}

/// The samples that were read.
pub open spec fn read_values<T>(items: Seq<Option<T>>) -> Seq<T> {
    items.map_values(|item: Option<T>| item->0)
}

/// The frames of a recording. An item that is `None` stands for a sample that
/// could not be read. Nothing is read where there are no channels.
pub fn wav_frames<T: Copy>(
    items: &Vec<Option<T>>,
    channels: u16,
) -> (frames: Result<Vec<Vec<T>>, WavError>)
    ensures
        frames == Err::<Vec<Vec<T>>, WavError>(WavError::Read) <==> channels > 0 && !all_read(
            items@,
        ),
        frames matches Ok(rows) ==> contents(rows@) == (if channels == 0 {
            Seq::<Seq<T>>::empty()
        } else {
            chunks(read_values(items@), channels as nat)
        }),
{
    if channels == 0 {
        let none: Vec<Vec<T>> = Vec::new();
        assert(contents(none@) =~= Seq::<Seq<T>>::empty());
        return Ok(none);
    }
    let mut values: Vec<T> = Vec::new();
    let mut i: usize = 0;
    while i < items.len()
        invariant
            channels > 0,
            i <= items@.len(),
            values@.len() == i,
            forall|k: int|
                0 <= k < i ==> (#[trigger] items@[k]) is Some && values@[k] == items@[k]->0,
        decreases items.len() - i,
    {
        match items[i] {
            Some(value) => {
                values.push(value);
            },
            None => {
                assert(items@[i as int] is None);
                return Err(WavError::Read);
            },
        }
        i += 1;
    }
    assert(values@ =~= read_values(items@));
    Ok(chunk_frames(&values, channels as usize))
}

/// The sum of whole samples.
pub open spec fn sum_of(frame: Seq<i16>) -> int
    decreases frame.len(),
{
    if frame.len() == 0 {
        0
    } else {
        sum_of(frame.drop_last()) + frame.last()
    }
}

/// A sum of samples is within what their number allows.
proof fn lemma_sum_bound(frame: Seq<i16>)
    ensures
        -32768 * frame.len() <= sum_of(frame) <= 32767 * frame.len(),
    decreases frame.len(),
{
    if frame.len() > 0 {
        lemma_sum_bound(frame.drop_last());
    }
}

/// The sum of the whole samples of a frame, one for each channel. A frame has so
/// few that their sum always fits.
pub fn frame_sum(frame: &Vec<i16>) -> (sum: i32)
    requires
        frame@.len() <= u16::MAX,
    ensures
        sum == sum_of(frame@),
{
    let mut sum: i32 = 0;
    let mut i: usize = 0;
    while i < frame.len()
        invariant
            i <= frame@.len() <= u16::MAX,
            sum == sum_of(frame@.take(i as int)),
        decreases frame.len() - i,
    {
        proof {
            lemma_sum_bound(frame@.take(i + 1));
            assert(frame@.take(i + 1).drop_last() =~= frame@.take(i as int));
        }
        sum += frame[i] as i32;
        i += 1;
    }
    assert(frame@.take(frame@.len() as int) =~= frame@);
    sum
}

/// The sums of all frames of a recording with whole samples, each with the number
/// of samples in it.
pub fn wav_sums(
    items: &Vec<Option<i16>>,
    channels: u16,
) -> (sums: Result<Vec<(i32, usize)>, WavError>)
    ensures
        sums == Err::<Vec<(i32, usize)>, WavError>(WavError::Read) <==> channels > 0 && !all_read(
            items@,
        ),
        sums matches Ok(all) ==> {
            let frames = if channels == 0 {
                Seq::<Seq<i16>>::empty()
            } else {
                chunks(read_values(items@), channels as nat)
            };
            &&& all@.len() == frames.len()
            &&& forall|k: int|
                0 <= k < frames.len() ==> (#[trigger] all@[k]).0 == sum_of(frames[k]) && all@[k].1
                    == frames[k].len()
        },
{
    let frames = match wav_frames(items, channels) {
        Ok(frames) => frames,
        Err(e) => {
            return Err(e);
        },
    };
    let ghost rows = contents(frames@);
    let mut sums: Vec<(i32, usize)> = Vec::new();
    let mut k: usize = 0;
    while k < frames.len()
        invariant
            k <= frames@.len(),
            sums@.len() == k,
            rows == contents(frames@),
            rows == (if channels == 0 {
                Seq::<Seq<i16>>::empty()
            } else {
                chunks(read_values(items@), channels as nat)
            }),
            forall|j: int|
                0 <= j < k ==> (#[trigger] sums@[j]).0 == sum_of(rows[j]) && sums@[j].1
                    == rows[j].len(),
        decreases frames.len() - k,
    {
        proof {
            let data = read_values(items@);
            let size = channels as int;
            assert(rows.len() == frames@.len());
            assert(channels > 0);
            assert(rows[k as int] == frames@[k as int]@);
            assert((k + 1) * size == k * size + size) by (nonlinear_arith);
            assert(k * size < data.len()) by (nonlinear_arith)
                requires
                    size > 0,
                    k < (data.len() + size - 1) / size,
            ;
        }
        sums.push((frame_sum(&frames[k]), frames[k].len()));
        k += 1;
    }
    Ok(sums)
}

// ---------------------------------------------------------------------------
// Playing
// ---------------------------------------------------------------------------

/// The part of a buffer that the idle tone has to fill.
#[derive(Clone, Copy, Debug, PartialEq, Eq, Structural)]
pub struct ToneGap {
    /// Where it starts.
    pub from: usize,
    /// How many frames it has.
    pub frames: usize,
}

/// How many frames of a buffer the queue can fill.
pub open spec fn queued_frames(len: nat, channels: nat, queued: nat) -> nat {
    if queued <= len / channels {
        queued
    } else {
        len / channels
    }
}

/// Fills a buffer of interleaved samples for the loudspeaker. Each queued sample
/// fills one frame, the same on all channels. Where the queue runs dry the rest
/// is silence; but while the idle tone is on, the rest is left as it is, for the
/// tone to fill.
///
/// The tone comes in whole frames, so with the tone on the buffer has to be made
/// of whole frames.
pub fn fill_output(
    data: &mut Vec<u32>,
    channels: usize,
    fifo: &mut Fifo,
    tone_on: bool,
) -> (gap: ToneGap)
    requires
        channels > 0,
        old(fifo).wf(),
        tone_on ==> old(data)@.len() % channels as nat == 0,
    ensures
        final(fifo).wf(),
        final(fifo).capacity() == old(fifo).capacity(),
        ({
            let len = old(data)@.len();
            let played = queued_frames(len, channels as nat, old(fifo)@.len());
            let filled = played * channels;
            &&& final(fifo)@ == old(fifo)@.skip(played as int)
            &&& final(data)@ == Seq::new(
                len,
                |i: int|
                    if i < filled {
                        old(fifo)@[i / channels as int]
                    } else if tone_on {
                        old(data)@[i]
                    } else {
                        0u32
                    },
            )
            &&& gap.from == filled
            &&& gap.frames == if tone_on {
                len / channels as nat - played
            } else {
                0
            }
            &&& tone_on ==> gap.from + gap.frames * channels == len
        }),
        final(data)@.len() == old(data)@.len(),
        final(fifo)@.len() <= old(fifo)@.len(),
        final(fifo)@.len() > 0 ==> old(data)@.len() < (old(fifo)@.len() - final(fifo)@.len())
            * channels + channels,
        forall|i: int|
            0 <= i < old(data)@.len() && i < (old(fifo)@.len() - final(fifo)@.len()) * channels
                ==> #[trigger] final(data)@[i] == old(fifo)@[i / channels as int],
        forall|i: int|
            (old(fifo)@.len() - final(fifo)@.len()) * channels <= i < old(data)@.len()
                ==> #[trigger] final(data)@[i] == (if tone_on {
                old(data)@[i]
            } else {
                0u32
            }),
{
    let ghost first = data@;
    let ghost queue = fifo@;
    let total: usize = data.len();
    let frames: usize = total / channels;
    let mut played: usize = 0;
    let mut idx: usize = 0;
    proof {
        assert(frames * channels <= data@.len()) by (nonlinear_arith)
            requires
                channels > 0,
                frames == data@.len() as int / channels as int,
        ;
        assert(queue.skip(0) =~= queue);
    }
    while played < frames
        invariant
            channels > 0,
            fifo.wf(),
            fifo.capacity() == old(fifo).capacity(),
            data@.len() == first.len(),
            total == first.len(),
            frames == first.len() as int / channels as int,
            frames * channels <= data@.len(),
            played <= frames,
            played <= queue.len(),
            idx == played * channels,
            fifo@ == queue.skip(played as int),
            forall|i: int| 0 <= i < idx ==> #[trigger] data@[i] == queue[i / channels as int],
            forall|i: int| idx <= i < data@.len() ==> #[trigger] data@[i] == first[i],
        ensures
            played == frames || played == queue.len(),
        decreases frames - played,
    {
        match fifo.pop() {
            Some(sample) => {
                let mut ch: usize = 0;
                proof {
                    assert(queue.skip(played as int).skip(1) =~= queue.skip(played + 1));
                    assert((played + 1) * channels == played * channels + channels && (played + 1)
                        * channels <= frames * channels) by (nonlinear_arith)
                        requires
                            played + 1 <= frames,
                    ;
                }
                while ch < channels
                    invariant
                        channels > 0,
                        ch <= channels,
                        idx == played * channels,
                        idx + channels <= data@.len(),
                        data@.len() == first.len(),
                        total == first.len(),
                        played < queue.len(),
                        sample == queue[played as int],
                        forall|i: int|
                            0 <= i < idx + ch ==> #[trigger] data@[i] == queue[i / channels as int],
                        forall|i: int|
                            idx + ch <= i < data@.len() ==> #[trigger] data@[i] == first[i],
                    decreases channels - ch,
                {
                    data.set(idx + ch, sample);
                    assert((idx + ch) / channels as int == played) by (nonlinear_arith)
                        requires
                            idx == played * channels,
                            0 <= ch < channels,
                    ;
                    ch += 1;
                }
                idx += channels;
                played += 1;
            },
            None => {
                break;
            },
        }
    }
    let from: usize = idx;
    proof {
        law_queue_is_played_first(total as nat, channels as nat, queue.len());
        assert(queue.len() - fifo@.len() == played);
    }
    assert(played * channels <= frames * channels) by (nonlinear_arith)
        requires
            played <= frames,
    ;
    if tone_on {
        proof {
            assert(data@ =~= Seq::new(
                first.len(),
                |i: int|
                    if i < idx {
                        queue[i / channels as int]
                    } else {
                        first[i]
                    },
            ));
            assert(from + (frames - played) * channels == total) by (nonlinear_arith)
                requires
                    channels > 0,
                    total % channels == 0,
                    frames == total / channels,
                    from == played * channels,
            ;
        }
        ToneGap { from, frames: frames - played }
    } else {
        while idx < total
            invariant
                from <= idx <= total,
                total == first.len(),
                data@.len() == first.len(),
                forall|i: int| 0 <= i < from ==> #[trigger] data@[i] == queue[i / channels as int],
                forall|i: int| from <= i < idx ==> #[trigger] data@[i] == 0u32,
            decreases total - idx,
        {
            data.set(idx, 0);
            idx += 1;
        }
        ToneGap { from, frames: 0 }
    }
}

/// Fills the frames that were left to the idle tone, each with its tone sample on
/// all channels.
pub fn fill_tone(data: &mut Vec<u32>, channels: usize, gap: ToneGap, tone: &Vec<u32>)
    requires
        channels > 0,
        tone@.len() == gap.frames,
        gap.from + gap.frames * channels == old(data)@.len(),
    ensures
        final(data)@ == Seq::new(
            old(data)@.len(),
            |i: int|
                if i < gap.from {
                    old(data)@[i]
                } else {
                    tone@[(i - gap.from) / channels as int]
                },
        ),
{
    let ghost first = data@;
    let total: usize = data.len();
    let mut k: usize = 0;
    let mut idx: usize = gap.from;
    while k < tone.len()
        invariant
            channels > 0,
            k <= tone@.len(),
            tone@.len() == gap.frames,
            data@.len() == first.len(),
            total == first.len(),
            gap.from + gap.frames * channels == first.len(),
            idx == gap.from + k * channels,
            forall|i: int| 0 <= i < gap.from ==> #[trigger] data@[i] == first[i],
            forall|i: int|
                gap.from <= i < idx ==> #[trigger] data@[i] == tone@[(i - gap.from)
                    / channels as int],
        decreases tone.len() - k,
    {
        let mut ch: usize = 0;
        proof {
            assert((k + 1) * channels == k * channels + channels && (k + 1) * channels
                <= gap.frames * channels) by (nonlinear_arith)
                requires
                    k + 1 <= gap.frames,
            ;
        }
        while ch < channels
            invariant
                channels > 0,
                ch <= channels,
                k < tone@.len(),
                data@.len() == first.len(),
                total == first.len(),
                idx == gap.from + k * channels,
                idx + channels <= data@.len(),
                forall|i: int| 0 <= i < gap.from ==> #[trigger] data@[i] == first[i],
                forall|i: int|
                    gap.from <= i < idx + ch ==> #[trigger] data@[i] == tone@[(i - gap.from)
                        / channels as int],
            decreases channels - ch,
        {
            data.set(idx + ch, tone[k]);
            assert((idx + ch - gap.from) / channels as int == k) by (nonlinear_arith)
                requires
                    idx == gap.from + k * channels,
                    0 <= ch < channels,
            ;
            ch += 1;
        }
        idx += channels;
        k += 1;
    }
    proof {
        assert(data@ =~= Seq::new(
            first.len(),
            |i: int|
                if i < gap.from {
                    first[i]
                } else {
                    tone@[(i - gap.from) / channels as int]
                },
        ));
    }
}

/// A device is opened with the channels of its default configuration, where it has
/// one, and then whatever else it offers does not matter.
pub proof fn law_default_is_opened(channels: u16, offered: Seq<OfferedConfig>, sample_rate: u32)
    ensures
        pick_config_spec(Some(channels), offered, sample_rate) == Some(
            StreamConfig { channels, sample_rate },
        ),
{
}

/// Without a default, the first configuration that has single-precision samples is
/// opened, at the wanted rate; and a device is not opened only where it has none.
pub proof fn law_first_usable_is_opened(offered: Seq<OfferedConfig>, sample_rate: u32, i: int)
    ensures
        0 <= i < offered.len() && offered[i].single_precision && (forall|j: int|
            0 <= j < i ==> !(#[trigger] offered[j]).single_precision) ==> pick_config_spec(
            None,
            offered,
            sample_rate,
        ) == Some(StreamConfig { channels: offered[i].channels, sample_rate }),
        (forall|j: int| 0 <= j < offered.len() ==> !(#[trigger] offered[j]).single_precision)
            ==> pick_config_spec(None, offered, sample_rate) is None,
    decreases offered.len(),
{
    if offered.len() > 0 && !offered[0].single_precision {
        let rest = offered.skip(1);
        law_first_usable_is_opened(rest, sample_rate, i - 1);
        if forall|j: int| 0 <= j < offered.len() ==> !(#[trigger] offered[j]).single_precision {
            assert forall|j: int| 0 <= j < rest.len() implies !(#[trigger]
            rest[j]).single_precision by {
                assert(rest[j] == offered[j + 1]);
            }
        }
        if 0 <= i < offered.len() && offered[i].single_precision && (forall|j: int|
            0 <= j < i ==> !(#[trigger] offered[j]).single_precision) {
            assert(i > 0);
            assert(rest[i - 1] == offered[i]);
            assert forall|j: int| 0 <= j < i - 1 implies !(#[trigger] rest[j]).single_precision by {
                assert(rest[j] == offered[j + 1]);
            }
        }
    }
}

/// A buffer takes from the queue as many samples as it has whole frames: silence or
/// the tone comes only where the queue ran dry.
pub proof fn law_queue_is_played_first(len: nat, channels: nat, queued: nat)
    requires
        channels > 0,
    ensures
        queued_frames(len, channels, queued) <= queued,
        queued_frames(len, channels, queued) * channels <= len,
        queued_frames(len, channels, queued) < queued ==> len < queued_frames(
            len,
            channels,
            queued,
        ) * channels + channels,
{
    let whole = len / channels;
    assert(whole * channels <= len < whole * channels + channels) by (nonlinear_arith)
        requires
            channels > 0,
            whole == len / channels,
    ;
    let played = queued_frames(len, channels, queued);
    assert(played * channels <= whole * channels) by (nonlinear_arith)
        requires
            played <= whole,
    ;
}

/// The chunks of data are as long as asked for, but for the last one, none is
/// empty, and each begins where the one before it ends.
pub proof fn law_chunks_are_full<T>(data: Seq<T>, size: nat, k: int)
    requires
        size > 0,
        0 <= k < chunks(data, size).len(),
    ensures
        0 <= k * size < data.len(),
        k + 1 < chunks(data, size).len() ==> chunks(data, size)[k].len() == size,
        k + 1 == chunks(data, size).len() ==> chunks(data, size)[k].len() == data.len() - k * size
            && 0 < data.len() - k * size <= size,
        forall|i: int|
            0 <= i < chunks(data, size)[k].len() ==> #[trigger] chunks(data, size)[k][i]
                == data[k * size + i],
{
    let s = size as int;
    let len = data.len() as int;
    let count = chunks(data, size).len() as int;
    assert(0 <= k * s && (count - 1) * s < len && len <= count * s && (k + 1) * s == k * s + s && (k
        + 1 < count ==> (k + 1) * s <= (count - 1) * s) && k * s <= (count - 1) * s)
        by (nonlinear_arith)
        requires
            s > 0,
            len >= 0,
            0 <= k < count,
            count == (len + s - 1) / s,
    ;
}

/// What was read is what the items hold, and there is a failure where one holds
/// nothing.
pub proof fn law_items_read<T>(items: Seq<Option<T>>, rows: Seq<Vec<T>>)
    ensures
        all_read(items) <==> !items.contains(None),
        read_values(items).len() == items.len(),
        forall|i: int|
            0 <= i < items.len() && items[i] is Some ==> Some(#[trigger] read_values(items)[i])
                == items[i],
        contents(rows).len() == rows.len(),
        forall|k: int| 0 <= k < rows.len() ==> #[trigger] contents(rows)[k] == rows[k]@,
{
    if all_read(items) && items.contains(None) {
        let i = choose|i: int| 0 <= i < items.len() && items[i] == None::<T>;
        assert(items[i] is Some);
    }
    if !items.contains(None) {
        assert forall|i: int| 0 <= i < items.len() implies (#[trigger] items[i]) is Some by {
            if items[i] is None {
                assert(items[i] == None::<T>);
                assert(items.contains(None));
            }
        }
    }
}

/// Sums of samples add up, whatever way the samples are split.
pub proof fn law_sums_add_up(a: Seq<i16>, b: Seq<i16>, sample: i16)
    ensures
        sum_of(seq![sample]) == sample,
        sum_of(a + b) == sum_of(a) + sum_of(b),
    decreases b.len(),
{
    reveal_with_fuel(sum_of, 2);
    assert(seq![sample].drop_last() =~= Seq::<i16>::empty());
    if b.len() == 0 {
        assert(a + b =~= a);
    } else {
        law_sums_add_up(a, b.drop_last(), sample);
        assert((a + b).drop_last() =~= a + b.drop_last());
    }
}

} // verus!
