//! The state that the control connection, the audio streams and the receiver
//! share.
use crate::fifo::{Fifo, RING_CAP};
use crate::modes::ModeConfig;
use vstd::prelude::*;

verus! {

/// The sample rate where none is asked for.
pub const DEFAULT_SR: u32 = 48000;

/// The idle tone where none is asked for: 600 Hz.
pub const HZ_600: u32 = 0x4416_0000;

/// The state of a station.
pub struct Shared {
    /// Whether streams are open and the receiver listens.
    pub running: bool,
    /// Whether the idle tone is on.
    pub tx_enabled: bool,
    /// The frequency of the idle tone.
    pub tx_freq_hz: u32,
    /// How loud the last samples received were.
    pub last_rms: u32,
    /// The sample rate that was asked for last.
    pub sample_rate: u32,
    /// The samples received and not yet looked at.
    pub rx: Fifo,
    /// The samples to be sent.
    pub tx: Fifo,
    /// One symbol of the preamble to look for.
    pub preamble_template: Option<Vec<u32>>,
    /// The mode of the last frame sent.
    pub current_mode: Option<ModeConfig>,
    /// When a preamble was last reported, in nanoseconds since the station
    /// started.
    pub last_detection: Option<u64>,
}

impl Shared {
    /// Both queues are valid.
    pub open spec fn wf(&self) -> bool {
        self.rx.wf() && self.tx.wf()
    }

    /// A station at rest: nothing open, nothing queued, no mode chosen.
    pub fn new() -> (shared: Shared)
        ensures
            shared.wf(),
            !shared.running,
            !shared.tx_enabled,
            shared.tx_freq_hz == HZ_600,
            shared.last_rms == 0,
            shared.sample_rate == DEFAULT_SR,
            shared.rx@ == Seq::<u32>::empty(),
            shared.rx.capacity() == RING_CAP,
            shared.tx@ == Seq::<u32>::empty(),
            shared.tx.capacity() == RING_CAP,
            shared.preamble_template is None,
            shared.current_mode is None,
            shared.last_detection is None,
    {
        Shared {
            running: false,
            tx_enabled: false,
            tx_freq_hz: HZ_600,
            last_rms: 0,
            sample_rate: DEFAULT_SR,
            rx: Fifo::new(RING_CAP),
            tx: Fifo::new(RING_CAP),
            preamble_template: None,
            current_mode: None,
            last_detection: None,
        }
    }
}

/// What a station at rest starts from: 48000 samples per second, an idle tone of
/// 600 Hz, and room for 131072 samples in each queue.
pub proof fn law_station_at_rest()
    ensures
        DEFAULT_SR == 48000,
        HZ_600 == 0x4416_0000,
        RING_CAP == 131072,
{
}

} // verus!
