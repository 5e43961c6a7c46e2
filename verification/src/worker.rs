//! The receiver: it gathers samples, looks for the preamble, and awaits the
//! payload behind it until it is to be read.
//!
//! The caller runs the filters. A pass is a call of [`Worker::poll`], which takes
//! what was received, and one of [`Worker::digest`], which is told what the
//! filters made of it and says what to report and what to read. Correlations are
//! taken without their sign, and are carried as the bit patterns of
//! single-precision numbers (IEEE 754 binary32), which order as the numbers do.
use crate::align::{AlignSearch, INFINITY, READ_SYMBOLS};
use crate::fifo::available;
use crate::modes::{MfskParams, ModeConfig};
use crate::state::Shared;
use std::collections::VecDeque;
use vstd::prelude::*;

verus! {

/// How many samples are looked at in one pass.
pub const READ_CHUNK: usize = 2048;

/// How long to wait while the station does not run, in milliseconds.
pub const IDLE_PAUSE: u64 = 100;

/// How long to wait after a pass that heard nothing, in milliseconds.
pub const EMPTY_PAUSE: u64 = 3;

/// How much time has to pass between two reports of a preamble, in nanoseconds.
pub const DETECTION_GAP: u64 = 800_000_000;

/// The time that counts as passed before the first report, in nanoseconds.
pub const BEFORE_FIRST: u64 = 3_600_000_000_000;

/// The correlation that a preamble has to exceed: 0.5.
pub const MATCH_ABOVE: u32 = 0x3f00_0000;

/// The pattern of zero with a minus sign.
pub const MINUS_ZERO: u32 = 0x8000_0000;

/// How many templates long the kept samples are at most, but for those that are
/// still to be read.
pub const KEPT_TEMPLATES: usize = 6;

/// What one pass over the received samples found.
#[derive(Debug)]
pub enum Pass {
    /// The station is not running.
    Idle,
    /// These samples were received.
    Heard(Vec<u32>),
}

impl Pass {
    /// How long to wait after the pass, in milliseconds.
    pub fn pause(&self) -> (millis: u64)
        ensures
            millis == (match self {
                Pass::Idle => IDLE_PAUSE,
                Pass::Heard(heard) => if heard@.len() == 0 {
                    EMPTY_PAUSE
                } else {
                    0
                },
            }),
    {
        match self {
            Pass::Idle => IDLE_PAUSE,
            Pass::Heard(heard) => if heard.len() == 0 {
                EMPTY_PAUSE
            } else {
                0
            },
        }
    }
}

/// What is to be done about a preamble.
#[derive(Clone, Copy, Debug, PartialEq, Eq, Structural)]
pub enum Reaction {
    /// There is none.
    Nothing,
    /// It was reported a moment ago.
    Repeated,
    /// Report it; no mode is known.
    NoMode,
    /// Report it; the mode is one that is not read.
    OtherMode,
    /// Report it, and read the symbols behind it at this sample rate.
    Read(MfskParams, u32),
}

// ---------------------------------------------------------------------------
// Reports of a preamble
// ---------------------------------------------------------------------------

/// The template in use once `wanted` is looked at: that one, where there is one.
pub open spec fn adopted(current: Seq<u32>, wanted: Option<Vec<u32>>) -> Seq<u32> {
    match wanted {
        Some(template) => template@,
        None => current,
    }
}

/// How long ago a preamble was reported.
pub open spec fn since(last: Option<u64>, now: u64) -> int {
    match last {
        None => BEFORE_FIRST as int,
        Some(then) => if then <= now {
            now - then
        } else {
            0
        },
    }
}

/// Whether a preamble found now is to be reported.
pub open spec fn due(last: Option<u64>, now: u64) -> bool {
    since(last, now) > DETECTION_GAP
}

/// Whether a correlation, taken without its sign, is that of a preamble.
pub open spec fn matches_preamble(correlation: u32) -> bool {
    MATCH_ABOVE < correlation <= INFINITY
}

/// What to do about a reported preamble in a mode.
pub open spec fn reaction_to(mode: Option<ModeConfig>, sample_rate: u32) -> Reaction {
    match mode {
        None => Reaction::NoMode,
        Some(ModeConfig::Mfsk(params)) => Reaction::Read(params, sample_rate),
        Some(ModeConfig::Dpsk(_)) => Reaction::OtherMode,
    }
}

/// What `react` makes of a correlation; `None` is that there was nothing to
/// compare.
pub open spec fn reaction_for(shared: Shared, correlation: Option<u32>, now: u64) -> Reaction {
    if correlation is None || !matches_preamble(correlation->0) {
        Reaction::Nothing
    } else if !due(shared.last_detection, now) {
        Reaction::Repeated
    } else {
        reaction_to(shared.current_mode, shared.sample_rate)
    }
}

/// Whether a reaction reports a preamble.
pub open spec fn is_report(reaction: Reaction) -> bool {
    !(reaction is Nothing) && !(reaction is Repeated)
}

/// The state that `react` leaves: the time of a report is remembered.
pub open spec fn state_after_reaction(
    shared: Shared,
    correlation: Option<u32>,
    now: u64,
) -> Shared {
    if is_report(reaction_for(shared, correlation, now)) {
        Shared { last_detection: Some(now), ..shared }
    } else {
        shared
    }
}

/// Decides what to do once the window was compared with the preamble.
pub fn react(shared: &mut Shared, correlation: Option<u32>, now: u64) -> (reaction: Reaction)
    ensures
        *final(shared) == state_after_reaction(*old(shared), correlation, now),
        reaction == reaction_for(*old(shared), correlation, now),
        correlation matches Some(found) && 0x3f00_0000 < found <= 0x7f80_0000 ==> {
            let early = old(shared).last_detection matches Some(then) && now - then <= 800_000_000;
            &&& early ==> reaction is Repeated
            &&& !early ==> (reaction is NoMode || reaction is OtherMode || reaction is Read)
            &&& !early ==> final(shared).last_detection == Some(now)
        },
{
    let matched = match correlation {
        Some(found) => MATCH_ABOVE < found && found <= INFINITY,
        None => false,
    };
    if !matched {
        return Reaction::Nothing;
    }
    let since: u64 = match shared.last_detection {
        None => BEFORE_FIRST,
        Some(then) => if then <= now {
            now - then
        } else {
            0
        },
    };
    if since <= DETECTION_GAP {
        return Reaction::Repeated;
    }
    shared.last_detection = Some(now);
    match shared.current_mode {
        None => Reaction::NoMode,
        Some(ModeConfig::Mfsk(params)) => Reaction::Read(params, shared.sample_rate),
        Some(ModeConfig::Dpsk(_)) => Reaction::OtherMode,
    }
}

/// The state once it is remembered how loud the samples of a pass were, where any
/// were heard.
pub open spec fn loudness_noted(shared: Shared, heard: Seq<u32>, rms: u32) -> Shared {
    Shared {
        last_rms: if heard.len() > 0 {
            rms
        } else {
            shared.last_rms
        },
        ..shared
    }
}

/// Remembers how loud the samples of a pass were, where any were heard.
pub fn note_loudness(shared: &mut Shared, heard: &Vec<u32>, rms: u32)
    ensures
        *final(shared) == loudness_noted(*old(shared), heard@, rms),
{
    if heard.len() > 0 {
        shared.last_rms = rms;
    }
}

// ---------------------------------------------------------------------------
// Silence
// ---------------------------------------------------------------------------

/// Whether a sample is zero, of either sign.
pub open spec fn is_zero(sample: u32) -> bool {
    sample == 0 || sample == MINUS_ZERO
}

/// Whether `size` samples from `place` on are there, and are all zero.
pub open spec fn silent_at(samples: Seq<u32>, place: int, size: nat) -> bool {
    &&& 0 <= place
    &&& place + size <= samples.len()
    &&& forall|i: int| place <= i < place + size ==> is_zero(#[trigger] samples[i])
}

/// The first place from `from` on at which `size` samples are silent.
pub open spec fn first_silence(samples: Seq<u32>, from: nat, size: nat) -> Option<nat>
    decreases samples.len() - from,
{
    if from + size > samples.len() || from >= samples.len() {
        None
    } else if silent_at(samples, from as int, size) {
        Some(from)
    } else {
        first_silence(samples, from + 1, size)
    }
}

/// What it is to be the first silence.
pub proof fn lemma_first_silence(samples: Seq<u32>, from: nat, size: nat)
    requires
        size > 0,
    ensures
        match first_silence(samples, from, size) {
            Some(place) => {
                &&& from <= place
                &&& silent_at(samples, place as int, size)
                &&& forall|j: int| from <= j < place ==> !#[trigger] silent_at(samples, j, size)
            },
            None => forall|j: int| from <= j ==> !#[trigger] silent_at(samples, j, size),
        },
    decreases samples.len() - from,
{
    if from + size <= samples.len() && !silent_at(samples, from as int, size) {
        lemma_first_silence(samples, from + 1, size);
    }
}

/// A silence with no other before it is the first one.
pub proof fn lemma_is_first_silence(samples: Seq<u32>, from: nat, size: nat, found: Option<nat>)
    requires
        size > 0,
        match found {
            Some(place) => {
                &&& from <= place
                &&& silent_at(samples, place as int, size)
                &&& forall|j: int| from <= j < place ==> !#[trigger] silent_at(samples, j, size)
            },
            None => forall|j: int| from <= j ==> !#[trigger] silent_at(samples, j, size),
        },
    ensures
        first_silence(samples, from, size) == found,
{
    lemma_first_silence(samples, from, size);
    match (first_silence(samples, from, size), found) {
        (Some(a), Some(b)) => {
            assert(silent_at(samples, a as int, size) && silent_at(samples, b as int, size));
        },
        (Some(a), None) => {
            assert(silent_at(samples, a as int, size));
        },
        (None, Some(b)) => {
            assert(silent_at(samples, b as int, size));
        },
        (None, None) => {},
    }
}

// ---------------------------------------------------------------------------
// What the receiver holds
// ---------------------------------------------------------------------------

/// What is to be read behind a preamble.
#[derive(Clone, Copy, Debug, PartialEq, Eq, Structural)]
pub struct Job {
    /// The parameters of the mode.
    pub params: MfskParams,
    /// The sample rate.
    pub sample_rate: u32,
    /// How many samples a symbol has.
    pub sym_len: usize,
}

/// A payload that is awaited.
pub struct Awaited {
    /// What is to be read.
    pub job: Job,
    /// Where the payload should start, counted from the first sample ever heard:
    /// behind the last window that matched its preamble.
    pub place: nat,
    /// How far the preamble may still go on behind that place.
    pub left: nat,
}

/// What a receiver holds.
#[verifier::ext_equal]
pub struct Ear {
    /// All samples ever heard, oldest first.
    pub heard: Seq<u32>,
    /// How many of them are forgotten.
    pub dropped: nat,
    /// The preamble that is looked for; empty while there is none.
    pub template: Seq<u32>,
    /// The payloads that are awaited, in the order of their reports.
    pub waits: Seq<Awaited>,
}

impl Ear {
    /// The samples that are kept.
    pub open spec fn samples(self) -> Seq<u32> {
        self.heard.skip(self.dropped as int)
    }

    /// What is forgotten was heard; payloads are awaited among the samples that
    /// are kept, or right behind them; and their symbols have samples.
    pub open spec fn valid(self) -> bool {
        &&& self.dropped <= self.heard.len()
        &&& forall|i: int|
            0 <= i < self.waits.len() ==> {
                &&& self.dropped <= (#[trigger] self.waits[i]).place <= self.heard.len()
                &&& self.waits[i].job.sym_len > 0
            }
    }
}

/// A receiver that heard more, with a preamble to look for.
pub open spec fn polled(ear: Ear, heard: Seq<u32>, wanted: Option<Vec<u32>>) -> Ear {
    Ear { heard: ear.heard + heard, template: adopted(ear.template, wanted), ..ear }
}

/// How much of a preamble may follow the window that first matched it, where half
/// a symbol of the preamble is in that window. The correlation does not ask for as
/// much behind silence, and may ask for more in noise.
pub open spec fn preamble_rest(repeats: u32, sym_len: nat) -> nat {
    if repeats == 0 {
        0
    } else {
        (repeats * sym_len - sym_len / 2) as nat
    }
}

/// A number, or the greatest one there is.
pub open spec fn capped(number: nat) -> nat {
    if number <= usize::MAX {
        number
    } else {
        usize::MAX as nat
    }
}

/// Whether a preamble may still go on after `heard` samples.
pub open spec fn goes_on(wait: Awaited, heard: nat) -> bool {
    heard - wait.place <= wait.left
}

/// Whether a reaction can be to the preamble that a payload is awaited behind.
pub open spec fn same_preamble(reaction: Reaction, sym_len: usize, wait: Awaited) -> bool {
    match reaction {
        Reaction::Read(params, sample_rate) => wait.job == (Job { params, sample_rate, sym_len }),
        Reaction::Repeated => true,
        _ => false,
    }
}

/// A receiver that heeded a reaction. A window that matches while the last
/// preamble may still go on shows that it does: its payload is awaited behind that
/// window. Every other report of a preamble whose symbols can be read has a payload
/// of its own awaited.
pub open spec fn heeded(ear: Ear, reaction: Reaction, sym_len: usize) -> Ear {
    let len = ear.heard.len();
    if ear.waits.len() > 0 && same_preamble(reaction, sym_len, ear.waits.last()) && goes_on(
        ear.waits.last(),
        len,
    ) {
        let last = ear.waits.last();
        let moved = Awaited {
            place: len,
            left: (last.left - (len - last.place)) as nat,
            ..last
        };
        Ear { waits: ear.waits.drop_last().push(moved), ..ear }
    } else {
        match reaction {
            Reaction::Read(params, sample_rate) if sym_len > 0 => Ear {
                waits: ear.waits.push(
                    Awaited {
                        job: Job { params, sample_rate, sym_len },
                        place: len,
                        left: capped(preamble_rest(params.preamble_repeats, sym_len as nat)),
                    },
                ),
                ..ear
            },
            _ => ear,
        }
    }
}

/// The first sample that a wait needs: that half a symbol before its place, as far
/// as it is kept.
pub open spec fn needed_by(wait: Awaited, dropped: nat) -> nat {
    let half: int = wait.job.sym_len as int / 2;
    if wait.place >= dropped + half {
        (wait.place - half) as nat
    } else {
        dropped
    }
}

/// The first sample that is needed from `from` on, or earlier by a wait.
pub open spec fn needed_from(from: nat, waits: Seq<Awaited>, dropped: nat) -> nat
    decreases waits.len(),
{
    if waits.len() == 0 {
        from
    } else {
        let others = needed_from(from, waits.drop_last(), dropped);
        let own = needed_by(waits.last(), dropped);
        if others <= own {
            others
        } else {
            own
        }
    }
}

/// A receiver that forgot what it does not need: it keeps six templates of the
/// latest samples, everything while there is no template, and what is awaited.
pub open spec fn trimmed(ear: Ear) -> Ear {
    let kept: int = KEPT_TEMPLATES * ear.template.len();
    let from = if kept > 0 && ear.heard.len() - ear.dropped > kept {
        (ear.heard.len() - kept) as nat
    } else {
        ear.dropped
    };
    Ear { dropped: needed_from(from, ear.waits, ear.dropped), ..ear }
}

/// Where the samples end that an awaited payload is to be read from; `None` while
/// it is not to be read yet. The first silence as long as a symbol ends a frame: a
/// symbol is read where more than half of it lies before that silence. Without
/// silence, all samples are read once there are more symbols than are read at all.
pub open spec fn reading_end(heard: Seq<u32>, wait: Awaited) -> Option<nat> {
    let size = wait.job.sym_len as nat;
    match first_silence(heard, wait.place, size) {
        Some(place) => Some((place + (size - size / 2) - 1) as nat),
        None => if (heard.len() - wait.place) / size as int > READ_SYMBOLS {
            Some(heard.len())
        } else {
            None
        },
    }
}

/// Whether an awaited payload is to be read.
pub open spec fn is_due(heard: Seq<u32>, wait: Awaited) -> bool {
    reading_end(heard, wait) is Some
}

/// The payloads to read.
pub open spec fn due_waits(ear: Ear) -> Seq<Awaited> {
    ear.waits.filter(|wait: Awaited| is_due(ear.heard, wait))
}

/// A receiver that awaits what is not to be read yet.
pub open spec fn read_out(ear: Ear) -> Ear {
    Ear { waits: ear.waits.filter(|wait: Awaited| !is_due(ear.heard, wait)), ..ear }
}

/// A payload to read.
pub struct Reading {
    /// What is to be read.
    pub job: Job,
    /// The search for its symbols among the samples that are kept.
    pub search: AlignSearch,
}

/// Whether a reading is that of an awaited payload, with nothing looked at yet.
pub open spec fn reads(reading: Reading, ear: Ear, wait: Awaited) -> bool {
    &&& reading.job == wait.job
    &&& reading.search.wf()
    &&& reading.search.len() == reading_end(ear.heard, wait)->0 - ear.dropped
    &&& reading.search.len() <= ear.samples().len()
    &&& reading.search.begin() == wait.place - ear.dropped
    &&& reading.search.sym_len() == wait.job.sym_len
    &&& reading.search.offered() == Seq::<Option<u32>>::empty()
}

/// Whether readings are those of these payloads.
pub open spec fn are_readings(readings: Seq<Reading>, ear: Ear, waits: Seq<Awaited>) -> bool {
    &&& readings.len() == waits.len()
    &&& forall|i: int| 0 <= i < waits.len() ==> reads(#[trigger] readings[i], ear, waits[i])
}

/// What came of a pass.
pub struct Digest {
    /// What to report.
    pub reaction: Reaction,
    /// What to read.
    pub readings: Vec<Reading>,
}

/// A receiver after a pass: it heeded the reaction, forgot what it does not need,
/// and awaits what is not to be read yet.
pub open spec fn digested(ear: Ear, reaction: Reaction, sym_len: usize) -> Ear {
    read_out(trimmed(heeded(ear, reaction, sym_len)))
}

// ---------------------------------------------------------------------------
// The receiver
// ---------------------------------------------------------------------------

#[derive(Clone, Copy)]
struct Wait {
    job: Job,
    place: usize,
    left: usize,
}

/// The receiver's own state.
pub struct Worker {
    sliding: VecDeque<u32>,
    template: Vec<u32>,
    waits: Vec<Wait>,
    checked: usize,
    heard: Ghost<Seq<u32>>,
    dropped: Ghost<nat>,
}

spec fn awaited(wait: Wait, dropped: nat) -> Awaited {
    Awaited { job: wait.job, place: wait.place as nat + dropped, left: wait.left as nat }
}

spec fn all_awaited(waits: Seq<Wait>, dropped: nat) -> Seq<Awaited> {
    Seq::new(waits.len(), |i: int| awaited(waits[i], dropped))
}

impl View for Worker {
    type V = Ear;

    closed spec fn view(&self) -> Ear {
        Ear {
            heard: self.heard@,
            dropped: self.dropped@,
            template: self.template@,
            waits: all_awaited(self.waits@, self.dropped@),
        }
    }
}

impl Worker {
    /// The samples are those that are kept, and no silence was overlooked.
    pub closed spec fn sound(&self) -> bool {
        &&& self.sliding@ == self@.samples()
        &&& self.checked <= self.sliding@.len()
        &&& forall|i: int, j: int|
            0 <= i < self.waits@.len() && (#[trigger] self.waits@[i]).place + self.dropped@ <= j
                && j + self.waits@[i].job.sym_len <= self.dropped@ + self.checked
                ==> !#[trigger] silent_at(self.heard@, j, self.waits@[i].job.sym_len as nat)
    }

    /// What it holds is valid.
    pub open spec fn wf(&self) -> bool {
        self@.valid() && self.sound()
    }

    /// A receiver that has heard nothing.
    pub fn new() -> (worker: Worker)
        ensures
            worker.wf(),
            worker@ == (Ear {
                heard: Seq::empty(),
                dropped: 0,
                template: Seq::empty(),
                waits: Seq::empty(),
            }),
    {
        let worker = Worker {
            sliding: VecDeque::new(),
            template: Vec::new(),
            waits: Vec::new(),
            checked: 0,
            heard: Ghost(Seq::empty()),
            dropped: Ghost(0),
        };
        assert(worker.sliding@ =~= worker@.samples());
        worker
    }

    /// Takes the next received samples, and the preamble to look for.
    pub fn poll(&mut self, shared: &mut Shared) -> (pass: Pass)
        requires
            old(self).wf(),
            old(shared).wf(),
        ensures
            final(self).wf(),
            final(shared).wf(),
            final(shared).rx.capacity() == old(shared).rx.capacity(),
            *final(shared) == (Shared { rx: final(shared).rx, ..*old(shared) }),
            !old(shared).running ==> {
                &&& pass is Idle
                &&& *final(shared) == *old(shared)
                &&& *final(self) == *old(self)
            },
            old(shared).running ==> {
                let count = available(old(shared).rx@, READ_CHUNK as nat);
                let heard = old(shared).rx@.take(count);
                &&& (pass matches Pass::Heard(samples) && samples@ == heard)
                &&& final(shared).rx@ == old(shared).rx@.skip(count)
                &&& final(self)@ == polled(old(self)@, heard, old(shared).preamble_template)
            },
    {
        if !shared.running {
            return Pass::Idle;
        }
        let heard = shared.rx.take_up_to(READ_CHUNK);
        let mut i: usize = 0;
        assert(heard@.take(0) =~= Seq::<u32>::empty());
        while i < heard.len()
            invariant
                i <= heard@.len(),
                self.sliding@ == old(self).sliding@ + heard@.take(i as int),
                self.template == old(self).template,
                self.waits == old(self).waits,
                self.checked == old(self).checked,
                self.heard == old(self).heard,
                self.dropped == old(self).dropped,
            decreases heard.len() - i,
        {
            self.sliding.push_back(heard[i]);
            assert(heard@.take(i + 1) =~= heard@.take(i as int).push(heard@[i as int]));
            i += 1;
        }
        assert(heard@.take(heard@.len() as int) =~= heard@);
        self.heard = Ghost(self.heard@ + heard@);
        if let Some(wanted) = &shared.preamble_template {
            self.template = wanted.clone();
            assert(self.template@ =~= wanted@);
        }
        proof {
            let before = old(self)@;
            assert(self@.waits =~= before.waits);
            assert(self.sliding@ =~= self@.samples());
            assert forall|i: int, j: int|
                0 <= i < self.waits@.len() && (#[trigger] self.waits@[i]).place + self.dropped@ <= j
                    && j + self.waits@[i].job.sym_len <= self.dropped@
                    + self.checked implies !#[trigger] silent_at(
                self.heard@,
                j,
                self.waits@[i].job.sym_len as nat,
            ) by {
                let size = self.waits@[i].job.sym_len as nat;
                assert(!silent_at(before.heard, j, size));
                let loud = choose|k: int| j <= k < j + size && !is_zero(#[trigger] before.heard[k]);
                assert(self.heard@[loud] == before.heard[loud]);
            }
        }
        Pass::Heard(heard)
    }

    /// The samples to compare with the preamble: the last ones, as many as it
    /// has; `None` where there is no preamble to look for, or too few samples.
    pub fn window(&self) -> (window: Option<Vec<u32>>)
        requires
            self.wf(),
        ensures
            ({
                let wanted = self@.template.len();
                let have = self@.samples().len();
                &&& window is None <==> wanted == 0 || have < wanted
                &&& window matches Some(samples) ==> samples@ == self@.samples().skip(
                    have - wanted,
                )
            }),
    {
        let wanted: usize = self.template.len();
        let have: usize = self.sliding.len();
        if wanted == 0 || have < wanted {
            None
        } else {
            let window = self.block(have - wanted, wanted);
            assert(window@ =~= self@.samples().skip(have - wanted));
            Some(window)
        }
    }

    /// The preamble that is looked for.
    pub fn preamble(&self) -> (template: &Vec<u32>)
        ensures
            template@ == self@.template,
    {
        &self.template
    }

    /// How many samples are kept.
    pub fn len(&self) -> (len: usize)
        requires
            self.wf(),
        ensures
            len == self@.samples().len(),
    {
        self.sliding.len()
    }

    /// `count` of the kept samples from `start` on.
    pub fn block(&self, start: usize, count: usize) -> (block: Vec<u32>)
        requires
            self.wf(),
            start + count <= self@.samples().len(),
        ensures
            block@ == self@.samples().subrange(start as int, start + count),
    {
        let mut block: Vec<u32> = Vec::new();
        let mut i: usize = 0;
        let total: usize = self.sliding.len();
        while i < count
            invariant
                i <= count,
                total == self.sliding@.len(),
                start + count <= total,
                block@ == self.sliding@.subrange(start as int, start + i),
            decreases count - i,
        {
            block.push(self.sliding[start + i]);
            i += 1;
            assert(block@ =~= self.sliding@.subrange(start as int, start + i));
        }
        block
    }

    /// Heeds what was made of the last window, for symbols of `sym_len` samples.
    pub fn heed(&mut self, reaction: Reaction, sym_len: usize)
        requires
            old(self).wf(),
        ensures
            final(self).wf(),
            final(self)@ == heeded(old(self)@, reaction, sym_len),
    {
        let len: usize = self.sliding.len();
        let count: usize = self.waits.len();
        let wanted: Option<Job> = match reaction {
            Reaction::Read(params, sample_rate) => Some(Job { params, sample_rate, sym_len }),
            _ => None,
        };
        let ghost before = self@;
        assert(before.heard.len() == self.dropped@ + len);
        if count > 0 {
            let last: Wait = self.waits[count - 1];
            let same = match wanted {
                Some(job) => job == last.job,
                None => reaction == Reaction::Repeated,
            };
            assert(before.waits.last() == awaited(last, self.dropped@));
            if same && len - last.place <= last.left {
                let moved = Wait { job: last.job, place: len, left: last.left - (len - last.place) };
                self.waits.set(count - 1, moved);
                assert(self@.waits =~= heeded(before, reaction, sym_len).waits);
                return;
            }
        }
        if let Some(job) = wanted {
            if sym_len > 0 {
                let left: usize = rest_of_preamble(job.params.preamble_repeats, sym_len);
                self.waits.push(Wait { job, place: len, left });
                assert(self@.waits =~= heeded(before, reaction, sym_len).waits);
            }
        }
    }

    /// Forgets the samples that are not needed any more.
    pub fn trim(&mut self)
        requires
            old(self).wf(),
        ensures
            final(self).wf(),
            final(self)@ == trimmed(old(self)@),
    {
        let wanted: usize = self.template.len();
        let len: usize = self.sliding.len();
        let ghost before = self@;
        let ghost dropped = self.dropped@;
        assert(before.heard.len() == dropped + len);
        let surplus: usize = if wanted > 0 && len > 0 && (len - 1) / KEPT_TEMPLATES >= wanted {
            len - KEPT_TEMPLATES * wanted
        } else {
            0
        };
        let ghost from = (dropped + surplus) as nat;
        let mut gone: usize = surplus;
        let mut i: usize = 0;
        assert(before.waits.take(0) =~= Seq::<Awaited>::empty());
        while i < self.waits.len()
            invariant
                i <= self.waits@.len(),
                before == self@,
                dropped == self.dropped@,
                gone <= len,
                dropped + gone == needed_from(from, before.waits.take(i as int), dropped),
                forall|k: int|
                    0 <= k < i ==> dropped + gone <= needed_by(#[trigger] before.waits[k], dropped),
            decreases self.waits.len() - i,
        {
            let wait: Wait = self.waits[i];
            let half: usize = wait.job.sym_len / 2;
            let own: usize = if wait.place >= half {
                wait.place - half
            } else {
                0
            };
            proof {
                let front = before.waits.take(i + 1);
                assert(front.drop_last() =~= before.waits.take(i as int));
                assert(front.last() == before.waits[i as int]);
                assert(before.waits[i as int] == awaited(wait, dropped));
            }
            if own < gone {
                gone = own;
            }
            i += 1;
        }
        assert(before.waits.take(i as int) =~= before.waits);
        assert forall|n: int| 0 <= n < self.waits@.len() implies (#[trigger] self.waits@[n]).place
            >= gone by {
            assert(before.waits[n] == awaited(self.waits@[n], dropped));
        }
        let ghost all = self.sliding@;
        let mut popped: usize = 0;
        assert(all.skip(0) =~= all);
        while popped < gone
            invariant
                popped <= gone <= all.len(),
                self.template == old(self).template,
                self.waits == old(self).waits,
                self.checked == old(self).checked,
                self.heard == old(self).heard,
                self.dropped == old(self).dropped,
                self.sliding@ == all.skip(popped as int),
            decreases gone - popped,
        {
            let _ = self.sliding.pop_front();
            assert(all.skip(popped as int).skip(1) =~= all.skip(popped + 1));
            popped += 1;
        }
        self.dropped = Ghost((dropped + gone) as nat);
        self.checked = if self.checked >= gone {
            self.checked - gone
        } else {
            0
        };
        let mut k: usize = 0;
        while k < self.waits.len()
            invariant
                k <= self.waits@.len(),
                self.waits@.len() == old(self).waits@.len(),
                self.template == old(self).template,
                self.sliding@ == all.skip(gone as int),
                self.heard == old(self).heard,
                before == old(self)@,
                dropped == old(self).dropped@,
                self.dropped@ == dropped + gone,
                self.checked == (if old(self).checked >= gone {
                    old(self).checked - gone
                } else {
                    0
                }),
                forall|n: int|
                    0 <= n < before.waits.len() ==> dropped + gone <= needed_by(
                        #[trigger] before.waits[n],
                        dropped,
                    ),
                forall|n: int|
                    0 <= n < k ==> #[trigger] self.waits@[n] == (Wait {
                        place: (old(self).waits@[n].place - gone) as usize,
                        ..old(self).waits@[n]
                    }),
                forall|n: int|
                    k <= n < self.waits@.len() ==> #[trigger] self.waits@[n] == old(self).waits@[n],
                forall|n: int|
                    0 <= n < self.waits@.len() ==> (#[trigger] old(self).waits@[n]).place >= gone,
            decreases self.waits.len() - k,
        {
            let wait: Wait = self.waits[k];
            assert(wait.place >= gone) by {
                assert(old(self).waits@[k as int].place >= gone);
            }
            self.waits.set(k, Wait { job: wait.job, place: wait.place - gone, left: wait.left });
            k += 1;
        }
        proof {
            assert(self@.waits =~= before.waits) by {
                assert forall|n: int| 0 <= n < before.waits.len() implies #[trigger] self@.waits[n]
                    == before.waits[n] by {
                    assert(old(self).waits@[n].place >= gone);
                    assert(self.waits@[n].job == old(self).waits@[n].job);
                }
            }
            assert(self.sliding@ =~= self@.samples());
            assert forall|n: int| 0 <= n < self@.waits.len() implies {
                &&& self@.dropped <= (#[trigger] self@.waits[n]).place <= self@.heard.len()
                &&& self@.waits[n].job.sym_len > 0
            } by {
                assert(self@.waits[n] == before.waits[n]);
                assert(dropped + gone <= needed_by(before.waits[n], dropped));
            }
            assert forall|n: int, j: int|
                0 <= n < self.waits@.len() && (#[trigger] self.waits@[n]).place + self.dropped@ <= j
                    && j + self.waits@[n].job.sym_len <= self.dropped@
                    + self.checked implies !#[trigger] silent_at(
                self.heard@,
                j,
                self.waits@[n].job.sym_len as nat,
            ) by {
                assert(old(self).waits@[n].place >= gone);
                assert(self@.waits[n].job.sym_len > 0);
                assert(old(self).waits@[n].place + dropped <= j);
            }
        }
    }

    /// The first place from `from` on at which `size` of the kept samples are
    /// silent.
    fn find_silence(&self, from: usize, size: usize) -> (found: Option<usize>)
        requires
            size > 0,
            from <= self.sliding@.len(),
        ensures
            match found {
                Some(place) => {
                    &&& from <= place
                    &&& silent_at(self.sliding@, place as int, size as nat)
                    &&& forall|j: int|
                        from <= j < place ==> !#[trigger] silent_at(self.sliding@, j, size as nat)
                },
                None => forall|j: int|
                    from <= j ==> !#[trigger] silent_at(self.sliding@, j, size as nat),
            },
    {
        let len: usize = self.sliding.len();
        let mut i: usize = from;
        let mut run: usize = 0;
        while i < len
            invariant
                from <= i <= len,
                len == self.sliding@.len(),
                run <= i - from,
                run < size,
                forall|k: int| i - run <= k < i ==> is_zero(#[trigger] self.sliding@[k]),
                forall|j: int|
                    from <= j < i - run ==> !#[trigger] silent_at(self.sliding@, j, size as nat),
            decreases len - i,
        {
            let sample: u32 = self.sliding[i];
            if sample == 0 || sample == MINUS_ZERO {
                run += 1;
                i += 1;
                if run == size {
                    assert(silent_at(self.sliding@, i - run, size as nat));
                    return Some(i - run);
                }
            } else {
                proof {
                    assert forall|j: int| from <= j < i + 1 implies !#[trigger] silent_at(
                        self.sliding@,
                        j,
                        size as nat,
                    ) by {
                        if j >= i - run {
                            assert(!is_zero(self.sliding@[i as int]));
                        }
                    }
                }
                run = 0;
                i += 1;
            }
        }
        None
    }

    /// Where the samples end that a payload is to be read from, if it is to be
    /// read now.
    fn end_of(&self, wait: Wait) -> (end: Option<usize>)
        requires
            self.wf(),
            self.waits@.contains(wait),
        ensures
            ({
                let exact = reading_end(self.heard@, awaited(wait, self.dropped@));
                &&& end is Some <==> exact is Some
                &&& end matches Some(place) ==> place + self.dropped@ == exact->0
                &&& end matches Some(place) ==> place <= self.sliding@.len()
                &&& end is Some ==> wait.place + wait.job.sym_len <= self.sliding@.len()
                &&& end is None ==> forall|j: int|
                    wait.place + self.dropped@ <= j ==> !#[trigger] silent_at(
                        self.heard@,
                        j,
                        wait.job.sym_len as nat,
                    )
            }),
    {
        let size: usize = wait.job.sym_len;
        let len: usize = self.sliding.len();
        let ghost heard = self.heard@;
        let ghost dropped = self.dropped@;
        let ghost at = choose|i: int| 0 <= i < self.waits@.len() && self.waits@[i] == wait;
        assert(self@.waits[at] == awaited(wait, dropped));
        assert(heard.len() == dropped + len);
        let unseen: usize = if self.checked >= size {
            self.checked - size + 1
        } else {
            0
        };
        let from: usize = if unseen > wait.place {
            unseen
        } else {
            wait.place
        };
        let found = self.find_silence(from, size);
        proof {
            let place = (wait.place + dropped) as nat;
            assert forall|j: int| dropped <= j implies #[trigger] silent_at(heard, j, size as nat)
                == silent_at(self.sliding@, j - dropped, size as nat) by {
                let r = j - dropped;
                if silent_at(heard, j, size as nat) {
                    assert forall|k: int| r <= k < r + size implies is_zero(
                        #[trigger] self.sliding@[k],
                    ) by {
                        assert(self.sliding@[k] == heard[k + dropped]);
                    }
                }
                if silent_at(self.sliding@, r, size as nat) {
                    assert forall|k: int| j <= k < j + size implies is_zero(#[trigger] heard[k]) by {
                        assert(self.sliding@[k - dropped] == heard[k]);
                    }
                }
            }
            assert forall|j: int| place <= j < from + dropped implies !#[trigger] silent_at(
                heard,
                j,
                size as nat,
            ) by {
                assert(self.waits@[at].place + dropped <= j);
            }
            let exact = match found {
                Some(q) => Some((q + dropped) as nat),
                None => None,
            };
            match found {
                Some(q) => {
                    assert(silent_at(heard, q + dropped, size as nat));
                    assert forall|j: int| place <= j < q + dropped implies !#[trigger] silent_at(
                        heard,
                        j,
                        size as nat,
                    ) by {
                        if j >= from + dropped {
                            assert(!silent_at(self.sliding@, j - dropped, size as nat));
                        }
                    }
                },
                None => {
                    assert forall|j: int| place <= j implies !#[trigger] silent_at(
                        heard,
                        j,
                        size as nat,
                    ) by {
                        if j >= from + dropped {
                            assert(!silent_at(self.sliding@, j - dropped, size as nat));
                        }
                    }
                },
            }
            lemma_is_first_silence(heard, place, size as nat, exact);
        }
        match found {
            Some(q) => Some(q + (size - size / 2 - 1)),
            None => {
                let count: usize = (len - wait.place) / size;
                if count > READ_SYMBOLS {
                    proof {
                        let span = len - wait.place;
                        assert(span >= size) by (nonlinear_arith)
                            requires
                                size > 0,
                                span >= 0,
                                span / size as int > 1,
                        ;
                    }
                    Some(len)
                } else {
                    None
                }
            },
        }
    }

    /// What is to be read now; it is not awaited any more.
    pub fn due_readings(&mut self) -> (readings: Vec<Reading>)
        requires
            old(self).wf(),
        ensures
            final(self).wf(),
            final(self)@ == read_out(old(self)@),
            are_readings(readings@, old(self)@, due_waits(old(self)@)),
    {
        let ghost ear = self@;
        let ghost dropped = self.dropped@;
        let ghost is_read = |wait: Awaited| is_due(ear.heard, wait);
        let ghost is_kept = |wait: Awaited| !is_due(ear.heard, wait);
        let len: usize = self.sliding.len();
        let mut readings: Vec<Reading> = Vec::new();
        let mut kept: Vec<Wait> = Vec::new();
        let mut i: usize = 0;
        proof {
            reveal(Seq::filter);
            assert(ear.waits.take(0) =~= Seq::<Awaited>::empty());
            assert(all_awaited(kept@, dropped) =~= Seq::<Awaited>::empty());
        }
        while i < self.waits.len()
            invariant
                i <= self.waits@.len(),
                self.wf(),
                self@ == ear,
                *self == *old(self),
                len == self.sliding@.len(),
                dropped == self.dropped@,
                is_read == (|wait: Awaited| is_due(ear.heard, wait)),
                is_kept == (|wait: Awaited| !is_due(ear.heard, wait)),
                are_readings(readings@, ear, ear.waits.take(i as int).filter(is_read)),
                all_awaited(kept@, dropped) == ear.waits.take(i as int).filter(is_kept),
                forall|n: int|
                    0 <= n < kept@.len() ==> self.waits@.contains(#[trigger] kept@[n]),
                forall|n: int, j: int|
                    0 <= n < kept@.len() && (#[trigger] kept@[n]).place + dropped <= j
                        ==> !#[trigger] silent_at(ear.heard, j, kept@[n].job.sym_len as nat),
            decreases self.waits.len() - i,
        {
            let wait: Wait = self.waits[i];
            let ghost model = awaited(wait, dropped);
            proof {
                reveal(Seq::filter);
                let front = ear.waits.take(i + 1);
                assert(front.drop_last() =~= ear.waits.take(i as int));
                assert(ear.waits[i as int] == model);
                assert(front.last() == model);
                assert(self.waits@.contains(wait));
            }
            match self.end_of(wait) {
                Some(end) => {
                    if let Some(search) = AlignSearch::new(end, wait.place, wait.job.sym_len) {
                        readings.push(Reading { job: wait.job, search });
                    }
                },
                None => {
                    let ghost fewer = kept@;
                    kept.push(wait);
                    assert(all_awaited(kept@, dropped) =~= all_awaited(fewer, dropped).push(model));
                },
            }
            i += 1;
        }
        assert(ear.waits.take(i as int) =~= ear.waits);
        self.waits = kept;
        self.checked = len;
        proof {
            assert(self@ =~= read_out(ear));
            assert forall|n: int| 0 <= n < self@.waits.len() implies {
                &&& self@.dropped <= (#[trigger] self@.waits[n]).place <= self@.heard.len()
                &&& self@.waits[n].job.sym_len > 0
            } by {
                let wait = kept@[n];
                let at = choose|k: int|
                    0 <= k < old(self).waits@.len() && old(self).waits@[k] == wait;
                assert(ear.waits[at] == awaited(wait, dropped));
            }
        }
        readings
    }

    /// Concludes a pass. The caller tells how loud the samples heard were, how well
    /// the window matches the preamble, where there is one, the time, and how many
    /// samples a symbol of the current mode has.
    pub fn digest(
        &mut self,
        shared: &mut Shared,
        heard: &Vec<u32>,
        rms: u32,
        correlation: Option<u32>,
        now: u64,
        sym_len: usize,
    ) -> (digest: Digest)
        requires
            old(self).wf(),
        ensures
            final(self).wf(),
            *final(shared) == state_after_reaction(
                loudness_noted(*old(shared), heard@, rms),
                correlation,
                now,
            ),
            digest.reaction == reaction_for(*old(shared), correlation, now),
            final(self)@ == digested(old(self)@, digest.reaction, sym_len),
            ({
                let ear = trimmed(heeded(old(self)@, digest.reaction, sym_len));
                are_readings(digest.readings@, ear, due_waits(ear))
            }),
    {
        note_loudness(shared, heard, rms);
        let reaction = react(shared, correlation, now);
        self.heed(reaction, sym_len);
        self.trim();
        let readings = self.due_readings();
        Digest { reaction, readings }
    }
}

/// How much of a preamble may follow the window that first matched it, or the
/// greatest number there is.
fn rest_of_preamble(repeats: u32, sym_len: usize) -> (rest: usize)
    ensures
        rest == capped(preamble_rest(repeats, sym_len as nat)),
{
    if repeats == 0 {
        return 0;
    }
    let more: usize = (repeats - 1) as usize;
    let first: usize = sym_len - sym_len / 2;
    assert(repeats * sym_len == more * sym_len + sym_len) by (nonlinear_arith)
        requires
            repeats == more + 1,
    ;
    match more.checked_mul(sym_len) {
        Some(product) => product.saturating_add(first),
        None => usize::MAX,
    }
}

// ---------------------------------------------------------------------------
// Laws
// ---------------------------------------------------------------------------

/// Two reports of a preamble, one after the other, are more than the set time
/// apart, whatever else of the state changed between them.
pub proof fn law_reports_apart(
    before: Shared,
    correlation: Option<u32>,
    first: u64,
    later: Shared,
    again: Option<u32>,
    second: u64,
)
    requires
        is_report(reaction_for(before, correlation, first)),
        later.last_detection == state_after_reaction(before, correlation, first).last_detection,
        is_report(reaction_for(later, again, second)),
    ensures
        second - first > DETECTION_GAP,
{
}

/// Only a report moves the time that the next one is measured from.
pub proof fn law_repeats_are_not_remembered(shared: Shared, correlation: Option<u32>, now: u64)
    requires
        !is_report(reaction_for(shared, correlation, now)),
    ensures
        state_after_reaction(shared, correlation, now) == shared,
{
}

/// The first preamble is always reported.
pub proof fn law_first_report(shared: Shared, correlation: u32, now: u64)
    requires
        shared.last_detection is None,
        0x3f00_0000 < correlation <= 0x7f80_0000,
    ensures
        is_report(reaction_for(shared, Some(correlation), now)),
{
}

/// The preamble to look for is taken over as soon as there is one.
pub proof fn law_template_adopted(current: Seq<u32>, wanted: Vec<u32>)
    ensures
        adopted(current, Some(wanted)) == wanted@,
        adopted(current, None) == current,
{
}

/// Behind every report of a preamble whose symbols can be read, a payload is
/// awaited, whatever else is awaited already; and no wait is given up for it.
pub proof fn law_every_report_is_awaited(
    ear: Ear,
    params: MfskParams,
    sample_rate: u32,
    sym_len: usize,
)
    requires
        sym_len > 0,
    ensures
        ({
            let after = heeded(ear, Reaction::Read(params, sample_rate), sym_len);
            &&& after.waits.len() >= ear.waits.len()
            &&& after.waits.len() > 0
            &&& after.waits.last().place == ear.heard.len()
            &&& after.waits.last().job == (Job { params, sample_rate, sym_len })
        }),
{
}

/// A wait stays as it is, unless it is the last one and its preamble may still go
/// on when a window matches.
pub proof fn law_other_waits_stay(ear: Ear, reaction: Reaction, sym_len: usize, i: int)
    requires
        0 <= i < ear.waits.len(),
        i == ear.waits.len() - 1 && goes_on(ear.waits[i], ear.heard.len()) ==> !(reaction is Read)
            && !(reaction is Repeated),
    ensures
        i < heeded(ear, reaction, sym_len).waits.len(),
        heeded(ear, reaction, sym_len).waits[i] == ear.waits[i],
{
}

/// Trimming forgets nothing that was not heard, brings nothing back, and takes
/// from no wait the half symbol before its place.
pub proof fn law_awaited_is_kept(ear: Ear)
    requires
        ear.valid(),
    ensures
        trimmed(ear).valid(),
        ear.dropped <= trimmed(ear).dropped,
        forall|i: int|
            0 <= i < ear.waits.len() ==> trimmed(ear).dropped <= needed_by(
                #[trigger] ear.waits[i],
                ear.dropped,
            ),
{
    let kept: int = KEPT_TEMPLATES * ear.template.len();
    let from = if kept > 0 && ear.heard.len() - ear.dropped > kept {
        (ear.heard.len() - kept) as nat
    } else {
        ear.dropped
    };
    lemma_needed_from(from, ear.waits, ear.dropped);
}

proof fn lemma_needed_from(from: nat, waits: Seq<Awaited>, dropped: nat)
    requires
        dropped <= from,
    ensures
        dropped <= needed_from(from, waits, dropped) <= from,
        forall|i: int|
            0 <= i < waits.len() ==> needed_from(from, waits, dropped) <= needed_by(
                #[trigger] waits[i],
                dropped,
            ),
    decreases waits.len(),
{
    if waits.len() > 0 {
        let fewer = waits.drop_last();
        lemma_needed_from(from, fewer, dropped);
        assert forall|i: int| 0 <= i < waits.len() implies needed_from(from, waits, dropped)
            <= needed_by(#[trigger] waits[i], dropped) by {
            if i < fewer.len() {
                assert(fewer[i] == waits[i]);
            }
        }
    }
}

/// While there is a preamble to look for and no payload is awaited, a bounded
/// number of samples is left by trimming, and enough of them to look for the
/// preamble. Trimming once more changes nothing.
pub proof fn law_kept_samples(ear: Ear)
    requires
        ear.valid(),
        ear.template.len() > 0,
        ear.waits.len() == 0,
    ensures
        trimmed(ear).samples().len() <= KEPT_TEMPLATES * ear.template.len(),
        ear.samples().len() >= ear.template.len() ==> trimmed(ear).samples().len()
            >= ear.template.len(),
        trimmed(trimmed(ear)) == trimmed(ear),
{
}

/// After a pass nothing that is to be read is left waiting, and what is not to be
/// read yet still waits.
pub proof fn law_nothing_due_is_left(ear: Ear, wait: Awaited)
    ensures
        read_out(ear).waits.contains(wait) <==> ear.waits.contains(wait) && !is_due(
            ear.heard,
            wait,
        ),
        due_waits(ear).contains(wait) <==> ear.waits.contains(wait) && is_due(ear.heard, wait),
{
    lemma_filter_holds(ear.waits, |wait: Awaited| !is_due(ear.heard, wait), wait);
    lemma_filter_holds(ear.waits, |wait: Awaited| is_due(ear.heard, wait), wait);
}

proof fn lemma_filter_holds(waits: Seq<Awaited>, pred: spec_fn(Awaited) -> bool, wait: Awaited)
    ensures
        waits.filter(pred).contains(wait) <==> waits.contains(wait) && pred(wait),
    decreases waits.len(),
{
    reveal(Seq::filter);
    if waits.len() > 0 {
        let fewer = waits.drop_last();
        let last = waits.last();
        lemma_filter_holds(fewer, pred, wait);
        let found = fewer.filter(pred);
        if waits.contains(wait) {
            let at = choose|i: int| 0 <= i < waits.len() && waits[i] == wait;
            if at < fewer.len() {
                assert(fewer[at] == wait);
            }
        }
        if fewer.contains(wait) {
            let at = choose|i: int| 0 <= i < fewer.len() && fewer[i] == wait;
            assert(waits[at] == wait);
        }
        if pred(last) {
            assert(waits.filter(pred) == found.push(last));
            assert(found.push(last)[found.len() as int] == last);
            assert(waits[waits.len() - 1] == last);
            if found.contains(wait) {
                let at = choose|i: int| 0 <= i < found.len() && found[i] == wait;
                assert(found.push(last)[at] == wait);
            }
            if found.push(last).contains(wait) {
                let at = choose|i: int|
                    0 <= i < found.push(last).len() && found.push(last)[i] == wait;
                if at < found.len() {
                    assert(found[at] == wait);
                }
            }
        }
    }
}

// ---------------------------------------------------------------------------
// What a pass does
// ---------------------------------------------------------------------------

/// Every correlation above 0.5 that comes more than 800 ms after the last report is
/// a report, however long ago that was; within 800 ms it is not.
pub proof fn law_reported_when_time_has_passed(
    shared: Shared,
    correlation: u32,
    now: u64,
    then: u64,
)
    requires
        shared.last_detection == Some(then),
        0x3f00_0000 < correlation <= 0x7f80_0000,
    ensures
        now - then > 800_000_000 ==> {
            &&& is_report(reaction_for(shared, Some(correlation), now))
            &&& state_after_reaction(shared, Some(correlation), now).last_detection == Some(now)
        },
        now - then <= 800_000_000 ==> {
            &&& reaction_for(shared, Some(correlation), now) == Reaction::Repeated
            &&& state_after_reaction(shared, Some(correlation), now) == shared
        },
{
}

/// A correlation up to 0.5, one that is no number and a window that is not there are
/// no preamble.
pub proof fn law_no_preamble_without_match(shared: Shared, correlation: Option<u32>, now: u64)
    requires
        correlation is Some ==> correlation->0 <= 0x3f00_0000 || correlation->0 > 0x7f80_0000,
    ensures
        reaction_for(shared, correlation, now) == Reaction::Nothing,
        state_after_reaction(shared, correlation, now) == shared,
{
}

/// What a report says: that no mode is known, that the mode is not read, or that the
/// symbols are to be read with the current parameters at the current rate. A report
/// changes nothing but when a preamble was last reported.
pub proof fn law_report_goes_by_the_mode(shared: Shared, correlation: Option<u32>, now: u64)
    requires
        is_report(reaction_for(shared, correlation, now)),
    ensures
        shared.current_mode is None ==> reaction_for(shared, correlation, now)
            == Reaction::NoMode,
        shared.current_mode is Some && shared.current_mode->0 is Dpsk ==> reaction_for(
            shared,
            correlation,
            now,
        ) == Reaction::OtherMode,
        shared.current_mode matches Some(ModeConfig::Mfsk(params)) ==> reaction_for(
            shared,
            correlation,
            now,
        ) == Reaction::Read(params, shared.sample_rate),
        state_after_reaction(shared, correlation, now) == (Shared {
            last_detection: Some(now),
            ..shared
        }),
{
}

/// A reaction is a report unless there is nothing, or it was reported a moment ago.
pub proof fn law_what_is_a_report(reaction: Reaction)
    ensures
        is_report(reaction) <==> reaction is NoMode || reaction is OtherMode || reaction is Read,
{
}

/// The loudness is that of the last pass that heard anything; nothing else changes.
pub proof fn law_loudness(shared: Shared, heard: Seq<u32>, rms: u32)
    ensures
        heard.len() > 0 ==> loudness_noted(shared, heard, rms) == (Shared {
            last_rms: rms,
            ..shared
        }),
        heard.len() == 0 ==> loudness_noted(shared, heard, rms) == shared,
{
}

/// The limits of a pass: 2048 samples, and pauses of 100 ms and 3 ms.
pub proof fn law_pass_limits()
    ensures
        READ_CHUNK == 2048,
        IDLE_PAUSE == 100,
        EMPTY_PAUSE == 3,
{
}

/// What was heard is added behind what was heard before, and the preamble to look
/// for is taken over; nothing that is awaited changes.
pub proof fn law_polled(ear: Ear, heard: Seq<u32>, wanted: Option<Vec<u32>>)
    ensures
        polled(ear, heard, wanted).heard == ear.heard + heard,
        polled(ear, heard, wanted).dropped == ear.dropped,
        polled(ear, heard, wanted).waits == ear.waits,
        wanted matches Some(template) ==> polled(ear, heard, wanted).template == template@,
        wanted is None ==> polled(ear, heard, wanted).template == ear.template,
        ear.samples() == ear.heard.skip(ear.dropped as int),
{
}

/// A report with nothing awaited, or with a preamble awaited that can go on no
/// longer, adds a wait behind all others: right behind what was heard, with as much
/// preamble to come as it has symbols, less half a one. All other waits stay.
pub proof fn law_new_preamble_adds_a_wait(
    ear: Ear,
    params: MfskParams,
    sample_rate: u32,
    sym_len: usize,
)
    requires
        sym_len > 0,
        ear.waits.len() > 0 ==> ear.heard.len() - ear.waits[ear.waits.len() - 1].place
            > ear.waits[ear.waits.len() - 1].left || ear.waits[ear.waits.len() - 1].job.params
            != params || ear.waits[ear.waits.len() - 1].job.sample_rate != sample_rate
            || ear.waits[ear.waits.len() - 1].job.sym_len != sym_len,
    ensures
        ({
            let after = heeded(ear, Reaction::Read(params, sample_rate), sym_len);
            let added = after.waits[ear.waits.len() as int];
            &&& after.waits.len() == ear.waits.len() + 1
            &&& after.waits.take(ear.waits.len() as int) == ear.waits
            &&& added.place == ear.heard.len()
            &&& added.job.params == params
            &&& added.job.sample_rate == sample_rate
            &&& added.job.sym_len == sym_len
            &&& params.preamble_repeats == 0 ==> added.left == 0
            &&& params.preamble_repeats > 0 ==> {
                let rest = params.preamble_repeats * sym_len - sym_len as nat / 2;
                &&& rest <= usize::MAX ==> added.left == rest
                &&& rest > usize::MAX ==> added.left == usize::MAX
            }
            &&& after.heard == ear.heard
            &&& after.dropped == ear.dropped
            &&& after.template == ear.template
        }),
{
    let after = heeded(ear, Reaction::Read(params, sample_rate), sym_len);
    assert(after.waits.take(ear.waits.len() as int) =~= ear.waits);
    assert(params.preamble_repeats > 0 ==> params.preamble_repeats * sym_len >= sym_len)
        by (nonlinear_arith);
}

/// A window that matches while the last preamble may still go on moves its payload
/// behind that window, and uses up as much of what may be left of the preamble.
pub proof fn law_preamble_going_on_moves_its_wait(ear: Ear, reaction: Reaction, sym_len: usize)
    requires
        ear.waits.len() > 0,
        ear.waits[ear.waits.len() - 1].place <= ear.heard.len() <= ear.waits[ear.waits.len()
            - 1].place + ear.waits[ear.waits.len() - 1].left,
        reaction is Repeated || (reaction matches Reaction::Read(params, sample_rate)
            && ear.waits[ear.waits.len() - 1].job.params == params && ear.waits[ear.waits.len()
            - 1].job.sample_rate == sample_rate && ear.waits[ear.waits.len() - 1].job.sym_len
            == sym_len),
    ensures
        ({
            let last = ear.waits[ear.waits.len() - 1];
            let after = heeded(ear, reaction, sym_len);
            let moved = after.waits[ear.waits.len() - 1];
            &&& after.waits.len() == ear.waits.len()
            &&& after.waits.take(ear.waits.len() - 1) == ear.waits.take(ear.waits.len() - 1)
            &&& moved.place == ear.heard.len()
            &&& moved.job == last.job
            &&& moved.place + moved.left == last.place + last.left
            &&& after.heard == ear.heard
            &&& after.dropped == ear.dropped
            &&& after.template == ear.template
        }),
{
    let after = heeded(ear, reaction, sym_len);
    assert(after.waits.take(ear.waits.len() - 1) =~= ear.waits.take(ear.waits.len() - 1));
}

/// What is no preamble, and one that is not read, changes nothing; nor does a match
/// with nothing awaited that is no report, nor a report of symbols without samples.
pub proof fn law_nothing_to_heed(ear: Ear, reaction: Reaction, sym_len: usize)
    requires
        ear.valid(),
        reaction is Nothing || reaction is NoMode || reaction is OtherMode || (reaction is Read
            && sym_len == 0) || (reaction is Repeated
            && (ear.waits.len() == 0 || ear.heard.len() - ear.waits[ear.waits.len() - 1].place
            > ear.waits[ear.waits.len() - 1].left)),
    ensures
        heeded(ear, reaction, sym_len) == ear,
{
}

/// Trimming changes nothing but how much is forgotten. It forgets all but six
/// templates of samples, unless half a symbol before an awaited payload is older;
/// and it never forgets that half symbol, nor more than the six templates leave.
pub proof fn law_what_trimming_forgets(ear: Ear)
    requires
        ear.valid(),
    ensures
        trimmed(ear).heard == ear.heard,
        trimmed(ear).template == ear.template,
        trimmed(ear).waits == ear.waits,
        ear.dropped <= trimmed(ear).dropped <= ear.heard.len(),
        trimmed(ear).dropped > ear.dropped ==> ear.template.len() > 0 && ear.heard.len()
            - trimmed(ear).dropped >= 6 * ear.template.len(),
        forall|i: int|
            0 <= i < ear.waits.len() && trimmed(ear).dropped > ear.dropped ==> trimmed(ear).dropped
                + (#[trigger] ear.waits[i]).job.sym_len as int / 2 <= ear.waits[i].place,
        ear.template.len() > 0 && ear.heard.len() - trimmed(ear).dropped > 6 * ear.template.len()
            ==> exists|i: int|
            0 <= i < ear.waits.len() && (#[trigger] ear.waits[i]).place <= trimmed(ear).dropped
                + ear.waits[i].job.sym_len as int / 2,
{
    let kept: int = KEPT_TEMPLATES * ear.template.len();
    let from = if kept > 0 && ear.heard.len() - ear.dropped > kept {
        (ear.heard.len() - kept) as nat
    } else {
        ear.dropped
    };
    lemma_needed_from(from, ear.waits, ear.dropped);
    lemma_needed_by_one(from, ear.waits, ear.dropped);
}

proof fn lemma_needed_by_one(from: nat, waits: Seq<Awaited>, dropped: nat)
    ensures
        needed_from(from, waits, dropped) == from || exists|i: int|
            0 <= i < waits.len() && needed_from(from, waits, dropped) == needed_by(
                #[trigger] waits[i],
                dropped,
            ),
    decreases waits.len(),
{
    if waits.len() > 0 {
        let fewer = waits.drop_last();
        lemma_needed_by_one(from, fewer, dropped);
        let others = needed_from(from, fewer, dropped);
        let own = needed_by(waits.last(), dropped);
        if others <= own {
            if others != from {
                let i = choose|i: int|
                    0 <= i < fewer.len() && others == needed_by(#[trigger] fewer[i], dropped);
                assert(waits[i] == fewer[i]);
            }
        } else {
            assert(waits[waits.len() - 1] == waits.last());
        }
    }
}

/// Whether one of the `size` samples from `from` on is not zero.
pub open spec fn sounds_for(samples: Seq<u32>, from: int, size: nat) -> bool {
    exists|i: int|
        from <= i < from + size && #[trigger] samples[i] != 0 && samples[i] != 0x8000_0000
}

/// A payload is to be read as soon as behind its place there is a symbol's length
/// of zeros, of either sign; the symbols before the first such stretch are read,
/// the last one if more than half of it is before it.
pub proof fn law_silence_ends_a_payload(heard: Seq<u32>, wait: Awaited, quiet: int)
    requires
        wait.job.sym_len > 0,
        wait.place <= quiet,
        quiet + wait.job.sym_len <= heard.len(),
        forall|i: int|
            quiet <= i < quiet + wait.job.sym_len ==> (#[trigger] heard[i] == 0 || heard[i]
                == 0x8000_0000),
    ensures
        is_due(heard, wait),
        reading_end(heard, wait)->0 <= quiet + (wait.job.sym_len - wait.job.sym_len as int / 2) - 1,
        (forall|j: int|
            wait.place <= j < quiet ==> #[trigger] sounds_for(heard, j, wait.job.sym_len as nat))
            ==> reading_end(heard, wait)->0 == quiet + (wait.job.sym_len - wait.job.sym_len as int
            / 2) - 1,
{
    let size = wait.job.sym_len as nat;
    lemma_first_silence(heard, wait.place, size);
    assert(silent_at(heard, quiet, size));
    if forall|j: int|
        wait.place <= j < quiet ==> #[trigger] sounds_for(heard, j, wait.job.sym_len as nat) {
        assert forall|j: int| wait.place <= j < quiet implies !#[trigger] silent_at(
            heard,
            j,
            size,
        ) by {
            assert(sounds_for(heard, j, size));
            let i = choose|i: int|
                j <= i < j + size && #[trigger] heard[i] != 0 && heard[i] != 0x8000_0000;
            assert(!is_zero(heard[i]));
        }
        lemma_is_first_silence(heard, wait.place, size, Some(quiet as nat));
    }
}

/// Without such a stretch a payload is to be read once there are more than 1025
/// symbols behind its place, and then to the end of what was heard.
pub proof fn law_full_payload_is_read(heard: Seq<u32>, wait: Awaited)
    requires
        wait.job.sym_len > 0,
        wait.place <= heard.len(),
        forall|j: int|
            wait.place <= j && j + wait.job.sym_len <= heard.len() ==> #[trigger] sounds_for(
                heard,
                j,
                wait.job.sym_len as nat,
            ),
    ensures
        heard.len() - wait.place >= 1026 * wait.job.sym_len ==> reading_end(heard, wait) == Some(
            heard.len(),
        ),
        heard.len() - wait.place < 1026 * wait.job.sym_len ==> !is_due(heard, wait),
{
    let size = wait.job.sym_len as nat;
    assert forall|j: int| wait.place <= j implies !#[trigger] silent_at(heard, j, size) by {
        if silent_at(heard, j, size) {
            assert(sounds_for(heard, j, size));
            let i = choose|i: int|
                j <= i < j + size && #[trigger] heard[i] != 0 && heard[i] != 0x8000_0000;
            assert(is_zero(heard[i]));
        }
    }
    lemma_is_first_silence(heard, wait.place, size, None);
    let span = heard.len() - wait.place;
    assert(span >= 1026 * size ==> span / size as int > 1025) by (nonlinear_arith)
        requires
            size > 0,
            span >= 0,
    ;
    assert(span < 1026 * size ==> span / size as int <= 1025) by (nonlinear_arith)
        requires
            size > 0,
            span >= 0,
    ;
}

/// A reading looks for the symbols of its payload from the place of the payload on,
/// among the kept samples, with all that is to be looked at.
pub proof fn law_reading_is_of_its_payload(reading: Reading, ear: Ear, wait: Awaited)
    requires
        ear.valid(),
        reads(reading, ear, wait),
    ensures
        reading.job == wait.job,
        reading.search.begin() == wait.place - ear.dropped,
        reading.search.len() == reading_end(ear.heard, wait)->0 - ear.dropped,
        reading.search.sym_len() == wait.job.sym_len,
        reading.search.offered().len() == 0,
        reading.search.len() <= ear.heard.len() - ear.dropped,
{
}

/// There is one reading for each payload that is to be read, in order.
pub proof fn law_one_reading_for_each(
    readings: Seq<Reading>,
    ear: Ear,
    waits: Seq<Awaited>,
    i: int,
)
    requires
        are_readings(readings, ear, waits),
        0 <= i < waits.len(),
    ensures
        readings.len() == waits.len(),
        reads(readings[i], ear, waits[i]),
{
}

/// A pass heeds, then forgets, then reads out: what was heard and what is looked
/// for stay, and what waits after it was waiting, and is not to be read yet.
pub proof fn law_digested(ear: Ear, reaction: Reaction, sym_len: usize, wait: Awaited)
    ensures
        ({
            let after = digested(ear, reaction, sym_len);
            let heeding = heeded(ear, reaction, sym_len);
            &&& after.heard == ear.heard
            &&& after.template == ear.template
            &&& after.dropped == trimmed(heeding).dropped
            &&& after.waits.contains(wait) <==> heeding.waits.contains(wait) && !is_due(
                ear.heard,
                wait,
            )
        }),
{
    law_nothing_due_is_left(trimmed(heeded(ear, reaction, sym_len)), wait);
}

} // verus!
