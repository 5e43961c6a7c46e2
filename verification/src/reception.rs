//! What holds of sending and receiving together: the payload of a frame that
//! reaches the receiver is what it reads.
use crate::align::{
    block_starts_spec, is_strongest, law_payload_is_read, shifted, stands_out, READ_SYMBOLS,
};
use crate::modems::{
    bit_text, decoded_bits, frame_plan, in_a_row, law_frame_layout, lemma_in_a_row,
    lemma_repeated_len, rendered, repeated, symbol_count, tone_index,
};
use crate::modes::{MfskParams, ModeConfig};
use crate::worker::{
    first_silence, goes_on, heeded, is_due, is_zero, law_awaited_is_kept, law_nothing_due_is_left,
    law_other_waits_stay, lemma_first_silence, polled, read_out, reading_end, silent_at, trimmed,
    Awaited, Ear, Reaction,
};
use vstd::arithmetic::power2::pow2;
use vstd::prelude::*;

verus! {

/// A frame as it reaches the receiver.
pub struct Transmission {
    /// Where it starts, counted from the first sample ever heard.
    pub at: nat,
    /// The mode.
    pub params: MfskParams,
    /// The bits of the payload.
    pub bits: Seq<bool>,
    /// How many bits a symbol carries.
    pub width: nat,
    /// The rendered tone of the preamble.
    pub preamble: Seq<u32>,
    /// The rendered tones of the payload.
    pub payload: Seq<Vec<u32>>,
    /// How many samples a symbol has.
    pub size: nat,
}

impl Transmission {
    /// The samples of the frame.
    pub open spec fn frame(self) -> Seq<u32> {
        rendered(
            frame_plan(ModeConfig::Mfsk(self.params), self.bits, self.width),
            self.preamble,
            self.payload,
            self.size,
        )
    }

    /// The samples of the frame that are not its closing silence.
    pub open spec fn tones(self) -> Seq<u32> {
        repeated(self.preamble, self.params.preamble_repeats as nat) + in_a_row(
            self.payload,
            self.payload.len(),
        )
    }

    /// How many samples half a symbol has, if need be one more.
    pub open spec fn half(self) -> nat {
        (self.size - self.size / 2) as nat
    }

    /// Where the payload starts.
    pub open spec fn payload_at(self) -> nat {
        self.at + self.params.preamble_repeats as nat * self.size
    }

    /// Where the payload ends.
    pub open spec fn payload_end(self) -> nat {
        self.payload_at() + self.payload.len() * self.size
    }

    /// There is one rendered tone for each symbol, all tones have the length of a
    /// symbol, and nowhere in them is there half a symbol of silence.
    pub open spec fn valid(self) -> bool {
        &&& self.size > 0
        &&& self.preamble.len() == self.size
        &&& self.payload.len() == symbol_count(self.bits.len(), self.width)
        &&& forall|k: int|
            0 <= k < self.payload.len() ==> (#[trigger] self.payload[k])@.len() == self.size
        &&& forall|j: int| !#[trigger] silent_at(self.tones(), j, self.half())
    }

    /// The frame is among these samples, undisturbed.
    pub open spec fn is_in(self, heard: Seq<u32>) -> bool {
        &&& self.at + self.frame().len() <= heard.len()
        &&& heard.subrange(self.at as int, (self.at + self.frame().len()) as int) == self.frame()
    }
}

/// Where the symbols start that are read for a wait, among the kept samples, where
/// the search settled on `offset`.
pub open spec fn places_read(ear: Ear, wait: Awaited, offset: int) -> Seq<int> {
    block_starts_spec(
        (reading_end(ear.heard, wait)->0 - ear.dropped) as nat,
        shifted((wait.place - ear.dropped) as nat, offset),
        wait.job.sym_len as nat,
        READ_SYMBOLS as nat,
    )
}

/// The samples of the symbol that is read at a place.
pub open spec fn block_read(ear: Ear, wait: Awaited, place: int) -> Seq<u32> {
    ear.samples().subrange(place, place + wait.job.sym_len)
}

/// What is read for a wait is the payload that was sent.
pub open spec fn reads_payload(
    ear: Ear,
    wait: Awaited,
    offset: int,
    sent: Transmission,
) -> bool {
    let places = places_read(ear, wait, offset);
    &&& ear.waits.contains(wait)
    &&& is_due(ear.heard, wait)
    &&& places.len() == sent.payload.len()
    &&& forall|k: int|
        0 <= k < places.len() ==> {
            &&& 0 <= #[trigger] places[k]
            &&& places[k] + sent.size <= ear.samples().len()
            &&& block_read(ear, wait, places[k]) == sent.payload[k]@
        }
}

/// Whether these are the symbols that are read for a wait, `energies` being what
/// the filters make of the samples of a symbol.
pub open spec fn are_symbols_read(
    symbols: Seq<usize>,
    ear: Ear,
    wait: Awaited,
    offset: int,
    energies: spec_fn(Seq<u32>) -> Seq<u32>,
) -> bool {
    let places = places_read(ear, wait, offset);
    &&& symbols.len() == places.len()
    &&& forall|k: int|
        0 <= k < symbols.len() ==> is_strongest(
            energies(block_read(ear, wait, places[k])),
            #[trigger] symbols[k] as int,
        )
}

/// What a pass brings: the samples heard, the preamble to look for, the reaction
/// to the window, and how many samples a symbol of the current mode has.
pub struct Hearing {
    /// The samples heard.
    pub heard: Seq<u32>,
    /// The preamble to look for.
    pub wanted: Option<Vec<u32>>,
    /// The reaction to the window.
    pub reaction: Reaction,
    /// How many samples a symbol has.
    pub sym_len: usize,
}

/// What the receiver holds in a pass, when it says what is to be read.
pub open spec fn in_pass(ear: Ear, pass: Hearing) -> Ear {
    trimmed(heeded(polled(ear, pass.heard, pass.wanted), pass.reaction, pass.sym_len))
}

/// What the receiver holds after passes.
pub open spec fn after_passes(ear: Ear, passes: Seq<Hearing>) -> Ear
    decreases passes.len(),
{
    if passes.len() == 0 {
        ear
    } else {
        after_passes(read_out(in_pass(ear, passes[0])), passes.skip(1))
    }
}

/// What the receiver holds in the pass in which a payload is read; `None` where
/// none of the passes reads it.
pub open spec fn when_read(ear: Ear, passes: Seq<Hearing>, wait: Awaited) -> Option<Ear>
    decreases passes.len(),
{
    if passes.len() == 0 {
        None
    } else {
        let now = in_pass(ear, passes[0]);
        if is_due(now.heard, wait) {
            Some(now)
        } else {
            when_read(read_out(now), passes.skip(1), wait)
        }
    }
}

/// Whether a wait keeps its place over passes: no window matches in them while its
/// preamble may still go on.
pub open spec fn keeps_place(wait: Awaited, heard: nat, passes: Seq<Hearing>) -> bool
    decreases passes.len(),
{
    passes.len() > 0 ==> {
        let len = heard + passes[0].heard.len();
        let reaction = passes[0].reaction;
        &&& goes_on(wait, len) ==> !(reaction is Read) && !(reaction is Repeated)
        &&& keeps_place(wait, len, passes.skip(1))
    }
}

/// What is heard later leaves what was heard as it is.
proof fn lemma_heard_grows(ear: Ear, passes: Seq<Hearing>)
    ensures
        ear.heard.len() <= after_passes(ear, passes).heard.len(),
        ear.heard == after_passes(ear, passes).heard.take(ear.heard.len() as int),
    decreases passes.len(),
{
    let all = after_passes(ear, passes).heard;
    if passes.len() > 0 {
        let next = read_out(in_pass(ear, passes[0]));
        lemma_heard_grows(next, passes.skip(1));
        assert(next.heard == ear.heard + passes[0].heard);
        assert forall|i: int| 0 <= i < ear.heard.len() implies #[trigger] ear.heard[i]
            == all[i] by {
            assert(next.heard[i] == all.take(next.heard.len() as int)[i]);
        }
    }
    assert(ear.heard =~= all.take(ear.heard.len() as int));
}

/// The tones of a frame are not silent for half a symbol; its end is, for a whole
/// one.
proof fn lemma_closing_silence(sent: Transmission, heard: Seq<u32>)
    requires
        sent.valid(),
        sent.is_in(heard),
    ensures
        silent_at(heard, sent.payload_end() as int, sent.size),
        forall|j: int|
            sent.at <= j && j + sent.half() <= sent.payload_end() ==> !#[trigger] silent_at(
                heard,
                j,
                sent.size,
            ),
        heard.subrange(sent.payload_at() as int, sent.payload_end() as int) == in_a_row(
            sent.payload,
            sent.payload.len(),
        ),
        sent.payload_at() <= sent.payload_end(),
{
    let repeats = sent.params.preamble_repeats as nat;
    let count = sent.payload.len();
    let size = sent.size;
    let front = repeated(sent.preamble, repeats);
    let row = in_a_row(sent.payload, count);
    let quiet = Seq::new(size, |i: int| 0u32);
    let frame = sent.frame();
    let tones = sent.tones();
    law_frame_layout(
        ModeConfig::Mfsk(sent.params),
        sent.bits,
        sent.width,
        sent.preamble,
        sent.payload,
        size,
    );
    lemma_repeated_len(sent.preamble, repeats);
    lemma_in_a_row(sent.payload, count, size, 0);
    assert(frame == tones + quiet);
    assert(front.len() == repeats * size && row.len() == count * size);
    assert(sent.payload_end() == sent.at + tones.len());
    assert forall|i: int| 0 <= i < frame.len() implies heard[sent.at + i] == #[trigger] frame[i] by {
        assert(heard.subrange(sent.at as int, (sent.at + frame.len()) as int)[i] == frame[i]);
    }
    assert forall|i: int| sent.payload_end() <= i < sent.payload_end() + size implies is_zero(
        #[trigger] heard[i],
    ) by {
        assert(frame[i - sent.at] == 0);
    }
    assert forall|j: int|
        sent.at <= j && j + sent.half() <= sent.payload_end() implies !#[trigger] silent_at(
        heard,
        j,
        size,
    ) by {
        if silent_at(heard, j, size) {
            let r = j - sent.at;
            assert forall|i: int| r <= i < r + sent.half() implies is_zero(#[trigger] tones[i]) by {
                assert(frame[i] == tones[i]);
                assert(is_zero(heard[sent.at + i]));
            }
            assert(silent_at(tones, r, sent.half()));
        }
    }
    assert(heard.subrange(sent.payload_at() as int, sent.payload_end() as int) =~= row) by {
        assert forall|i: int| 0 <= i < row.len() implies heard[sent.payload_at() + i]
            == #[trigger] row[i] by {
            assert(frame[repeats * size + i] == row[i]);
        }
    }
}

/// Where a frame is among all samples, and a wait in it is due as soon as the first
/// of them are heard, what is read is the payload.
proof fn lemma_due_reads_payload(
    all: Seq<u32>,
    ear: Ear,
    wait: Awaited,
    offset: int,
    sent: Transmission,
)
    requires
        ear.valid(),
        ear.waits.contains(wait),
        ear.heard.len() <= all.len(),
        ear.heard == all.take(ear.heard.len() as int),
        is_due(ear.heard, wait),
        waits_for(wait, offset, sent),
        ear.dropped + sent.size / 2 <= wait.place,
        sent.is_in(all),
    ensures
        reads_payload(ear, wait, offset, sent),
{
    let heard = ear.heard;
    let size = sent.size;
    let count = sent.payload.len();
    let end = sent.payload_end();
    let start = sent.payload_at();
    lemma_closing_silence(sent, all);
    lemma_first_silence(heard, wait.place, size);
    assert forall|j: int| #[trigger] silent_at(heard, j, size) <==> silent_at(all, j, size) && j
        + size <= heard.len() by {
        if silent_at(heard, j, size) {
            assert forall|i: int| j <= i < j + size implies is_zero(#[trigger] all[i]) by {
                assert(heard[i] == all[i]);
            }
        }
        if silent_at(all, j, size) && j + size <= heard.len() {
            assert forall|i: int| j <= i < j + size implies is_zero(#[trigger] heard[i]) by {
                assert(heard[i] == all[i]);
            }
        }
    }
    if end + size <= heard.len() {
        assert(silent_at(heard, end as int, size));
    }
    if first_silence(heard, wait.place, size) is None {
        let span = heard.len() - wait.place;
        assert(span >= 1026 * size) by (nonlinear_arith)
            requires
                size > 0,
                span / size as int > 1025,
        ;
        assert(count * size + size <= 1025 * size) by (nonlinear_arith)
            requires
                count <= 1024,
        ;
        assert(false);
    }
    let quiet = first_silence(heard, wait.place, size)->0;
    assert(silent_at(heard, quiet as int, size) && silent_at(all, quiet as int, size));
    assert(end < quiet + sent.half() && quiet <= end);
    let len = (quiet + sent.half() - 1 - ear.dropped) as nat;
    let first = start - ear.dropped;
    assert(first == shifted((wait.place - ear.dropped) as nat, offset));
    let span = len - first;
    assert(span / size as int == count) by (nonlinear_arith)
        requires
            size > 0,
            count * size <= span < count * size + size,
    ;
    let places = places_read(ear, wait, offset);
    assert(places.len() == count);
    assert forall|k: int| 0 <= k < places.len() implies {
        &&& 0 <= #[trigger] places[k]
        &&& places[k] + size <= ear.samples().len()
        &&& block_read(ear, wait, places[k]) == sent.payload[k]@
    } by {
        lemma_in_a_row(sent.payload, count, size, k);
        let row = in_a_row(sent.payload, count);
        assert(0 <= k * size) by (nonlinear_arith)
            requires
                k >= 0,
        ;
        assert(places[k] == first + k * size);
        assert(block_read(ear, wait, places[k]) =~= row.subrange(k * size, k * size + size)) by {
            assert forall|i: int| 0 <= i < size implies ear.samples()[places[k] + i]
                == #[trigger] row.subrange(k * size, k * size + size)[i] by {
                assert(row[k * size + i] == all.subrange(start as int, end as int)[k * size + i]);
                assert(heard[start + k * size + i] == all[start + k * size + i]);
            }
        }
    }
}

/// Whether a wait is for the payload of a frame: it has the frame's mode, it was
/// placed within the frame, half a symbol at most from where the payload starts,
/// and the payload is no longer than what is read at all.
pub open spec fn waits_for(wait: Awaited, offset: int, sent: Transmission) -> bool {
    &&& sent.valid()
    &&& sent.payload.len() < READ_SYMBOLS
    &&& wait.job.params == sent.params
    &&& wait.job.sym_len == sent.size
    &&& sent.at <= wait.place <= sent.payload_end()
    &&& wait.place + offset == sent.payload_at()
    &&& -(sent.size / 2) <= offset <= sent.size / 2
}

/// Once a frame was heard, whatever was heard behind it, a payload that is awaited
/// within half a symbol of where it starts is to be read; and what is read, where
/// the search settles on the offset between the two places, are the blocks of the
/// payload's symbols, all of them and nothing else.
pub proof fn law_frame_is_read(ear: Ear, wait: Awaited, offset: int, sent: Transmission)
    requires
        ear.valid(),
        ear.waits.contains(wait),
        waits_for(wait, offset, sent),
        ear.dropped + sent.size / 2 <= wait.place,
        sent.is_in(ear.heard),
    ensures
        reads_payload(ear, wait, offset, sent),
{
    lemma_closing_silence(sent, ear.heard);
    lemma_first_silence(ear.heard, wait.place, sent.size);
    assert(silent_at(ear.heard, sent.payload_end() as int, sent.size));
    assert(ear.heard =~= ear.heard.take(ear.heard.len() as int));
    lemma_due_reads_payload(ear.heard, ear, wait, offset, sent);
}

/// A wait that is not read in a pass, and keeps its place in it, is there after it,
/// with the half symbol before its place.
proof fn lemma_wait_stays(ear: Ear, pass: Hearing, wait: Awaited)
    requires
        ear.valid(),
        ear.waits.contains(wait),
        wait.place >= ear.dropped + wait.job.sym_len as int / 2,
        goes_on(wait, ear.heard.len() + pass.heard.len()) ==> !(pass.reaction is Read) && !(
        pass.reaction is Repeated),
    ensures
        in_pass(ear, pass).valid(),
        in_pass(ear, pass).waits.contains(wait),
        wait.place >= in_pass(ear, pass).dropped + wait.job.sym_len as int / 2,
        in_pass(ear, pass).heard == ear.heard + pass.heard,
        read_out(in_pass(ear, pass)).valid(),
        !is_due(ear.heard + pass.heard, wait) ==> read_out(in_pass(ear, pass)).waits.contains(
            wait,
        ),
{
    let more = polled(ear, pass.heard, pass.wanted);
    let after = heeded(more, pass.reaction, pass.sym_len);
    let now = in_pass(ear, pass);
    let at = choose|i: int| 0 <= i < ear.waits.len() && ear.waits[i] == wait;
    assert(more.waits[at] == wait);
    law_other_waits_stay(more, pass.reaction, pass.sym_len, at);
    assert(after.waits[at] == wait);
    assert(after.valid()) by {
        assert forall|i: int| 0 <= i < after.waits.len() implies {
            &&& after.dropped <= (#[trigger] after.waits[i]).place <= after.heard.len()
            &&& after.waits[i].job.sym_len > 0
        } by {
            if i < ear.waits.len() {
                assert(ear.waits[i].job.sym_len > 0);
            }
        }
    }
    law_awaited_is_kept(after);
    assert(now.waits[at] == wait);
    let left = read_out(now);
    law_nothing_due_is_left(now, wait);
    assert forall|i: int| 0 <= i < left.waits.len() implies {
        &&& left.dropped <= (#[trigger] left.waits[i]).place <= left.heard.len()
        &&& left.waits[i].job.sym_len > 0
    } by {
        law_nothing_due_is_left(now, left.waits[i]);
        let n = choose|n: int| 0 <= n < now.waits.len() && now.waits[n] == left.waits[i];
        assert(now.waits[n].job.sym_len > 0);
    }
}

/// What is sent is what is received. A payload is awaited within half a symbol of
/// where the payload of a frame starts, and keeps its place. Over any passes by the
/// end of which the frame was heard, however its samples fall into them and
/// whatever else is reported meanwhile, one of them reads the payload. Where the
/// search settles on the offset between the two places, what is read are the blocks
/// of the payload's symbols; and where the filters make the tone of each of these
/// blocks stand out, the text of the symbols is the payload, with zeros behind it
/// up to a whole number of symbols.
pub proof fn law_frame_is_received(
    ear: Ear,
    passes: Seq<Hearing>,
    wait: Awaited,
    offset: int,
    sent: Transmission,
    energies: spec_fn(Seq<u32>) -> Seq<u32>,
)
    requires
        ear.valid(),
        ear.waits.contains(wait),
        !is_due(ear.heard, wait),
        ear.dropped + sent.size / 2 <= wait.place,
        keeps_place(wait, ear.heard.len(), passes),
        waits_for(wait, offset, sent),
        sent.is_in(after_passes(ear, passes).heard),
        sent.width >= 1,
        pow2(sent.width) <= sent.params.m,
        forall|k: int|
            0 <= k < sent.payload.len() ==> stands_out(
                energies((#[trigger] sent.payload[k])@),
                tone_index(sent.bits, sent.params.m, sent.width, k) as int,
            ),
    ensures
        when_read(ear, passes, wait) matches Some(now) && {
            &&& reads_payload(now, wait, offset, sent)
            &&& forall|symbols: Seq<usize>|
                #[trigger] are_symbols_read(symbols, now, wait, offset, energies) ==> bit_text(
                    decoded_bits(symbols, sent.width),
                ) == bit_text(sent.bits) + Seq::new(
                    (sent.payload.len() * sent.width - sent.bits.len()) as nat,
                    |i: int| '0',
                )
        },
    decreases passes.len(),
{
    let all = after_passes(ear, passes).heard;
    if passes.len() == 0 {
        law_frame_is_read(ear, wait, offset, sent);
        assert(false);
    }
    let now = in_pass(ear, passes[0]);
    let rest = passes.skip(1);
    lemma_wait_stays(ear, passes[0], wait);
    if is_due(now.heard, wait) {
        lemma_heard_grows(read_out(now), rest);
        lemma_due_reads_payload(all, now, wait, offset, sent);
        assert forall|symbols: Seq<usize>|
            #[trigger] are_symbols_read(symbols, now, wait, offset, energies) implies bit_text(
            decoded_bits(symbols, sent.width),
        ) == bit_text(sent.bits) + Seq::new(
            (sent.payload.len() * sent.width - sent.bits.len()) as nat,
            |i: int| '0',
        ) by {
            let places = places_read(now, wait, offset);
            let levels = Seq::new(sent.payload.len(), |k: int| energies(sent.payload[k]@));
            assert forall|k: int| 0 <= k < symbols.len() implies is_strongest(
                levels[k],
                #[trigger] symbols[k] as int,
            ) by {
                assert(block_read(now, wait, places[k]) == sent.payload[k]@);
            }
            assert forall|k: int| 0 <= k < sent.payload.len() implies stands_out(
                #[trigger] levels[k],
                tone_index(sent.bits, sent.params.m, sent.width, k) as int,
            ) by {
                assert(levels[k] == energies(sent.payload[k]@));
            }
            law_payload_is_read(sent.bits, sent.params.m, sent.width, levels, symbols);
        }
    } else {
        law_frame_is_received(read_out(now), rest, wait, offset, sent, energies);
    }
}

} // verus!
