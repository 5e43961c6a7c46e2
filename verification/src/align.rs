//! Blocks of samples, the alignment of symbols, and the tones that are read.
//!
//! Energies and confidences are never negative, and are carried as the bit
//! patterns of single-precision numbers (IEEE 754 binary32), which order as the
//! numbers do. Patterns above that of infinity are not numbers, and never win a
//! comparison.
use crate::modems::{
    bit_text, decoded_bits, in_a_row, law_mfsk_round_trip, lemma_in_a_row, symbol_bit,
    symbol_count, symbols_to_bits, tone_index,
};
use vstd::arithmetic::power2::{lemma_pow2_pos, pow2};
use vstd::prelude::*;

verus! {

/// How many symbols are looked at for each offset of the alignment search.
pub const SEARCH_SYMBOLS: usize = 8;

/// How many symbols are read at most.
pub const READ_SYMBOLS: usize = 1025;

/// The least confidence that an alignment needs: 0.12.
pub const LEAST_CONFIDENCE: u32 = 0x3df5_c28f;

/// The pattern of infinity, the greatest one that is a number.
pub const INFINITY: u32 = 0x7f80_0000;

// ---------------------------------------------------------------------------
// Blocks of samples
// ---------------------------------------------------------------------------

/// How many whole blocks of `size` samples there are from `start` on, counted up
/// to `limit`.
pub open spec fn block_count(len: nat, start: int, size: nat, limit: nat) -> nat {
    let fit: int = if start < len {
        (len - start) / size as int
    } else {
        0
    };
    if fit <= limit {
        fit as nat
    } else {
        limit
    }
}

/// Where those blocks start.
pub open spec fn block_starts_spec(len: nat, start: int, size: nat, limit: nat) -> Seq<int> {
    Seq::new(block_count(len, start, size, limit), |k: int| start + k * size)
}

/// Whether a vector holds these places.
pub open spec fn are_places(starts: Seq<usize>, places: Seq<int>) -> bool {
    &&& starts.len() == places.len()
    &&& forall|k: int| 0 <= k < starts.len() ==> #[trigger] starts[k] == places[k]
}

/// Whether blocks of `size` samples at these places lie within `len` samples.
pub open spec fn are_within(starts: Seq<usize>, size: nat, len: nat) -> bool {
    forall|k: int| 0 <= k < starts.len() ==> #[trigger] starts[k] + size <= len
}

proof fn lemma_places_within(starts: Seq<usize>, len: nat, start: int, size: nat, limit: nat)
    requires
        size > 0,
        start >= 0,
        are_places(starts, block_starts_spec(len, start, size, limit)),
    ensures
        are_within(starts, size, len),
        starts.len() <= limit,
{
    if start < len {
        let span = len - start;
        assert(span / size as int >= 0) by (nonlinear_arith)
            requires
                span > 0,
                size > 0,
        ;
    }
    assert forall|k: int| 0 <= k < starts.len() implies #[trigger] starts[k] + size <= len by {
        law_blocks_fit(len, start, size, limit, k);
    }
}

/// Where the whole blocks of `size` samples start, one behind the other from
/// `start` on, `limit` of them at most.
pub fn block_starts(len: usize, start: usize, size: usize, limit: usize) -> (starts: Vec<usize>)
    requires
        size > 0,
    ensures
        are_places(
            starts@,
            block_starts_spec(len as nat, start as int, size as nat, limit as nat),
        ),
{
    let mut starts: Vec<usize> = Vec::new();
    let mut at: usize = start;
    let mut room = start <= len;
    assert(start + 0 * size == start);
    while room && starts.len() < limit && len - at >= size
        invariant
            size > 0,
            room == (start <= len),
            room ==> start <= at <= len,
            room ==> at == start + starts@.len() * size,
            !room ==> starts@.len() == 0,
            starts@.len() <= limit,
            forall|k: int| 0 <= k < starts@.len() ==> #[trigger] starts@[k] == start + k * size,
        decreases len - at,
    {
        starts.push(at);
        assert((starts@.len() - 1 + 1) * size == (starts@.len() - 1) * size + size)
            by (nonlinear_arith);
        at += size;
    }
    proof {
        let count = starts@.len() as int;
        if room {
            let span = len - start;
            if count < limit {
                assert(span / size as int == count) by (nonlinear_arith)
                    requires
                        size > 0,
                        count * size <= span < count * size + size,
                ;
            } else {
                assert(span / size as int >= count) by (nonlinear_arith)
                    requires
                        size > 0,
                        count * size <= span,
                ;
            }
            if start == len {
                assert(count == 0) by (nonlinear_arith)
                    requires
                        size > 0,
                        count >= 0,
                        count * size <= 0,
                ;
            }
        }
    }
    starts
}

// ---------------------------------------------------------------------------
// Alignment
// ---------------------------------------------------------------------------

/// The place that lies `offset` behind `begin`, or before it where the offset is
/// negative, but never before the first sample.
pub open spec fn shifted(begin: nat, offset: int) -> int {
    if begin + offset >= 0 {
        begin + offset
    } else {
        0
    }
}

/// The best offset of an alignment search, and how confident it is.
#[derive(Clone, Copy, Debug, PartialEq, Eq, Structural)]
pub struct Alignment {
    /// The offset.
    pub offset: isize,
    /// The confidence; `None` where no offset had a block to look at.
    pub confidence: Option<u32>,
}

/// Whether there is a confidence, and it is a number.
pub open spec fn counts(confidence: Option<u32>) -> bool {
    confidence is Some && confidence->0 <= INFINITY
}

/// `at` is the first of the greatest confidences.
pub open spec fn is_best(confidences: Seq<Option<u32>>, at: int) -> bool {
    &&& 0 <= at < confidences.len()
    &&& counts(confidences[at])
    &&& forall|i: int|
        0 <= i < confidences.len() && counts(#[trigger] confidences[i]) ==> confidences[i]->0
            <= confidences[at]->0
    &&& forall|i: int|
        0 <= i < at && counts(#[trigger] confidences[i]) ==> confidences[i]->0
            < confidences[at]->0
}

/// `best` is the best alignment among confidences, the first of which is that of
/// the offset `-half`: the offset of the greatest confidence, the first one of
/// equals, or no offset where there is no confidence at all.
pub open spec fn is_best_alignment(
    confidences: Seq<Option<u32>>,
    half: nat,
    best: Alignment,
) -> bool {
    match best.confidence {
        None => best.offset == 0 && forall|i: int|
            0 <= i < confidences.len() ==> !counts(#[trigger] confidences[i]),
        Some(_) => is_best(confidences, best.offset + half) && confidences[best.offset + half]
            == best.confidence,
    }
}

/// A search for the offset at which the symbols of a payload are clearest. It
/// goes from half a symbol before the place where the payload should start to
/// half a symbol behind it.
pub struct AlignSearch {
    len: usize,
    begin: usize,
    sym_len: usize,
    at: usize,
    best: Alignment,
    offered: Ghost<Seq<Option<u32>>>,
}

impl AlignSearch {
    /// How many samples there are.
    pub closed spec fn len(&self) -> nat {
        self.len as nat
    }

    /// Where the payload should start.
    pub closed spec fn begin(&self) -> nat {
        self.begin as nat
    }

    /// How many samples a symbol has.
    pub closed spec fn sym_len(&self) -> nat {
        self.sym_len as nat
    }

    /// The confidences of the offsets that were looked at, in order.
    pub closed spec fn offered(&self) -> Seq<Option<u32>> {
        self.offered@
    }

    /// The best alignment so far.
    pub closed spec fn found(&self) -> Alignment {
        self.best
    }

    /// How far the offsets go to either side.
    pub open spec fn half(&self) -> nat {
        self.sym_len() / 2
    }

    /// All offsets were looked at.
    pub open spec fn complete(&self) -> bool {
        self.offered().len() == 2 * self.half() + 1
    }

    /// The offset to look at next.
    pub open spec fn offset(&self) -> int {
        self.offered().len() - self.half()
    }

    /// The offers are counted.
    pub closed spec fn keeps_count(&self) -> bool {
        self.at == self.offered@.len()
    }

    /// A symbol has samples, places do not overflow, no offset is looked at twice,
    /// and the best alignment is that of the confidences offered.
    pub open spec fn wf(&self) -> bool {
        &&& self.sym_len() > 0
        &&& self.begin() + self.sym_len() <= usize::MAX
        &&& self.offered().len() <= 2 * self.half() + 1
        &&& is_best_alignment(self.offered(), self.half(), self.found())
        &&& self.keeps_count()
    }

    /// A search that has looked at nothing yet; `None` where a symbol has no
    /// samples.
    pub fn new(len: usize, begin: usize, sym_len: usize) -> (search: Option<AlignSearch>)
        requires
            begin + sym_len <= usize::MAX,
        ensures
            search is None <==> sym_len == 0,
            search matches Some(begun) ==> {
                &&& begun.wf()
                &&& begun.len() == len
                &&& begun.begin() == begin
                &&& begun.sym_len() == sym_len
                &&& begun.offered() == Seq::<Option<u32>>::empty()
            },
    {
        if sym_len == 0 {
            return None;
        }
        Some(
            AlignSearch {
                len,
                begin,
                sym_len,
                at: 0,
                best: Alignment { offset: 0, confidence: None },
                offered: Ghost(Seq::empty()),
            },
        )
    }

    /// Where the first few whole symbols start at the next offset; `None` once all
    /// offsets were looked at.
    pub fn next_blocks(&self) -> (starts: Option<Vec<usize>>)
        requires
            self.wf(),
        ensures
            starts is None <==> self.complete(),
            starts matches Some(places) ==> {
                &&& are_places(
                    places@,
                    block_starts_spec(
                        self.len(),
                        shifted(self.begin(), self.offset()),
                        self.sym_len(),
                        SEARCH_SYMBOLS as nat,
                    ),
                )
                &&& are_within(places@, self.sym_len(), self.len())
                &&& places@.len() <= SEARCH_SYMBOLS
            },
    {
        let half: usize = self.sym_len / 2;
        if self.at > 2 * half {
            return None;
        }
        let start: usize = if self.at >= half {
            self.begin + (self.at - half)
        } else if self.begin >= half - self.at {
            self.begin - (half - self.at)
        } else {
            0
        };
        let starts = block_starts(self.len, start, self.sym_len, SEARCH_SYMBOLS);
        proof {
            lemma_places_within(
                starts@,
                self.len(),
                start as int,
                self.sym_len(),
                SEARCH_SYMBOLS as nat,
            );
        }
        Some(starts)
    }

    /// Tells how clear the symbols at the offset looked at were; `None` where
    /// there was no whole symbol with any energy.
    pub fn offer(&mut self, confidence: Option<u32>)
        requires
            old(self).wf(),
            !old(self).complete(),
        ensures
            final(self).wf(),
            final(self).len() == old(self).len(),
            final(self).begin() == old(self).begin(),
            final(self).sym_len() == old(self).sym_len(),
            final(self).offered() == old(self).offered().push(confidence),
    {
        let half: usize = self.sym_len / 2;
        let better = match confidence {
            Some(new) => new <= INFINITY && match self.best.confidence {
                None => true,
                Some(greatest) => new > greatest,
            },
            None => false,
        };
        let ghost before = self.offered@;
        let ghost after = before.push(confidence);
        let ghost old_best = self.best;
        if better {
            self.best.offset = if self.at >= half {
                (self.at - half) as isize
            } else {
                -((half - self.at) as isize)
            };
            self.best.confidence = confidence;
            proof {
                assert forall|k: int|
                    0 <= k < before.len() && counts(#[trigger] after[k]) implies after[k]->0
                    < confidence->0 by {
                    assert(before[k] == after[k]);
                }
                assert(is_best(after, before.len() as int));
            }
        } else {
            proof {
                assert forall|k: int|
                    0 <= k < before.len() implies #[trigger] after[k] == before[k] by {}
                if old_best.confidence is Some {
                    assert(is_best(after, old_best.offset + half as int));
                }
            }
        }
        self.at += 1;
        self.offered = Ghost(after);
    }

    /// The best alignment among the offsets that were looked at.
    pub fn best(&self) -> (best: Alignment)
        requires
            self.wf(),
        ensures
            best == self.found(),
            is_best_alignment(self.offered(), self.half(), best),
    {
        self.best
    }

    /// Where the symbols to read start; `None` where the best alignment is not
    /// confident enough.
    pub fn reading_blocks(&self) -> (starts: Option<Vec<usize>>)
        requires
            self.wf(),
        ensures
            is_best_alignment(self.offered(), self.half(), self.found()),
            starts is None <==> (self.found().confidence is None || self.found().confidence->0
                < LEAST_CONFIDENCE),
            starts matches Some(places) ==> {
                &&& are_places(
                    places@,
                    block_starts_spec(
                        self.len(),
                        shifted(self.begin(), self.found().offset as int),
                        self.sym_len(),
                        READ_SYMBOLS as nat,
                    ),
                )
                &&& are_within(places@, self.sym_len(), self.len())
                &&& places@.len() <= READ_SYMBOLS
            },
    {
        match self.best.confidence {
            Some(confidence) if confidence >= LEAST_CONFIDENCE => {
                let start: usize = if self.best.offset >= 0 {
                    self.begin + self.best.offset as usize
                } else {
                    let back: usize = (-self.best.offset) as usize;
                    if self.begin >= back {
                        self.begin - back
                    } else {
                        0
                    }
                };
                let starts = block_starts(self.len, start, self.sym_len, READ_SYMBOLS);
                proof {
                    lemma_places_within(
                        starts@,
                        self.len(),
                        start as int,
                        self.sym_len(),
                        READ_SYMBOLS as nat,
                    );
                }
                Some(starts)
            },
            _ => None,
        }
    }
}

/// An energy as far as it is a number, else none.
pub open spec fn level(energy: u32) -> u32 {
    if energy <= INFINITY {
        energy
    } else {
        0
    }
}

/// `tone` is the first one with the greatest energy, or the lowest one where none
/// has any.
pub open spec fn is_strongest(energies: Seq<u32>, tone: int) -> bool {
    if exists|i: int| 0 <= i < energies.len() && level(#[trigger] energies[i]) > 0 {
        &&& 0 <= tone < energies.len()
        &&& forall|i: int|
            0 <= i < energies.len() ==> level(#[trigger] energies[i]) <= level(energies[tone])
        &&& forall|i: int| 0 <= i < tone ==> level(#[trigger] energies[i]) < level(energies[tone])
    } else {
        tone == 0
    }
}

/// The tone with the greatest energy, the first one of equals; the lowest tone
/// where none has any.
pub fn strongest_tone(energies: &Vec<u32>) -> (tone: usize)
    ensures
        is_strongest(energies@, tone as int),
{
    let mut tone: usize = 0;
    let mut greatest: u32 = 0;
    let mut i: usize = 0;
    while i < energies.len()
        invariant
            i <= energies@.len(),
            greatest == 0 ==> tone == 0,
            greatest > 0 ==> tone < i && level(energies@[tone as int]) == greatest,
            forall|k: int| 0 <= k < i ==> level(#[trigger] energies@[k]) <= greatest,
            forall|k: int| 0 <= k < tone ==> level(#[trigger] energies@[k]) < greatest,
        decreases energies.len() - i,
    {
        if energies[i] <= INFINITY && energies[i] > greatest {
            greatest = energies[i];
            tone = i;
        }
        i += 1;
    }
    tone
}

/// The strongest tone of each symbol.
fn strongest_tones(energies: &Vec<Vec<u32>>) -> (symbols: Vec<usize>)
    ensures
        symbols@.len() == energies@.len(),
        forall|k: int|
            0 <= k < symbols@.len() ==> is_strongest(energies@[k]@, #[trigger] symbols@[k] as int),
{
    let mut symbols: Vec<usize> = Vec::new();
    let mut k: usize = 0;
    while k < energies.len()
        invariant
            k <= energies@.len(),
            symbols@.len() == k,
            forall|i: int|
                0 <= i < k ==> is_strongest(energies@[i]@, #[trigger] symbols@[i] as int),
        decreases energies.len() - k,
    {
        symbols.push(strongest_tone(&energies[k]));
        k += 1;
    }
    symbols
}

/// What was read behind a preamble.
#[derive(Debug)]
pub struct Message {
    /// The symbols.
    pub symbols: Vec<usize>,
    /// The text of their bits.
    pub bits: String,
}

/// Decodes symbols from the energies of their tones.
pub fn decode(energies: &Vec<Vec<u32>>, bits_per_symbol: usize) -> (message: Message)
    requires
        bits_per_symbol <= usize::BITS,
    ensures
        message.symbols@.len() == energies@.len(),
        forall|k: int|
            0 <= k < energies@.len() ==> is_strongest(
                energies@[k]@,
                #[trigger] message.symbols@[k] as int,
            ),
        message.bits@ == bit_text(decoded_bits(message.symbols@, bits_per_symbol as nat)),
{
    let symbols = strongest_tones(energies);
    let bits = symbols_to_bits(&symbols, bits_per_symbol);
    Message { symbols, bits }
}

// ---------------------------------------------------------------------------
// Laws
// ---------------------------------------------------------------------------

/// Blocks lie one behind the other within the samples.
pub proof fn law_blocks_fit(len: nat, start: int, size: nat, limit: nat, k: int)
    requires
        size > 0,
        start >= 0,
        0 <= k < block_count(len, start, size, limit),
    ensures
        start <= block_starts_spec(len, start, size, limit)[k],
        block_starts_spec(len, start, size, limit)[k] + size <= len,
        block_count(len, start, size, limit) <= limit,
        k > 0 ==> block_starts_spec(len, start, size, limit)[k - 1] + size == block_starts_spec(
            len,
            start,
            size,
            limit,
        )[k],
{
    let s = size as int;
    let span = len - start;
    assert(0 <= k * s && k * s + s <= span && k * s == (k - 1) * s + s) by (nonlinear_arith)
        requires
            s > 0,
            0 <= k,
            k < span / s,
    ;
}

/// A search that is told of no confidence settles on no alignment, so that there
/// is no place to read from.
pub proof fn law_search_without_confidence(
    confidences: Seq<Option<u32>>,
    half: nat,
    best: Alignment,
)
    requires
        is_best_alignment(confidences, half, best),
        forall|i: int| 0 <= i < confidences.len() ==> !counts(#[trigger] confidences[i]),
    ensures
        best == (Alignment { offset: 0, confidence: None }),
{
}

/// Blocks of samples that were sent in a row are the blocks that are read, where
/// the place that they are read from is that of the first one.
pub proof fn law_blocks_are_read(
    samples: Seq<u32>,
    begin: nat,
    size: nat,
    blocks: Seq<Vec<u32>>,
    count: nat,
    limit: nat,
    k: int,
)
    requires
        size > 0,
        forall|i: int| 0 <= i < count ==> (#[trigger] blocks[i])@.len() == size,
        begin + count * size <= samples.len(),
        samples.subrange(begin as int, (begin + count * size) as int) == in_a_row(blocks, count),
        0 <= k < count,
        k < limit,
    ensures
        ({
            let starts = block_starts_spec(samples.len(), shifted(begin, 0), size, limit);
            &&& k < starts.len()
            &&& starts[k] + size <= samples.len()
            &&& samples.subrange(starts[k], starts[k] + size) == blocks[k]@
        }),
{
    lemma_in_a_row(blocks, count, size, k);
    let row = in_a_row(blocks, count);
    let span = samples.len() - begin;
    assert(0 <= k * size && k < span / size as int && begin < samples.len()) by (nonlinear_arith)
        requires
            size > 0,
            0 <= k < count,
            count * size <= span,
            span == samples.len() - begin,
    ;
    assert(samples.subrange(begin + k * size, begin + k * size + size) =~= row.subrange(
        k * size,
        k * size + size,
    ));
}

/// Whether a tone is clearly the strongest one.
pub open spec fn stands_out(energies: Seq<u32>, tone: int) -> bool {
    &&& 0 <= tone < energies.len()
    &&& level(energies[tone]) > 0
    &&& forall|i: int|
        0 <= i < energies.len() && i != tone ==> level(#[trigger] energies[i]) < level(
            energies[tone],
        )
}

/// Whether there is no energy at any tone.
pub open spec fn is_quiet(energies: Seq<u32>) -> bool {
    forall|i: int| 0 <= i < energies.len() ==> level(#[trigger] energies[i]) == 0
}

/// What was sent is what is read: where the tone of each symbol of a payload
/// stands out, and silence follows, the text of the symbols read is the payload
/// with zeros behind it.
pub proof fn law_payload_is_read(
    bits: Seq<bool>,
    m: usize,
    width: nat,
    energies: Seq<Seq<u32>>,
    symbols: Seq<usize>,
)
    requires
        width >= 1,
        pow2(width) <= m,
        energies.len() >= symbol_count(bits.len(), width),
        forall|k: int|
            0 <= k < symbol_count(bits.len(), width) ==> stands_out(
                #[trigger] energies[k],
                tone_index(bits, m, width, k) as int,
            ),
        forall|k: int|
            symbol_count(bits.len(), width) <= k < energies.len() ==> is_quiet(
                #[trigger] energies[k],
            ),
        symbols.len() == energies.len(),
        forall|k: int|
            0 <= k < symbols.len() ==> is_strongest(energies[k], #[trigger] symbols[k] as int),
    ensures
        bits.len() <= symbols.len() * width,
        bit_text(decoded_bits(symbols, width)) == bit_text(bits) + Seq::new(
            (symbols.len() * width - bits.len()) as nat,
            |i: int| '0',
        ),
{
    let count = symbol_count(bits.len(), width);
    let w = width as int;
    let sent = Seq::new(count, |k: int| tone_index(bits, m, width, k));
    let decoded = decoded_bits(symbols, width);
    let exact = decoded_bits(sent, width);
    law_mfsk_round_trip(bits, m, width, sent);
    assert(count * width <= symbols.len() * width) by (nonlinear_arith)
        requires
            count <= symbols.len(),
    ;
    assert forall|i: int| 0 <= i < decoded.len() implies #[trigger] decoded[i] == (i < bits.len()
        && bits[i]) by {
        let k = i / w;
        assert(0 <= k < symbols.len() && (i < count * w ==> k < count) && (i >= count * w ==> k
            >= count)) by (nonlinear_arith)
            requires
                w >= 1,
                0 <= i < symbols.len() * w,
                k == i / w,
        ;
        let b = (width - 1 - i % w) as nat;
        assert(is_strongest(energies[k], symbols[k] as int));
        if k < count {
            law_clear_tone_is_read(energies[k], sent[k] as int, symbols[k] as int);
            assert(decoded[i] == exact[i]);
            if i < bits.len() {
                assert(exact.take(bits.len() as int)[i] == exact[i]);
            }
        } else {
            assert(is_quiet(energies[k]));
            assert(symbols[k] == 0);
            lemma_pow2_pos(b);
            assert(0nat / pow2(b) == 0) by (nonlinear_arith)
                requires
                    pow2(b) > 0,
            ;
            assert(!symbol_bit(0, b));
        }
    }
    assert(bit_text(decoded) =~= bit_text(bits) + Seq::new(
        (symbols.len() * width - bits.len()) as nat,
        |i: int| '0',
    ));
}

/// A tone that is clearly the strongest one is the one that is read.
pub proof fn law_clear_tone_is_read(energies: Seq<u32>, sent: int, tone: int)
    requires
        stands_out(energies, sent),
    ensures
        is_strongest(energies, tone) <==> tone == sent,
{
}

/// The blocks are all whole ones there are, one behind the other from the start on:
/// the next one would not fit, or the limit is reached.
pub proof fn law_no_block_is_left_out(len: nat, start: int, size: nat, limit: nat)
    requires
        size > 0,
        start >= 0,
    ensures
        ({
            let starts = block_starts_spec(len, start, size, limit);
            &&& starts.len() <= limit
            &&& starts.len() < limit ==> start + starts.len() * size + size > len
            &&& forall|k: int|
                0 <= k < starts.len() ==> #[trigger] starts[k] == start + k * size
            &&& starts.len() > 0 ==> start + starts.len() * size <= len
        }),
{
    let starts = block_starts_spec(len, start, size, limit);
    let count = starts.len() as int;
    let s = size as int;
    if start < len {
        let span = len - start;
        let fit = span / s;
        assert(0 <= fit && fit * s <= span < fit * s + s && (count <= fit ==> count * s <= fit * s))
            by (nonlinear_arith)
            requires
                s > 0,
                span > 0,
                fit == span / s,
        ;
    } else {
        assert(count * s == 0) by (nonlinear_arith)
            requires
                count == 0,
        ;
    }
}

/// The limits of a search: eight symbols at each offset, 1025 symbols read, and a
/// confidence of 0.12 at least; and numbers go up to infinity.
pub proof fn law_search_limits()
    ensures
        SEARCH_SYMBOLS == 8,
        READ_SYMBOLS == 1025,
        LEAST_CONFIDENCE == 0x3df5_c28f,
        INFINITY == 0x7f80_0000,
{
}

/// A place is shifted by the offset, but not beyond the first sample; and places
/// and bounds of blocks are what they say.
pub proof fn law_places(
    begin: nat,
    offset: int,
    starts: Seq<usize>,
    places: Seq<int>,
    size: nat,
    len: nat,
)
    ensures
        begin + offset >= 0 ==> shifted(begin, offset) == begin + offset,
        begin + offset < 0 ==> shifted(begin, offset) == 0,
        are_places(starts, places) ==> starts.len() == places.len() && forall|k: int|
            0 <= k < places.len() ==> starts[k] as int == #[trigger] places[k],
        are_within(starts, size, len) ==> forall|k: int|
            0 <= k < starts.len() ==> #[trigger] starts[k] + size <= len,
{
}

/// A search looks at every offset from half a symbol before the place to half a
/// symbol behind it, in order, and then is complete.
pub proof fn law_search_offsets(search: AlignSearch)
    ensures
        search.half() == search.sym_len() / 2,
        search.offset() == search.offered().len() - search.sym_len() / 2,
        search.complete() <==> search.offset() == search.sym_len() / 2 + 1,
{
}

/// The best alignment is at the greatest confidence that is a number, at the first
/// one of equals; and there is none exactly where no confidence is a number.
pub proof fn law_best_alignment_is_best(
    confidences: Seq<Option<u32>>,
    half: nat,
    best: Alignment,
    i: int,
    new: u32,
)
    requires
        is_best_alignment(confidences, half, best),
        0 <= i < confidences.len(),
        confidences[i] == Some(new),
        new <= 0x7f80_0000,
    ensures
        best.confidence matches Some(greatest) && greatest <= 0x7f80_0000,
        0 <= best.offset + half < confidences.len(),
        confidences[best.offset + half] == best.confidence,
        new <= best.confidence->0,
        i < best.offset + half ==> new < best.confidence->0,
{
    assert(counts(confidences[i]));
    if best.confidence is Some {
        assert(is_best(confidences, best.offset + half));
    }
}

/// Without any confidence that is a number there is no best alignment, and no
/// offset.
pub proof fn law_no_alignment(confidences: Seq<Option<u32>>, half: nat, best: Alignment)
    requires
        is_best_alignment(confidences, half, best),
        forall|i: int|
            0 <= i < confidences.len() ==> (#[trigger] confidences[i] is None || confidences[i]->0
                > 0x7f80_0000),
    ensures
        best.confidence is None,
        best.offset == 0,
{
    if best.confidence is Some {
        assert(counts(confidences[best.offset + half]));
    }
}

/// There always is a best alignment, whatever the confidences.
pub proof fn law_some_alignment(confidences: Seq<Option<u32>>, i: int)
    requires
        0 <= i < confidences.len(),
        confidences[i] is Some,
        confidences[i]->0 <= 0x7f80_0000,
    ensures
        exists|at: int| #[trigger] is_best(confidences, at),
    decreases confidences.len(),
{
    let fewer = confidences.drop_last();
    let last = confidences.len() - 1;
    if exists|k: int| 0 <= k < fewer.len() && counts(#[trigger] fewer[k]) {
        let k = choose|k: int| 0 <= k < fewer.len() && counts(#[trigger] fewer[k]);
        law_some_alignment(fewer, k);
        let at = choose|at: int| #[trigger] is_best(fewer, at);
        assert forall|n: int| 0 <= n < fewer.len() implies #[trigger] confidences[n] == fewer[n] by {
        }
        if counts(confidences[last]) && confidences[last]->0 > confidences[at]->0 {
            assert(is_best(confidences, last));
        } else {
            assert(is_best(confidences, at));
        }
    } else {
        assert forall|n: int| 0 <= n < last implies !counts(#[trigger] confidences[n]) by {
            assert(fewer[n] == confidences[n]);
        }
        assert(i == last);
        assert(is_best(confidences, last));
    }
}

/// The tone that is read has an energy, no other tone has more, and none below it
/// has as much; without any energy it is the lowest tone. An energy that is no
/// number counts for nothing.
pub proof fn law_strongest_tone_has_most(energies: Seq<u32>, tone: int, i: int)
    requires
        is_strongest(energies, tone),
        0 <= i < energies.len(),
    ensures
        0 < energies[i] <= 0x7f80_0000 ==> {
            &&& 0 <= tone < energies.len()
            &&& energies[tone] <= 0x7f80_0000
            &&& energies[i] <= energies[tone]
            &&& i < tone ==> energies[i] < energies[tone]
        },
        (forall|k: int|
            0 <= k < energies.len() ==> (#[trigger] energies[k] == 0 || energies[k] > 0x7f80_0000))
            ==> tone == 0,
{
    if 0 < energies[i] <= 0x7f80_0000 {
        assert(level(energies[i]) > 0);
        assert(level(energies[i]) <= level(energies[tone]));
    }
}

} // verus!
