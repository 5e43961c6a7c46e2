//! Frames: how a payload becomes a sequence of symbols, and back.
//!
//! A frame is planned as a sequence of [`Segment`]s, each one symbol long. The
//! oscillator renders the segments; [`assemble_frame`] joins what it rendered.
use crate::modes::{default_mfsk_spec, preset_table, DpskParams, MfskParams, ModeConfig};
use vstd::arithmetic::power2::{
    lemma_pow2_pos, lemma_pow2_strictly_increases, lemma_pow2_unfold, pow2,
};
use vstd::bits::lemma_usize_shr_is_div;
use vstd::layout::unsigned_int_max_values;
use vstd::prelude::*;

verus! {

/// One symbol of a frame.
#[derive(Clone, Copy, Debug, PartialEq, Eq, Structural)]
pub enum Segment {
    /// The preamble tone, from phase zero.
    Preamble,
    /// The tone with this index, counted from the lowest; its phase goes on
    /// where the payload symbol before ended, and starts at zero.
    Tone(usize),
    /// The carrier from phase zero, or from half a turn where the flag is set.
    Phase(bool),
    /// Silence.
    Silence,
}

/// The tone of a preamble, which is `steps` half spacings below `center`.
#[derive(Clone, Copy, Debug, PartialEq, Eq, Structural)]
pub struct PreambleTone {
    /// The frequency that the steps are counted from.
    pub center: u32,
    /// Twice the size of a step.
    pub spacing: u32,
    /// How many steps below.
    pub steps: usize,
    /// How long a symbol lasts, in milliseconds.
    pub symbol_len_ms: u32,
}

// ---------------------------------------------------------------------------
// Payload bits
// ---------------------------------------------------------------------------

/// Whether a character of a payload stands for a bit.
pub open spec fn is_bit(c: char) -> bool {
    c == '0' || c == '1'
}

/// The bits of a payload: its characters `0` and `1` in order, all others left
/// out.
pub open spec fn payload_bits_spec(payload: Seq<char>) -> Seq<bool> {
    payload.filter(|c: char| is_bit(c)).map_values(|c: char| c == '1')
}

/// The bits of a payload.
pub fn payload_bits(payload: &str) -> (bits: Vec<bool>)
    ensures
        bits@ == payload_bits_spec(payload@),
{
    let mut bits: Vec<bool> = Vec::new();
    proof {
        reveal(Seq::filter);
        assert(payload@.take(0) =~= Seq::<char>::empty());
        assert(payload_bits_spec(payload@.take(0)) =~= Seq::<bool>::empty());
    }
    for c in it: payload.chars()
        invariant
            it.seq() == payload@,
            bits@ == payload_bits_spec(payload@.take(it.index() as int)),
    {
        proof {
            reveal(Seq::filter);
            let i = it.index() as int;
            assert(payload@.take(i + 1).drop_last() =~= payload@.take(i));
            assert(payload@.take(i + 1).last() == c);
            let kept = payload@.take(i).filter(|c: char| is_bit(c));
            if is_bit(c) {
                assert(kept.push(c).map_values(|c: char| c == '1') =~= kept.map_values(
                    |c: char| c == '1',
                ).push(c == '1'));
            }
        }
        if c == '0' || c == '1' {
            bits.push(c == '1');
        }
    }
    assert(payload@.take(payload@.len() as int) =~= payload@);
    bits
}

// ---------------------------------------------------------------------------
// Multiple frequency shift keying
// ---------------------------------------------------------------------------

/// The bit at place `i`, as a number; zero past the end.
pub open spec fn bit_at(bits: Seq<bool>, i: int) -> nat {
    if 0 <= i < bits.len() && bits[i] {
        1
    } else {
        0
    }
}

/// The number that `width` bits from place `start` on spell, the first bit
/// being the most significant one.
pub open spec fn symbol_value(bits: Seq<bool>, start: int, width: nat) -> nat
    decreases width,
{
    if width == 0 {
        0
    } else {
        2 * symbol_value(bits, start, (width - 1) as nat) + bit_at(bits, start + width - 1)
    }
}

/// How many symbols of `width` bits it takes to send `count` bits.
pub open spec fn symbol_count(count: nat, width: nat) -> nat {
    if width == 0 {
        0
    } else {
        ((count + width - 1) / width as int) as nat
    }
}

/// The index of the tone that sends symbol `k`.
pub open spec fn tone_index(bits: Seq<bool>, m: usize, width: nat, k: int) -> usize {
    (symbol_value(bits, k * width, width) % m as nat) as usize
}

/// The preamble: as many segments as it has repeats.
pub open spec fn preamble_plan(repeats: u32) -> Seq<Segment> {
    Seq::new(repeats as nat, |i: int| Segment::Preamble)
}

/// A frame with frequency shift keying: the preamble, one tone for each group of
/// `width` bits, one symbol of silence.
pub open spec fn mfsk_plan(params: MfskParams, bits: Seq<bool>, width: nat) -> Seq<Segment> {
    preamble_plan(params.preamble_repeats) + Seq::new(
        symbol_count(bits.len(), width),
        |k: int| Segment::Tone(tone_index(bits, params.m, width, k)),
    ) + seq![Segment::Silence]
}

/// A symbol of `width` bits is less than two to the power of `width`.
pub proof fn lemma_symbol_value_bound(bits: Seq<bool>, start: int, width: nat)
    ensures
        symbol_value(bits, start, width) < pow2(width),
    decreases width,
{
    if width == 0 {
        lemma_pow2_pos(0);
    } else {
        lemma_symbol_value_bound(bits, start, (width - 1) as nat);
        lemma_pow2_unfold(width);
    }
}

/// A symbol fits a machine word as long as its width does.
proof fn lemma_symbol_fits(bits: Seq<bool>, start: int, width: nat)
    requires
        width <= usize::BITS,
    ensures
        symbol_value(bits, start, width) <= usize::MAX,
{
    unsigned_int_max_values();
    lemma_symbol_value_bound(bits, start, width);
    if width < usize::BITS {
        lemma_pow2_strictly_increases(width, usize::BITS as nat);
    }
}

/// The number that `width` bits from place `start` on spell.
fn read_symbol(bits: &Vec<bool>, start: usize, width: usize) -> (value: usize)
    requires
        start < bits@.len(),
        width <= usize::BITS,
    ensures
        value == symbol_value(bits@, start as int, width as nat),
{
    let mut value: usize = 0;
    let mut b: usize = 0;
    while b < width
        invariant
            b <= width,
            start < bits@.len(),
            width <= usize::BITS,
            value == symbol_value(bits@, start as int, b as nat),
        decreases width - b,
    {
        proof {
            lemma_symbol_fits(bits@, start as int, (b + 1) as nat);
        }
        let bit: usize = if b < bits.len() - start && bits[start + b] {
            1
        } else {
            0
        };
        value = value * 2 + bit;
        b += 1;
    }
    value
}

/// The segments of a preamble.
fn preamble(repeats: u32) -> (plan: Vec<Segment>)
    ensures
        plan@ == preamble_plan(repeats),
{
    let mut plan: Vec<Segment> = Vec::new();
    let mut i: u32 = 0;
    while i < repeats
        invariant
            i <= repeats,
            plan@ == preamble_plan(i),
        decreases repeats - i,
    {
        plan.push(Segment::Preamble);
        i += 1;
        assert(plan@ =~= preamble_plan(i));
    }
    plan
}

/// Plans a frame with frequency shift keying, `bits_per_symbol` being the
/// nearest whole number to the binary logarithm of the number of tones.
///
/// With no bit in a symbol a payload would never end, so then it has to be
/// empty.
pub fn generate_mfsk_frame(
    params: &MfskParams,
    payload: &str,
    bits_per_symbol: usize,
) -> (plan: Vec<Segment>)
    requires
        params.m >= 1,
        bits_per_symbol <= usize::BITS,
        bits_per_symbol >= 1 || payload_bits_spec(payload@).len() == 0,
    ensures
        plan@ == mfsk_plan(*params, payload_bits_spec(payload@), bits_per_symbol as nat),
{
    let bits = payload_bits(payload);
    let ghost width = bits_per_symbol as nat;
    let mut plan = preamble(params.preamble_repeats);
    let ghost tones = |k: int| Segment::Tone(tone_index(bits@, params.m, width, k));
    let ghost mut done: nat = 0;
    let mut i: usize = 0;
    assert(plan@ =~= preamble_plan(params.preamble_repeats) + Seq::new(0, tones));
    while i < bits.len()
        invariant
            params.m >= 1,
            i <= bits@.len(),
            width == bits_per_symbol,
            bits_per_symbol <= usize::BITS,
            bits_per_symbol >= 1 || bits@.len() == 0,
            tones == (|k: int| Segment::Tone(tone_index(bits@, params.m, width, k))),
            i < bits@.len() ==> i == done * width,
            i == bits@.len() && done > 0 ==> (done - 1) * width < i <= done * width,
            i == bits@.len() && done == 0 ==> i == 0,
            plan@ == preamble_plan(params.preamble_repeats) + Seq::new(done, tones),
        decreases bits.len() - i,
    {
        let value: usize = read_symbol(&bits, i, bits_per_symbol);
        let index: usize = value % params.m;
        plan.push(Segment::Tone(index));
        proof {
            assert(tones(done as int) == Segment::Tone(index));
            assert(plan@ =~= preamble_plan(params.preamble_repeats) + Seq::new(done + 1, tones));
            assert((done + 1) * width == done * width + width) by (nonlinear_arith);
            done = done + 1;
        }
        if bits.len() - i <= bits_per_symbol {
            i = bits.len();
        } else {
            i += bits_per_symbol;
        }
    }
    proof {
        lemma_symbol_count(bits@.len(), width, done);
    }
    plan.push(Segment::Silence);
    assert(plan@ =~= mfsk_plan(*params, bits@, width));
    plan
}

/// The number of symbols is the one whose bits just cover all there are.
proof fn lemma_symbol_count(count: nat, width: nat, symbols: nat)
    requires
        count == 0 ==> symbols == 0,
        count > 0 ==> width > 0 && symbols > 0 && (symbols - 1) * width < count <= symbols * width,
    ensures
        symbols == symbol_count(count, width),
{
    if count == 0 {
        if width > 0 {
            assert((width - 1) / width as int == 0) by (nonlinear_arith)
                requires
                    width > 0,
            ;
        }
    } else {
        assert((count + width - 1) / width as int == symbols) by (nonlinear_arith)
            requires
                width > 0,
                (symbols - 1) * width < count <= symbols * width,
        ;
    }
}

/// Bit `b` of a symbol, counted from the least significant one.
pub open spec fn symbol_bit(symbol: nat, b: nat) -> bool {
    (symbol / pow2(b)) % 2 == 1
}

/// The bits that a sequence of received symbols stands for, `width` of each, the
/// most significant one first.
pub open spec fn decoded_bits(symbols: Seq<usize>, width: nat) -> Seq<bool> {
    Seq::new(
        symbols.len() * width,
        |i: int|
            symbol_bit(
                symbols[i / (width as int)] as nat,
                (width - 1 - i % (width as int)) as nat,
            ),
    )
}

/// Bits as text, `1` for a set one and `0` for the others.
pub open spec fn bit_text(bits: Seq<bool>) -> Seq<char> {
    bits.map_values(
        |bit: bool|
            if bit {
                '1'
            } else {
                '0'
            },
    )
}

/// Tests bit `b` of a symbol.
fn test_bit(symbol: usize, b: usize) -> (set: bool)
    requires
        b < usize::BITS,
    ensures
        set == symbol_bit(symbol as nat, b as nat),
{
    proof {
        lemma_usize_shr_is_div(symbol, b);
    }
    let shifted: usize = symbol >> b;
    assert(shifted & 1 == shifted % 2) by (bit_vector);
    (shifted & 1) != 0
}

/// Adds the character of a bit.
fn push_bit(text: &mut String, bit: bool)
    ensures
        final(text)@ == old(text)@.push(
            if bit {
                '1'
            } else {
                '0'
            },
        ),
{
    proof {
        reveal_strlit("1");
        reveal_strlit("0");
        assert("1"@ =~= seq!['1']);
        assert("0"@ =~= seq!['0']);
    }
    if bit {
        text.append("1");
        assert(text@ =~= old(text)@.push('1'));
    } else {
        text.append("0");
        assert(text@ =~= old(text)@.push('0'));
    }
}

/// The text of the bits that received symbols stand for.
pub fn symbols_to_bits(symbols: &Vec<usize>, bits_per_symbol: usize) -> (text: String)
    requires
        bits_per_symbol <= usize::BITS,
    ensures
        text@ == bit_text(decoded_bits(symbols@, bits_per_symbol as nat)),
{
    let ghost width = bits_per_symbol as nat;
    let ghost all = bit_text(decoded_bits(symbols@, width));
    let mut text = String::new();
    let mut k: usize = 0;
    assert(text@ =~= all.take(0));
    while k < symbols.len()
        invariant
            k <= symbols@.len(),
            width == bits_per_symbol,
            bits_per_symbol <= usize::BITS,
            all == bit_text(decoded_bits(symbols@, width)),
            text@ == all.take(k * width),
        decreases symbols.len() - k,
    {
        let mut b: usize = bits_per_symbol;
        proof {
            assert((k + 1) * width == k * width + width) by (nonlinear_arith);
            assert((k + 1) * width <= symbols@.len() * width) by (nonlinear_arith)
                requires
                    k + 1 <= symbols@.len(),
            ;
        }
        while b > 0
            invariant
                b <= bits_per_symbol,
                k < symbols@.len(),
                width == bits_per_symbol,
                bits_per_symbol <= usize::BITS,
                all == bit_text(decoded_bits(symbols@, width)),
                all.len() == symbols@.len() * width,
                0 <= k * width,
                k * width + width <= symbols@.len() * width,
                text@ == all.take(k * width + width - b),
            decreases b,
        {
            b -= 1;
            let bit = test_bit(symbols[k], b);
            proof {
                let i = k * width + width - 1 - b;
                assert(i / (width as int) == k && i % (width as int) == width - 1 - b)
                    by (nonlinear_arith)
                    requires
                        i == k * width + (width - 1 - b),
                        0 <= width - 1 - b < width,
                ;
                assert(all[i] == if bit {
                    '1'
                } else {
                    '0'
                });
                assert(all.take(i + 1) =~= all.take(i).push(all[i]));
            }
            push_bit(&mut text, bit);
        }
        k += 1;
    }
    assert(all.take(all.len() as int) =~= all);
    text
}

/// Each bit of a symbol is the payload bit that it was made of.
proof fn lemma_symbol_bits(bits: Seq<bool>, start: int, width: nat, b: nat)
    requires
        b < width,
    ensures
        symbol_bit(symbol_value(bits, start, width), b) == (bit_at(bits, start + width - 1 - b)
            == 1),
    decreases width,
{
    let value = symbol_value(bits, start, width);
    let upper = symbol_value(bits, start, (width - 1) as nat);
    assert(value / 2 == upper);
    if b == 0 {
        vstd::arithmetic::power2::lemma2_to64();
        assert(value / pow2(0) == value);
    } else {
        let lower = (b - 1) as nat;
        lemma_symbol_bits(bits, start, (width - 1) as nat, lower);
        lemma_pow2_unfold(b);
        lemma_pow2_pos(lower);
        assert(value as int / (2 * pow2(lower) as int) == (value as int / 2) / (pow2(lower) as int))
            by {
            vstd::arithmetic::div_mod::lemma_div_denominator(
                value as int,
                2,
                pow2(lower) as int,
            );
        }
        assert(value / pow2(b) == upper / pow2(lower));
    }
}

/// Whoever receives the tones of a frame decodes the payload's bits again, with
/// zeros behind them up to a whole number of symbols, provided that there is a
/// tone for every symbol.
pub proof fn law_mfsk_round_trip(bits: Seq<bool>, m: usize, width: nat, symbols: Seq<usize>)
    requires
        width >= 1,
        pow2(width) <= m,
        symbols == Seq::new(
            symbol_count(bits.len(), width),
            |k: int| tone_index(bits, m, width, k),
        ),
    ensures
        decoded_bits(symbols, width).len() == symbol_count(bits.len(), width) * width,
        bits.len() <= decoded_bits(symbols, width).len() < bits.len() + width,
        decoded_bits(symbols, width).take(bits.len() as int) == bits,
        forall|i: int|
            bits.len() <= i < decoded_bits(symbols, width).len() ==> !(#[trigger] decoded_bits(
                symbols,
                width,
            )[i]),
{
    let decoded = decoded_bits(symbols, width);
    let count = symbol_count(bits.len(), width);
    assert(count * width >= bits.len() && count * width < bits.len() + width) by (nonlinear_arith)
        requires
            width >= 1,
            count == (bits.len() + width - 1) / width as int,
    ;
    assert forall|i: int| 0 <= i < decoded.len() implies #[trigger] decoded[i] == (bit_at(bits, i)
        == 1) by {
        let w = width as int;
        let k = i / w;
        let b = (width - 1 - i % w) as nat;
        assert(0 <= k < count && 0 <= i % w < w && i == k * w + i % w) by (nonlinear_arith)
            requires
                w >= 1,
                0 <= i < count * w,
                k == i / w,
        ;
        lemma_symbol_value_bound(bits, k * w, width);
        let value = symbol_value(bits, k * w, width);
        assert(value % m as nat == value) by (nonlinear_arith)
            requires
                value < m as nat,
        ;
        assert(symbols[k] == value);
        lemma_symbol_bits(bits, k * w, width, b);
    }
    assert(decoded.take(bits.len() as int) =~= bits);
}

/// Written out again, the bits of a payload are the payload without the
/// characters that stand for no bit.
pub proof fn law_bits_spell_payload(payload: Seq<char>)
    ensures
        bit_text(payload_bits_spec(payload)) == payload.filter(|c: char| is_bit(c)),
{
    let kept = payload.filter(|c: char| is_bit(c));
    assert forall|i: int| 0 <= i < kept.len() implies #[trigger] bit_text(
        payload_bits_spec(payload),
    )[i] == kept[i] by {
        payload.lemma_filter_pred(|c: char| is_bit(c), i);
        assert(is_bit(kept[i]));
    }
    assert(bit_text(payload_bits_spec(payload)) =~= kept);
}

/// The number of tones of every preset, and of the default, is a power of two, so
/// that there is a tone for every symbol and no tone to spare.
pub proof fn law_presets_carry_whole_bits()
    ensures
        forall|i: int|
            0 <= i < preset_table().len() ==> exists|width: nat|
                1 <= width <= 6 && pow2(width) == (#[trigger] preset_table()[i]).1.m,
        default_mfsk_spec().m == pow2(2),
{
    vstd::arithmetic::power2::lemma2_to64();
    let t = preset_table();
    assert forall|i: int| 0 <= i < t.len() implies exists|width: nat|
        1 <= width <= 6 && pow2(width) == (#[trigger] t[i]).1.m by {
        assert(t[0].1.m == pow2(5) && t[1].1.m == pow2(4) && t[2].1.m == pow2(2) && t[3].1.m
            == pow2(2) && t[4].1.m == pow2(3) && t[5].1.m == pow2(6));
    }
}

// ---------------------------------------------------------------------------
// Differential phase shift keying
// ---------------------------------------------------------------------------

/// Whether symbol `k` is sent with the phase turned over: its bit says whether
/// that changes against the symbol before.
pub open spec fn flip_at(bits: Seq<bool>, k: int) -> bool
    decreases k + 1,
{
    if k < 0 {
        false
    } else {
        bits[k] != flip_at(bits, k - 1)
    }
}

/// A frame with phase shift keying: the preamble, one symbol for each bit, one
/// symbol of silence.
pub open spec fn dpsk_plan(params: DpskParams, bits: Seq<bool>) -> Seq<Segment> {
    preamble_plan(params.preamble_repeats) + Seq::new(
        bits.len(),
        |k: int| Segment::Phase(flip_at(bits, k)),
    ) + seq![Segment::Silence]
}

/// Plans a frame with phase shift keying.
pub fn generate_dpsk_frame(params: &DpskParams, payload: &str) -> (plan: Vec<Segment>)
    ensures
        plan@ == dpsk_plan(*params, payload_bits_spec(payload@)),
{
    let bits = payload_bits(payload);
    let mut plan = preamble(params.preamble_repeats);
    let ghost phases = |k: int| Segment::Phase(flip_at(bits@, k));
    let mut flip = false;
    let mut k: usize = 0;
    assert(plan@ =~= preamble_plan(params.preamble_repeats) + Seq::new(0, phases));
    while k < bits.len()
        invariant
            k <= bits@.len(),
            flip == flip_at(bits@, k - 1),
            phases == (|k: int| Segment::Phase(flip_at(bits@, k))),
            plan@ == preamble_plan(params.preamble_repeats) + Seq::new(k as nat, phases),
        decreases bits.len() - k,
    {
        flip = bits[k] != flip;
        plan.push(Segment::Phase(flip));
        assert(phases(k as int) == Segment::Phase(flip));
        k += 1;
        assert(plan@ =~= preamble_plan(params.preamble_repeats) + Seq::new(k as nat, phases));
    }
    plan.push(Segment::Silence);
    assert(plan@ =~= dpsk_plan(*params, bits@));
    plan
}

/// Whoever compares the phase of each symbol with that of the symbol before
/// reads the payload's bits again.
pub proof fn law_dpsk_round_trip(bits: Seq<bool>, phases: Seq<bool>)
    requires
        phases == Seq::new(bits.len(), |k: int| flip_at(bits, k)),
    ensures
        Seq::new(phases.len(), |k: int| phases[k] != (k > 0 && phases[k - 1])) == bits,
{
    let read = Seq::new(phases.len(), |k: int| phases[k] != (k > 0 && phases[k - 1]));
    assert(!flip_at(bits, -1));
    assert forall|k: int| 0 <= k < bits.len() implies #[trigger] read[k] == bits[k] by {
        assert(flip_at(bits, k) == (bits[k] != flip_at(bits, k - 1)));
    }
    assert(read =~= bits);
}

// ---------------------------------------------------------------------------
// Frames of either mode
// ---------------------------------------------------------------------------

/// The plan of a frame.
pub open spec fn frame_plan(mode: ModeConfig, bits: Seq<bool>, width: nat) -> Seq<Segment> {
    match mode {
        ModeConfig::Mfsk(params) => mfsk_plan(params, bits, width),
        ModeConfig::Dpsk(params) => dpsk_plan(params, bits),
    }
}

/// Whether a frame can be planned: with frequency shift keying there has to be a
/// tone, and a payload needs symbols that carry bits.
pub open spec fn can_plan(mode: ModeConfig, bits: Seq<bool>, width: nat) -> bool {
    mode matches ModeConfig::Mfsk(params) ==> {
        &&& params.m >= 1
        &&& width <= usize::BITS
        &&& width >= 1 || bits.len() == 0
    }
}

/// Whether a frame can be planned.
pub fn plannable(mode: &ModeConfig, payload: &str, bits_per_symbol: usize) -> (can: bool)
    ensures
        can == can_plan(*mode, payload_bits_spec(payload@), bits_per_symbol as nat),
{
    match mode {
        ModeConfig::Mfsk(params) => params.m >= 1 && bits_per_symbol <= usize::BITS as usize && (
        bits_per_symbol >= 1 || payload_bits(payload).len() == 0),
        ModeConfig::Dpsk(_) => true,
    }
}

/// Plans a frame. The number of bits in a symbol matters to frequency shift
/// keying alone.
pub fn generate_frame(
    mode: &ModeConfig,
    payload: &str,
    bits_per_symbol: usize,
) -> (plan: Vec<Segment>)
    requires
        can_plan(*mode, payload_bits_spec(payload@), bits_per_symbol as nat),
    ensures
        plan@ == frame_plan(*mode, payload_bits_spec(payload@), bits_per_symbol as nat),
{
    match mode {
        ModeConfig::Mfsk(params) => generate_mfsk_frame(params, payload, bits_per_symbol),
        ModeConfig::Dpsk(params) => generate_dpsk_frame(params, payload),
    }
}

/// The tone that the preamble of a mode consists of, and that a receiver looks
/// for: the lowest tone, or the carrier.
pub fn preamble_template_for(mode: &ModeConfig) -> (tone: PreambleTone)
    requires
        mode matches ModeConfig::Mfsk(params) ==> params.m >= 1,
    ensures
        mode matches ModeConfig::Mfsk(params) ==> tone == (PreambleTone {
            center: params.center,
            spacing: params.spacing,
            steps: (params.m - 1) as usize,
            symbol_len_ms: params.symbol_len_ms,
        }),
        mode matches ModeConfig::Dpsk(params) ==> tone == (PreambleTone {
            center: params.center,
            spacing: 0,
            steps: 0,
            symbol_len_ms: params.symbol_len_ms,
        }),
{
    match mode {
        ModeConfig::Mfsk(params) => PreambleTone {
            center: params.center,
            spacing: params.spacing,
            steps: params.m - 1,
            symbol_len_ms: params.symbol_len_ms,
        },
        ModeConfig::Dpsk(params) => PreambleTone {
            center: params.center,
            spacing: 0,
            steps: 0,
            symbol_len_ms: params.symbol_len_ms,
        },
    }
}

/// Whether a segment carries payload.
pub open spec fn carries_payload(segment: Segment) -> bool {
    segment is Tone || segment is Phase
}

/// How many segments of a plan carry payload.
pub open spec fn payload_segments(plan: Seq<Segment>) -> nat {
    plan.filter(|segment: Segment| carries_payload(segment)).len()
}

/// The samples of a rendered plan. The payload segments are rendered to
/// `payload`, in order; silence is `silence` samples of zero.
pub open spec fn rendered(
    plan: Seq<Segment>,
    preamble: Seq<u32>,
    payload: Seq<Vec<u32>>,
    silence: nat,
) -> Seq<u32>
    decreases plan.len(),
{
    if plan.len() == 0 {
        Seq::empty()
    } else {
        let before = plan.drop_last();
        rendered(before, preamble, payload, silence) + match plan.last() {
            Segment::Preamble => preamble,
            Segment::Silence => Seq::new(silence, |i: int| 0u32),
            _ => payload[payload_segments(before) as int]@,
        }
    }
}

/// Adds samples at the end.
fn push_all(frame: &mut Vec<u32>, samples: &Vec<u32>)
    ensures
        final(frame)@ == old(frame)@ + samples@,
{
    let mut i: usize = 0;
    assert(samples@.take(0) =~= Seq::<u32>::empty());
    while i < samples.len()
        invariant
            i <= samples@.len(),
            frame@ == old(frame)@ + samples@.take(i as int),
        decreases samples.len() - i,
    {
        frame.push(samples[i]);
        assert(samples@.take(i + 1) =~= samples@.take(i as int).push(samples@[i as int]));
        i += 1;
    }
    assert(samples@.take(samples@.len() as int) =~= samples@);
}

/// Joins the rendered segments of a plan to the samples of the frame.
pub fn assemble_frame(
    plan: &Vec<Segment>,
    preamble: &Vec<u32>,
    payload: &Vec<Vec<u32>>,
    silence: usize,
) -> (frame: Vec<u32>)
    requires
        payload@.len() == payload_segments(plan@),
    ensures
        frame@ == rendered(plan@, preamble@, payload@, silence as nat),
{
    let mut quiet: Vec<u32> = Vec::new();
    quiet.resize(silence, 0);
    assert(quiet@ =~= Seq::new(silence as nat, |i: int| 0u32));
    let mut frame: Vec<u32> = Vec::new();
    let mut used: usize = 0;
    let mut i: usize = 0;
    proof {
        reveal(Seq::filter);
        assert(plan@.take(0) =~= Seq::<Segment>::empty());
    }
    while i < plan.len()
        invariant
            i <= plan@.len(),
            payload@.len() == payload_segments(plan@),
            used == payload_segments(plan@.take(i as int)),
            quiet@ == Seq::new(silence as nat, |i: int| 0u32),
            frame@ == rendered(plan@.take(i as int), preamble@, payload@, silence as nat),
        decreases plan.len() - i,
    {
        proof {
            reveal(Seq::filter);
            let front = plan@.take(i + 1);
            assert(front.drop_last() =~= plan@.take(i as int));
            let pred = |segment: Segment| carries_payload(segment);
            assert(plan@ =~= front + plan@.skip(i + 1));
            Seq::filter_distributes_over_add(front, plan@.skip(i + 1), pred);
        }
        match plan[i] {
            Segment::Preamble => {
                push_all(&mut frame, preamble);
            },
            Segment::Silence => {
                push_all(&mut frame, &quiet);
            },
            _ => {
                push_all(&mut frame, &payload[used]);
                used += 1;
            },
        }
        i += 1;
    }
    assert(plan@.take(plan@.len() as int) =~= plan@);
    frame
}

/// Where each segment is rendered to the same number of samples, the frame is
/// as many times as long as its plan.
pub proof fn law_frame_length(
    plan: Seq<Segment>,
    preamble: Seq<u32>,
    payload: Seq<Vec<u32>>,
    per_symbol: nat,
)
    requires
        preamble.len() == per_symbol,
        payload.len() >= payload_segments(plan),
        forall|k: int| 0 <= k < payload.len() ==> (#[trigger] payload[k])@.len() == per_symbol,
    ensures
        rendered(plan, preamble, payload, per_symbol).len() == plan.len() * per_symbol,
    decreases plan.len(),
{
    reveal(Seq::filter);
    if plan.len() > 0 {
        law_frame_length(plan.drop_last(), preamble, payload, per_symbol);
        assert(plan.len() * per_symbol == (plan.len() - 1) * per_symbol + per_symbol)
            by (nonlinear_arith)
            requires
                plan.len() > 0,
        ;
    }
}

/// A planned frame has as many segments as its preamble has repeats, one for
/// each symbol of the payload, and one of silence at the end.
pub proof fn law_plan_length(mode: ModeConfig, bits: Seq<bool>, width: nat)
    ensures
        frame_plan(mode, bits, width).len() == match mode {
            ModeConfig::Mfsk(params) => params.preamble_repeats + symbol_count(bits.len(), width)
                + 1,
            ModeConfig::Dpsk(params) => params.preamble_repeats + bits.len() + 1,
        },
        frame_plan(mode, bits, width).last() == Segment::Silence,
{
}

/// A block of samples, so many times over.
pub open spec fn repeated(block: Seq<u32>, times: nat) -> Seq<u32>
    decreases times,
{
    if times == 0 {
        Seq::empty()
    } else {
        repeated(block, (times - 1) as nat) + block
    }
}

/// The first `count` blocks of samples, one behind the other.
pub open spec fn in_a_row(blocks: Seq<Vec<u32>>, count: nat) -> Seq<u32>
    decreases count,
{
    if count == 0 {
        Seq::empty()
    } else {
        in_a_row(blocks, (count - 1) as nat) + blocks[count - 1]@
    }
}

/// A block so many times over is so many times as long.
pub proof fn lemma_repeated_len(block: Seq<u32>, times: nat)
    ensures
        repeated(block, times).len() == times * block.len(),
    decreases times,
{
    if times > 0 {
        lemma_repeated_len(block, (times - 1) as nat);
        assert(times * block.len() == (times - 1) * block.len() + block.len()) by (nonlinear_arith);
    } else {
        assert(times * block.len() == 0) by (nonlinear_arith)
            requires
                times == 0,
        ;
    }
}

/// Blocks of the same size in a row: each is found where it was put.
pub proof fn lemma_in_a_row(blocks: Seq<Vec<u32>>, count: nat, size: nat, k: int)
    requires
        forall|i: int| 0 <= i < count ==> (#[trigger] blocks[i])@.len() == size,
    ensures
        in_a_row(blocks, count).len() == count * size,
        0 <= k < count ==> {
            &&& k * size + size <= count * size
            &&& in_a_row(blocks, count).subrange(k * size, k * size + size) == blocks[k]@
        },
    decreases count,
{
    if count > 0 {
        let fewer = (count - 1) as nat;
        lemma_in_a_row(blocks, fewer, size, k);
        assert(count * size == fewer * size + size) by (nonlinear_arith)
            requires
                count == fewer + 1,
        ;
        assert(blocks[count - 1]@.len() == size);
        if 0 <= k < fewer {
            assert(0 <= k * size) by (nonlinear_arith)
                requires
                    k >= 0,
            ;
            assert(in_a_row(blocks, count).subrange(k * size, k * size + size) =~= in_a_row(
                blocks,
                fewer,
            ).subrange(k * size, k * size + size));
        } else if k == fewer {
            assert(in_a_row(blocks, count).subrange(k * size, k * size + size) =~= blocks[k]@);
        }
    } else {
        assert(count * size == 0) by (nonlinear_arith)
            requires
                count == 0,
        ;
    }
}

/// A preamble is rendered to its tone so many times over.
proof fn lemma_rendered_preamble(
    repeats: u32,
    preamble: Seq<u32>,
    payload: Seq<Vec<u32>>,
    silence: nat,
)
    ensures
        payload_segments(preamble_plan(repeats)) == 0,
        rendered(preamble_plan(repeats), preamble, payload, silence) == repeated(
            preamble,
            repeats as nat,
        ),
    decreases repeats,
{
    reveal(Seq::filter);
    if repeats > 0 {
        let fewer = (repeats - 1) as u32;
        lemma_rendered_preamble(fewer, preamble, payload, silence);
        assert(preamble_plan(repeats).drop_last() =~= preamble_plan(fewer));
    }
}

/// Payload segments behind a preamble are rendered to their blocks in a row.
proof fn lemma_rendered_payload(
    repeats: u32,
    middle: Seq<Segment>,
    preamble: Seq<u32>,
    payload: Seq<Vec<u32>>,
    silence: nat,
)
    requires
        forall|k: int| 0 <= k < middle.len() ==> carries_payload(#[trigger] middle[k]),
    ensures
        payload_segments(preamble_plan(repeats) + middle) == middle.len(),
        rendered(preamble_plan(repeats) + middle, preamble, payload, silence) == repeated(
            preamble,
            repeats as nat,
        ) + in_a_row(payload, middle.len()),
    decreases middle.len(),
{
    reveal(Seq::filter);
    let plan = preamble_plan(repeats) + middle;
    if middle.len() == 0 {
        lemma_rendered_preamble(repeats, preamble, payload, silence);
        assert(plan =~= preamble_plan(repeats));
        assert(repeated(preamble, repeats as nat) + in_a_row(payload, 0) =~= repeated(
            preamble,
            repeats as nat,
        ));
    } else {
        let fewer = middle.drop_last();
        lemma_rendered_payload(repeats, fewer, preamble, payload, silence);
        assert(plan.drop_last() =~= preamble_plan(repeats) + fewer);
        assert(carries_payload(middle[middle.len() - 1]));
        assert(rendered(plan, preamble, payload, silence) =~= repeated(preamble, repeats as nat)
            + in_a_row(payload, middle.len()));
    }
}

/// A frame is laid out as the preamble's tone so many times over, the symbols of
/// the payload in a row, and silence; and it takes one rendered block for each
/// symbol.
pub proof fn law_frame_layout(
    mode: ModeConfig,
    bits: Seq<bool>,
    width: nat,
    preamble: Seq<u32>,
    payload: Seq<Vec<u32>>,
    silence: nat,
)
    ensures
        ({
            let repeats = match mode {
                ModeConfig::Mfsk(params) => params.preamble_repeats,
                ModeConfig::Dpsk(params) => params.preamble_repeats,
            };
            let symbols = match mode {
                ModeConfig::Mfsk(_) => symbol_count(bits.len(), width),
                ModeConfig::Dpsk(_) => bits.len(),
            };
            &&& payload_segments(frame_plan(mode, bits, width)) == symbols
            &&& rendered(frame_plan(mode, bits, width), preamble, payload, silence) == repeated(
                preamble,
                repeats as nat,
            ) + in_a_row(payload, symbols) + Seq::new(silence, |i: int| 0u32)
        }),
{
    reveal(Seq::filter);
    let plan = frame_plan(mode, bits, width);
    match mode {
        ModeConfig::Mfsk(params) => {
            let middle = Seq::new(
                symbol_count(bits.len(), width),
                |k: int| Segment::Tone(tone_index(bits, params.m, width, k)),
            );
            assert(plan.drop_last() =~= preamble_plan(params.preamble_repeats) + middle);
            lemma_rendered_payload(params.preamble_repeats, middle, preamble, payload, silence);
        },
        ModeConfig::Dpsk(params) => {
            let middle = Seq::new(bits.len(), |k: int| Segment::Phase(flip_at(bits, k)));
            assert(plan.drop_last() =~= preamble_plan(params.preamble_repeats) + middle);
            lemma_rendered_payload(params.preamble_repeats, middle, preamble, payload, silence);
        },
    }
}

// ---------------------------------------------------------------------------
// What a plan is
// ---------------------------------------------------------------------------

/// One character at a time: a `1` adds a set bit to a payload, a `0` one that is
/// not set, and any other character nothing.
pub proof fn law_payload_character_by_character(payload: Seq<char>, c: char)
    ensures
        payload_bits_spec(Seq::empty()) == Seq::<bool>::empty(),
        c == '1' ==> payload_bits_spec(payload.push(c)) == payload_bits_spec(payload).push(true),
        c == '0' ==> payload_bits_spec(payload.push(c)) == payload_bits_spec(payload).push(false),
        c != '0' && c != '1' ==> payload_bits_spec(payload.push(c)) == payload_bits_spec(payload),
{
    reveal(Seq::filter);
    assert(payload.push(c).drop_last() =~= payload);
    let kept = payload.filter(|c: char| is_bit(c));
    assert(kept.push(c).map_values(|c: char| c == '1') =~= kept.map_values(
        |c: char| c == '1',
    ).push(c == '1'));
    assert(payload_bits_spec(Seq::empty()) =~= Seq::<bool>::empty());
}

/// The text of bits has a character for each bit: `1` where it is set, else `0`.
pub proof fn law_bit_text(bits: Seq<bool>)
    ensures
        bit_text(bits).len() == bits.len(),
        forall|i: int|
            0 <= i < bits.len() ==> #[trigger] bit_text(bits)[i] == (if bits[i] {
                '1'
            } else {
                '0'
            }),
{
}

/// Bit `b` of symbol `k`, counted from the most significant one, is decoded right
/// behind the bits before it.
pub proof fn law_symbols_decode_in_order(symbols: Seq<usize>, width: nat, k: int, b: int)
    requires
        0 <= k < symbols.len(),
        0 <= b < width,
    ensures
        decoded_bits(symbols, width).len() == symbols.len() * width,
        0 <= k * width + b < symbols.len() * width,
        decoded_bits(symbols, width)[k * width + b] <==> (symbols[k] as nat / pow2(
            (width - 1 - b) as nat,
        )) % 2 == 1,
{
    let w = width as int;
    let i = k * w + b;
    assert(i / w == k && i % w == b && 0 <= i < symbols.len() * w) by (nonlinear_arith)
        requires
            w > 0,
            0 <= b < w,
            0 <= k < symbols.len(),
            i == k * w + b,
    ;
}

/// A number is the one that bits spell where it has these bits, the most
/// significant one first.
proof fn lemma_value_of_bits(value: nat, bits: Seq<bool>, start: int, width: nat)
    requires
        start >= 0,
        value < pow2(width),
        forall|b: int|
            0 <= b < width ==> ((value / #[trigger] pow2((width - 1 - b) as nat)) % 2 == 1 <==> start
                + b < bits.len() && bits[start + b]),
    ensures
        value == symbol_value(bits, start, width),
    decreases width,
{
    vstd::arithmetic::power2::lemma2_to64();
    if width > 0 {
        let fewer = (width - 1) as nat;
        let half = value / 2;
        lemma_pow2_unfold(width);
        assert(half < pow2(fewer));
        assert forall|b: int| 0 <= b < fewer implies ((half / #[trigger] pow2(
            (fewer - 1 - b) as nat,
        )) % 2 == 1 <==> start + b < bits.len() && bits[start + b]) by {
            let p = (fewer - 1 - b) as nat;
            lemma_pow2_pos(p);
            lemma_pow2_unfold(p + 1);
            assert(p + 1 == (width - 1 - b) as nat);
            vstd::arithmetic::div_mod::lemma_div_denominator(value as int, 2, pow2(p) as int);
            assert(half / pow2(p) == value / pow2((width - 1 - b) as nat));
        }
        lemma_value_of_bits(half, bits, start, fewer);
        assert(pow2((width - 1 - fewer) as nat) == 1);
        assert(value / 1 == value);
        assert(value % 2 == bit_at(bits, start + fewer));
    }
}

/// What a frame with frequency shift keying is: the preamble so many times, a tone
/// for each group of `width` bits, as many groups as it takes, and one symbol of
/// silence. The tone of a group is the number whose binary digits are the bits of
/// the group, zeros where the payload has ended, counted round the tones.
pub proof fn law_mfsk_frame_is(params: MfskParams, bits: Seq<bool>, width: nat, k: int, value: nat)
    requires
        params.m >= 1,
        width >= 1,
    ensures
        ({
            let plan = frame_plan(ModeConfig::Mfsk(params), bits, width);
            let repeats = params.preamble_repeats as int;
            let count = plan.len() - repeats - 1;
            &&& plan == mfsk_plan(params, bits, width)
            &&& 0 <= count
            &&& (count - 1) * width < bits.len() <= count * width
            &&& forall|i: int| 0 <= i < repeats ==> #[trigger] plan[i] == Segment::Preamble
            &&& forall|i: int| repeats <= i < repeats + count ==> (#[trigger] plan[i]) is Tone
            &&& plan[plan.len() - 1] == Segment::Silence
            &&& 0 <= k < count && value < pow2(width) && (forall|b: int|
                0 <= b < width ==> ((value / #[trigger] pow2((width - 1 - b) as nat)) % 2 == 1
                    <==> k * width + b < bits.len() && bits[k * width + b])) ==> plan[repeats + k]
                == Segment::Tone((value % params.m as nat) as usize)
        }),
{
    let count = symbol_count(bits.len(), width) as int;
    let w = width as int;
    assert((count - 1) * w < bits.len() <= count * w) by (nonlinear_arith)
        requires
            w >= 1,
            count == (bits.len() + w - 1) / w,
    ;
    if 0 <= k < count && value < pow2(width) && (forall|b: int|
        0 <= b < width ==> ((value / #[trigger] pow2((width - 1 - b) as nat)) % 2 == 1 <==> k * width
            + b < bits.len() && bits[k * width + b])) {
        assert(k * width >= 0) by (nonlinear_arith)
            requires
                k >= 0,
        ;
        lemma_value_of_bits(value, bits, k * width, width);
    }
}

/// Read back from the plan of a frame itself, the tones are the payload: the binary
/// digits of their indices, in order, are its bits, and zeros behind them.
pub proof fn law_plan_reads_back(
    params: MfskParams,
    bits: Seq<bool>,
    width: nat,
    symbols: Seq<usize>,
    i: int,
)
    requires
        width >= 1,
        pow2(width) <= params.m,
        ({
            let plan = frame_plan(ModeConfig::Mfsk(params), bits, width);
            let repeats = params.preamble_repeats as int;
            &&& symbols.len() == plan.len() - repeats - 1
            &&& forall|k: int|
                0 <= k < symbols.len() ==> plan[repeats + k] == Segment::Tone(#[trigger] symbols[k])
        }),
        0 <= i < symbols.len() * width,
    ensures
        bits.len() <= symbols.len() * width,
        (symbols[i / width as int] as nat / pow2((width - 1 - i % width as int) as nat)) % 2 == 1
            <==> i < bits.len() && bits[i],
        decoded_bits(symbols, width)[i] <==> i < bits.len() && bits[i],
{
    let sent = Seq::new(
        symbol_count(bits.len(), width),
        |k: int| tone_index(bits, params.m, width, k),
    );
    let plan = frame_plan(ModeConfig::Mfsk(params), bits, width);
    let repeats = params.preamble_repeats as int;
    assert forall|k: int| 0 <= k < symbols.len() implies #[trigger] symbols[k] == sent[k] by {
        assert(plan[repeats + k] == Segment::Tone(symbols[k]));
    }
    assert(symbols =~= sent);
    law_mfsk_round_trip(bits, params.m, width, symbols);
    let decoded = decoded_bits(symbols, width);
    assert(decoded[i] == symbol_bit(
        symbols[i / (width as int)] as nat,
        (width - 1 - i % (width as int)) as nat,
    ));
    if i < bits.len() {
        assert(decoded.take(bits.len() as int)[i] == decoded[i]);
    }
}

/// What a frame with phase shift keying is: the preamble so many times, a symbol
/// for each bit, whose phase differs from that of the symbol before exactly where
/// the bit is set, and one symbol of silence. Before the first symbol the phase
/// counts as not turned over.
pub proof fn law_dpsk_frame_is(params: DpskParams, bits: Seq<bool>, width: nat)
    ensures
        ({
            let plan = frame_plan(ModeConfig::Dpsk(params), bits, width);
            let repeats = params.preamble_repeats as int;
            &&& plan == dpsk_plan(params, bits)
            &&& plan.len() == repeats + bits.len() + 1
            &&& forall|i: int| 0 <= i < repeats ==> #[trigger] plan[i] == Segment::Preamble
            &&& plan[plan.len() - 1] == Segment::Silence
            &&& bits.len() > 0 ==> plan[repeats] == Segment::Phase(bits[0])
            &&& forall|k: int|
                0 < k < bits.len() ==> {
                    ||| plan[repeats + k] == Segment::Phase(true) && plan[repeats + k - 1]
                        == Segment::Phase(!#[trigger] bits[k])
                    ||| plan[repeats + k] == Segment::Phase(false) && plan[repeats + k - 1]
                        == Segment::Phase(bits[k])
                }
        }),
{
    let plan = frame_plan(ModeConfig::Dpsk(params), bits, width);
    let repeats = params.preamble_repeats as int;
    if bits.len() > 0 {
        assert(!flip_at(bits, -1));
        assert(flip_at(bits, 0) == (bits[0] != flip_at(bits, -1)));
    }
    assert forall|k: int| 0 < k < bits.len() implies {
        ||| plan[repeats + k] == Segment::Phase(true) && plan[repeats + k - 1] == Segment::Phase(
            !#[trigger] bits[k],
        )
        ||| plan[repeats + k] == Segment::Phase(false) && plan[repeats + k - 1] == Segment::Phase(
            bits[k],
        )
    } by {
        assert(plan[repeats + k] == Segment::Phase(flip_at(bits, k)));
        assert(plan[repeats + k - 1] == Segment::Phase(flip_at(bits, k - 1)));
    }
}

/// With phase shift keying every frame can be planned. With frequency shift keying
/// it takes a tone, symbols that fit a machine word, and symbols that carry bits
/// unless there is nothing to carry.
pub proof fn law_what_can_be_planned(
    mfsk: MfskParams,
    dpsk: DpskParams,
    bits: Seq<bool>,
    width: nat,
)
    ensures
        can_plan(ModeConfig::Dpsk(dpsk), bits, width),
        can_plan(ModeConfig::Mfsk(mfsk), bits, width) <==> mfsk.m > 0 && width <= usize::BITS && (
        width > 0 || bits.len() == 0),
{
}

/// Rendering goes segment by segment: the preamble's tone for each segment of the
/// preamble, the next block of the payload for each segment that carries payload,
/// and zeros for silence.
pub proof fn law_rendered_segment_by_segment(
    plan: Seq<Segment>,
    segment: Segment,
    preamble: Seq<u32>,
    payload: Seq<Vec<u32>>,
    silence: nat,
)
    ensures
        payload_segments(Seq::empty()) == 0,
        payload_segments(plan.push(segment)) == payload_segments(plan) + (if segment is Tone
            || segment is Phase {
            1int
        } else {
            0
        }),
        rendered(Seq::empty(), preamble, payload, silence) == Seq::<u32>::empty(),
        segment is Preamble ==> rendered(plan.push(segment), preamble, payload, silence)
            == rendered(plan, preamble, payload, silence) + preamble,
        segment is Tone || segment is Phase ==> rendered(
            plan.push(segment),
            preamble,
            payload,
            silence,
        ) == rendered(plan, preamble, payload, silence) + payload[payload_segments(plan) as int]@,
        segment is Silence ==> ({
            let before = rendered(plan, preamble, payload, silence);
            let after = rendered(plan.push(segment), preamble, payload, silence);
            &&& after.len() == before.len() + silence
            &&& after.take(before.len() as int) == before
            &&& forall|i: int| before.len() <= i < after.len() ==> #[trigger] after[i] == 0
        }),
{
    reveal(Seq::filter);
    assert(plan.push(segment).drop_last() =~= plan);
    let before = rendered(plan, preamble, payload, silence);
    let after = rendered(plan.push(segment), preamble, payload, silence);
    assert(segment is Silence ==> after.take(before.len() as int) =~= before);
}

/// A repeated block is the block over and over; blocks in a row follow each other.
pub proof fn law_repeated_and_in_a_row(
    block: Seq<u32>,
    blocks: Seq<Vec<u32>>,
    times: nat,
)
    ensures
        repeated(block, 0) == Seq::<u32>::empty(),
        repeated(block, times + 1) == repeated(block, times) + block,
        in_a_row(blocks, 0) == Seq::<u32>::empty(),
        in_a_row(blocks, times + 1) == in_a_row(blocks, times) + blocks[times as int]@,
{
}

/// A frame without payload is the preamble so many times and one symbol of
/// silence, in whatever mode.
pub proof fn law_empty_frame(mode: ModeConfig, width: nat)
    ensures
        ({
            let plan = frame_plan(mode, Seq::empty(), width);
            let repeats = match mode {
                ModeConfig::Mfsk(params) => params.preamble_repeats,
                ModeConfig::Dpsk(params) => params.preamble_repeats,
            };
            &&& plan.len() == repeats + 1
            &&& forall|i: int| 0 <= i < repeats ==> #[trigger] plan[i] == Segment::Preamble
            &&& plan[repeats as int] == Segment::Silence
        }),
{
    if width > 0 {
        assert((width - 1) / width as int == 0) by (nonlinear_arith)
            requires
                width > 0,
        ;
    }
}

} // verus!
