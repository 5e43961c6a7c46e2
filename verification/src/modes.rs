//! Transmission modes and their presets.
//!
//! A frequency is carried as the bit pattern of the single-precision number of
//! hertz (IEEE 754 binary32), so that any frequency a client names passes
//! through unchanged.
use crate::text::same_text;
use vstd::prelude::*;

verus! {

/// 1000 Hz.
pub const HZ_1000: u32 = 0x447a_0000;

/// 1500 Hz.
pub const HZ_1500: u32 = 0x44bb_8000;

/// 5 Hz.
pub const HZ_5: u32 = 0x40a0_0000;

/// 10 Hz.
pub const HZ_10: u32 = 0x4120_0000;

/// 20 Hz.
pub const HZ_20: u32 = 0x41a0_0000;

/// 30 Hz.
pub const HZ_30: u32 = 0x41f0_0000;

/// 200 Hz.
pub const HZ_200: u32 = 0x4348_0000;

/// Multiple frequency shift keying: each symbol is one of `m` tones.
#[derive(Clone, Copy, Debug, PartialEq, Eq, Structural)]
pub struct MfskParams {
    /// How many tones there are.
    pub m: usize,
    /// The middle of the tones.
    pub center: u32,
    /// The distance between neighbouring tones.
    pub spacing: u32,
    /// How long a symbol lasts, in milliseconds.
    pub symbol_len_ms: u32,
    /// How many symbols the preamble has.
    pub preamble_repeats: u32,
}

/// Differential phase shift keying of one carrier.
#[derive(Clone, Copy, Debug, PartialEq, Eq, Structural)]
pub struct DpskParams {
    /// The carrier.
    pub center: u32,
    /// How long a symbol lasts, in milliseconds.
    pub symbol_len_ms: u32,
    /// How many symbols the preamble has.
    pub preamble_repeats: u32,
}

/// A mode with its parameters.
#[derive(Clone, Copy, Debug, PartialEq, Eq, Structural)]
pub enum ModeConfig {
    /// Multiple frequency shift keying.
    Mfsk(MfskParams),
    /// Differential phase shift keying.
    Dpsk(DpskParams),
}

/// The parameters with these values.
pub open spec fn mfsk(m: usize, center: u32, spacing: u32, ms: u32, repeats: u32) -> MfskParams {
    MfskParams { m, center, spacing, symbol_len_ms: ms, preamble_repeats: repeats }
}

/// The parameters used where no preset is named, or an unknown one.
pub open spec fn default_mfsk_spec() -> MfskParams {
    mfsk(4, HZ_1500, HZ_200, 80, 3)
}

/// The presets with their names, in the order of the names.
pub open spec fn preset_table() -> Seq<(Seq<char>, MfskParams)> {
    seq![
        ("FAST"@, mfsk(32, HZ_1000, HZ_30, 30, 3)),
        ("MEDIUM"@, mfsk(16, HZ_1000, HZ_20, 60, 4)),
        ("QRP"@, mfsk(4, HZ_1000, HZ_10, 150, 6)),
        ("QRP_ULTRA"@, mfsk(4, HZ_1000, HZ_5, 300, 8)),
        ("SLOW"@, mfsk(8, HZ_1000, HZ_20, 100, 5)),
        ("TURBO"@, mfsk(64, HZ_1000, HZ_200, 20, 3)),
    ]
}

/// The preset of a name.
pub open spec fn preset_spec(name: Seq<char>) -> Option<MfskParams> {
    if name == "QRP_ULTRA"@ {
        Some(mfsk(4, HZ_1000, HZ_5, 300, 8))
    } else if name == "QRP"@ {
        Some(mfsk(4, HZ_1000, HZ_10, 150, 6))
    } else if name == "SLOW"@ {
        Some(mfsk(8, HZ_1000, HZ_20, 100, 5))
    } else if name == "MEDIUM"@ {
        Some(mfsk(16, HZ_1000, HZ_20, 60, 4))
    } else if name == "FAST"@ {
        Some(mfsk(32, HZ_1000, HZ_30, 30, 3))
    } else if name == "TURBO"@ {
        Some(mfsk(64, HZ_1000, HZ_200, 20, 3))
    } else {
        None
    }
}

/// `a` stands before `b` in the order of text: at the first place where they
/// differ it has the smaller character, or it ends there.
pub open spec fn precedes(a: Seq<char>, b: Seq<char>) -> bool {
    exists|i: int| #[trigger] differ_at(a, b, i)
}

/// `a` and `b` agree up to place `i`, and there `a` ends or has the smaller
/// character.
pub open spec fn differ_at(a: Seq<char>, b: Seq<char>, i: int) -> bool {
    &&& 0 <= i <= a.len()
    &&& i < b.len()
    &&& forall|j: int| 0 <= j < i ==> a[j] == b[j]
    &&& i == a.len() || a[i] < b[i]
}

/// The parameters used where no preset is named, or an unknown one.
pub fn default_mfsk() -> (params: MfskParams)
    ensures
        params == default_mfsk_spec(),
{
    MfskParams { m: 4, center: HZ_1500, spacing: HZ_200, symbol_len_ms: 80, preamble_repeats: 3 }
}

fn entry(m: usize, center: u32, spacing: u32, ms: u32, repeats: u32) -> (params: MfskParams)
    ensures
        params == mfsk(m, center, spacing, ms, repeats),
{
    MfskParams { m, center, spacing, symbol_len_ms: ms, preamble_repeats: repeats }
}

/// All presets with their names, in the order of the names.
pub fn presets_map() -> (presets: Vec<(&'static str, MfskParams)>)
    ensures
        presets@.len() == preset_table().len(),
        forall|i: int|
            0 <= i < presets@.len() ==> (#[trigger] presets@[i]).0@ == preset_table()[i].0
                && presets@[i].1 == preset_table()[i].1,
{
    vec![
        ("FAST", entry(32, HZ_1000, HZ_30, 30, 3)),
        ("MEDIUM", entry(16, HZ_1000, HZ_20, 60, 4)),
        ("QRP", entry(4, HZ_1000, HZ_10, 150, 6)),
        ("QRP_ULTRA", entry(4, HZ_1000, HZ_5, 300, 8)),
        ("SLOW", entry(8, HZ_1000, HZ_20, 100, 5)),
        ("TURBO", entry(64, HZ_1000, HZ_200, 20, 3)),
    ]
}

/// The preset of a name, where there is one.
pub fn preset(name: &str) -> (params: Option<MfskParams>)
    ensures
        params == preset_spec(name@),
{
    let presets = presets_map();
    let mut i: usize = 0;
    while i < presets.len()
        invariant
            i <= presets@.len(),
            presets@.len() == preset_table().len(),
            forall|k: int|
                0 <= k < presets@.len() ==> (#[trigger] presets@[k]).0@ == preset_table()[k].0
                    && presets@[k].1 == preset_table()[k].1,
            forall|k: int| 0 <= k < i ==> (#[trigger] preset_table()[k]).0 != name@,
        decreases presets.len() - i,
    {
        if same_text(presets[i].0, name) {
            proof {
                assert(preset_table()[i as int].0 == name@);
                law_presets_found(name@);
            }
            return Some(presets[i].1);
        }
        assert(presets@[i as int].0@ == preset_table()[i as int].0);
        i += 1;
    }
    proof {
        law_presets_found(name@);
    }
    None
}

/// The names of all presets, in order.
pub fn mode_names() -> (names: Vec<String>)
    ensures
        names@.len() == preset_table().len(),
        forall|i: int| 0 <= i < names@.len() ==> (#[trigger] names@[i])@ == preset_table()[i].0,
{
    let presets = presets_map();
    let mut names: Vec<String> = Vec::new();
    let mut i: usize = 0;
    while i < presets.len()
        invariant
            i <= presets@.len(),
            names@.len() == i,
            presets@.len() == preset_table().len(),
            forall|k: int|
                0 <= k < presets@.len() ==> (#[trigger] presets@[k]).0@ == preset_table()[k].0,
            forall|k: int| 0 <= k < i ==> (#[trigger] names@[k])@ == preset_table()[k].0,
        decreases presets.len() - i,
    {
        names.push(presets[i].0.to_owned());
        i += 1;
    }
    names
}

/// The preset names are listed in the order of text, none twice.
pub proof fn law_presets_listed()
    ensures
        forall|i: int, j: int|
            0 <= i < j < preset_table().len() ==> precedes(
                #[trigger] preset_table()[i].0,
                #[trigger] preset_table()[j].0,
            ),
        forall|i: int, j: int|
            0 <= i < j < preset_table().len() ==> #[trigger] preset_table()[i].0
                != #[trigger] preset_table()[j].0,
{
    let t = preset_table();
    reveal_strlit("FAST");
    reveal_strlit("MEDIUM");
    reveal_strlit("QRP");
    reveal_strlit("QRP_ULTRA");
    reveal_strlit("SLOW");
    reveal_strlit("TURBO");
    assert forall|i: int, j: int| 0 <= i < j < t.len() implies precedes(
        #[trigger] t[i].0,
        #[trigger] t[j].0,
    ) && t[i].0 != t[j].0 by {
        if i == 2 && j == 3 {
            assert(differ_at(t[i].0, t[j].0, 3));
            assert(t[i].0.len() != t[j].0.len());
        } else {
            assert(differ_at(t[i].0, t[j].0, 0));
            assert(t[i].0[0] != t[j].0[0]);
        }
    }
}

/// Exactly the listed names have a preset, each its own.
pub proof fn law_presets_found(name: Seq<char>)
    ensures
        preset_spec(name) is Some <==> exists|i: int|
            0 <= i < preset_table().len() && #[trigger] preset_table()[i].0 == name,
        forall|i: int|
            0 <= i < preset_table().len() && #[trigger] preset_table()[i].0 == name
                ==> preset_spec(name) == Some(preset_table()[i].1),
{
    law_presets_listed();
    let t = preset_table();
    assert(t[0].0 == "FAST"@ && t[1].0 == "MEDIUM"@ && t[2].0 == "QRP"@ && t[3].0 == "QRP_ULTRA"@
        && t[4].0 == "SLOW"@ && t[5].0 == "TURBO"@);
    assert forall|i: int| 0 <= i < t.len() && #[trigger] t[i].0 == name implies preset_spec(name)
        == Some(t[i].1) by {
        assert(i == 0 || i == 1 || i == 2 || i == 3 || i == 4 || i == 5);
    }
}

/// What the presets are, frequencies as patterns: every name has the parameters
/// given here, or none.
pub proof fn law_preset_values(name: Seq<char>)
    ensures
        name == "QRP_ULTRA"@ ==> preset_spec(name) == Some(
            MfskParams {
                m: 4,
                center: 0x447a_0000,
                spacing: 0x40a0_0000,
                symbol_len_ms: 300,
                preamble_repeats: 8,
            },
        ),
        name == "QRP"@ ==> preset_spec(name) == Some(
            MfskParams {
                m: 4,
                center: 0x447a_0000,
                spacing: 0x4120_0000,
                symbol_len_ms: 150,
                preamble_repeats: 6,
            },
        ),
        name == "SLOW"@ ==> preset_spec(name) == Some(
            MfskParams {
                m: 8,
                center: 0x447a_0000,
                spacing: 0x41a0_0000,
                symbol_len_ms: 100,
                preamble_repeats: 5,
            },
        ),
        name == "MEDIUM"@ ==> preset_spec(name) == Some(
            MfskParams {
                m: 16,
                center: 0x447a_0000,
                spacing: 0x41a0_0000,
                symbol_len_ms: 60,
                preamble_repeats: 4,
            },
        ),
        name == "FAST"@ ==> preset_spec(name) == Some(
            MfskParams {
                m: 32,
                center: 0x447a_0000,
                spacing: 0x41f0_0000,
                symbol_len_ms: 30,
                preamble_repeats: 3,
            },
        ),
        name == "TURBO"@ ==> preset_spec(name) == Some(
            MfskParams {
                m: 64,
                center: 0x447a_0000,
                spacing: 0x4348_0000,
                symbol_len_ms: 20,
                preamble_repeats: 3,
            },
        ),
        preset_spec(name) is Some ==> name == "QRP_ULTRA"@ || name == "QRP"@ || name == "SLOW"@
            || name == "MEDIUM"@ || name == "FAST"@ || name == "TURBO"@,
        default_mfsk_spec() == (MfskParams {
            m: 4,
            center: 0x44bb_8000,
            spacing: 0x4348_0000,
            symbol_len_ms: 80,
            preamble_repeats: 3,
        }),
{
    reveal_strlit("FAST");
    reveal_strlit("MEDIUM");
    reveal_strlit("QRP");
    reveal_strlit("QRP_ULTRA");
    reveal_strlit("SLOW");
    reveal_strlit("TURBO");
    assert("QRP"@.len() == 3 && "FAST"@.len() == 4 && "SLOW"@.len() == 4 && "TURBO"@.len() == 5
        && "MEDIUM"@.len() == 6 && "QRP_ULTRA"@.len() == 9);
    assert("MEDIUM"@[0] != "FAST"@[0]);
    assert("SLOW"@[0] != "FAST"@[0]);
    assert("TURBO"@[0] != "FAST"@[0]);
}

/// The list of presets holds exactly the presets: six of them, and a name is in it,
/// with its parameters, where it has a preset.
pub proof fn law_listed_presets(name: Seq<char>, params: MfskParams)
    ensures
        preset_table().len() == 6,
        preset_table().contains((name, params)) <==> preset_spec(name) == Some(params),
{
    let t = preset_table();
    law_presets_found(name);
    if preset_spec(name) == Some(params) {
        let i = choose|i: int| 0 <= i < t.len() && #[trigger] t[i].0 == name;
        assert(t[i] == (name, params));
    }
    if t.contains((name, params)) {
        let i = choose|i: int| 0 <= i < t.len() && t[i] == (name, params);
        assert(t[i].0 == name);
    }
}

} // verus!
