use hush::modes::{default_mfsk, mode_names, preset, presets_map, MfskParams};

fn hz(bits: u32) -> f32 {
    f32::from_bits(bits)
}

#[test]
fn presets_have_their_parameters() {
    let p = preset("QRP_ULTRA").unwrap();
    assert_eq!((p.m, hz(p.center), hz(p.spacing), p.symbol_len_ms, p.preamble_repeats), (4, 1000.0, 5.0, 300, 8));
    let p = preset("QRP").unwrap();
    assert_eq!((p.m, hz(p.center), hz(p.spacing), p.symbol_len_ms, p.preamble_repeats), (4, 1000.0, 10.0, 150, 6));
    let p = preset("SLOW").unwrap();
    assert_eq!((p.m, hz(p.center), hz(p.spacing), p.symbol_len_ms, p.preamble_repeats), (8, 1000.0, 20.0, 100, 5));
    let p = preset("MEDIUM").unwrap();
    assert_eq!((p.m, hz(p.center), hz(p.spacing), p.symbol_len_ms, p.preamble_repeats), (16, 1000.0, 20.0, 60, 4));
    let p = preset("FAST").unwrap();
    assert_eq!((p.m, hz(p.center), hz(p.spacing), p.symbol_len_ms, p.preamble_repeats), (32, 1000.0, 30.0, 30, 3));
    let p = preset("TURBO").unwrap();
    assert_eq!((p.m, hz(p.center), hz(p.spacing), p.symbol_len_ms, p.preamble_repeats), (64, 1000.0, 200.0, 20, 3));
}

#[test]
fn default_parameters() {
    let p = default_mfsk();
    assert_eq!((p.m, hz(p.center), hz(p.spacing), p.symbol_len_ms, p.preamble_repeats), (4, 1500.0, 200.0, 80, 3));
}

#[test]
fn unknown_presets_are_not_found() {
    assert_eq!(preset("medium"), None);
    assert_eq!(preset(""), None);
    assert_eq!(preset("QRP_"), None);
}

#[test]
fn mode_names_are_sorted() {
    let names = mode_names();
    assert_eq!(names, vec!["FAST", "MEDIUM", "QRP", "QRP_ULTRA", "SLOW", "TURBO"]);
    let mut sorted = names.clone();
    sorted.sort();
    assert_eq!(names, sorted);
}

#[test]
fn every_listed_preset_is_found() {
    let all: Vec<(&'static str, MfskParams)> = presets_map();
    assert_eq!(all.len(), 6);
    for (name, params) in all {
        assert_eq!(preset(name), Some(params));
    }
}
