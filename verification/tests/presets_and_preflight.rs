use cuthulhu::document::NodeId;
use cuthulhu::preflight::{
    preflight, preset_settings_out_of_range, settings_out_of_range, settings_ranges, PassFacts,
    PreflightRefusal, ShapeFacts,
};
use cuthulhu::presets::{
    builtin_presets, resolve_settings, MaterialPreset, PresetError, PresetSettings, SettingsOverride,
};
use cuthulhu::transport::{MachineCaps, Settings};

fn caps_no_speed_force() -> MachineCaps {
    MachineCaps { supports_speed: false, supports_force: false, needs_operator_pass_confirm: false }
}

fn caps_with_speed_force() -> MachineCaps {
    MachineCaps { supports_speed: true, supports_force: true, needs_operator_pass_confirm: false }
}

#[test]
fn every_preset_refusal_has_a_sentence_and_a_code() {
    let cases: Vec<(PresetError, &str, Option<&str>)> = vec![
        (PresetError::Corrupt("whatever the site wrote".into()), "presets_corrupt", None),
        (
            PresetError::UnknownVersion(3),
            "presets_unknown_version",
            Some("this presets file is in a format this build does not read \
                  (presets version 3; this build reads 1)"),
        ),
        (
            PresetError::Unreadable("Permission denied (os error 13)".into()),
            "presets_unreadable",
            Some("the presets file could not be read (Permission denied (os error 13))"),
        ),
        (
            PresetError::Unwritable("No space left on device (os error 28)".into()),
            "presets_unwritable",
            Some("the presets file could not be written (No space left on device (os error 28))"),
        ),
    ];
    for (error, code, sentence) in cases {
        assert_eq!(error.code(), code, "{error:?}");
        if let Some(sentence) = sentence {
            assert_eq!(error.message(), sentence, "{error:?}");
        }
    }
}

#[test]
fn an_override_field_beats_the_preset_and_a_missing_preset_falls_back_to_default() {
    let preset = MaterialPreset {
        id: "p1".into(),
        name: "Test".into(),
        machine_id: "cameo5".into(),
        settings: PresetSettings { speed: Some(5), force: Some(20), repeat_count: 3 },
        builtin: false,
    };

    let partial = SettingsOverride { speed: None, force: Some(25), repeat_count: None };
    let resolved = resolve_settings(Some(&preset), &partial);
    assert_eq!(resolved.force, Some(25), "override wins");
    assert_eq!(resolved.speed, Some(5), "preset fills the gap");
    assert_eq!(resolved.repeat_count, 3, "preset fills the gap");

    let empty = SettingsOverride { speed: None, force: None, repeat_count: None };
    assert_eq!(resolve_settings(None, &empty), Settings::default());
}

#[test]
fn builtins_cover_both_machines_with_valid_ranges() {
    let builtins = builtin_presets();

    let cameo5_presets: Vec<_> = builtins.iter().filter(|p| p.machine_id == "cameo5").collect();
    let puma_presets: Vec<_> = builtins.iter().filter(|p| p.machine_id == "puma").collect();

    assert!(cameo5_presets.len() >= 4, "cameo5 has < 4 presets");
    assert!(puma_presets.len() >= 4, "puma has < 4 presets");

    for preset in &builtins {
        assert!(
            preset.machine_id == "cameo5" || preset.machine_id == "puma",
            "invalid machine_id: {}",
            preset.machine_id
        );
        assert!(preset.builtin, "builtin preset marked as non-builtin");
    }

    for preset in &builtins {
        assert!(
            preset.settings.repeat_count >= 1 && preset.settings.repeat_count <= 10,
            "repeat_count out of range: {}",
            preset.settings.repeat_count
        );
    }

    for preset in &cameo5_presets {
        assert!(preset.settings.speed.is_some(), "cameo5 preset {} missing speed", preset.id);
        assert!(preset.settings.force.is_some(), "cameo5 preset {} missing force", preset.id);
    }

    for preset in &puma_presets {
        assert_eq!(preset.settings.speed, None, "puma preset {} should have speed=None", preset.id);
        assert_eq!(preset.settings.force, None, "puma preset {} should have force=None", preset.id);
    }
}

#[test]
fn every_range_refusal_names_the_bound_it_enforced() {
    let caps = caps_with_speed_force();
    let ranges = settings_ranges();
    let cases = [
        (
            Settings { speed: None, force: None, repeat_count: ranges.repeat_count.max + 1 },
            ranges.repeat_count,
        ),
        (
            Settings { speed: Some(ranges.speed.max + 1), force: None, repeat_count: 1 },
            ranges.speed,
        ),
        (
            Settings { speed: None, force: Some(ranges.force.max + 1), repeat_count: 1 },
            ranges.force,
        ),
    ];
    for (settings, range) in cases {
        let message = settings_out_of_range(&settings, &caps)
            .expect("a value past the maximum is refused");
        let stated = format!("{}..={}", range.min, range.max);
        assert!(
            message.contains(&stated),
            "`{message}` does not state the range it enforced ({stated})",
        );
    }
}

#[test]
fn a_stored_preset_is_refused_a_speed_a_cut_would_have_ignored() {
    let ranges = settings_ranges();
    let stored = PresetSettings { speed: Some(ranges.speed.max + 1), force: None, repeat_count: 1 };
    assert_eq!(
        settings_out_of_range(
            &Settings { speed: stored.speed, force: None, repeat_count: stored.repeat_count },
            &caps_no_speed_force(),
        ),
        None,
        "premise: a machine without speed support has its speed ignored, not refused",
    );
    assert_eq!(
        preset_settings_out_of_range(&stored),
        Some("speed must be 1..=30"),
        "a preset's out-of-range speed was let through to its file",
    );
}

#[test]
fn settings_ranges_are_the_documented_bounds() {
    let r = settings_ranges();
    assert_eq!((r.speed.min, r.speed.max), (1, 30));
    assert_eq!((r.force.min, r.force.max), (1, 33));
    assert_eq!((r.repeat_count.min, r.repeat_count.max), (1, 10));
}

// ---------------------------------------------------------------------------
// Preflight, with each shape's coordinates read into the facts the rules check
// ---------------------------------------------------------------------------

const BED_MM: f64 = 100.0;

fn facts(node_id: u64, polylines: Vec<Vec<(f64, f64)>>) -> ShapeFacts {
    let non_finite = polylines.iter().flatten().any(|&(x, y)| !x.is_finite() || !y.is_finite());
    let out_of_bounds = polylines
        .iter()
        .flatten()
        .any(|&(x, y)| x < 0.0 || y < 0.0 || x > BED_MM || y > BED_MM);
    ShapeFacts {
        node_id: NodeId(node_id),
        polyline_lens: polylines.iter().map(|p| p.len()).collect(),
        non_finite,
        out_of_bounds,
    }
}

fn pass(shapes: Vec<ShapeFacts>, settings: Settings, enabled: bool) -> PassFacts {
    PassFacts { enabled, settings, shapes }
}

fn run(passes: &Vec<PassFacts>, caps: &MachineCaps, doc: Option<&str>, allow: bool) -> Result<(), PreflightRefusal> {
    preflight(passes, caps, doc, "test-machine", allow)
}

fn line() -> Vec<Vec<(f64, f64)>> {
    vec![vec![(10.0, 10.0), (20.0, 20.0)]]
}

#[test]
fn nothing_to_cut_when_all_enabled_passes_empty() {
    let passes = vec![pass(vec![], Settings::default(), true)];
    assert!(matches!(run(&passes, &caps_no_speed_force(), None, false), Err(PreflightRefusal::NothingToCut)));
}

#[test]
fn nothing_to_cut_ignores_disabled_passes_with_content() {
    let passes = vec![pass(vec![facts(1, line())], Settings::default(), false)];
    assert!(matches!(run(&passes, &caps_no_speed_force(), None, false), Err(PreflightRefusal::NothingToCut)));
}

#[test]
fn non_finite_geometry_detects_nan() {
    let passes = vec![pass(vec![facts(1, vec![vec![(10.0, 10.0), (f64::NAN, 20.0)]])], Settings::default(), true)];
    assert!(matches!(run(&passes, &caps_no_speed_force(), None, false),
        Err(PreflightRefusal::NonFiniteGeometry(NodeId(1)))));
}

#[test]
fn non_finite_geometry_detects_inf() {
    let passes = vec![pass(vec![facts(2, vec![vec![(10.0, 10.0), (f64::INFINITY, 20.0)]])], Settings::default(), true)];
    assert!(matches!(run(&passes, &caps_no_speed_force(), None, false),
        Err(PreflightRefusal::NonFiniteGeometry(NodeId(2)))));
}

#[test]
fn degenerate_polyline_single_point() {
    let passes = vec![pass(vec![facts(3, vec![vec![(10.0, 10.0)]])], Settings::default(), true)];
    assert!(matches!(run(&passes, &caps_no_speed_force(), None, false),
        Err(PreflightRefusal::DegeneratePolyline(NodeId(3)))));
}

#[test]
fn degenerate_polyline_empty() {
    let passes = vec![pass(vec![facts(4, vec![vec![]])], Settings::default(), true)];
    assert!(matches!(run(&passes, &caps_no_speed_force(), None, false),
        Err(PreflightRefusal::DegeneratePolyline(NodeId(4)))));
}

#[test]
fn non_finite_wins_over_degenerate_polyline() {
    let shapes = vec![
        facts(100, vec![vec![(10.0, 10.0)]]),
        facts(101, vec![vec![(20.0, 20.0), (f64::NAN, 30.0)]]),
    ];
    let passes = vec![pass(shapes, Settings::default(), true)];
    assert!(matches!(run(&passes, &caps_no_speed_force(), None, false),
        Err(PreflightRefusal::NonFiniteGeometry(NodeId(101)))));
}

#[test]
fn out_of_bounds_x_negative() {
    let passes = vec![pass(vec![facts(5, vec![vec![(-1.0, 10.0), (20.0, 20.0)]])], Settings::default(), true)];
    assert!(matches!(run(&passes, &caps_no_speed_force(), None, false),
        Err(PreflightRefusal::OutOfBounds(NodeId(5)))));
}

#[test]
fn out_of_bounds_x_exceeds_width() {
    let passes = vec![pass(vec![facts(6, vec![vec![(10.0, 10.0), (110.0, 20.0)]])], Settings::default(), true)];
    assert!(matches!(run(&passes, &caps_no_speed_force(), None, false),
        Err(PreflightRefusal::OutOfBounds(NodeId(6)))));
}

#[test]
fn out_of_bounds_y_negative() {
    let passes = vec![pass(vec![facts(7, vec![vec![(10.0, -5.0), (20.0, 20.0)]])], Settings::default(), true)];
    assert!(matches!(run(&passes, &caps_no_speed_force(), None, false),
        Err(PreflightRefusal::OutOfBounds(NodeId(7)))));
}

#[test]
fn out_of_bounds_y_exceeds_height() {
    let passes = vec![pass(vec![facts(8, vec![vec![(10.0, 10.0), (20.0, 110.0)]])], Settings::default(), true)];
    assert!(matches!(run(&passes, &caps_no_speed_force(), None, false),
        Err(PreflightRefusal::OutOfBounds(NodeId(8)))));
}

#[test]
fn allow_out_of_bounds_flag_permits_geometry_outside_bounds() {
    let passes = vec![pass(vec![facts(9, vec![vec![(-10.0, 10.0), (20.0, 20.0)]])], Settings::default(), true)];
    assert!(run(&passes, &caps_no_speed_force(), None, true).is_ok());
}

fn settings_refusal(settings: Settings, caps: MachineCaps) -> Option<&'static str> {
    let passes = vec![pass(vec![facts(10, line())], settings, true)];
    match run(&passes, &caps, None, false) {
        Err(PreflightRefusal::SettingsOutOfRange(m)) => Some(m),
        Ok(()) => None,
        Err(other) => panic!("unexpected refusal {other:?}"),
    }
}

#[test]
fn repeat_count_below_1_rejected() {
    assert_eq!(settings_refusal(Settings { speed: None, force: None, repeat_count: 0 }, caps_no_speed_force()),
        Some("repeat_count must be 1..=10"));
}

#[test]
fn repeat_count_above_10_rejected() {
    assert_eq!(settings_refusal(Settings { speed: None, force: None, repeat_count: 11 }, caps_no_speed_force()),
        Some("repeat_count must be 1..=10"));
}

#[test]
fn speed_unsupported_by_device_ignored() {
    assert_eq!(settings_refusal(Settings { speed: Some(15), force: None, repeat_count: 1 }, caps_no_speed_force()), None);
}

#[test]
fn speed_below_1_rejected() {
    assert_eq!(settings_refusal(Settings { speed: Some(0), force: None, repeat_count: 1 }, caps_with_speed_force()),
        Some("speed must be 1..=30"));
}

#[test]
fn speed_above_30_rejected() {
    assert_eq!(settings_refusal(Settings { speed: Some(31), force: None, repeat_count: 1 }, caps_with_speed_force()),
        Some("speed must be 1..=30"));
}

#[test]
fn force_unsupported_by_device_ignored() {
    assert_eq!(settings_refusal(Settings { speed: None, force: Some(15), repeat_count: 1 }, caps_no_speed_force()), None);
}

#[test]
fn force_below_1_rejected() {
    assert_eq!(settings_refusal(Settings { speed: None, force: Some(0), repeat_count: 1 }, caps_with_speed_force()),
        Some("force must be 1..=33"));
}

#[test]
fn force_above_33_rejected() {
    assert_eq!(settings_refusal(Settings { speed: None, force: Some(34), repeat_count: 1 }, caps_with_speed_force()),
        Some("force must be 1..=33"));
}

#[test]
fn machine_mismatch_doc_id_differs() {
    let passes = vec![pass(vec![facts(18, line())], Settings::default(), true)];
    match run(&passes, &caps_no_speed_force(), Some("wrong-machine"), false) {
        Err(PreflightRefusal::MachineMismatch { document, device }) => {
            assert_eq!(document, "wrong-machine");
            assert_eq!(device, "test-machine");
        }
        other => panic!("expected a mismatch, got {other:?}"),
    }
}

#[test]
fn machine_match_doc_id_same() {
    let passes = vec![pass(vec![facts(19, line())], Settings::default(), true)];
    assert!(run(&passes, &caps_no_speed_force(), Some("test-machine"), false).is_ok());
}

fn many_points() -> Vec<(f64, f64)> {
    (0..500000).map(|i| ((i % 100) as f64, ((i / 100) % 100) as f64)).collect()
}

#[test]
fn output_too_large_exceeds_64mb() {
    let passes = vec![pass(vec![facts(20, vec![many_points()])],
        Settings { speed: None, force: None, repeat_count: 10 }, true)];
    assert!(matches!(run(&passes, &caps_no_speed_force(), None, false), Err(PreflightRefusal::OutputTooLarge(_))));
}

#[test]
fn output_size_weights_each_pass_by_its_own_repeat_count() {
    let passes = vec![
        pass(vec![facts(20, vec![many_points()])], Settings { speed: None, force: None, repeat_count: 1 }, true),
        pass(vec![facts(21, vec![vec![(0.0, 0.0); 10]])], Settings { speed: None, force: None, repeat_count: 10 }, true),
    ];
    assert!(run(&passes, &caps_no_speed_force(), None, false).is_ok());
}

#[test]
fn happy_path_valid_cut() {
    let passes = vec![pass(vec![facts(21, vec![vec![(10.0, 10.0), (20.0, 20.0), (30.0, 10.0)]])],
        Settings { speed: Some(15), force: Some(20), repeat_count: 3 }, true)];
    assert!(run(&passes, &caps_with_speed_force(), None, false).is_ok());
}

#[test]
fn preflight_every_refusal_has_a_sentence_and_a_code() {
    let bed = "304.8 x 304.8";
    let cases: Vec<(PreflightRefusal, &str, &str)> = vec![
        (PreflightRefusal::NothingToCut, "nothing_to_cut", "no pass selected for this cut has any geometry"),
        (
            PreflightRefusal::NonFiniteGeometry(NodeId(3)),
            "non_finite_geometry",
            "shape #3 has a coordinate that is not a finite number",
        ),
        (
            PreflightRefusal::DegeneratePolyline(NodeId(4)),
            "degenerate_polyline",
            "shape #4 has a path with fewer than two points",
        ),
        (
            PreflightRefusal::OutOfBounds(NodeId(5)),
            "out_of_bounds",
            "shape #5 lies outside the 304.8 x 304.8 mm cutting area",
        ),
        (
            PreflightRefusal::SettingsOutOfRange("speed must be 1..=30"),
            "settings_out_of_range",
            "speed must be 1..=30",
        ),
        (
            PreflightRefusal::MachineMismatch { document: "puma".into(), device: "cameo5".into() },
            "machine_mismatch",
            "this document is set up for `puma`, but the connected machine is `cameo5`",
        ),
        (
            PreflightRefusal::OutputTooLarge(80_000_000),
            "output_too_large",
            "the encoded cut is about 77 MB, over the 64 MB limit",
        ),
    ];
    for (error, code, message) in cases {
        assert_eq!(error.code(), code, "code for {error:?}");
        assert_eq!(error.message(bed), message, "message for {error:?}");
    }
}
