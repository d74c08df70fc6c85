use cuthulhu::document::{CutLineType, IdGen, NodeId, NodeKind, NodeOp, ShapeKind};
use cuthulhu::fileio::{
    has_archive_signature, has_end_record, import_paths, migration_steps, paint_attrs,
    plan_manifest_read, probe_version, project_size_admitted, refuse_overwriting,
    refuse_writing_what_we_could_not_read, rgba, run_migrations, trailer_start, Destination,
    IoError, ManifestLayout, StyleHint, LEGACY_UNVERSIONED, MANIFEST_VERSION, MAX_MANIFEST_BYTES,
    MAX_PROJECT_BYTES, TRAILER_BYTES,
};

#[test]
fn every_io_refusal_has_a_sentence() {
    let cases: Vec<(IoError, &str)> = vec![
        (IoError::Parse("unexpected end of file".into()), "the file could not be understood (unexpected end of file)"),
        (
            IoError::Io("Permission denied (os error 13)".into()),
            "the file could not be read or written (Permission denied (os error 13))",
        ),
        (
            IoError::UnsupportedProjectVersion { found: 99, supported: 2 },
            "this project was saved by a newer Cuthulhu \
             (manifest version 99; this build reads 2)",
        ),
    ];
    for (error, sentence) in cases {
        assert_eq!(error.message(), sentence, "{error:?}");
    }
}

#[test]
fn every_version_has_a_migration_step() {
    assert_eq!(MANIFEST_VERSION, LEGACY_UNVERSIONED + migration_steps().len() as u32);
}

#[test]
fn a_save_refuses_output_this_build_would_not_read_back() {
    for limit in [MAX_MANIFEST_BYTES, MAX_PROJECT_BYTES] {
        assert!(refuse_writing_what_we_could_not_read("manifest", limit, limit).is_ok(),
            "exactly at the limit is writable, since the reader accepts it");
        match refuse_writing_what_we_could_not_read("archive", limit + 1, limit) {
            Err(IoError::Io(m)) => {
                assert!(m.contains("too large to save"), "{m}");
                assert!(m.contains(&format!("{} MiB", limit / (1024 * 1024))), "{m}");
                assert!(m.contains("refuse to reopen"), "{m}");
            }
            other => panic!("expected a refusal naming the ceiling, got {other:?}"),
        }
    }
}

#[test]
fn opening_a_file_too_large_to_be_a_project_is_refused() {
    assert!(project_size_admitted(MAX_PROJECT_BYTES).is_ok());
    assert!(matches!(project_size_admitted(MAX_PROJECT_BYTES + 1), Err(IoError::Io(m)) if m.contains("larger than")));
}

#[test]
fn a_manifest_with_no_version_is_the_legacy_schema() {
    assert_eq!(probe_version(Ok(None)).unwrap(), LEGACY_UNVERSIONED);
    assert_eq!(plan_manifest_read(LEGACY_UNVERSIONED).unwrap(), (ManifestLayout::Bare, 0));
}

#[test]
fn a_newer_version_is_refused_before_the_document_is_parsed() {
    let future = MANIFEST_VERSION + 97;
    match plan_manifest_read(probe_version(Ok(Some(future))).unwrap()) {
        Err(IoError::UnsupportedProjectVersion { found, supported }) => {
            assert_eq!(found, future);
            assert_eq!(supported, MANIFEST_VERSION);
        }
        other => panic!("expected an unsupported-version refusal, got {other:?}"),
    }
}

#[test]
fn version_zero_is_malformed_not_legacy() {
    assert!(matches!(plan_manifest_read(0), Err(IoError::Parse(_))));
}

#[test]
fn an_unreadable_probe_is_a_parse_error() {
    assert!(matches!(probe_version(Err("expected value at line 1".into())),
        Err(IoError::Parse(m)) if m == "expected value at line 1"));
}

#[test]
fn the_legacy_step_renames_both_machine_ids() {
    let (layout, first) = plan_manifest_read(LEGACY_UNVERSIONED).unwrap();
    assert_eq!(layout, ManifestLayout::Bare);
    for (legacy, canonical) in [("cameo5_alpha", "cameo5"), ("puma_iv", "puma")] {
        assert_eq!(run_migrations(first, legacy), canonical);
    }
}

#[test]
fn a_current_version_manifest_skips_the_legacy_step() {
    let (layout, first) = plan_manifest_read(MANIFEST_VERSION).unwrap();
    assert_eq!(layout, ManifestLayout::Enveloped);
    assert_eq!(run_migrations(first, "puma_iv"), "puma_iv");
}

// ---------------------------------------------------------------------------
// What a save may replace
// ---------------------------------------------------------------------------

#[test]
fn a_destination_that_is_not_a_project_may_be_replaced() {
    assert!(refuse_overwriting(&Destination::Absent).is_ok());
    assert!(refuse_overwriting(&Destination::NoManifest).is_ok());
    assert!(refuse_overwriting(&Destination::NotAnArchive { reason: "invalid".into(), looks_like_one: false }).is_ok());
    let current = Destination::Manifest { bytes: b"{}".to_vec(), probe: Ok(Some(MANIFEST_VERSION)) };
    assert!(refuse_overwriting(&current).is_ok());
}

#[test]
fn a_newer_project_is_not_replaced() {
    let newer = Destination::Manifest { bytes: b"{}".to_vec(), probe: Ok(Some(MANIFEST_VERSION + 1)) };
    assert!(matches!(refuse_overwriting(&newer),
        Err(IoError::UnsupportedProjectVersion { found, .. }) if found == MANIFEST_VERSION + 1));
}

#[test]
fn a_destination_that_cannot_be_inspected_is_not_replaced() {
    for d in [
        Destination::Unreadable("Permission denied".into()),
        Destination::TooLarge,
        Destination::NotAnArchive { reason: "invalid Zip archive".into(), looks_like_one: true },
        Destination::ManifestUnreadable("checksum".into()),
        Destination::ManifestTooLarge,
    ] {
        match refuse_overwriting(&d) {
            Err(IoError::Io(m)) => assert!(m.starts_with("the file being replaced could not be inspected ("), "{m}"),
            other => panic!("expected a refusal for {d:?}, got {other:?}"),
        }
    }
    assert!(matches!(refuse_overwriting(&Destination::TooLarge), Err(IoError::Io(m)) if m.contains("larger than")));
}

#[test]
fn an_archive_is_recognised_by_its_signatures() {
    assert!(has_archive_signature(&[0x50, 0x4B, 3, 4]));
    assert!(has_archive_signature(&[0x50, 0x4B, 5, 6]));
    assert!(!has_archive_signature(b"%PDF"));
    assert!(!has_archive_signature(&[0x50, 0x4B, 3]));
    let mut tail = vec![0u8; 30];
    tail.extend_from_slice(&[0x50, 0x4B, 5, 6]);
    tail.extend_from_slice(&[0u8; 18]);
    assert!(has_end_record(&tail));
    assert!(!has_end_record(&[0u8; 40]));
    assert_eq!(trailer_start(10), 0);
    assert_eq!(trailer_start(TRAILER_BYTES + 5), 5);
}

// ---------------------------------------------------------------------------
// Paint and import
// ---------------------------------------------------------------------------

#[test]
fn doc_to_svg_default_style_is_black_stroke_no_fill() {
    assert_eq!(paint_attrs("stroke", Some(0x000000FF)), " stroke=\"#000000\"");
    assert_eq!(paint_attrs("fill", None), " fill=\"none\"");
}

#[test]
fn doc_to_svg_translucent_paint_emits_opacity() {
    assert_eq!(paint_attrs("fill", Some(0xFF000080)), " fill=\"#ff0000\" fill-opacity=\"0.5020\"");
}

#[test]
fn a_colour_is_packed_from_its_channels() {
    assert_eq!(rgba(0xFF, 0x00, 0x80, 0x40), 0xFF008040);
}

#[test]
fn import_svg_produces_one_add_per_path() {
    let mut ids = IdGen::default();
    let delta = import_paths(vec![("M0,0 L10,0 L10,10 L0,10 Z".into(), StyleHint { stroke: None, fill: Some(0x000000FF) })],
        &mut ids, NodeId(1));
    assert_eq!(delta.0.len(), 1);
}

#[test]
fn an_imported_path_is_cut_even_with_no_stroke() {
    let mut ids = IdGen::default();
    let delta = import_paths(vec![
        ("M0,0 L5,0 L5,5 Z".into(), StyleHint { stroke: None, fill: Some(0x00FF00FF) }),
        ("M1,1 L2,2".into(), StyleHint { stroke: Some(0xFF0000FF), fill: None }),
    ], &mut ids, NodeId(1));
    assert_eq!(delta.0.len(), 2);
    for (i, op) in delta.0.iter().enumerate() {
        match op {
            NodeOp::Add { parent, node, index } => {
                assert_eq!(*parent, NodeId(1));
                assert_eq!(*index, usize::MAX);
                assert_eq!(node.id, NodeId(i as u64 + 1), "ids are minted in order");
                assert_eq!(node.cut_line_type, CutLineType::Cut);
                assert!(matches!(&node.kind, NodeKind::Shape(ShapeKind::Path { .. })));
            }
            other => panic!("expected an Add, got {other:?}"),
        }
    }
    if let NodeOp::Add { node, .. } = &delta.0[0] {
        assert_eq!(node.style.stroke, None, "fill-only art has no stroke");
        assert_eq!(node.style.fill, Some(0x00FF00FF));
    }
}
