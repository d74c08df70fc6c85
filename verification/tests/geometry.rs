use cuthulhu::geometry::{enough_to_combine, read_path_data, BoolOp, GeomError, PathCommand};

fn read(d: &str) -> Vec<(char, Vec<String>)> {
    read_path_data(d)
        .unwrap_or_else(|f| panic!("{d:?} should read, got {:?}", describe(&f)))
        .into_iter()
        .map(|PathCommand { letter, numbers }| (letter, numbers))
        .collect()
}

fn describe(f: &GeomError) -> String {
    f.message()
}

fn nums(v: &[&str]) -> Vec<String> {
    v.iter().map(|s| s.to_string()).collect()
}

#[test]
fn every_geometry_refusal_has_a_sentence() {
    assert_eq!(GeomError::Degenerate.message(), "the operation left no geometry behind");
    assert_eq!(GeomError::NoFont.message(), "no fonts are installed on this system");
    assert_eq!(GeomError::BadFont.message(), "a font was found, but its file could not be read");
    assert_eq!(GeomError::NoGlyphs.message(), "the chosen font cannot draw any of this text");
    assert!(GeomError::Parse("cmd t".into()).message().contains("path data"));
}

#[test]
fn line_square_reads_to_its_commands() {
    assert_eq!(read("M0,0 L20,0 L20,20 L0,20 Z"), vec![
        ('M', nums(&["0", "0"])),
        ('L', nums(&["20", "0"])),
        ('L', nums(&["20", "20"])),
        ('L', nums(&["0", "20"])),
        ('Z', nums(&[])),
    ]);
}

#[test]
fn a_cubic_takes_six_numbers() {
    assert_eq!(read("M0,0 C0,10 10,10 10,0"), vec![
        ('M', nums(&["0", "0"])),
        ('C', nums(&["0", "10", "10", "10", "10", "0"])),
    ]);
    assert!(matches!(read_path_data("M0,0 C1,2,3"), Err(GeomError::Parse(m)) if m == "too few numbers for cmd C"));
}

#[test]
fn signed_and_fractional_numbers_are_numbers() {
    assert_eq!(read("M-1.5,+2 L.5,3."), vec![('M', nums(&["-1.5", "+2"])), ('L', nums(&[".5", "3."]))]);
}

#[test]
fn text_that_is_not_path_data_is_refused() {
    match read_path_data("totally not path data") {
        Err(GeomError::Parse(m)) => assert_eq!(m, "cmd t"),
        other => panic!("expected a refusal, got {:?}", other.map(|_| ()).map_err(|f| describe(&f))),
    }
    assert!(matches!(read_path_data("M1,#2"), Err(GeomError::Parse(m)) if m == "nan"));
    assert!(matches!(read_path_data("M1..2,3"), Err(GeomError::Parse(m)) if m == "nan"));
    assert!(matches!(read_path_data("M1"), Err(GeomError::Parse(m)) if m == "too few numbers for cmd M"));
}

#[test]
fn a_command_short_of_numbers_is_malformed_path_data() {
    assert!(matches!(read_path_data("M0"), Err(GeomError::Parse(m)) if m == "too few numbers for cmd M"));
    assert!(matches!(read_path_data("M0,0 L"), Err(GeomError::Parse(m)) if m == "too few numbers for cmd L"));
    assert!(matches!(read_path_data("M0,0 L5 Z"), Err(GeomError::Parse(m)) if m == "too few numbers for cmd L"));
    assert_eq!(read("Z"), vec![('Z', nums(&[]))]);
}

#[test]
fn empty_path_data_reads_to_nothing() {
    assert!(read("").is_empty());
    assert!(read("   ").is_empty());
}

#[test]
fn a_boolean_operation_needs_two_outlines() {
    assert_eq!(enough_to_combine(1), Err(GeomError::Degenerate));
    assert_eq!(enough_to_combine(0), Err(GeomError::Degenerate));
    assert!(enough_to_combine(2).is_ok());
    assert_ne!(BoolOp::Union, BoolOp::Exclude);
}
