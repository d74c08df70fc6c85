use cuthulhu::pass_key::PassKey;
use cuthulhu::plan::{select_passes, PassSelection, PlanOptions, SelectionError};
use cuthulhu::transport::Settings;

const RED: u32 = 0xFF0000FF;
const BLUE: u32 = 0x0000FFFF;

fn planned(colors: &[u32]) -> Vec<PassKey> {
    colors.iter().map(|&c| PassKey::Color(Some(c))).collect()
}

fn select(colors: &[u32]) -> Vec<PassSelection> {
    colors
        .iter()
        .map(|&c| PassSelection { key: PassKey::Color(Some(c)), settings: Settings::default() })
        .collect()
}

fn opts(passes: Vec<PassSelection>) -> PlanOptions {
    PlanOptions { passes, expect_revision: None, allow_out_of_bounds: false }
}

#[test]
fn stale_revision_is_refused() {
    let planned_against: u64 = 11;
    let now: u64 = 12;
    let mut o = opts(select(&[RED]));
    o.expect_revision = Some(planned_against);
    let err = select_passes(&planned(&[RED, BLUE]), now, &o).unwrap_err();
    assert!(
        matches!(err, SelectionError::StalePlan { expected, actual } if expected == planned_against && actual == now),
        "expected StalePlan, got {err:?}"
    );
}

#[test]
fn a_matching_revision_is_not_stale() {
    let mut o = opts(select(&[RED]));
    o.expect_revision = Some(5);
    assert_eq!(select_passes(&planned(&[RED]), 5, &o).unwrap(), vec![0]);
}

#[test]
fn an_unknown_pass_is_refused_not_dropped() {
    let err = select_passes(&planned(&[RED]), 0, &opts(select(&[0xDEADBEEF]))).unwrap_err();
    assert!(matches!(err, SelectionError::UnknownPass(k) if k == PassKey::Color(Some(0xDEADBEEF))));
}

#[test]
fn one_pass_selected_twice_is_refused_not_cut_twice() {
    let err = select_passes(&planned(&[RED]), 0, &opts(select(&[RED, RED]))).unwrap_err();
    assert!(matches!(err, SelectionError::DuplicatePass(k) if k == PassKey::Color(Some(RED))));
}

#[test]
fn selection_order_is_cut_order() {
    let chosen = select_passes(&planned(&[RED, BLUE]), 0, &opts(select(&[BLUE, RED]))).unwrap();
    assert_eq!(chosen, vec![1, 0]);
}

#[test]
fn a_pass_absent_from_the_selection_is_not_cut() {
    let chosen = select_passes(&planned(&[RED, BLUE]), 0, &opts(select(&[RED]))).unwrap();
    assert_eq!(chosen, vec![0]);
}

#[test]
fn an_empty_selection_is_nothing_to_cut() {
    let chosen = select_passes(&planned(&[RED]), 0, &opts(vec![])).unwrap();
    assert!(chosen.is_empty(), "nothing selected, so preflight sees no pass at all");
}

#[test]
fn plan_every_refusal_has_a_sentence_and_a_code() {
    let stale = SelectionError::StalePlan { expected: 7, actual: 9 };
    assert_eq!(stale.code(), "stale_plan");
    assert_eq!(stale.message(), "the document changed since this cut was planned");

    for (key, sentence) in [
        (PassKey::Color(Some(0xFF0000FF)), "no planned pass is called color:ff0000ff"),
        (PassKey::Color(None), "no planned pass is called no-color"),
        (PassKey::All, "no planned pass is called all"),
        (PassKey::Preset(Some("cameo5-htv".into())), "no planned pass is called preset:cameo5-htv"),
        (PassKey::Preset(None), "no planned pass is called no-preset"),
    ] {
        let err = SelectionError::UnknownPass(key);
        assert_eq!(err.code(), "unknown_pass");
        assert_eq!(err.message(), sentence);
    }

    let duplicate = SelectionError::DuplicatePass(PassKey::Color(Some(0xFF0000FF)));
    assert_eq!(duplicate.code(), "duplicate_pass");
    assert_eq!(duplicate.message(), "the pass color:ff0000ff is selected more than once");
}
