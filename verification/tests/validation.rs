use pv::corrections::{normalize_correction_id, parse_correction_markdown_values};
use pv::validate::{
    validate_candidates_markdown, validate_corrections_markdown, validate_votes_markdown,
};

fn valid_votes_table() -> String {
    let mut lines = vec!["| ID | Value |".to_owned(), "|---|---|".to_owned()];
    for index in 1..=20 {
        lines.push(format!("| E.{index} | 1 |"));
    }
    lines.extend([
        "| E | 20 |".to_owned(),
        "| F | 2 |".to_owned(),
        "| G | 3 |".to_owned(),
        "| H | 25 |".to_owned(),
    ]);
    lines.join("\n")
}

#[test]
fn validates_expected_votes_table() {
    let report = validate_votes_markdown(&valid_votes_table());
    assert!(report.passed, "{:?}", report.errors);
}

#[test]
fn rejects_bad_candidate_sum() {
    let table = valid_votes_table().replace("| E | 20 |", "| E | 21 |");
    let report = validate_votes_markdown(&table);
    assert!(!report.passed);
    assert!(
        report
            .errors
            .iter()
            .any(|error| error.contains("E.1 through E.20 sum"))
    );
}

#[test]
fn rejects_unexpected_row_order() {
    let table = valid_votes_table().replace("| E.10 | 1 |", "| E.99 | 1 |");
    let report = validate_votes_markdown(&table);
    assert!(!report.passed);
    assert!(
        report
            .errors
            .iter()
            .any(|error| error.contains("expected ID E.10"))
    );
}

#[test]
fn validates_and_parses_correction_markdown() {
    let markdown = "\
| ID | First | Second | Difference | Note |
|---|---:|---:|---:|---|
| 1 | 247 | 248 | +1 | |
| blanco | 4 | 3 | -1 | stembiljet blanco/niet blanco |
";

    let report = validate_corrections_markdown(markdown);
    assert!(report.passed, "{:?}", report.errors);
    let corrections = parse_correction_markdown_values(markdown);
    assert_eq!(corrections.get("E.1").unwrap().first, Some(247));
    assert_eq!(corrections.get("E.1").unwrap().second, Some(248));
    assert_eq!(corrections.get("E.1").unwrap().difference, 1);
    assert_eq!(corrections.get("F").unwrap().difference, -1);
}

#[test]
fn aggregates_duplicate_correction_rows() {
    let markdown = "\
| ID | First | Second | Difference | Note |
|---|---:|---:|---:|---|
| E.4 | 49 | 48 | -1 | stembiljet was toch ongeldig |
| E.4 | | | +1 | 1 stem van een andere lijst |
| G | 1 | 2 | 1 |
";

    let report = validate_corrections_markdown(markdown);
    assert!(report.passed, "{:?}", report.errors);
    let corrections = parse_correction_markdown_values(markdown);
    assert_eq!(corrections.get("E.4").unwrap().first, None);
    assert_eq!(corrections.get("E.4").unwrap().second, None);
    assert_eq!(corrections.get("E.4").unwrap().difference, 0);
    assert_eq!(corrections.get("G").unwrap().first, Some(1));
    assert_eq!(corrections.get("G").unwrap().second, Some(2));
    assert_eq!(corrections.get("G").unwrap().difference, 1);
}

#[test]
fn trusts_correction_difference_when_count_cells_conflict() {
    let markdown = "\
| ID | First | Second | Difference | Note |
|---|---:|---:|---:|---|
| E.4 | 49 | 48 | 1 | overwritten count cell |
";

    let report = validate_corrections_markdown(markdown);
    assert!(report.passed, "{:?}", report.errors);
    let corrections = parse_correction_markdown_values(markdown);
    assert_eq!(corrections.get("E.4").unwrap().first, None);
    assert_eq!(corrections.get("E.4").unwrap().second, None);
    assert_eq!(corrections.get("E.4").unwrap().difference, 1);
}

#[test]
fn validates_candidate_vote_table() {
    let report = validate_candidates_markdown(
        "\
| Candidate | Votes |
|---:|---:|
| 26 | 0 |
| 27 | 13 |
| 28 | 2 |
",
    );

    assert!(report.passed, "{:?}", report.errors);
}

#[test]
fn skipped_vote_table_passes_without_errors() {
    let report = validate_votes_markdown("  <!-- pv-ocr-votes: skip -->\n\nSkipped: no crop.\n");
    assert!(report.passed);
    assert!(report.skipped);
    assert!(report.errors.is_empty());
}

#[test]
fn reports_wrong_line_count_and_ballot_sum() {
    let table = valid_votes_table().replace("| H | 25 |", "| H | 26 |");
    let report = validate_votes_markdown(&table);
    assert!(!report.passed);
    assert_eq!(report.errors, vec!["E + F + G is 25, but H is 26".to_owned()]);

    let short = "| ID | Value |\n|---|---|\n| E.1 | 1 |";
    let report = validate_votes_markdown(short);
    assert!(!report.passed);
    assert_eq!(report.errors[0], "expected 26 non-empty table lines, found 3");
}

#[test]
fn rejects_correction_row_with_unknown_id() {
    let markdown = "\
| ID | First | Second | Difference | Note |
|---|---:|---:|---:|---|
| X.4 | 49 | 48 | -1 | |
";
    let report = validate_corrections_markdown(markdown);
    assert!(!report.passed);
    let corrections = parse_correction_markdown_values(markdown);
    assert!(corrections.is_empty());
}

#[test]
fn rejects_non_consecutive_candidate_numbers() {
    let report = validate_candidates_markdown(
        "\
| Candidate | Votes |
|---:|---:|
| 1 | 0 |
| 3 | 13 |
",
    );
    assert!(!report.passed);
}

#[test]
fn normalized_correction_ids_stay_put() {
    for raw in ["7", "E.7", " blanco ", "BLANK", "ongeldig", "totaal geldige stemmen", "H"] {
        let id = normalize_correction_id(raw).unwrap();
        assert_eq!(normalize_correction_id(&id), Some(id.clone()));
    }
    assert_eq!(normalize_correction_id("20"), Some("E.20".to_owned()));
    assert_eq!(normalize_correction_id("21"), None);
    assert_eq!(normalize_correction_id("E.0"), None);
}

#[test]
fn maps_correction_ids_to_vote_rows() {
    for n in 1..=20 {
        let expected = Some(format!("E.{n}"));
        assert_eq!(normalize_correction_id(&n.to_string()), expected);
        assert_eq!(normalize_correction_id(&format!("E.{n}")), expected);
    }
    assert_eq!(normalize_correction_id("blanco"), Some("F".to_owned()));
    assert_eq!(normalize_correction_id("BLANK"), Some("F".to_owned()));
    assert_eq!(normalize_correction_id("ongeldig"), Some("G".to_owned()));
    assert_eq!(normalize_correction_id("invalid"), Some("G".to_owned()));
    assert_eq!(normalize_correction_id("totaal geldige stemmen"), Some("E".to_owned()));
    assert_eq!(normalize_correction_id("correctie uitgebrachte stemmen"), Some("H".to_owned()));
    assert_eq!(normalize_correction_id("0"), None);
    assert_eq!(normalize_correction_id("21"), None);
    assert_eq!(normalize_correction_id("E.21"), None);
}
