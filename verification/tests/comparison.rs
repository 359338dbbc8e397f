use pv::candidate_compare::compare_candidate_markdown_to_official;
use pv::candidates::{CandidateKey, CandidateValues};
use pv::compare::{
    correction_inconsistency_details, official_mismatches, parse_correction_document,
    parse_votes_markdown_values, recompute_aggregate_vote_totals, reverse_official_values,
};
use pv::comparison::{
    compare_one_markdown, mark_missing_candidate_ocr_incomplete, row_needs_mismatch_report,
    CandidateComparisonStatus, ComparisonStatus, OfficialStationResult,
};
use pv::official::read_official_results_csv;
use pv::problems::highlight_rows_for_row;
use pv::stations::{compare_markdown_to_official, requested_rows, StationCorrection, StationFiles};
use pv::votes::VoteValues;

fn valid_votes_table() -> String {
    let mut lines = vec!["| ID | Value |".to_owned(), "|---|---|".to_owned()];
    for index in 1..=20 {
        lines.push(format!("| E.{index} | 1 |"));
    }
    lines.extend([
        "| E | 20 |".to_owned(),
        "| F | 2 |".to_owned(),
        "| G | 3 |".to_owned(),
        "| H | 25 |".to_owned(),
    ]);
    lines.join("\n")
}

fn station(values: VoteValues) -> OfficialStationResult {
    OfficialStationResult {
        location: "School A".to_owned(),
        values,
        candidate_values: CandidateValues::new(),
    }
}

#[test]
fn parses_station_level_official_csv() {
    let mut csv = String::from(
        "\"Lijstnummer\";\"Aanduiding\";\"Volgnummer\";\"Naam kandidaat\";\"Totaal\";\"School A\";\"School B\"\n\
         \"Gebiednummer\";;;;;\"1\";\"2\"\n",
    );
    for index in 1..=20 {
        csv.push_str(&format!(
            "\"{index}\";\"Party {index}\";;;\"{}\";\"{}\";\"{}\"\n",
            index * 3,
            index,
            index * 2
        ));
        csv.push_str(&format!(
            ";;\"1\";\"Candidate {index}\";\"{}\";\"{}\";\"{}\"\n",
            index * 30,
            index * 10,
            index * 20
        ));
    }
    csv.push_str(
        ";\"geldige stembiljetten\";;;\"63\";\"21\";\"42\"\n\
         ;\"blanco stembiljetten\";;;\"3\";\"1\";\"2\"\n\
         ;\"ongeldige stembiljetten\";;;\"3\";\"1\";\"2\"\n\
         ;\"aangetroffen stembiljetten\";;;\"69\";\"23\";\"46\"\n",
    );

    let official = read_official_results_csv("official.csv", &csv).unwrap();

    assert_eq!(official.station_order, ["1", "2"]);
    assert_eq!(official.station("1").unwrap().location, "School A");
    assert_eq!(official.station("1").unwrap().values.get("E.1"), Some(1));
    assert_eq!(official.station("2").unwrap().values.get("E.20"), Some(40));
    assert_eq!(official.station("2").unwrap().values.get("H"), Some(46));
    assert_eq!(
        official
            .station("1")
            .unwrap()
            .candidate_values
            .get(&CandidateKey { list: 7, candidate: 1 }),
        Some(70)
    );
}

#[test]
fn official_csv_errors_name_the_problem() {
    let no_header = "\"Gebiednummer\";;;;;\"1\"\n";
    let error = read_official_results_csv("a.csv", no_header).unwrap_err();
    assert_eq!(error.text(), "a.csv does not contain a Lijstnummer header row");

    let no_area = "\"Lijstnummer\";;;;;\"School A\"\n";
    let error = read_official_results_csv("a.csv", no_area).unwrap_err();
    assert_eq!(error.message, "a.csv does not contain a Gebiednummer row");

    let no_columns = "\"Lijstnummer\";;;;;\"School A\"\n\"Gebiednummer\";;;;;\n";
    let error = read_official_results_csv("a.csv", no_columns).unwrap_err();
    assert_eq!(error.message, "a.csv does not contain station-level result columns");

    let bad_cell = "\"Lijstnummer\";;;;;\"School A\"\n\"Gebiednummer\";;;;;\"1\"\n\"1\";\"P\";;;\"3\";\"x\"\n";
    let error = read_official_results_csv("a.csv", bad_cell).unwrap_err();
    assert_eq!(error.message, "expected numeric CSV cell, found \"x\"");

    let incomplete = "\"Lijstnummer\";;;;;\"School A\"\n\"Gebiednummer\";;;;;\"1\"\n\"1\";\"P\";;;\"3\";\"4\"\n";
    let error = read_official_results_csv("a.csv", incomplete).unwrap_err();
    assert!(error.message.starts_with("a.csv is missing official result row(s) for station 1: E.2, E.3"));

    let unterminated = "\"Lijstnummer;x\n";
    let error = read_official_results_csv("a.csv", unterminated).unwrap_err();
    assert!(error.message.starts_with("unterminated quoted CSV field in"));
}

#[test]
fn compares_candidate_markdown_against_official_values() {
    let path = "Test_1_School_A_lijst-01_Party_kolom-1.md".to_owned();
    let markdown = "\
| Candidate | Votes |
|---:|---:|
| 1 | 7 |
| 2 | 3 |
"
    .to_owned();
    let mut candidate_values = CandidateValues::new();
    candidate_values.insert(CandidateKey { list: 1, candidate: 1 }, 7);
    candidate_values.insert(CandidateKey { list: 1, candidate: 2 }, 4);
    let official = OfficialStationResult {
        location: "School A".to_owned(),
        values: VoteValues::new(),
        candidate_values,
    };

    let comparison =
        compare_candidate_markdown_to_official(&official, &vec![path], &vec![Ok(markdown)]);

    assert_eq!(comparison.status, CandidateComparisonStatus::Mismatch);
    assert!(comparison.details.contains("L1.2: md=3, official=4"));
}

#[test]
fn candidate_comparison_reports_missing_and_unknown_candidates() {
    let mut candidate_values = CandidateValues::new();
    for candidate in 1..=3 {
        candidate_values.insert(CandidateKey { list: 1, candidate }, candidate);
        candidate_values.insert(CandidateKey { list: 2, candidate }, candidate);
    }
    let official = OfficialStationResult {
        location: "School A".to_owned(),
        values: VoteValues::new(),
        candidate_values,
    };
    let markdown = "| Candidate | Votes |\n|---:|---:|\n| 1 | 1 |\n".to_owned();
    let comparison = compare_candidate_markdown_to_official(
        &official,
        &vec!["S_1_lijst-01_P.md".to_owned()],
        &vec![Ok(markdown)],
    );
    assert_eq!(comparison.status, CandidateComparisonStatus::Incomplete);
    assert_eq!(
        comparison.details,
        "list 1 missing candidate(s) 2, 3; list 2 missing all 3 candidates"
    );
    assert_eq!(comparison.compared_values, 1);
    assert_eq!(comparison.expected_values, 6);

    let extra = "| Candidate | Votes |\n|---:|---:|\n| 9 | 1 |\n".to_owned();
    let comparison = compare_candidate_markdown_to_official(
        &official,
        &vec!["S_1_lijst-02_P.md".to_owned(), "no-list.md".to_owned()],
        &vec![Ok(extra), Err("gone".to_owned())],
    );
    assert_eq!(comparison.status, CandidateComparisonStatus::InternallyInconsistent);
    assert!(comparison.details.contains("no-list.md: could not parse list number from file name"));
    assert!(comparison.details.contains("L2.9 is not present in the official candidate list"));
}

#[test]
fn compares_markdown_against_official_values() {
    let path = "Test_1_School_A.md";
    let official = station(parse_votes_markdown_values(&valid_votes_table()));

    let row = compare_one_markdown(path, &Ok(valid_votes_table()), "1", &official, None, None, false);
    assert_eq!(row.status, ComparisonStatus::FullyMatches);

    let mut changed_official = official;
    changed_official.values.insert("E.1", 2);
    let row = compare_one_markdown(
        path,
        &Ok(valid_votes_table()),
        "1",
        &changed_official,
        None,
        None,
        false,
    );

    assert_eq!(row.status, ComparisonStatus::Mismatch);
    assert!(row.details.contains("E.1: md=1, official=2"));
}

#[test]
fn highlights_exact_official_mismatches_for_internal_errors() {
    let table = valid_votes_table().replace("| E.1 | 1 |", "| E.1 | 2 |");
    let official = station(parse_votes_markdown_values(&valid_votes_table()));

    let row = compare_one_markdown("Test_1_School_A.md", &Ok(table.clone()), "1", &official, None, None, false);
    let highlight_rows = highlight_rows_for_row(&row, Some(&table));

    assert_eq!(row.status, ComparisonStatus::InternallyInconsistent);
    assert!(row.details.contains("E.1 through E.20 sum"));
    assert!(row.details.contains("E.1: md=2, official=1"));
    assert_eq!(highlight_rows.official, vec!["E.1".to_owned()]);
    assert_eq!(highlight_rows.internal, vec!["E".to_owned()]);
}

#[test]
fn reverses_round_two_official_values_with_corrections() {
    let correction = parse_correction_document(
        "Test_1_School_A.md",
        "\
| ID | First | Second | Difference | Note |
|---|---:|---:|---:|---|
| E.1 | 1 | 2 | 1 | |
",
    );
    let mut round_two_values =
        parse_votes_markdown_values(&valid_votes_table().replace("| E.1 | 1 |", "| E.1 | 2 |"));
    round_two_values.insert("E", 21);
    round_two_values.insert("H", 26);
    let official = station(round_two_values);

    let row = compare_one_markdown(
        "Test_1_School_A_eerste_telling.md",
        &Ok(valid_votes_table()),
        "1",
        &official,
        Some(&correction),
        None,
        true,
    );

    assert_eq!(row.status, ComparisonStatus::FullyMatches);
    assert_eq!(row.official_values.get("E.1"), Some(1));
    assert_eq!(row.official_values.get("E"), Some(20));
    assert_eq!(row.official_values.get("H"), Some(25));
}

#[test]
fn marks_correction_table_conflicts_separately() {
    let correction = parse_correction_document(
        "Test_1_School_A.md",
        "\
| ID | First | Second | Difference | Note |
|---|---:|---:|---:|---|
| E.16 | 13 | 23 | 10 | |
",
    );
    let table = valid_votes_table()
        .replace("| E.13 | 1 |", "| E.13 | 13 |")
        .replace("| E.16 | 1 |", "| E.16 | 23 |")
        .replace("| E | 20 |", "| E | 54 |")
        .replace("| H | 25 |", "| H | 59 |");
    let mut round_two_values = parse_votes_markdown_values(&table);
    round_two_values.insert("E.13", 23);
    recompute_aggregate_vote_totals(&mut round_two_values);
    let official = station(round_two_values);

    let row = compare_one_markdown(
        "Test_1_School_A_eerste_telling.md",
        &Ok(table),
        "1",
        &official,
        Some(&correction),
        None,
        true,
    );

    assert_eq!(row.status, ComparisonStatus::CorrectionInconsistent);
    assert!(row.details.contains("correction E.16 first=13, Markdown=23, second=23"));
    assert!(row.details.contains("maybe belongs to E.13"));
    assert!(row.details.contains("E.13: md=13, official=23"));
    assert!(row.details.contains("E.16: md=23, official=13"));
}

#[test]
fn missing_correction_is_not_incomplete_when_round_two_matches() {
    let official = station(parse_votes_markdown_values(&valid_votes_table()));

    let row = compare_one_markdown(
        "Test_1_School_A_eerste_telling.md",
        &Ok(valid_votes_table()),
        "1",
        &official,
        None,
        None,
        true,
    );

    assert_eq!(row.status, ComparisonStatus::FullyMatches);
    assert!(row.details.is_empty());
}

#[test]
fn marks_first_count_comparison_incomplete_without_needed_correction() {
    let official = station(parse_votes_markdown_values(
        &valid_votes_table().replace("| E.1 | 1 |", "| E.1 | 2 |"),
    ));

    let row = compare_one_markdown(
        "Test_1_School_A_eerste_telling.md",
        &Ok(valid_votes_table()),
        "1",
        &official,
        None,
        None,
        true,
    );

    assert_eq!(row.status, ComparisonStatus::Incomplete);
    assert_eq!(row.details, "missing correction OCR");
}

#[test]
fn marks_unapplied_corrections_as_correction_inconsistent() {
    let correction = parse_correction_document(
        "Test_1_School_A.md",
        "\
| ID | First | Second | Difference | Note |
|---|---:|---:|---:|---|
| E.1 | 1 | 2 | 1 | |
",
    );
    let official = station(parse_votes_markdown_values(
        &valid_votes_table().replace("| E.1 | 1 |", "| E.1 | 3 |"),
    ));

    let row = compare_one_markdown(
        "Test_1_School_A_eerste_telling.md",
        &Ok(valid_votes_table()),
        "1",
        &official,
        Some(&correction),
        None,
        true,
    );

    assert_eq!(row.status, ComparisonStatus::CorrectionInconsistent);
    assert_eq!(row.details, "could not apply corrections: E.1 second=2, official=3");
}

#[test]
fn unreadable_markdown_is_internally_inconsistent() {
    let official = station(parse_votes_markdown_values(&valid_votes_table()));
    let row = compare_one_markdown(
        "x.md",
        &Err("permission denied".to_owned()),
        "1",
        &official,
        None,
        None,
        false,
    );
    assert_eq!(row.status, ComparisonStatus::InternallyInconsistent);
    assert_eq!(row.details, "could not read Markdown: permission denied");
    assert_eq!(row.markdown_path.as_deref(), Some("x.md"));
}

#[test]
fn reverse_reports_corrections_that_do_not_fit() {
    let correction = parse_correction_document(
        "c.md",
        "\
| ID | First | Second | Difference | Note |
|---|---:|---:|---:|---|
| E.2 | | | 5 | |
| F | 7 | 9 | 2 | |
",
    );
    let official = parse_votes_markdown_values(&valid_votes_table());
    let (values, errors) = reverse_official_values(&official, &correction);
    assert_eq!(errors, vec!["E.2 reverses below zero".to_owned(), "F second=9, official=2".to_owned()]);
    assert_eq!(values.get("E.2"), Some(1));
    assert_eq!(values.get("F"), Some(2));
}

#[test]
fn mismatches_list_rows_in_table_order() {
    let a = parse_votes_markdown_values(&valid_votes_table());
    let mut b = parse_votes_markdown_values(&valid_votes_table());
    b.insert("H", 30);
    b.insert("E.10", 5);
    let lines = official_mismatches(&a, &b);
    assert_eq!(lines, vec!["E.10: md=1, official=5".to_owned(), "H: md=25, official=30".to_owned()]);
    let empty = VoteValues::new();
    let lines = official_mismatches(&empty, &a);
    assert_eq!(lines.len(), 24);
    assert_eq!(lines[0], "E.1: md=missing, official=1");
}

#[test]
fn missing_candidate_ocr_is_marked_incomplete_on_reported_rows() {
    let mut candidate_values = CandidateValues::new();
    candidate_values.insert(CandidateKey { list: 1, candidate: 1 }, 7);
    let official = OfficialStationResult {
        location: "School A".to_owned(),
        values: parse_votes_markdown_values(&valid_votes_table().replace("| E.1 | 1 |", "| E.1 | 2 |")),
        candidate_values,
    };
    let mut row = compare_one_markdown("a.md", &Ok(valid_votes_table()), "1", &official, None, None, false);
    assert_eq!(row.status, ComparisonStatus::Mismatch);
    mark_missing_candidate_ocr_incomplete(&mut row, &official);
    let candidates = row.candidates.as_ref().unwrap();
    assert_eq!(candidates.status, CandidateComparisonStatus::Incomplete);
    assert_eq!(candidates.expected_values, 1);
    assert!(row_needs_mismatch_report(&row));
}

#[test]
fn compares_every_station_in_column_order() {
    let mut csv = String::from(
        "\"Lijstnummer\";\"Aanduiding\";\"Volgnummer\";\"Naam kandidaat\";\"Totaal\";\"School A\";\"School B\"\n\
         \"Gebiednummer\";;;;;\"1\";\"2\"\n",
    );
    for index in 1..=20 {
        csv.push_str(&format!("\"{index}\";\"Party {index}\";;;\"2\";\"1\";\"1\"\n"));
    }
    csv.push_str(
        ";\"geldige stembiljetten\";;;\"40\";\"20\";\"20\"\n\
         ;\"blanco stembiljetten\";;;\"4\";\"2\";\"2\"\n\
         ;\"ongeldige stembiljetten\";;;\"6\";\"3\";\"3\"\n\
         ;\"aangetroffen stembiljetten\";;;\"50\";\"25\";\"25\"\n",
    );
    let official = read_official_results_csv("gsb.csv", &csv).unwrap();
    let markdown = vec![
        StationFiles {
            station: "1".to_owned(),
            paths: vec!["Test_1_School_A.md".to_owned()],
            contents: vec![Ok(valid_votes_table())],
        },
        StationFiles {
            station: "9".to_owned(),
            paths: vec!["Test_9_Elsewhere.md".to_owned()],
            contents: vec![Ok(valid_votes_table())],
        },
    ];
    let corrections: Vec<StationCorrection> = Vec::new();
    let candidates: Vec<StationFiles> = Vec::new();
    let rows = compare_markdown_to_official(&official, &markdown, &corrections, &candidates, false);
    assert_eq!(rows.len(), 3);
    assert_eq!(rows[0].station, "1");
    assert_eq!(rows[0].status, ComparisonStatus::FullyMatches);
    assert_eq!(rows[1].station, "2");
    assert_eq!(rows[1].status, ComparisonStatus::Missing);
    assert_eq!(rows[1].details, "no Markdown result");
    assert_eq!(rows[2].station, "9");
    assert_eq!(rows[2].details, "station not found in official CSV: Test_9_Elsewhere.md");
    assert_eq!(requested_rows(&rows, &vec!["9".to_owned(), "1".to_owned()]), vec![0, 2]);
    assert_eq!(requested_rows(&rows, &vec!["2".to_owned()]), vec![1]);
    assert!(requested_rows(&rows, &vec!["7".to_owned()]).is_empty());
}

#[test]
fn undoing_corrections_recomputes_the_totals() {
    let correction = parse_correction_document(
        "Test_1_School_A.md",
        "\
| ID | First | Second | Difference | Note |
|---|---:|---:|---:|---|
| E.3 | | 7 | 4 | |
| F | 1 | 2 | 1 | |
",
    );
    let mut official = parse_votes_markdown_values(&valid_votes_table());
    official.insert("E.3", 7);
    official.insert("E", 26);
    official.insert("H", 31);
    let (values, errors) = reverse_official_values(&official, &correction);
    assert!(errors.is_empty());
    assert_eq!(values.get("E.3"), Some(3));
    assert_eq!(values.get("F"), Some(1));
    assert_eq!(values.get("E.4"), Some(1));
    assert_eq!(values.get("E"), Some(22));
    assert_eq!(values.get("H"), Some(26));
}

#[test]
fn inconsistent_corrections_name_the_row_they_may_belong_to() {
    let correction = parse_correction_document(
        "Test_1_School_A.md",
        "\
| ID | First | Second | Difference | Note |
|---|---:|---:|---:|---|
| E.16 | 13 | 23 | 10 | |
| E.2 | 5 | 6 | 1 | |
",
    );
    let mut markdown = parse_votes_markdown_values(&valid_votes_table());
    markdown.insert("E.13", 13);
    markdown.insert("E.16", 23);
    let mut official = parse_votes_markdown_values(&valid_votes_table());
    official.insert("E.13", 23);
    let details = correction_inconsistency_details(&markdown, &official, &correction);
    assert_eq!(
        details,
        vec!["correction E.16 first=13, Markdown=23, second=23, maybe belongs to E.13".to_owned()]
    );
    official.insert("E.13", 22);
    let details = correction_inconsistency_details(&markdown, &official, &correction);
    assert_eq!(details, vec!["correction E.16 first=13, Markdown=23, second=23".to_owned()]);
}

#[test]
fn parsed_values_of_a_valid_table_add_up() {
    let values = parse_votes_markdown_values(&valid_votes_table());
    let mut sum = 0;
    for index in 1..=20 {
        assert_eq!(values.get(&format!("E.{index}")), Some(1));
        sum += 1;
    }
    assert_eq!(values.get("E"), Some(sum));
    assert_eq!(values.get("H"), Some(sum + 2 + 3));
}
