use pv::comparison::{
    CandidateComparison, CandidateComparisonStatus, ComparisonRow, ComparisonStatus,
};
use pv::layout::{
    bitmap_glyph, bitmap_text_height, bitmap_text_width, blend_pixel, grouped_line_centers,
    line_centers_fit_exec,
    median_spacing, padded_band,
};
use pv::official::OfficialResults;
use pv::render::{
    candidate_comparison_counts, candidate_report_reason, char_width, collapse_whitespace,
    comparison_counts, escape_markdown_table_cell, format_status, mismatch_report_markdown_link,
    pad_left, pad_right, render_markdown_comparison_report, report_reason, short_markdown_reason,
    station_report_reason, status_badge, terminal_cell, terminal_reason, truncate_text,
};
use pv::report::{shorten_detail, shorten_reason};
use pv::terminal::{render_terminal_comparison_report, status_column_width, terminal_width_from};
use pv::votes::VoteValues;

fn row(
    station: &str,
    location: &str,
    status: ComparisonStatus,
    details: &str,
    candidates: Option<CandidateComparison>,
) -> ComparisonRow {
    ComparisonRow {
        station: station.to_owned(),
        location: location.to_owned(),
        markdown_path: None,
        correction_path: None,
        official_values: VoteValues::new(),
        status,
        details: details.to_owned(),
        candidates,
    }
}

fn candidate_result(status: CandidateComparisonStatus, details: &str) -> CandidateComparison {
    CandidateComparison {
        paths: Vec::new(),
        status,
        details: details.to_owned(),
        compared_values: 0,
        expected_values: 0,
    }
}

fn official() -> OfficialResults {
    OfficialResults {
        source_path: "official.csv".to_owned(),
        station_order: Vec::new(),
        stations: Vec::new(),
    }
}

#[test]
fn shortens_terminal_reasons() {
    assert_eq!(
        shorten_reason("E.1: md=198, official=199; E.2: md=107, official=106"),
        "E.1 198->199; E.2 107->106"
    );
    assert_eq!(
        shorten_reason("E.1 through E.20 sum to 499, but E is 0; E + F + G is 0, but H is 500"),
        "sum(E.1-E.20) 499!=0; E+F+G 0!=500"
    );
    assert_eq!(
        shorten_reason("E.1: md=1, official=2; E.2: md=3, official=4; E.3: md=5, official=6"),
        "E.1 1->2; E.2 3->4; +1"
    );
}

#[test]
fn shortens_each_kind_of_detail() {
    assert_eq!(
        shorten_detail("candidate votes mismatch: L1.2: md=3, official=4"),
        "candidate mismatch: L1.2 3->4"
    );
    assert_eq!(
        shorten_detail("correction E.16 first=13, Markdown=23, second=23, maybe belongs to E.13"),
        "correction E.16 13->23, maybe E.13, md=23"
    );
    assert_eq!(
        shorten_detail("correction E.2 first=1, Markdown=5, second=2"),
        "correction E.2 1->2, md=5"
    );
    assert_eq!(
        shorten_detail("expected 26 non-empty table lines, found 25"),
        "rows 25/26"
    );
    assert_eq!(
        shorten_detail("row 3 expected ID E.3, found E.4"),
        "row 3 E.3->E.4"
    );
    assert_eq!(shorten_detail("missing row 4 for E.4"), "missing row 4 E.4");
    assert_eq!(
        shorten_detail("could not read Markdown: no such file"),
        "read error: no such file"
    );
    assert_eq!(
        shorten_detail("station not found in official CSV: a.md"),
        "not in CSV: a.md"
    );
    assert_eq!(
        shorten_detail("missing correction OCR"),
        "missing correction OCR"
    );
    assert_eq!(
        shorten_detail("invalid correction OCR: bad row"),
        "bad correction OCR: bad row"
    );
    assert_eq!(
        shorten_detail("could not apply corrections: E.1 second=2, official=3"),
        "bad correction: E.1 second=2, official=3"
    );
    assert_eq!(shorten_detail("something else"), "something else");
    assert_eq!(shorten_reason(""), "");
    assert_eq!(short_markdown_reason(""), "");
    assert_eq!(short_markdown_reason("E.1: md=1, official=2"), "E.1 1->2");
}

#[test]
fn pads_and_truncates_cells() {
    assert_eq!(char_width("héllo"), 5);
    assert_eq!(pad_right("ab", 4), "ab  ");
    assert_eq!(pad_left("ab", 4), "  ab");
    assert_eq!(pad_right("abcdef", 4), "abcdef");
    assert_eq!(truncate_text("abcdefgh", 6), "abc...");
    assert_eq!(truncate_text("abcdef", 2), "ab");
    assert_eq!(truncate_text("abc", 3), "abc");
    assert_eq!(collapse_whitespace("  a \t b\n c  "), "a b c");
    assert_eq!(collapse_whitespace(""), "");
    assert_eq!(escape_markdown_table_cell("a|b\nc"), "a\\|b c");
    assert_eq!(terminal_cell("   ", 5), "-    ");
    assert_eq!(terminal_cell(" School   A ", 10), "School A  ");
    assert_eq!(terminal_cell("a very long location", 8), "a ver...");
}

#[test]
fn formats_statuses_and_badges() {
    assert_eq!(status_column_width(), 23);
    assert_eq!(format_status(ComparisonStatus::Mismatch, 10, false), "mismatch  ");
    assert_eq!(
        format_status(ComparisonStatus::Mismatch, 10, true),
        "\x1b[31mmismatch  \x1b[0m"
    );
    assert_eq!(
        format_status(ComparisonStatus::FullyMatches, 13, true),
        "\x1b[32mfully matches\x1b[0m"
    );
    assert_eq!(
        status_badge("mismatch"),
        "<span style=\"color:#d73a49\"><strong>mismatch</strong></span>"
    );
    assert_eq!(
        status_badge("something"),
        "<span style=\"color:#24292e\"><strong>something</strong></span>"
    );
}

#[test]
fn reasons_combine_station_and_candidate_details() {
    let plain = row("1", "School A", ComparisonStatus::Mismatch, "E.1: md=1, official=2", None);
    assert_eq!(station_report_reason(&plain), "E.1: md=1, official=2");
    assert_eq!(candidate_report_reason(&plain), "");
    assert_eq!(report_reason(&plain), "E.1: md=1, official=2");
    assert_eq!(terminal_reason(&plain), "E.1 1->2");

    let missing = row("2", "School B", ComparisonStatus::Missing, "no Markdown result", None);
    assert_eq!(station_report_reason(&missing), "");

    let both = row(
        "3",
        "School C",
        ComparisonStatus::Mismatch,
        "E.1: md=1, official=2",
        Some(candidate_result(
            CandidateComparisonStatus::Mismatch,
            "L1.2: md=3, official=4",
        )),
    );
    assert_eq!(
        report_reason(&both),
        "E.1: md=1, official=2; candidate votes mismatch: L1.2: md=3, official=4"
    );
    assert_eq!(terminal_reason(&both), "E.1 1->2; candidate mismatch: L1.2 3->4");

    let no_details = row(
        "4",
        "School D",
        ComparisonStatus::FullyMatches,
        "",
        Some(candidate_result(CandidateComparisonStatus::Incomplete, "")),
    );
    assert_eq!(candidate_report_reason(&no_details), "candidate votes incomplete");
    assert_eq!(
        mismatch_report_markdown_link(Some("out/mismatch reports"), &no_details),
        "[details](mismatch reports/station-4.md)"
    );
    assert_eq!(mismatch_report_markdown_link(None, &no_details), "");
    let matching = row("5", "School E", ComparisonStatus::FullyMatches, "", None);
    assert_eq!(mismatch_report_markdown_link(Some("out"), &matching), "");
}

#[test]
fn counts_rows_by_status() {
    let rows = vec![
        row("1", "A", ComparisonStatus::Mismatch, "", None),
        row("2", "B", ComparisonStatus::Mismatch, "", None),
        row(
            "3",
            "C",
            ComparisonStatus::Missing,
            "",
            Some(candidate_result(CandidateComparisonStatus::FullyMatches, "")),
        ),
    ];
    // Missing, Incomplete, CorrectionInconsistent, InternallyInconsistent,
    // FullyMatches, Mismatch.
    assert_eq!(comparison_counts(&rows), vec![1, 0, 0, 0, 0, 2]);
    // Incomplete, InternallyInconsistent, FullyMatches, Mismatch.
    assert_eq!(candidate_comparison_counts(&rows), vec![0, 0, 1, 0]);
}

#[test]
fn renders_markdown_comparison_report() {
    let rows = vec![
        row("1", "School A", ComparisonStatus::Mismatch, "E.1: md=1, official=2", None),
        row(
            "2",
            "School|B",
            ComparisonStatus::FullyMatches,
            "",
            Some(candidate_result(
                CandidateComparisonStatus::Mismatch,
                "L1.2: md=3, official=4",
            )),
        ),
    ];
    let report = render_markdown_comparison_report(
        &official(),
        "results",
        "corr",
        "cand",
        Some("out/mismatches"),
        &rows,
    );
    let expected = "Official CSV: official.csv\n\
Markdown directory: results\n\
Corrections directory: corr\n\
Candidates directory: cand\n\
Mismatch reports: out/mismatches\n\
\n\
| Station | Location | Status | Reason | Candidate Status | Candidate Reason | Report |\n\
|---:|---|---|---|---|---|---|\n\
| 1 | School A | <span style=\"color:#d73a49\"><strong>mismatch</strong></span> | E.1 1->2 | <span style=\"color:#6a737d\"><strong>not checked</strong></span> |  | [details](mismatches/station-1.md) |\n\
| 2 | School\\|B | <span style=\"color:#22863a\"><strong>fully matches</strong></span> |  | <span style=\"color:#d73a49\"><strong>mismatch</strong></span> | candidate mismatch: L1.2 3->4 | [details](mismatches/station-2.md) |\n\
\n\
Summary:\n\
- missing: 0\n\
- incomplete: 0\n\
- correction inconsistent: 0\n\
- internally inconsistent: 0\n\
- mismatch: 1\n\
- fully matches: 1\n\
\n\
Candidate summary:\n\
- incomplete: 0\n\
- internally inconsistent: 0\n\
- mismatch: 1\n\
- fully matches: 0\n\
- not checked: 1\n";
    assert_eq!(report, expected);
}

#[test]
fn renders_terminal_comparison_report() {
    let rows = vec![row(
        "1",
        "School A",
        ComparisonStatus::Mismatch,
        "E.1: md=1, official=2",
        None,
    )];
    let report = render_terminal_comparison_report(
        &official(),
        "results",
        "corr",
        "cand",
        None,
        &rows,
        80,
        false,
    );
    let mut expected = String::new();
    expected.push_str("Official CSV        official.csv\n");
    expected.push_str("Markdown directory  results\n");
    expected.push_str("Corrections dir     corr\n");
    expected.push_str("Candidates dir      cand\n");
    expected.push_str("\nSummary\n");
    for (label, count) in [
        ("missing", 0),
        ("incomplete", 0),
        ("correction inconsistent", 0),
        ("internally inconsistent", 0),
        ("mismatch", 1),
        ("fully matches", 0),
    ] {
        expected.push_str(&format!("  {:<23} {}\n", label, count));
    }
    expected.push('\n');
    expected.push_str(&format!(
        "{:>7}  {:<28}  {:<23}  {:<36}\n",
        "Station", "Location", "Status", "Reason"
    ));
    expected.push_str(&format!(
        "{}  {}  {}  {}\n",
        "-".repeat(7),
        "-".repeat(28),
        "-".repeat(23),
        "-".repeat(36)
    ));
    expected.push_str(&format!(
        "{:>7}  {:<28}  {:<23}  {:<36}\n",
        "1", "School A", "mismatch", "E.1 1->2"
    ));
    assert_eq!(report, expected);
}

#[test]
fn terminal_report_lists_candidate_summary_when_checked() {
    let rows = vec![row(
        "12345678",
        "School A",
        ComparisonStatus::FullyMatches,
        "",
        Some(candidate_result(CandidateComparisonStatus::FullyMatches, "")),
    )];
    let report = render_terminal_comparison_report(
        &official(),
        "results",
        "corr",
        "cand",
        Some("out"),
        &rows,
        200,
        false,
    );
    assert!(report.contains("Mismatch reports   out\n"));
    let summary = format!(
        "\nCandidate summary\n  {:<23} 0\n  {:<23} 0\n  {:<23} 0\n  {:<23} 1\n  {:<23} 0\n",
        "incomplete", "internally inconsistent", "mismatch", "fully matches", "not checked"
    );
    assert!(report.contains(&summary), "{report}");
    // Station column 8 wide; the rest of 200 columns goes to location
    // (capped at 48) and reason.
    let flexible = 200 - (23 + 8 + 6);
    let reason_width = flexible - 48;
    assert!(report.ends_with(&format!(
        "{:>8}  {:<48}  {:<23}  {:<w$}\n",
        "12345678",
        "School A",
        "fully matches",
        "-",
        w = reason_width
    )));
}

#[test]
fn measures_bitmap_text() {
    assert_eq!(
        bitmap_glyph('e'),
        Some(["11111", "10000", "10000", "11110", "10000", "10000", "11111"])
    );
    assert_eq!(bitmap_glyph('z'), None);
    // Two glyphs and a space at scale 2, less the trailing gap.
    assert_eq!(bitmap_text_width("AE ", 2), 30);
    assert_eq!(bitmap_text_width("", 3), 0);
    assert_eq!(bitmap_text_width("?", 3), 9);
    assert_eq!(bitmap_text_height(3), 21);
}

#[test]
fn groups_detected_line_rows() {
    assert_eq!(grouped_line_centers(&[10, 11, 12, 20, 21, 40]), vec![11, 20, 40]);
    assert_eq!(grouped_line_centers(&[]), Vec::<u32>::new());
    let high = [2147483645, 2147483647, 2147483649];
    assert!(line_centers_fit_exec(&high));
    assert_eq!(grouped_line_centers(&high), vec![2147483647]);
    assert!(!line_centers_fit_exec(&[u32::MAX - 1, u32::MAX]));
    assert!(!line_centers_fit_exec(&[u32::MAX - 3, u32::MAX - 2]));
    assert!(!line_centers_fit_exec(&[u32::MAX]));
    assert!(line_centers_fit_exec(&[u32::MAX / 2]));
    assert_eq!(median_spacing(&[0, 10, 30, 35]), 10);
    assert_eq!(median_spacing(&[5]), 1);
    assert_eq!(median_spacing(&[10, 5, 20]), 15);
    assert_eq!(padded_band(100, 200, 1000), (90, 210));
    assert_eq!(padded_band(1, 5, 4), (0, 4));
}

#[test]
fn blends_pixels() {
    let mut pixel = [100u8, 200, 0, 77];
    blend_pixel(&mut pixel, [200, 0, 255], 51);
    assert_eq!(pixel, [120, 160, 51, 77]);
    let mut opaque = [1u8, 2, 3];
    blend_pixel(&mut opaque, [9, 8, 7], 255);
    assert_eq!(opaque, [9, 8, 7]);
}

#[test]
fn reads_terminal_width_from_columns() {
    assert_eq!(terminal_width_from(Some("100")), 100);
    assert_eq!(terminal_width_from(Some("80")), 80);
    assert_eq!(terminal_width_from(Some("79")), 120);
    assert_eq!(terminal_width_from(Some("wide")), 120);
    assert_eq!(terminal_width_from(Some("")), 120);
    assert_eq!(terminal_width_from(None), 120);
}

#[test]
fn unrecognised_details_pass_through() {
    assert_eq!(shorten_detail("something else entirely"), "something else entirely");
    assert_eq!(shorten_detail("missing correction OCR"), "missing correction OCR");
    for c in "ERROR OCR OFFICIAL (CORRECTED) 0123456789-".chars().filter(|c| *c != ' ') {
        assert!(bitmap_glyph(c).is_some());
        assert!(bitmap_glyph(c.to_ascii_lowercase()).is_some());
    }
}

#[test]
fn one_centre_per_run_of_close_rows() {
    assert_eq!(grouped_line_centers(&[10, 11, 12, 20, 23, 24]), vec![11, 20, 23]);
    assert_eq!(grouped_line_centers(&[5]), vec![5]);
    assert_eq!(grouped_line_centers(&[1, 3, 5, 7]), vec![4]);
}
