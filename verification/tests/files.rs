use pv::comparison::{ComparisonRow, ComparisonStatus};
use pv::listing::{
    default_pdfs, files_by_station, largest_image, raster_image_path, requested_image_not_found,
    resolve_ocr_image, resolve_station_ocr_image, resolve_station_pdf, ImageRequest,
};
use pv::mismatch_report::{
    correction_note_for_report, highlighted_image_note, mismatch_report_base_name,
    mismatch_report_markdown, missing_table_crop_note, no_markdown_note,
};
use pv::names::CropKind;
use pv::ocr_report::{print_ocr_report, print_ocr_votes_report, progress_eta_line, ImageOcrReport, OcrAction};
use pv::pages::{locate_candidate_list_pages, locate_section_pages, split_pages};
use pv::paths::{
    compare_official_csv_path, correction_crop_path, ensure_output_absent,
    full_crop_path_for_markdown, full_table_output_path_for, narrow_output_path_for,
    ocr_image_needs_work, official_csv_needs_correction_reversal,
};
use pv::selection::{next_image_to_check, select_images_of_new_stations};
use pv::validate::ValidationReport;
use pv::votes::VoteValues;

fn strings(values: &[&str]) -> Vec<String> {
    values.iter().map(|v| v.to_string()).collect()
}

fn row(status: ComparisonStatus, details: &str) -> ComparisonRow {
    ComparisonRow {
        station: "1".to_owned(),
        location: "School A".to_owned(),
        markdown_path: Some("r/Test_1.md".to_owned()),
        correction_path: None,
        official_values: VoteValues::new(),
        status,
        details: details.to_owned(),
        candidates: None,
    }
}

#[test]
fn groups_listed_files_by_station() {
    let paths = strings(&[
        "r/Test_2_B.md",
        "r/Test_1_A.md",
        "r/x.txt",
        "r/Test_1_A_eerste_telling.md",
        "r/nocode.md",
        "r/Test_10_C.md",
    ]);
    let grouped = files_by_station(&paths, "md");
    assert_eq!(
        grouped,
        vec![
            (
                "1".to_owned(),
                strings(&["r/Test_1_A.md", "r/Test_1_A_eerste_telling.md"])
            ),
            ("10".to_owned(), strings(&["r/Test_10_C.md"])),
            ("2".to_owned(), strings(&["r/Test_2_B.md"])),
        ]
    );
    assert!(files_by_station(&paths, "png").is_empty());
}

#[test]
fn picks_station_reports() {
    let paths = strings(&[
        "m/Utrecht_2_X_eerste_telling.pdf",
        "m/Utrecht_1_School_eerste_telling.pdf",
        "m/Utrecht_1_School_GR.pdf",
        "m/notes.txt",
    ]);
    assert_eq!(
        resolve_station_pdf("m", "1", CropKind::Votes, &paths).unwrap(),
        "m/Utrecht_1_School_eerste_telling.pdf"
    );
    assert_eq!(
        resolve_station_pdf("m", "1", CropKind::Corrections, &paths).unwrap(),
        "m/Utrecht_1_School_GR.pdf"
    );
    assert_eq!(
        resolve_station_pdf("m", "3", CropKind::Votes, &paths).unwrap_err().message,
        "could not find 2.2 PDF for station 3 in m"
    );
    let twice = strings(&["m/b_1_eerste_telling.pdf", "m/a_1_eerste_telling.pdf"]);
    assert_eq!(
        resolve_station_pdf("m", "1", CropKind::Votes, &twice).unwrap_err().message,
        "multiple 2.2 PDFs found for station 1 in m: m/a_1_eerste_telling.pdf, m/b_1_eerste_telling.pdf"
    );
    assert_eq!(
        default_pdfs("m", CropKind::Votes, &paths).unwrap(),
        strings(&["m/Utrecht_1_School_eerste_telling.pdf", "m/Utrecht_2_X_eerste_telling.pdf"])
    );
    assert_eq!(
        default_pdfs("m", CropKind::Votes, &strings(&["m/a.txt"])).unwrap_err().message,
        "no default 2.2 PDFs found in m"
    );
}

#[test]
fn picks_images() {
    let images = vec![
        ("a.png".to_owned(), 10, 10),
        ("b.png".to_owned(), 20, 5),
        ("c.png".to_owned(), 11, 10),
        ("d.png".to_owned(), 0, 0),
    ];
    assert_eq!(largest_image(&images), Some("c.png".to_owned()));
    assert_eq!(largest_image(&vec![("z.png".to_owned(), 0, 7)]), None);
    assert!(raster_image_path("x/page.jpeg"));
    assert!(raster_image_path("x/page.pbm"));
    assert!(!raster_image_path("x/page.JPG"));
    assert!(!raster_image_path("x/page"));
}

#[test]
fn resolves_requested_ocr_images() {
    match resolve_ocr_image("in", "0012", false) {
        ImageRequest::Station(s) => assert_eq!(s, "12"),
        ImageRequest::Candidates(_) => panic!("expected a station"),
    }
    match resolve_ocr_image("in", "foo", false) {
        ImageRequest::Candidates(c) => assert_eq!(c, strings(&["in/foo.png", "in/foo"])),
        ImageRequest::Station(_) => panic!("expected paths"),
    }
    match resolve_ocr_image("in", "foo.png", false) {
        ImageRequest::Candidates(c) => assert_eq!(c, strings(&["in/foo.png"])),
        ImageRequest::Station(_) => panic!("expected paths"),
    }
    match resolve_ocr_image("in", "x/foo", true) {
        ImageRequest::Candidates(c) => assert_eq!(c, strings(&["x/foo"])),
        ImageRequest::Station(_) => panic!("expected paths"),
    }
    assert_eq!(
        requested_image_not_found("in", "foo").message,
        "could not find requested narrow crop \"foo\" in in"
    );
    assert_eq!(
        resolve_station_ocr_image("in", "1", &strings(&["in/a.png"])).unwrap(),
        "in/a.png"
    );
    assert_eq!(
        resolve_station_ocr_image("in", "1", &Vec::new()).unwrap_err().message,
        "could not find crop for station 1 in in"
    );
    assert_eq!(
        resolve_station_ocr_image("in", "1", &strings(&["a", "b"])).unwrap_err().message,
        "multiple crops found for station 1 in in: a, b"
    );
}

#[test]
fn locates_tables_in_page_text() {
    assert_eq!(split_pages("a\u{c}b\u{c}"), strings(&["a", "b", ""]));
    let pages = strings(&[
        "intro",
        "2.2 Aantal Uitgebrachte Stemmen\nTotaal lijst",
        "B1 - 2.4 Lijsten met verschil\nLijsttotaal",
    ]);
    assert_eq!(
        locate_section_pages(&pages, &vec![CropKind::Corrections, CropKind::Votes]),
        vec![(CropKind::Votes, 2), (CropKind::Corrections, 3)]
    );
    let announced = strings(&[
        "x",
        "2.1 Toegelaten kiezers\nTel het aantal geldige stempassen",
        "y",
    ]);
    assert_eq!(
        locate_section_pages(&announced, &vec![CropKind::Votes, CropKind::CandidateLists]),
        vec![(CropKind::Votes, 3)]
    );
    assert!(locate_section_pages(&announced, &vec![CropKind::Corrections]).is_empty());
}

#[test]
fn locates_candidate_list_pages() {
    let pages = strings(&["cover", "Lijst 3 Some Party\nkandidaat stemmen kandidaat stemmen"]);
    let found = locate_candidate_list_pages(&pages, "x/Other.pdf").unwrap();
    assert_eq!(found.len(), 1);
    assert_eq!(found[0].page, 2);
    assert_eq!(found[0].list_number, 3);
    assert_eq!(found[0].list_name, "Some Party");
    assert_eq!(found[0].candidate_count, None);
    assert_eq!(found[0].detected_columns, 2);

    let mut utrecht = strings(&["cover", "Lijst 2 D 66"]);
    for _ in 0..6 {
        utrecht.push("page".to_owned());
    }
    let found = locate_candidate_list_pages(&utrecht, "x/Utrecht_1.pdf").unwrap();
    assert_eq!(found.len(), 2);
    assert_eq!(found[0].page, 2);
    assert_eq!(found[0].list_number, 2);
    assert_eq!(found[0].list_name, "D66");
    assert_eq!(found[0].candidate_count, Some(45));
    assert_eq!(found[0].detected_columns, 1);
    assert_eq!(found[1].page, 7);
    assert_eq!(found[1].list_number, 1);
    assert_eq!(found[1].list_name, "GROENLINKS PvdA");
    assert_eq!(found[1].candidate_count, Some(50));
    assert_eq!(found[1].detected_columns, 2);

    assert_eq!(
        locate_candidate_list_pages(&strings(&["cover"]), "x/Other.pdf").unwrap_err().message,
        "could not locate B1-3.5 candidate list pages in x/Other.pdf"
    );
}

#[test]
fn names_crop_and_output_paths() {
    assert_eq!(
        full_crop_path_for_markdown("m", "r/Test_1.md").unwrap(),
        "m/crops/2.2/Test_1.png"
    );
    assert_eq!(
        full_crop_path_for_markdown("m", "").unwrap_err().message,
        "Markdown path has no valid file stem: "
    );
    assert_eq!(
        correction_crop_path("m", "c/Test_1_x.md").unwrap(),
        "m/crops/corrections/Test_1_x.png"
    );
    assert_eq!(
        full_table_output_path_for("d/a.pdf", "out", CropKind::Votes).unwrap(),
        "out/2.2/a.png"
    );
    assert_eq!(
        narrow_output_path_for("d/a.pdf", "out", CropKind::Votes).unwrap(),
        "out/2.2/narrow/a.png"
    );
    assert_eq!(
        compare_official_csv_path("m", true),
        "m/results/official/first-count-tellingsbestand.csv"
    );
    assert_eq!(
        compare_official_csv_path("m", false),
        "m/results/official/gsb-tellingsbestand.csv"
    );
    assert!(official_csv_needs_correction_reversal("x/gsb-tellingsbestand.csv"));
    assert!(!official_csv_needs_correction_reversal("x/first-count-tellingsbestand.csv"));
    assert_eq!(
        ensure_output_absent("p.png", true).unwrap_err().message,
        "output already exists: p.png. Remove existing crops before rerunning."
    );
    assert!(ensure_output_absent("p.png", false).is_ok());
    assert!(ocr_image_needs_work(true, Some(true)));
    assert!(ocr_image_needs_work(false, None));
    assert!(ocr_image_needs_work(false, Some(false)));
    assert!(!ocr_image_needs_work(false, Some(true)));
}

#[test]
fn limits_ocr_to_new_stations() {
    let keys = strings(&["1", "1", "2", "3", "2"]);
    let needs = vec![false, false, true, true, false];
    assert_eq!(select_images_of_new_stations(&keys, &needs, 1), vec![2, 4]);
    assert_eq!(select_images_of_new_stations(&keys, &needs, 0), vec![2, 4, 3]);
    assert_eq!(select_images_of_new_stations(&keys, &needs, 5), vec![2, 4, 3]);
    assert!(select_images_of_new_stations(&keys, &vec![false; 5], 2).is_empty());
}

#[test]
fn looks_at_ocr_outputs_only_as_the_choice_needs() {
    let keys = strings(&["1", "1", "2", "3", "2"]);
    let mut known: Vec<Option<bool>> = vec![None; 5];
    assert_eq!(next_image_to_check(&keys, &known, 1), Some(0));
    known[0] = Some(false);
    assert_eq!(next_image_to_check(&keys, &known, 1), Some(1));
    known[1] = Some(false);
    assert_eq!(next_image_to_check(&keys, &known, 1), Some(2));
    known[2] = Some(true);
    assert_eq!(next_image_to_check(&keys, &known, 1), None);
    let needs: Vec<bool> = known.iter().map(|k| *k == Some(true)).collect();
    assert_eq!(select_images_of_new_stations(&keys, &needs, 1), vec![2, 4]);
    assert_eq!(next_image_to_check(&keys, &known, 2), Some(3));
    known[3] = Some(false);
    assert_eq!(next_image_to_check(&keys, &known, 2), None);
}

#[test]
fn writes_mismatch_reports() {
    let r = row(
        ComparisonStatus::CorrectionInconsistent,
        "correction E.16 first=13, Markdown=23, second=23; E.1: md=1, official=2",
    );
    assert_eq!(
        mismatch_report_markdown(&r, "IMG", "CORR"),
        "# Station 1 - School A\n\n- Status: `correction inconsistent`\n- Markdown: `r/Test_1.md`\n\n## Correction Inconsistency\n\nThe correction table does not line up with the first-count Markdown. Inspect the correction crop before treating this as a plain official-result mismatch.\n\n- correction E.16 first=13, Markdown=23, second=23\n\n## Details\n\n- correction E.16 first=13, Markdown=23, second=23\n- E.1: md=1, official=2\nIMGCORR"
    );
    let mut matching = row(ComparisonStatus::FullyMatches, "");
    matching.location = String::new();
    matching.markdown_path = None;
    matching.correction_path = Some("c.md".to_owned());
    assert_eq!(
        mismatch_report_markdown(&matching, "", "CORR"),
        "# Station 1\n\n- Status: `fully matches`\n- Correction OCR: `c.md`\n\n## Details\n\n"
    );
    let mut odd = row(ComparisonStatus::Mismatch, "");
    odd.station = "1/2".to_owned();
    assert_eq!(mismatch_report_base_name(&odd), "station-1_2");
}

#[test]
fn writes_report_notes() {
    let mut with_correction = row(ComparisonStatus::Mismatch, "");
    with_correction.correction_path = Some("c.md".to_owned());
    assert_eq!(
        correction_note_for_report(
            &with_correction,
            "station-1",
            &Ok("| a |\n\n".to_owned()),
            Some(("crop.png", true))
        ),
        "\n## Corrections\n\n```markdown\n| a |\n```\n\n![Correction table](station-1-corrections.png)\n"
    );
    assert_eq!(
        correction_note_for_report(&with_correction, "station-1", &Err("boom".to_owned()), None),
        "\n## Corrections\n\nCould not read correction OCR `c.md`: boom\n"
    );
    let plain = row(ComparisonStatus::Mismatch, "");
    assert_eq!(
        correction_note_for_report(&plain, "station-1", &Ok(String::new()), Some(("p", false))),
        "\n## Corrections\n\nNo correction OCR Markdown is available for this station.\n\nCorrection table crop not found: `p`\n"
    );
    let mut bare = row(ComparisonStatus::Mismatch, "");
    bare.markdown_path = None;
    assert_eq!(correction_note_for_report(&bare, "s", &Ok(String::new()), None), "");
    assert!(highlighted_image_note("station-1.png").ends_with("![Highlighted table rows](station-1.png)\n"));
    assert_eq!(missing_table_crop_note("x.png"), "\nFull table crop not found: `x.png`\n");
    assert_eq!(no_markdown_note(), "\nNo source Markdown file is available for this row.\n");
}

fn report(stem: &str, path: &str, action: OcrAction, passed: bool, skipped: bool, errors: &[&str]) -> ImageOcrReport {
    ImageOcrReport {
        stem: stem.to_owned(),
        output_path: path.to_owned(),
        action,
        validation: ValidationReport { passed, skipped, errors: strings(errors) },
    }
}

#[test]
fn reports_ocr_runs() {
    let reports = vec![
        report("a|b", "out/a.md", OcrAction::Generated, true, false, &[]),
        report("c", "o", OcrAction::FailedToGenerate("x|y".to_owned()), false, false, &["x|y"]),
        report("d", "o", OcrAction::Existing, false, false, &["e1", "e2"]),
        report("s", "o2", OcrAction::Skipped, true, true, &[]),
    ];
    assert_eq!(
        print_ocr_report("Title", &reports),
        "\nTitle:\n| Status | Action | Item | Details |\n|---|---|---|---|\n| PASS | generated | a\\|b | out/a.md |\n| FAIL | failed | c | x\\|y |\n| FAIL | existing | d | e1; e2 |\n| SKIP | skipped | s | o2 |\n"
    );
    assert!(print_ocr_votes_report(&Vec::new()).starts_with("\nVoting location OCR results:\n"));
}

#[test]
fn prints_progress_with_an_estimate() {
    assert_eq!(
        progress_eta_line(1, 10, 60_000, None),
        Some("progress 1/10; elapsed 1m 00s; ETA remaining 9m 00s".to_owned())
    );
    assert_eq!(progress_eta_line(2, 10, 1000, Some(1000)), None);
    assert_eq!(
        progress_eta_line(2, 10, 1000, Some(1_800_000)),
        Some("progress 2/10; elapsed 1s; ETA remaining 4s".to_owned())
    );
    assert_eq!(progress_eta_line(0, 10, 1000, None), None);
    assert_eq!(progress_eta_line(1, 1, 1000, None), None);
    assert_eq!(
        progress_eta_line(10, 10, 3_600_000, Some(5)),
        Some("progress 10/10; elapsed 1h 00m 00s; ETA remaining 0s".to_owned())
    );
}

#[test]
fn files_correction_documents_by_station() {
    let table = "| ID | First | Second | Difference | Note |\n|---|---:|---:|---:|---|\n| 1 | 247 | 248 | +1 | |\n";
    let files = vec![
        ("c/Test_2_B.md".to_owned(), table.to_owned()),
        ("c/Test_1_A.md".to_owned(), table.to_owned()),
        ("c/Test_1_A_second.md".to_owned(), table.to_owned()),
        ("c/nocode.md".to_owned(), table.to_owned()),
    ];
    let filed = pv::listing::corrections_by_station(&files);
    let keys: Vec<&str> = filed.iter().map(|(k, _)| k.as_str()).collect();
    assert_eq!(keys, vec!["1", "2", "?"]);
    assert_eq!(filed[0].1.path, "c/Test_1_A_second.md");
    assert!(!filed[0].1.validation.passed);
    assert_eq!(
        filed[0].1.validation.errors.last().unwrap(),
        "duplicate correction OCR for station 1: c/Test_1_A_second.md"
    );
    assert_eq!(filed[1].1.path, "c/Test_2_B.md");
    assert!(filed[1].1.validation.passed, "{:?}", filed[1].1.validation.errors);
    assert_eq!(filed[2].1.path, "c/nocode.md");
}
