use pv::args::{
    default_official_csv_sources, official_csv_sources, parse_compare_results_args,
    parse_crop_args, parse_ocr_candidates_args, parse_ocr_votes_args, parse_official_csvs_args,
    require_arg, OfficialCsvOptions, UTRECHT_CSB_CSV_URL, UTRECHT_GSB_CSV_URL,
};
use pv::candidate_lists::{
    candidate_list_column_count, candidate_list_output_stem, candidate_list_rows_in_column,
    detected_candidate_columns, parse_candidate_list_title, utrecht_candidate_list,
    CandidateListPage,
};
use pv::names::{
    default_pdf_matches_kind, is_station_number, normalize_election, normalize_station_number,
    safe_file_part, safe_file_slug, should_skip_ocr_stem, skip_markdown,
    station_code_from_file_name, station_code_from_markdown_path, CropKind, ReportFormat,
};
use pv::tools::{format_duration, ocr_image_station_key, ocr_output_path, parse_http_endpoint};

fn strings(values: &[&str]) -> Vec<String> {
    values.iter().map(|value| value.to_string()).collect()
}

#[test]
fn official_csvs_defaults_to_utrecht_urls() {
    let options = OfficialCsvOptions {
        election: "2026-GR".to_owned(),
        municipality: "0344".to_owned(),
        out_dir: None,
        gsb_url: None,
        csb_url: None,
        force: false,
    };
    let sources = official_csv_sources(&options).unwrap();
    assert_eq!(sources.len(), 2);
    assert_eq!(sources[0].file_name, "gsb-tellingsbestand.csv");
    assert_eq!(sources[0].url, UTRECHT_GSB_CSV_URL);
    assert_eq!(sources[1].file_name, "csb-tellingsbestand.csv");
    assert_eq!(sources[1].url, UTRECHT_CSB_CSV_URL);
}

#[test]
fn official_csvs_requires_manual_urls_without_defaults() {
    let options = OfficialCsvOptions {
        election: "2026-GR".to_owned(),
        municipality: "9999".to_owned(),
        out_dir: None,
        gsb_url: None,
        csb_url: None,
        force: false,
    };
    let error = official_csv_sources(&options).unwrap_err().text();
    assert!(error.contains("pass both --gsb-url and --csb-url"));
}

#[test]
fn parses_ocr_max_new_stations() {
    let args = vec![
        "2026-GR".to_owned(),
        "0344".to_owned(),
        "--max-new-stations".to_owned(),
        "2".to_owned(),
    ];
    let options = parse_ocr_candidates_args(&args).unwrap();
    assert_eq!(options.max_new_stations, Some(2));
}

#[test]
fn manual_urls_override_missing_defaults() {
    let options = OfficialCsvOptions {
        election: "2026-GR".to_owned(),
        municipality: "9999".to_owned(),
        out_dir: None,
        gsb_url: Some("http://a/gsb.csv".to_owned()),
        csb_url: Some("http://a/csb.csv".to_owned()),
        force: false,
    };
    let sources = official_csv_sources(&options).unwrap();
    assert_eq!(sources[0].url, "http://a/gsb.csv");
    assert_eq!(sources[1].url, "http://a/csb.csv");
    assert!(default_official_csv_sources("2026-GR", "9999").is_none());
    assert_eq!(default_official_csv_sources("2026-GR", "0344").unwrap().len(), 2);
}

#[test]
fn parses_ocr_options_and_errors() {
    let options = parse_ocr_votes_args(&strings(&[
        "2026",
        "0344",
        "--station",
        "040",
        "--station",
        "40",
        "--image",
        "a",
        "--max-tokens",
        "100",
        "--timeout-seconds",
        "7",
        "--force",
    ]))
    .unwrap();
    assert_eq!(options.election, "2026-GR");
    assert_eq!(options.stations, vec!["40".to_owned()]);
    assert_eq!(options.images, vec!["a".to_owned()]);
    assert_eq!(options.max_tokens, 100);
    assert_eq!(options.timeout_seconds, 7);
    assert_eq!(options.prompt, "prompts/ocr-votes.md");
    assert!(options.endpoint.is_none());
    assert!(options.force);

    let error = parse_ocr_votes_args(&strings(&["2026", "0344", "--max-stations", "0"])).unwrap_err();
    assert_eq!(error.message, "--max-stations must be greater than zero");
    let error = parse_ocr_votes_args(&strings(&["2026", "0344", "--max-tokens", "0"])).unwrap_err();
    assert_eq!(error.message, "--max-tokens must be greater than zero");
    let error = parse_ocr_votes_args(&strings(&["2026", "0344", "--max-tokens", "x"])).unwrap_err();
    assert_eq!(error.message, "invalid digit found in string");
    let error = parse_ocr_votes_args(&strings(&["2026", "0344", "--max-tokens", ""])).unwrap_err();
    assert_eq!(error.message, "cannot parse integer from empty string");
    let error = parse_ocr_votes_args(&strings(&["2026", "0344", "--max-tokens", "99999999999"])).unwrap_err();
    assert_eq!(error.message, "number too large to fit in target type");
    let error = parse_ocr_votes_args(&strings(&["2026", "0344", "--model"])).unwrap_err();
    assert_eq!(error.message, "--model needs a value");
    let error = parse_ocr_votes_args(&strings(&["2026", "--bogus"])).unwrap_err();
    assert_eq!(error.message, "unknown option \"--bogus\"");
    let error = parse_ocr_votes_args(&strings(&["2026"])).unwrap_err();
    assert!(error.message.starts_with("ocr-votes expects <election> <municipality>\n\nUsage:"));
}

#[test]
fn parses_crop_and_compare_options() {
    let options = parse_crop_args(&strings(&["2026-GR", "0344", "--kind", "b1-2.4", "--page", "3"])).unwrap();
    assert_eq!(options.kind, CropKind::Corrections);
    assert_eq!(options.page_override, Some(3));
    let error = parse_crop_args(&strings(&["2026-GR", "0344", "--kind", "x"])).unwrap_err();
    assert_eq!(
        error.message,
        "unknown crop kind \"x\"; expected votes / 2.2, corrections / b1-2.4, or candidates / b1-3.5"
    );

    let options = parse_compare_results_args(&strings(&["2026-GR", "0344", "--format", "markdown", "--debug"])).unwrap();
    assert_eq!(options.format, ReportFormat::Markdown);
    assert!(options.debug);
    let error = parse_compare_results_args(&strings(&["2026-GR", "0344", "--format", "html"])).unwrap_err();
    assert_eq!(error.message, "unknown report format \"html\"; expected terminal or markdown");

    let options = parse_official_csvs_args(&strings(&["2026", "0344", "--gsb-url", "g"])).unwrap();
    assert_eq!(options.gsb_url.as_deref(), Some("g"));
    assert_eq!(options.election, "2026-GR");
}

#[test]
fn require_arg_names_the_option() {
    let args = strings(&["--pdf"]);
    assert_eq!(require_arg(&args, 0, "--pdf").unwrap(), "--pdf");
    assert_eq!(require_arg(&args, 1, "--pdf").unwrap_err().message, "--pdf needs a value");
}

#[test]
fn parses_candidate_list_title_and_slug() {
    let page_text = "Bijlage 1\n\nLijst 1 GROENLINKS / Partij van de Arbeid (PvdA)\n";

    assert_eq!(
        parse_candidate_list_title(page_text),
        Some((1, "GROENLINKS / Partij van de Arbeid (PvdA)".to_owned()))
    );
    assert_eq!(
        safe_file_slug("GROENLINKS / Partij van de Arbeid (PvdA)"),
        "GROENLINKS_Partij_van_de_Arbeid_PvdA"
    );
}

#[test]
fn computes_candidate_list_column_counts() {
    let one_column = CandidateListPage {
        page: 21,
        list_number: 14,
        list_name: "PVV".to_owned(),
        candidate_count: Some(3),
        detected_columns: 2,
    };
    let two_columns = CandidateListPage {
        page: 7,
        list_number: 1,
        list_name: "GROENLINKS PvdA".to_owned(),
        candidate_count: Some(50),
        detected_columns: 1,
    };

    assert_eq!(candidate_list_column_count(&one_column), 1);
    assert_eq!(candidate_list_column_count(&two_columns), 2);
    assert_eq!(candidate_list_rows_in_column(&two_columns, 1), Some(25));
    assert_eq!(candidate_list_rows_in_column(&two_columns, 2), Some(25));
}

#[test]
fn candidate_list_names_and_columns() {
    let page = CandidateListPage {
        page: 7,
        list_number: 1,
        list_name: "GROENLINKS PvdA".to_owned(),
        candidate_count: None,
        detected_columns: 5,
    };
    assert_eq!(candidate_list_column_count(&page), 2);
    assert_eq!(candidate_list_rows_in_column(&page, 1), None);
    assert_eq!(
        candidate_list_output_stem("dir/Utrecht_100_School_GR26.pdf", &page).unwrap(),
        "Utrecht_100_School_GR26_lijst-01_GROENLINKS_PvdA"
    );
    assert_eq!(utrecht_candidate_list(14).unwrap().name, "PVV");
    assert_eq!(utrecht_candidate_list(20).unwrap().page, 27);
    assert!(utrecht_candidate_list(21).is_none());
    assert_eq!(detected_candidate_columns("Kandidaat Stemmen KANDIDAAT stemmen"), 2);
    assert_eq!(detected_candidate_columns("Kandidaat Stemmen"), 1);
    assert_eq!(parse_candidate_list_title("Lijst 99999999999 X"), None);
    assert_eq!(parse_candidate_list_title("Lijst X\nLijst 3   D66  "), Some((3, "D66".to_owned())));
}

#[test]
fn station_numbers_and_file_names() {
    assert_eq!(normalize_station_number("  007 "), "7");
    assert_eq!(normalize_station_number("000"), "0");
    assert!(is_station_number("40"));
    assert!(!is_station_number("4a"));
    assert!(!is_station_number(""));
    assert_eq!(normalize_election("2026"), "2026-GR");
    assert_eq!(normalize_election("2026-GR"), "2026-GR");
    assert_eq!(station_code_from_file_name("Utrecht_100_School_GR26.pdf").as_deref(), Some("100"));
    assert_eq!(station_code_from_markdown_path("a/Utrecht_41_X.md").as_deref(), Some("41"));
    assert!(default_pdf_matches_kind("Utrecht_1_eerste_telling.pdf", CropKind::Votes));
    assert!(default_pdf_matches_kind("Utrecht_1_School_GR26.pdf", CropKind::Corrections));
    assert!(!default_pdf_matches_kind("Utrecht_1_School_GR26.png", CropKind::Corrections));
    assert!(should_skip_ocr_stem("Utrecht_1_School_GR26"));
    assert!(!should_skip_ocr_stem("Utrecht_1_School_eerste_telling"));
    assert_eq!(safe_file_part("a/b c.md"), "a_b_c.md");
    assert_eq!(skip_markdown("no crop"), "<!-- pv-ocr-votes: skip -->\n\nSkipped: no crop.\n");
    assert_eq!(CropKind::parse("3.5").unwrap(), CropKind::CandidateLists);
    assert_eq!(CropKind::Votes.filename_part(), "2.2");
    assert_eq!(CropKind::CandidateLists.directory_name(), "b1-3.5");
    assert!(CropKind::Corrections.anchor_matches("B1 - 2.4 Lijsten met verschillen ... LIJSTTOTAAL"));
    assert!(!CropKind::Votes.anchor_matches("nothing here"));
    assert_eq!(ReportFormat::parse("terminal").unwrap(), ReportFormat::Terminal);
}

#[test]
fn paths_of_ocr_outputs() {
    assert_eq!(ocr_output_path("out", "crops/Utrecht_7_X.png").unwrap(), "out/Utrecht_7_X.md");
    assert_eq!(ocr_image_station_key("crops/Utrecht_7_X.png").unwrap(), "7");
    assert_eq!(ocr_image_station_key("crops/no_station.png").unwrap(), "no_station");
    assert_eq!(ocr_image_station_key("").unwrap_err().message, "path has no valid file stem: ");
}

#[test]
fn endpoints_and_durations() {
    let endpoint = parse_http_endpoint("http://127.0.0.1:8089/v1/chat/completions").unwrap();
    assert_eq!(endpoint.host, "127.0.0.1");
    assert_eq!(endpoint.host_header, "127.0.0.1:8089");
    assert_eq!(endpoint.port, 8089);
    assert_eq!(endpoint.path, "/v1/chat/completions");
    let endpoint = parse_http_endpoint("http://example").unwrap();
    assert_eq!(endpoint.port, 80);
    assert_eq!(endpoint.host_header, "example");
    assert_eq!(endpoint.path, "/");
    assert_eq!(
        parse_http_endpoint("https://x").unwrap_err().message,
        "only http:// LLM endpoints are supported"
    );
    assert_eq!(parse_http_endpoint("http://:80/x").unwrap_err().message, "invalid LLM endpoint \"http://:80/x\"");
    assert_eq!(parse_http_endpoint("http://h:99999").unwrap_err().message, "number too large to fit in target type");
    assert_eq!(format_duration(3725), "1h 02m 05s");
    assert_eq!(format_duration(65), "1m 05s");
    assert_eq!(format_duration(9), "9s");
}
